use p2p_desktop::cli::{
    parse_chunk_size, parse_speedtest_block_size, parse_speedtest_duration, read_invocation,
    Invocation,
};
use p2p_desktop::error::IoErrorKind;
use p2p_desktop::identity::NodeId;
use p2p_desktop::instance_lock::InstanceLockError;
use p2p_desktop::manifest::{MAX_CHUNK_SIZE, MIN_CHUNK_SIZE};

#[test]
fn illegal_chunk_sizes_are_rejected_while_parsing() {
    for bad in [
        "0",
        "1",
        "16383",
        "16777217",
        "4294967295",
        "abc",
        "-1",
        "99999999999999999999",
    ] {
        assert!(parse_chunk_size(bad).is_err(), "--chunk-size {bad}");
    }
}

#[test]
fn legal_chunk_sizes_can_be_parsed() {
    for good in [MIN_CHUNK_SIZE, 65536, MAX_CHUNK_SIZE] {
        assert_eq!(parse_chunk_size(&good.to_string()), Ok(good));
    }
    assert_eq!(parse_chunk_size("+65536"), Ok(65536));
}

#[test]
fn speedtest_parameters_are_bounded() {
    assert_eq!(parse_speedtest_duration("300"), Ok(300));
    assert_eq!(parse_speedtest_block_size("16777216"), Ok(16777216));
    for seconds in ["301", "599", "600"] {
        assert!(parse_speedtest_duration(seconds).is_ok());
    }
    for bad in ["", "0", "601", "99999999999999999999"] {
        assert!(parse_speedtest_duration(bad).is_err(), "duration {bad}");
    }
    for bad in ["0", "16383", "16777217", "abc", "4294967295"] {
        assert!(parse_speedtest_block_size(bad).is_err(), "block-size {bad}");
    }
    assert_eq!(
        parse_speedtest_duration("601"),
        Err("测速 duration 必须在 1..=600 秒范围内，收到 601".to_string())
    );
}

#[test]
fn malformed_node_ids_are_refused() {
    assert!(NodeId::from_hex("太短了").is_err());
    assert_eq!(
        NodeId::from_hex("00112233445566778899aabbccddeeff").unwrap().to_hex(),
        "00112233445566778899aabbccddeeff"
    );
    assert_eq!(
        NodeId::from_hex("00112233445566778899AABBCCDDEEFF").unwrap().to_hex(),
        "00112233445566778899aabbccddeeff"
    );
}

#[test]
fn the_desktop_program_knows_its_switches() {
    let asked = |arguments: &[&str]| {
        read_invocation(&arguments.iter().map(|text| text.to_string()).collect())
    };
    assert_eq!(asked(&[]), Invocation::OpenWindow);
    assert_eq!(asked(&["--version"]), Invocation::ShowVersion);
    assert_eq!(asked(&["-V"]), Invocation::ShowVersion);
    assert_eq!(asked(&["--build-info"]), Invocation::ShowBuildInfo);
    assert_eq!(asked(&["-h"]), Invocation::ShowHelp);
    assert_eq!(asked(&["--other"]), Invocation::UnknownArgument);
    assert_eq!(asked(&["-h", "-V"]), Invocation::TooManyArguments);
}

#[test]
fn a_taken_lock_means_another_instance() {
    let taken = InstanceLockError::from_lock_failure(IoErrorKind::WouldBlock, "x".into());
    assert_eq!(taken, InstanceLockError::AlreadyRunning);
    assert_eq!(taken.message(), "此数据目录已由另一个 P2P File 桌面实例使用");
    let other = InstanceLockError::from_lock_failure(IoErrorKind::PermissionDenied, "no".into());
    assert!(matches!(other, InstanceLockError::Io(_)));
}
