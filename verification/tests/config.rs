use p2p_desktop::config::{
    check_config_file, check_private_dir, config_temp_name, may_replace, parse_signal_port,
    temp_step, validate_receive_directory, validate_send_concurrency, validate_signal_host,
    validate_speedtest_seconds, AppPaths, ConfigError, ConfigFileState, DesktopConfig,
    DirectoryState, HostForm, SettingsDraft, SpeedtestDirection, TempCreated, TempStep,
};
use p2p_desktop::task_model::LocalPath;

fn valid_draft(receive_directory: LocalPath) -> SettingsDraft {
    SettingsDraft {
        signal_host: "relay.example.test".into(),
        signal_port: "7000".into(),
        receive_directory: Some(receive_directory),
        send_concurrency: 1,
        speedtest_seconds: 30,
        speedtest_direction: SpeedtestDirection::Upload,
    }
}

#[test]
fn accepts_ipv4_ipv6_and_dns_hostnames() {
    for (host, form) in [
        ("192.0.2.1", HostForm::Ipv4),
        ("2001:db8::1", HostForm::Ipv6),
        ("relay.example.test", HostForm::Other),
        ("localhost", HostForm::Other),
    ] {
        assert!(validate_signal_host(host, form).is_ok(), "{host}");
    }
}

#[test]
fn rejects_urls_paths_whitespace_and_malformed_hosts() {
    for host in [
        "",
        " relay.example",
        "relay.example ",
        "relay name",
        "https://relay.test",
        "relay.test/path",
        "999.1.1.1",
        "-bad.test",
        "bad..test",
    ] {
        assert!(validate_signal_host(host, HostForm::Other).is_err(), "{host:?}");
    }
}

#[test]
fn validates_port_concurrency_and_speedtest_range() {
    assert_eq!(parse_signal_port("1").unwrap(), 1);
    assert_eq!(parse_signal_port("65535").unwrap(), 65535);
    for port in ["", "0", "65536", " 7000", "7000 ", "7x"] {
        assert!(parse_signal_port(port).is_err(), "{port:?}");
    }
    for value in 1..=3 {
        assert!(validate_send_concurrency(value).is_ok());
    }
    assert!(validate_send_concurrency(0).is_err());
    assert!(validate_send_concurrency(4).is_err());
    for value in [30, 60, 120, 600] {
        assert!(validate_speedtest_seconds(value).is_ok());
    }
    for value in [0, 31, 90, 660] {
        assert!(validate_speedtest_seconds(value).is_err());
    }
}

#[test]
fn rejects_non_utf8_receive_paths_before_serialization() {
    let path = LocalPath::from_parts(
        "/tmp/p2p-\u{fffd}".into(),
        false,
        true,
        vec!["/".into(), "tmp".into(), "p2p-\u{fffd}".into()],
    );
    let draft = valid_draft(path);
    assert!(matches!(
        draft.to_config(HostForm::Other),
        Err(ConfigError::UnsupportedPathEncoding)
    ));
}

#[test]
fn drafts_survive_as_settings() {
    let draft = valid_draft(LocalPath::new("/srv/Downloads"));
    let config = draft.to_config(HostForm::Other).unwrap();
    assert_eq!(config.host(), "relay.example.test");
    assert_eq!(config.port(), 7000);
    assert_eq!(config.receive_directory().text(), "/srv/Downloads");
    assert!(config.validate(HostForm::Other).is_ok());
    let shown = SettingsDraft::from_config(config);
    assert_eq!(shown.signal_port, "7000");
    let again = shown.to_config(HostForm::Other).unwrap();
    assert_eq!(again.port(), 7000);
    assert_eq!(again.send_concurrency(), 1);
    assert_eq!(again.speedtest_seconds(), 30);
    assert_eq!(again.speedtest_direction(), SpeedtestDirection::Upload);
}

#[test]
fn drafts_report_the_first_problem() {
    let empty = SettingsDraft::defaults(None);
    assert_eq!(
        empty.to_config(HostForm::Other).unwrap_err().message(),
        "设置无效：信令主机不能为空，且不能包含空白、URL 或路径"
    );
    let mut draft = valid_draft(LocalPath::new("relative"));
    assert_eq!(
        draft.to_config(HostForm::Other).unwrap_err().message(),
        "设置无效：接收目录必须是绝对路径"
    );
    draft.receive_directory = None;
    assert_eq!(
        draft.to_config(HostForm::Other).unwrap_err().message(),
        "设置无效：请先选择接收目录"
    );
    draft.speedtest_seconds = 45;
    assert!(draft.to_config(HostForm::Other).unwrap_err().message().contains("测速"));
}

#[test]
fn stored_settings_of_another_layout_are_corrupt() {
    let config = DesktopConfig::from_parts(
        2,
        "relay.example.test".into(),
        7000,
        LocalPath::new("/srv/Downloads"),
        1,
        30,
        SpeedtestDirection::Download,
    );
    assert!(config.validate(HostForm::Other).is_err());
    assert!(matches!(
        config.accept(HostForm::Other),
        Err(ConfigError::Corrupt(_))
    ));
}

#[test]
fn app_directories_stand_below_the_platform_roots() {
    let paths = AppPaths::discover(
        Some("/home/u/.config".into()),
        Some("/home/u/.local/share".into()),
        Some(LocalPath::new("/home/u/Downloads")),
        true,
    )
    .unwrap();
    assert_eq!(paths.config_file().base, "/home/u/.config");
    assert_eq!(paths.identity_file().base, "/home/u/.local/share");
    assert_eq!(paths.instance_lock_file().base, "/home/u/.local/share");
    assert!(paths.config_file().below.len() >= 2);
    assert!(AppPaths::discover(None, Some("/d".into()), None, false).is_err());
    assert!(AppPaths::discover(Some("/c".into()), None, None, false).is_err());
}

#[test]
fn temporary_names_are_tried_until_one_is_free() {
    assert_ne!(config_temp_name(1), config_temp_name(2));
    assert_eq!(config_temp_name(7), ".p2p-file-settings-7.tmp");
    assert_eq!(temp_step(1, TempCreated::Created), TempStep::Write);
    assert_eq!(temp_step(1, TempCreated::Exists), TempStep::TryAgain);
    assert!(matches!(temp_step(32, TempCreated::Exists), TempStep::GiveUp(_)));
}

#[test]
fn directories_are_judged_by_what_stands_there() {
    assert!(check_private_dir(false, true).is_ok());
    assert!(check_private_dir(true, true).is_err());
    assert!(check_private_dir(false, false).is_err());
    assert_eq!(
        validate_receive_directory("/srv", &DirectoryState::NotADirectory)
            .unwrap_err()
            .message(),
        "接收目录不可用：/srv 不是目录"
    );
    assert_eq!(
        validate_receive_directory("/srv", &DirectoryState::ReadOnly)
            .unwrap_err()
            .message(),
        "接收目录没有写权限：/srv"
    );
    assert!(validate_receive_directory("/srv", &DirectoryState::Writable).is_ok());
}

#[test]
fn settings_that_did_not_load_are_never_replaced() {
    assert_eq!(check_config_file(ConfigFileState::Absent).unwrap(), false);
    assert_eq!(check_config_file(ConfigFileState::File).unwrap(), true);
    let error = check_config_file(ConfigFileState::Link).unwrap_err();
    assert_eq!(
        error.message(),
        "配置文件损坏且原文件已保留：拒绝读取链接形式的配置文件"
    );
    assert!(may_replace(Ok(None)).is_ok());
    assert!(matches!(may_replace(Err(error)), Err(ConfigError::Corrupt(_))));
}
