use p2p_desktop::identity::NodeId;
use p2p_desktop::network_state::{
    reconnect_delay, should_initiate_quic, BeginPeerAttempt, Delay, NetworkLifecycle,
    PeerLifecycle, PeerRegistry, MAX_RECONNECT_DELAY_MS, PEER_LOOKUP_TIMEOUT_MS,
};

fn node(byte: u8) -> NodeId {
    NodeId::from_hex(&format!("{byte:02x}{}", "00".repeat(15))).unwrap()
}

#[test]
fn duplicate_attempts_are_bounded_and_third_peer_can_progress() {
    let mut peers = PeerRegistry::default();
    let peer_b = node(2);
    let peer_c = node(3);
    let BeginPeerAttempt::Started(generation_b) = peers.begin_attempt(peer_b, 0) else {
        panic!("first peer should start")
    };
    assert_eq!(
        peers.begin_attempt(peer_b, 0),
        BeginPeerAttempt::AlreadyActive(generation_b)
    );
    assert!(peers.transition(peer_b, generation_b, PeerLifecycle::Connected));
    assert_eq!(peers.connected_count(), 1);

    let BeginPeerAttempt::Started(generation_c) = peers.begin_attempt(peer_c, 0) else {
        panic!("third peer attempt should proceed while peer B is connected")
    };
    assert!(peers.is_current(peer_c, generation_c));
    assert_eq!(peers.connected_count(), 1);
}

#[test]
fn stale_generation_cannot_overwrite_a_newer_peer_attempt() {
    let mut peers = PeerRegistry::default();
    let peer = node(4);
    let BeginPeerAttempt::Started(old_generation) = peers.begin_attempt(peer, 0) else {
        panic!("first attempt should start")
    };
    assert!(peers.transition(peer, old_generation, PeerLifecycle::Failed("test".into())));
    let BeginPeerAttempt::Started(new_generation) = peers.begin_attempt(peer, 0) else {
        panic!("failed peer should be retryable")
    };
    assert_ne!(old_generation, new_generation);
    assert!(!peers.transition(peer, old_generation, PeerLifecycle::Disconnected));
    assert_eq!(peers.state(peer), Some(&PeerLifecycle::PeerPending));
}

#[test]
fn lower_node_id_is_the_only_designated_quic_dialer() {
    let lower = node(1);
    let higher = node(2);
    assert!(should_initiate_quic(lower, higher));
    assert!(!should_initiate_quic(higher, lower));
    assert!(!should_initiate_quic(lower, lower));
}

#[test]
fn offline_lookup_expires_and_late_same_generation_cannot_resurrect_it() {
    let mut peers = PeerRegistry::default();
    let peer = node(9);
    let BeginPeerAttempt::Started(generation) = peers.begin_attempt(peer, 100) else {
        panic!()
    };
    assert!(peers.expired_lookups(100).is_empty());
    assert_eq!(
        peers.expired_lookups(100 + PEER_LOOKUP_TIMEOUT_MS),
        vec![(peer, generation)]
    );
    assert!(peers.transition(peer, generation, PeerLifecycle::Failed("offline".into())));
    assert!(!peers.transition(peer, generation, PeerLifecycle::Connected));
    let BeginPeerAttempt::Started(new_generation) = peers.begin_attempt(peer, 200) else {
        panic!()
    };
    assert_ne!(generation, new_generation);
}

#[test]
fn reconnect_backoff_doubles_then_caps_with_jitter() {
    let seconds = (0..5)
        .map(|attempt| reconnect_delay(attempt, 0).as_secs())
        .collect::<Vec<_>>();
    assert_eq!(seconds, vec![1, 2, 4, 8, 16]);
    assert!(reconnect_delay(5, 200).as_secs() <= MAX_RECONNECT_DELAY_MS / 1000);
    assert!(reconnect_delay(0, -200).as_millis() >= 250);
}

#[test]
fn jitter_moves_delays_by_a_fifth_at_most() {
    assert_eq!(reconnect_delay(2, 100).as_millis(), 4400);
    assert_eq!(reconnect_delay(2, -1000).as_millis(), 3200);
    assert_eq!(reconnect_delay(9, 0).as_millis(), 30000);
    assert_eq!(reconnect_delay(9, 200).as_millis(), 30000);
}

#[test]
fn at_most_sixteen_peers_are_known() {
    let mut peers = PeerRegistry::default();
    let mut first = 0;
    for byte in 0..16 {
        let BeginPeerAttempt::Started(generation) = peers.begin_attempt(node(byte), 0) else {
            panic!()
        };
        if byte == 0 {
            first = generation;
        }
        assert!(peers.transition(node(byte), generation, PeerLifecycle::Connected));
    }
    assert!(!matches!(
        peers.begin_attempt(node(99), 0),
        BeginPeerAttempt::Started(_)
    ));
    assert!(peers.transition(node(0), first, PeerLifecycle::Disconnected));
    assert!(matches!(
        peers.begin_attempt(node(99), 0),
        BeginPeerAttempt::Started(_)
    ));
    assert_eq!(peers.state(node(0)), None);
}

#[test]
fn lifecycle_labels_name_peers_and_details() {
    assert_eq!(NetworkLifecycle::Unconfigured.label(), "未配置网络");
    assert_eq!(
        NetworkLifecycle::ReconnectingSignal { attempt: 3, delay: Delay { millis: 4000 } }.label(),
        "信令断开；正在第 3 次重连"
    );
    assert_eq!(
        NetworkLifecycle::Disconnected { peer: None, detail: "x".into() }.label(),
        "网络已断开：x"
    );
    assert_eq!(
        NetworkLifecycle::Connected { peer: node(0xab) }.label(),
        "桌面协议已就绪 ab000000"
    );
}
