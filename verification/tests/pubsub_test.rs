use poker_banting_server::protocol::ServerMsg;
use poker_banting_server::pubsub::{channel_code, channel_room, is_own_echo};
use poker_banting_server::store::PubEnvelope;

fn env(pod: &str) -> PubEnvelope {
    PubEnvelope {
        pod: pod.to_string(),
        msg: ServerMsg::GameStarted,
    }
}

#[test]
fn own_pod_echo_is_dropped() {
    assert!(is_own_echo(&env("pod-a"), "pod-a"));
    assert!(!is_own_echo(&env("pod-b"), "pod-a"));
}

#[test]
fn code_prefix_is_the_channel_convention() {
    // The whole channel-name contract: `room:events:{code}` -> `{code}`.
    assert_eq!(channel_room("room:events:AB12CD"), Some("AB12CD".to_string()));
    assert_eq!(channel_code("room:events:AB12CD"), "AB12CD");
    // A channel that does not match the prefix must degrade to empty, not panic.
    assert_eq!(channel_room("something:else"), None);
    assert_eq!(channel_code("something:else"), "");
}
