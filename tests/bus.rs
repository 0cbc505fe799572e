use agentos::bus::{init, BUS_CAPACITY};
use agentos::envelope::AgentMessage;

fn msg(id: u64, content: &str) -> AgentMessage {
    AgentMessage {
        id,
        target: String::from("host"),
        msg_type: String::from("task"),
        content: String::from(content),
    }
}

#[test]
fn twenty_pushes_pop_in_order() {
    let mut dev = init();
    for i in 0..20u64 {
        assert!(dev.push_outbound(msg(i, &format!("m{}", i))));
    }
    for i in 0..20u64 {
        let m = dev.pop_outbound().expect("message");
        assert_eq!(m.id, i);
        assert_eq!(m.content, format!("m{}", i));
    }
    assert!(dev.pop_outbound().is_none());
}

#[test]
fn twenty_first_push_fails_and_keeps_order() {
    let mut dev = init();
    for i in 0..20u64 {
        assert!(dev.push_inbound(msg(i, "x")));
    }
    assert!(!dev.push_inbound(msg(99, "overflow")));
    for i in 0..20u64 {
        assert_eq!(dev.pop_inbound().expect("message").id, i);
    }
    assert!(dev.pop_inbound().is_none());
}

#[test]
fn bus_capacity_is_twenty() {
    assert_eq!(BUS_CAPACITY, 20);
}

#[test]
fn queues_are_independent() {
    let mut dev = init();
    assert!(dev.push_outbound(msg(1, "out")));
    assert!(dev.pop_inbound().is_none());
    assert!(dev.push_inbound(msg(2, "in")));
    assert_eq!(dev.pop_outbound().expect("out").id, 1);
    assert_eq!(dev.pop_inbound().expect("in").id, 2);
}

#[test]
fn pop_on_empty_returns_nothing() {
    let mut dev = init();
    assert!(dev.pop_outbound().is_none());
    assert!(dev.pop_inbound().is_none());
}
