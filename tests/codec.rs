use agentos::codec::{encode, encode_frame, DELIMITER};
use agentos::daemon::AgentDaemon;
use agentos::envelope::AgentMessage;

fn msg(id: u64, target: &str, msg_type: &str, content: &str) -> AgentMessage {
    AgentMessage {
        id,
        target: String::from(target),
        msg_type: String::from(msg_type),
        content: String::from(content),
    }
}

/// Decodes one line the way the kernel's host side does, with serde_json.
fn decode(line: &str) -> Option<AgentMessage> {
    let v: serde_json::Value = serde_json::from_str(line).ok()?;
    Some(AgentMessage {
        id: v.get("id")?.as_u64()?,
        target: String::from(v.get("target")?.as_str()?),
        msg_type: String::from(v.get("msg_type")?.as_str()?),
        content: String::from(v.get("content")?.as_str()?),
    })
}

fn feed(d: &mut AgentDaemon, bytes: &[u8]) -> Vec<String> {
    let mut lines = Vec::new();
    for &b in bytes {
        if let Some(l) = d.receive_byte(b) {
            lines.push(l);
        }
    }
    lines
}

#[test]
fn encode_canonical_field_order() {
    let m = msg(1, "host", "task", "hi");
    assert_eq!(encode(&m), "{\"id\":1,\"target\":\"host\",\"msg_type\":\"task\",\"content\":\"hi\"}");
}

#[test]
fn encode_escapes_newline_and_quotes() {
    let m = msg(0, "host", "log", "a\nb\"c\\");
    let text = encode(&m);
    assert_eq!(text, "{\"id\":0,\"target\":\"host\",\"msg_type\":\"log\",\"content\":\"a\\nb\\\"c\\\\\"}");
    assert!(!text.contains('\n'));
}

#[test]
fn encode_largest_id() {
    let m = msg(u64::MAX, "", "", "");
    assert_eq!(encode(&m), "{\"id\":18446744073709551615,\"target\":\"\",\"msg_type\":\"\",\"content\":\"\"}");
}

#[test]
fn frame_is_text_then_delimiter() {
    let m = msg(42, "shell", "response", "ok");
    let f = encode_frame(&m);
    let mut expected = encode(&m).into_bytes();
    expected.push(b'\n');
    assert_eq!(f, expected);
    assert_eq!(DELIMITER, b'\n');
}

#[test]
fn frame_round_trips_through_accumulator() {
    let m = msg(7, "host", "task", "caf\u{e9}");
    let mut d = AgentDaemon::new();
    let lines = feed(&mut d, &encode_frame(&m));
    assert_eq!(lines.len(), 1);
    assert_eq!(lines[0], encode(&msg(7, "host", "task", "caf\u{c3}\u{a9}")));
}

#[test]
fn one_line_yields_one_envelope() {
    let mut d = AgentDaemon::new();
    let lines = feed(&mut d, b"{\"id\":1,\"target\":\"host\",\"msg_type\":\"task\",\"content\":\"hi\"}\n");
    assert_eq!(lines.len(), 1);
    let m = decode(&lines[0]).expect("decodes");
    assert_eq!(m.id, 1);
    assert_eq!(m.target, "host");
    assert_eq!(m.msg_type, "task");
    assert_eq!(m.content, "hi");
    assert_eq!(d.buffered(), "");
}

#[test]
fn no_delimiter_no_envelope() {
    let mut d = AgentDaemon::new();
    let bytes = b"{\"id\":1,\"target\":\"host\"";
    let lines = feed(&mut d, bytes);
    assert!(lines.is_empty());
    assert_eq!(d.buffered().as_bytes(), &bytes[..]);
}

#[test]
fn malformed_line_does_not_poison_next() {
    let mut d = AgentDaemon::new();
    let lines = feed(
        &mut d,
        b"bad\n{\"id\":2,\"target\":\"host\",\"msg_type\":\"task\",\"content\":\"x\"}\n",
    );
    assert_eq!(lines.len(), 2);
    assert!(decode(&lines[0]).is_none());
    let m = decode(&lines[1]).expect("second line decodes");
    assert_eq!(m.id, 2);
    assert_eq!(m.content, "x");
    assert_eq!(d.buffered(), "");
}

#[test]
fn empty_lines_are_skipped() {
    let mut d = AgentDaemon::new();
    let lines = feed(&mut d, b"\n\nab\n\n");
    assert_eq!(lines, vec![String::from("ab")]);
}
