use agentos::bus::init;
use agentos::shell::{Key, Shell, ShellAction, DELETE_CODE, SCROLL_DOWN_CODE, SCROLL_UP_CODE};

#[test]
fn typed_line_is_sent_as_task() {
    let mut dev = init();
    let mut sh = Shell::new();
    assert_eq!(sh.handle_key(&mut dev, Key::Char('h')), ShellAction::Echo { c: 'h' });
    assert_eq!(sh.handle_key(&mut dev, Key::Char('i')), ShellAction::Echo { c: 'i' });
    assert_eq!(sh.current_line(), "hi");
    assert_eq!(sh.handle_key(&mut dev, Key::Char('\n')), ShellAction::Sent { queued: true });
    assert_eq!(sh.current_line(), "");
    let m = dev.pop_outbound().expect("sent");
    assert_eq!(m.id, 0);
    assert_eq!(m.target, "host");
    assert_eq!(m.msg_type, "task");
    assert_eq!(m.content, "hi");
    sh.handle_key(&mut dev, Key::Char('x'));
    sh.handle_key(&mut dev, Key::Char('\n'));
    assert_eq!(dev.pop_outbound().expect("sent").id, 1);
}

#[test]
fn empty_line_sends_nothing() {
    let mut dev = init();
    let mut sh = Shell::new();
    assert_eq!(sh.handle_key(&mut dev, Key::Char('\n')), ShellAction::EmptyLine);
    assert!(dev.pop_outbound().is_none());
}

#[test]
fn erase_keys() {
    let mut dev = init();
    let mut sh = Shell::new();
    assert_eq!(sh.handle_key(&mut dev, Key::Char('\x08')), ShellAction::Nothing);
    sh.handle_key(&mut dev, Key::Char('a'));
    sh.handle_key(&mut dev, Key::Char('b'));
    sh.handle_key(&mut dev, Key::Char('c'));
    assert_eq!(sh.handle_key(&mut dev, Key::Char('\x7f')), ShellAction::Erase);
    assert_eq!(sh.handle_key(&mut dev, Key::Delete), ShellAction::Erase);
    assert_eq!(sh.current_line(), "a");
    assert_eq!(sh.handle_scancode(&mut dev, DELETE_CODE), ShellAction::Erase);
    assert_eq!(sh.current_line(), "");
    assert_eq!(sh.handle_scancode(&mut dev, DELETE_CODE), ShellAction::Nothing);
}

#[test]
fn scroll_keys() {
    let mut dev = init();
    let mut sh = Shell::new();
    assert_eq!(sh.handle_scancode(&mut dev, SCROLL_UP_CODE), ShellAction::ScrollUp);
    assert_eq!(sh.handle_scancode(&mut dev, SCROLL_DOWN_CODE), ShellAction::ScrollDown);
    assert_eq!(sh.handle_key(&mut dev, Key::ArrowUp), ShellAction::ScrollUp);
    assert_eq!(sh.handle_key(&mut dev, Key::ArrowDown), ShellAction::ScrollDown);
    assert_eq!(sh.handle_key(&mut dev, Key::Other), ShellAction::Nothing);
}

#[test]
fn scancodes_decode_to_line() {
    let mut dev = init();
    let mut sh = Shell::new();
    // 'a' press and release, 'b' press and release, Enter press.
    assert_eq!(sh.handle_scancode(&mut dev, 0x1e), ShellAction::Echo { c: 'a' });
    assert_eq!(sh.handle_scancode(&mut dev, 0x9e), ShellAction::Nothing);
    assert_eq!(sh.handle_scancode(&mut dev, 0x30), ShellAction::Echo { c: 'b' });
    assert_eq!(sh.handle_scancode(&mut dev, 0xb0), ShellAction::Nothing);
    assert_eq!(sh.handle_scancode(&mut dev, 0x1c), ShellAction::Sent { queued: true });
    assert_eq!(dev.pop_outbound().expect("sent").content, "ab");
}

#[test]
fn full_outbound_reports_failure() {
    let mut dev = init();
    let mut sh = Shell::new();
    for _ in 0..20 {
        sh.handle_key(&mut dev, Key::Char('z'));
        assert_eq!(sh.handle_key(&mut dev, Key::Char('\n')), ShellAction::Sent { queued: true });
    }
    sh.handle_key(&mut dev, Key::Char('q'));
    assert_eq!(sh.handle_key(&mut dev, Key::Char('\n')), ShellAction::Sent { queued: false });
    assert_eq!(sh.current_line(), "");
    sh.handle_key(&mut dev, Key::Char('r'));
    dev.pop_outbound();
    sh.handle_key(&mut dev, Key::Char('\n'));
    let mut last = None;
    while let Some(m) = dev.pop_outbound() {
        last = Some(m);
    }
    // The dropped line still used up its number.
    assert_eq!(last.expect("last").id, 21);
}
