use crate::bus::{AgentDevice, BUS_CAPACITY};
use crate::envelope::AgentMessage;
use crate::queue::queue_push;
use crate::text::{pop_char, push_char};
use pc_keyboard::layouts::Us104Key;
use pc_keyboard::{DecodedKey, HandleControl, KeyCode, KeyEvent, Keyboard, ScancodeSet1};
use vstd::prelude::*;

verus! {

#[verifier::external_type_specification]
#[verifier::external_body]
pub struct ExKeyEvent(KeyEvent);

/// pc_keyboard's decoder for a US 104-key layout and scancode set 1. Its
/// state (modifiers, multi-byte sequences) is opaque here.
#[verifier::external_body]
pub struct KeyDecoder {
    kb: Keyboard<Us104Key, ScancodeSet1>,
}

/// Scancode of the arrow-up key, which scrolls the screen up.
pub const SCROLL_UP_CODE: u8 = 0x48;

/// Scancode of the arrow-down key, which scrolls the screen down.
pub const SCROLL_DOWN_CODE: u8 = 0x50;

/// Scancode of the delete key, which erases like backspace.
pub const DELETE_CODE: u8 = 0x53;

/// A decoded key, as far as the shell tells keys apart.
#[derive(PartialEq, Eq, Structural, Clone, Copy, Debug)]
pub enum Key {
    Char(char),
    ArrowUp,
    ArrowDown,
    Delete,
    /// Any other raw key.
    Other,
}

/// Relies on `Keyboard::new`: a US 104-key decoder for scancode set 1 that
/// passes control combinations through as ordinary keys.
#[verifier::external_body]
fn new_key_decoder() -> KeyDecoder {
    KeyDecoder { kb: Keyboard::new(ScancodeSet1::new(), Us104Key, HandleControl::Ignore) }
}

/// Relies on `Keyboard::add_byte`: the key event a scancode completes, if
/// any; a byte the decoder rejects completes none.
#[verifier::external_body]
fn decode_scancode(d: &mut KeyDecoder, b: u8) -> Option<KeyEvent> {
    match d.kb.add_byte(b) {
        Ok(ev) => ev,
        Err(_) => None,
    }
}

/// Relies on `Keyboard::process_keyevent`: the key an event produces under
/// the current modifiers, if any.
#[verifier::external_body]
fn decode_key_event(d: &mut KeyDecoder, ev: KeyEvent) -> Option<Key> {
    match d.kb.process_keyevent(ev) {
        Some(DecodedKey::Unicode(c)) => Some(Key::Char(c)),
        Some(DecodedKey::RawKey(KeyCode::ArrowUp)) => Some(Key::ArrowUp),
        Some(DecodedKey::RawKey(KeyCode::ArrowDown)) => Some(Key::ArrowDown),
        Some(DecodedKey::RawKey(KeyCode::Delete)) => Some(Key::Delete),
        Some(DecodedKey::RawKey(_)) => Some(Key::Other),
        None => None,
    }
}

/// What the shell asks its display to do after one input.
#[derive(PartialEq, Eq, Structural, Clone, Copy, Debug)]
pub enum ShellAction {
    Nothing,
    ScrollUp,
    ScrollDown,
    /// Erase the last character shown.
    Erase,
    /// Show the typed character.
    Echo { c: char },
    /// An empty line was entered: show a new prompt.
    EmptyLine,
    /// A line was sent; `queued` tells whether it found room.
    Sent { queued: bool },
}

/// Whether `x` is the task message with number `id` for line `line`.
pub open spec fn is_task_message(x: AgentMessage, id: u64, line: Seq<char>) -> bool {
    &&& x.id == id
    &&& x.target@ == "host"@
    &&& x.msg_type@ == "task"@
    &&& x.content@ == line
}

/// Whether the shell went from line `line`, counter `id` and outbound queue
/// `out` to `line2`, `id2` and `out2` as its action `r` says: only a sent
/// line uses up a number and offers a message.
pub open spec fn shell_effect(
    line: Seq<char>,
    id: u64,
    out: Seq<AgentMessage>,
    line2: Seq<char>,
    id2: u64,
    out2: Seq<AgentMessage>,
    r: ShellAction,
) -> bool {
    match r {
        ShellAction::Sent { queued } => {
            &&& line.len() > 0
            &&& line2 == Seq::<char>::empty()
            &&& id2 == id.wrapping_add(1)
            &&& queued == (out.len() < BUS_CAPACITY)
            &&& queued ==> out2.len() > 0 && out2 == out.push(out2.last()) && is_task_message(out2.last(), id, line)
            &&& !queued ==> out2 == out
        },
        _ => {
            &&& id2 == id
            &&& out2 == out
            &&& match r {
                ShellAction::Erase => line.len() > 0 && line2 == line.drop_last(),
                ShellAction::Echo { c } => line2 == line.push(c),
                ShellAction::EmptyLine => line.len() == 0 && line2 == line,
                _ => line2 == line,
            }
        },
    }
}

/// Whether `c` erases the last character.
pub open spec fn is_erase_char(c: char) -> bool {
    c == '\x08' || c == '\x7f'
}

/// The shell's line editing state.
pub struct Shell {
    keyboard: KeyDecoder,
    line: String,
    next_id: u64,
}

impl Shell {
    /// The line typed so far.
    pub closed spec fn line(&self) -> Seq<char> {
        self.line@
    }

    /// The number the next sent line gets.
    pub closed spec fn next_id(&self) -> u64 {
        self.next_id
    }

    pub fn new() -> (s: Shell)
        ensures
            s.line() == Seq::<char>::empty(),
            s.next_id() == 0,
    {
        Shell { keyboard: new_key_decoder(), line: String::new(), next_id: 0 }
    }

    /// The line typed so far.
    pub fn current_line(&self) -> (r: &str)
        ensures
            r@ == self.line(),
    {
        self.line.as_str()
    }

    fn erase(&mut self) -> (r: ShellAction)
        ensures
            final(self).next_id() == old(self).next_id(),
            r == (if old(self).line().len() == 0 { ShellAction::Nothing } else { ShellAction::Erase }),
            old(self).line().len() == 0 ==> final(self).line() == old(self).line(),
            old(self).line().len() > 0 ==> final(self).line() == old(self).line().drop_last(),
    {
        match pop_char(&mut self.line) {
            Some(_) => ShellAction::Erase,
            None => ShellAction::Nothing,
        }
    }

    /// Acts on one decoded key. A newline sends a non-empty line to the
    /// host as a task message numbered from the shell's counter and clears
    /// it; erase keys remove the last character; other characters are
    /// appended; the arrow keys scroll.
    pub fn handle_key(&mut self, dev: &mut AgentDevice, key: Key) -> (r: ShellAction)
        requires
            old(dev).wf(),
        ensures
            final(dev).wf(),
            final(dev).inbound_items() == old(dev).inbound_items(),
            shell_effect(
                old(self).line(), old(self).next_id(), old(dev).outbound_items(),
                final(self).line(), final(self).next_id(), final(dev).outbound_items(), r,
            ),
            match key {
                Key::Char(c) => if c == '\n' {
                    if old(self).line().len() == 0 {
                        r == ShellAction::EmptyLine
                    } else {
                        r == (ShellAction::Sent { queued: old(dev).outbound_items().len() < BUS_CAPACITY })
                    }
                } else if is_erase_char(c) {
                    r == (if old(self).line().len() == 0 { ShellAction::Nothing } else { ShellAction::Erase })
                } else {
                    r == (ShellAction::Echo { c })
                },
                Key::ArrowUp => r == ShellAction::ScrollUp,
                Key::ArrowDown => r == ShellAction::ScrollDown,
                Key::Delete => r == (if old(self).line().len() == 0 { ShellAction::Nothing } else { ShellAction::Erase }),
                Key::Other => r == ShellAction::Nothing,
            },
    {
        match key {
            Key::Char(c) => {
                if c == '\n' {
                    if self.line.as_str().is_empty() {
                        ShellAction::EmptyLine
                    } else {
                        let msg = AgentMessage {
                            id: self.next_id,
                            target: String::from_str("host"),
                            msg_type: String::from_str("task"),
                            content: self.line.clone(),
                        };
                        self.next_id = self.next_id.wrapping_add(1);
                        let queued = dev.push_outbound(msg);
                        self.line = String::new();
                        ShellAction::Sent { queued }
                    }
                } else if c == '\x08' || c == '\x7f' {
                    self.erase()
                } else {
                    push_char(&mut self.line, c);
                    ShellAction::Echo { c }
                }
            },
            Key::ArrowUp => ShellAction::ScrollUp,
            Key::ArrowDown => ShellAction::ScrollDown,
            Key::Delete => self.erase(),
            Key::Other => ShellAction::Nothing,
        }
    }

    /// Acts on one raw scancode: the scroll and delete codes are handled
    /// before key decoding; any other code goes through the key decoder,
    /// and the key it completes, if any, through `handle_key`.
    pub fn handle_scancode(&mut self, dev: &mut AgentDevice, code: u8) -> (r: ShellAction)
        requires
            old(dev).wf(),
        ensures
            final(dev).wf(),
            final(dev).inbound_items() == old(dev).inbound_items(),
            shell_effect(
                old(self).line(), old(self).next_id(), old(dev).outbound_items(),
                final(self).line(), final(self).next_id(), final(dev).outbound_items(), r,
            ),
            code == SCROLL_UP_CODE ==> r == ShellAction::ScrollUp,
            code == SCROLL_DOWN_CODE ==> r == ShellAction::ScrollDown,
            code == DELETE_CODE ==> r == (if old(self).line().len() == 0 { ShellAction::Nothing } else { ShellAction::Erase }),
    {
        if code == SCROLL_UP_CODE {
            return ShellAction::ScrollUp;
        }
        if code == SCROLL_DOWN_CODE {
            return ShellAction::ScrollDown;
        }
        if code == DELETE_CODE {
            return self.erase();
        }
        match decode_scancode(&mut self.keyboard, code) {
            Some(ev) => match decode_key_event(&mut self.keyboard, ev) {
                Some(key) => self.handle_key(dev, key),
                None => ShellAction::Nothing,
            },
            None => ShellAction::Nothing,
        }
    }
}

} // verus!
