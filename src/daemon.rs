use crate::bus::{AgentDevice, BUS_CAPACITY};
use crate::codec::{encode_frame, frame, DELIMITER};
use crate::envelope::AgentMessage;
use crate::fs::MemFS;
use crate::queue::queue_push;
use crate::text::push_char;
use crate::tool::{execute, parse_command, tool_reply, ToolCommand};
use vstd::prelude::*;
use vstd::utf8::encode_utf8;

verus! {

/// The bytes that carry each of `ms` in turn.
pub open spec fn frames(ms: Seq<AgentMessage>) -> Seq<u8>
    decreases ms.len(),
{
    if ms.len() == 0 {
        Seq::empty()
    } else {
        frame(ms[0]) + frames(ms.drop_first())
    }
}

/// The character a received byte stands for in the line accumulator.
pub open spec fn byte_char(b: u8) -> char {
    b as char
}

/// The accumulator after one more received byte, and the line it completes,
/// if any. A delimiter clears the accumulator; an empty line completes
/// nothing.
pub open spec fn accumulate(buf: Seq<char>, b: u8) -> (Seq<char>, Option<Seq<char>>) {
    if b == DELIMITER {
        if buf.len() == 0 {
            (buf, None)
        } else {
            (Seq::empty(), Some(buf))
        }
    } else {
        (buf.push(byte_char(b)), None)
    }
}

/// The accumulator after `bs`, and the lines completed on the way.
pub open spec fn accumulate_all(buf: Seq<char>, bs: Seq<u8>) -> (Seq<char>, Seq<Seq<char>>)
    decreases bs.len(),
{
    if bs.len() == 0 {
        (buf, Seq::empty())
    } else {
        let (next, line) = accumulate(buf, bs[0]);
        let (last, lines) = accumulate_all(next, bs.drop_first());
        match line {
            Some(l) => (last, seq![l] + lines),
            None => (last, lines),
        }
    }
}

/// One of the structured display payload kinds.
#[derive(PartialEq, Eq, Structural, Clone, Copy, Debug)]
pub enum GuiKind {
    Plot,
    PipelineDiagram,
    MlDashboard,
    Chess,
}

/// The display kind a message type names, if any.
pub open spec fn gui_kind_of(t: Seq<char>) -> Option<GuiKind> {
    if t == "gui_plot"@ {
        Some(GuiKind::Plot)
    } else if t == "gui_pipeline_diagram"@ {
        Some(GuiKind::PipelineDiagram)
    } else if t == "gui_ml_dashboard"@ {
        Some(GuiKind::MlDashboard)
    } else if t == "gui_chess"@ {
        Some(GuiKind::Chess)
    } else {
        None
    }
}

/// What became of one decoded message.
#[derive(PartialEq, Eq, Structural, Clone, Copy, Debug)]
pub enum Dispatch {
    /// A tool call was run; `queued` tells whether its reply found room.
    ToolReplied { queued: bool },
    /// A display payload, to be parsed and drawn by its kind.
    Render { kind: GuiKind },
    /// Anything else was offered to the shell; `queued` tells whether it
    /// found room.
    Delivered { queued: bool },
}

/// Whether `x` is the reply to tool call `id` with result `content`.
pub open spec fn is_tool_reply(x: AgentMessage, id: u64, content: Seq<char>) -> bool {
    &&& x.id == id
    &&& x.target@ == "host"@
    &&& x.msg_type@ == "tool_result"@
    &&& x.content@ == content
}

/// The daemon's own state: the line being received and the frame being
/// sent.
pub struct AgentDaemon {
    rx_buffer: String,
    tx: Vec<u8>,
    tx_pos: usize,
}

impl AgentDaemon {
    /// The received characters since the last delimiter.
    pub closed spec fn received(&self) -> Seq<char> {
        self.rx_buffer@
    }

    /// The bytes of the current frame not yet accepted by the transmitter.
    pub closed spec fn pending(&self) -> Seq<u8> {
        self.tx@.subrange(self.tx_pos as int, self.tx@.len() as int)
    }

    pub closed spec fn wf(&self) -> bool {
        self.tx_pos <= self.tx@.len()
    }

    /// Every byte still owed to the host, in the order it is to be sent:
    /// the rest of the current frame, then the frames of the queued
    /// messages.
    pub open spec fn outstanding(&self, dev: &AgentDevice) -> Seq<u8> {
        self.pending() + frames(dev.outbound_items())
    }

    /// The outbound path as the transmit law sees it.
    pub open spec fn link(&self, dev: &AgentDevice) -> LinkState {
        LinkState { pending: self.pending(), queue: dev.outbound_items() }
    }

    pub fn new() -> (d: AgentDaemon)
        ensures
            d.wf(),
            d.received() == Seq::<char>::empty(),
            d.pending() == Seq::<u8>::empty(),
    {
        let d = AgentDaemon { rx_buffer: String::new(), tx: Vec::new(), tx_pos: 0 };
        assert(d.pending() =~= Seq::<u8>::empty());
        d
    }

    /// The characters received since the last delimiter.
    pub fn buffered(&self) -> (r: &str)
        ensures
            r@ == self.received(),
    {
        self.rx_buffer.as_str()
    }

    /// The next byte to offer to the transmitter, taking the next outbound
    /// message when the current frame is done. Nothing owed is dropped or
    /// reordered: the byte is the first one outstanding.
    pub fn next_tx_byte(&mut self, dev: &mut AgentDevice) -> (r: Option<u8>)
        requires
            old(self).wf(),
            old(dev).wf(),
        ensures
            final(self).wf(),
            final(dev).wf(),
            final(self).received() == old(self).received(),
            final(dev).inbound_items() == old(dev).inbound_items(),
            final(self).link(&*final(dev)) == link_load(old(self).link(&*old(dev))),
            final(self).outstanding(&*final(dev)) == old(self).outstanding(&*old(dev)),
            old(self).outstanding(&*old(dev)).len() == 0 ==> r is None,
            old(self).outstanding(&*old(dev)).len() > 0 ==> r == Some(old(self).outstanding(&*old(dev))[0])
                && final(self).pending().len() > 0,
    {
        if self.tx_pos < self.tx.len() {
            return Some(self.tx[self.tx_pos]);
        }
        assert(self.pending() =~= Seq::<u8>::empty());
        match dev.pop_outbound() {
            Some(m) => {
                self.tx = encode_frame(&m);
                self.tx_pos = 0;
                assert(self.pending() =~= frame(m));
                assert(frame(m) =~= encode_utf8(crate::codec::envelope_text(m)).push(DELIMITER));
                assert(frame(m).len() > 0);
                Some(self.tx[0])
            },
            None => None,
        }
    }

    /// Records that the transmitter accepted the byte `next_tx_byte` gave.
    pub fn tx_accepted(&mut self)
        requires
            old(self).wf(),
            old(self).pending().len() > 0,
        ensures
            final(self).wf(),
            final(self).received() == old(self).received(),
            final(self).pending() == old(self).pending().drop_first(),
    {
        let n = self.tx.len();
        assert(self.tx_pos < n);
        self.tx_pos = self.tx_pos + 1;
        assert(self.pending() =~= old(self).pending().drop_first());
    }

    /// Takes in one received byte; returns the line that a delimiter
    /// completes.
    pub fn receive_byte(&mut self, b: u8) -> (r: Option<String>)
        requires
            old(self).wf(),
        ensures
            final(self).wf(),
            final(self).pending() == old(self).pending(),
            final(self).received() == accumulate(old(self).received(), b).0,
            r is Some == accumulate(old(self).received(), b).1 is Some,
            r matches Some(l) ==> Some(l@) == accumulate(old(self).received(), b).1,
    {
        if b == DELIMITER {
            if self.rx_buffer.as_str().is_empty() {
                None
            } else {
                let line = self.rx_buffer.clone();
                self.rx_buffer = String::new();
                Some(line)
            }
        } else {
            push_char(&mut self.rx_buffer, b as char);
            None
        }
    }

    /// Acts on one decoded message: runs a tool call and queues its reply,
    /// names the display kind of a display payload, and offers anything
    /// else to the shell.
    pub fn dispatch(&mut self, dev: &mut AgentDevice, fs: &mut MemFS, msg: AgentMessage) -> (r: Dispatch)
        requires
            old(dev).wf(),
            old(fs).wf(),
        ensures
            final(dev).wf(),
            final(fs).wf(),
            *final(self) == *old(self),
            msg.msg_type@ == "tool_call"@ ==> {
                let reply = tool_reply(old(fs).files(), old(fs).names(), msg.content@);
                &&& r == (Dispatch::ToolReplied { queued: old(dev).outbound_items().len() < BUS_CAPACITY })
                &&& final(dev).inbound_items() == old(dev).inbound_items()
                &&& old(dev).outbound_items().len() < BUS_CAPACITY ==> final(dev).outbound_items().len() > 0
                    && final(dev).outbound_items() == old(dev).outbound_items().push(final(dev).outbound_items().last())
                    && is_tool_reply(final(dev).outbound_items().last(), msg.id, reply)
                &&& old(dev).outbound_items().len() >= BUS_CAPACITY ==> final(dev).outbound_items() == old(dev).outbound_items()
                &&& match parse_command(msg.content@) {
                    ToolCommand::Write { name, data } => final(fs).files() == old(fs).files().insert(name, encode_utf8(data)),
                    _ => *final(fs) == *old(fs),
                }
            },
            msg.msg_type@ != "tool_call"@ ==> *final(fs) == *old(fs),
            msg.msg_type@ != "tool_call"@ && gui_kind_of(msg.msg_type@) is Some ==>
                r == (Dispatch::Render { kind: gui_kind_of(msg.msg_type@)->Some_0 }) && *final(dev) == *old(dev),
            msg.msg_type@ != "tool_call"@ && gui_kind_of(msg.msg_type@) is None ==> {
                &&& r == (Dispatch::Delivered { queued: old(dev).inbound_items().len() < BUS_CAPACITY })
                &&& final(dev).inbound_items() == queue_push(old(dev).inbound_items(), BUS_CAPACITY as nat, msg)
                &&& final(dev).outbound_items() == old(dev).outbound_items()
            },
    {
        let t = &msg.msg_type;
        if *t == String::from_str("tool_call") {
            let result = execute(fs, msg.content.as_str());
            let reply = AgentMessage {
                id: msg.id,
                target: String::from_str("host"),
                msg_type: String::from_str("tool_result"),
                content: result,
            };
            let queued = dev.push_outbound(reply);
            Dispatch::ToolReplied { queued }
        } else if *t == String::from_str("gui_plot") {
            Dispatch::Render { kind: GuiKind::Plot }
        } else if *t == String::from_str("gui_pipeline_diagram") {
            Dispatch::Render { kind: GuiKind::PipelineDiagram }
        } else if *t == String::from_str("gui_ml_dashboard") {
            Dispatch::Render { kind: GuiKind::MlDashboard }
        } else if *t == String::from_str("gui_chess") {
            Dispatch::Render { kind: GuiKind::Chess }
        } else {
            let queued = dev.push_inbound(msg);
            Dispatch::Delivered { queued }
        }
    }
}

/// One event on the outbound path: the shell offers a message to the
/// outbound queue, or the daemon offers its next byte to the transmitter,
/// which accepts it or stalls.
pub enum LinkEvent {
    Offer { m: AgentMessage },
    Attempt { accepted: bool },
}

/// The outbound path as the daemon's contracts describe it: the rest of the
/// current frame and the queued messages.
pub struct LinkState {
    pub pending: Seq<u8>,
    pub queue: Seq<AgentMessage>,
}

/// Every byte still owed to the host in state `s`.
pub open spec fn link_outstanding(s: LinkState) -> Seq<u8> {
    s.pending + frames(s.queue)
}

/// Taking the next queued message when the current frame is done.
pub open spec fn link_load(s: LinkState) -> LinkState {
    if s.pending.len() == 0 && s.queue.len() > 0 {
        LinkState { pending: frame(s.queue[0]), queue: s.queue.drop_first() }
    } else {
        s
    }
}

/// The state after one event and the bytes the transmitter took in it.
/// An attempt first takes the next queued message when the current frame is
/// done (`next_tx_byte`), then, when accepted, retires the first pending
/// byte (`tx_accepted`); a stalled attempt retires nothing.
pub open spec fn link_step(s: LinkState, e: LinkEvent) -> (LinkState, Seq<u8>) {
    match e {
        LinkEvent::Offer { m } => (LinkState { pending: s.pending, queue: queue_push(s.queue, BUS_CAPACITY as nat, m) }, Seq::empty()),
        LinkEvent::Attempt { accepted } => {
            let t = link_load(s);
            if accepted && t.pending.len() > 0 {
                (LinkState { pending: t.pending.drop_first(), queue: t.queue }, seq![t.pending[0]])
            } else {
                (t, Seq::empty())
            }
        },
    }
}

/// The state after a run of events and every byte the transmitter took.
pub open spec fn link_run(s: LinkState, es: Seq<LinkEvent>) -> (LinkState, Seq<u8>)
    decreases es.len(),
{
    if es.len() == 0 {
        (s, Seq::empty())
    } else {
        let (t, sent) = link_step(s, es[0]);
        let (u, rest) = link_run(t, es.drop_first());
        (u, sent + rest)
    }
}

/// The messages among `es` that found room in the outbound queue.
pub open spec fn accepted_offers(s: LinkState, es: Seq<LinkEvent>) -> Seq<AgentMessage>
    decreases es.len(),
{
    if es.len() == 0 {
        Seq::empty()
    } else {
        let t = link_step(s, es[0]).0;
        let here = match es[0] {
            LinkEvent::Offer { m } => if s.queue.len() < BUS_CAPACITY { seq![m] } else { Seq::empty() },
            LinkEvent::Attempt { .. } => Seq::empty(),
        };
        here + accepted_offers(t, es.drop_first())
    }
}

proof fn lemma_frames_push(ms: Seq<AgentMessage>, m: AgentMessage)
    ensures
        frames(ms.push(m)) == frames(ms) + frame(m),
    decreases ms.len(),
{
    if ms.len() == 0 {
        assert(ms.push(m).drop_first() =~= Seq::<AgentMessage>::empty());
        reveal_with_fuel(frames, 2);
        assert(frames(ms.push(m)) =~= frame(m));
    } else {
        assert(ms.push(m).drop_first() =~= ms.drop_first().push(m));
        lemma_frames_push(ms.drop_first(), m);
        assert(frames(ms.push(m)) =~= frames(ms) + frame(m));
    }
}

proof fn lemma_link_step(s: LinkState, e: LinkEvent)
    ensures
        ({
            let (t, sent) = link_step(s, e);
            let here = match e {
                LinkEvent::Offer { m } => if s.queue.len() < BUS_CAPACITY { seq![m] } else { Seq::empty() },
                LinkEvent::Attempt { .. } => Seq::empty(),
            };
            sent + link_outstanding(t) == link_outstanding(s) + frames(here)
        }),
{
    match e {
        LinkEvent::Offer { m } => {
            if s.queue.len() < BUS_CAPACITY {
                lemma_frames_push(s.queue, m);
                assert(frames(seq![m]) =~= frame(m)) by {
                    assert(seq![m].drop_first() =~= Seq::<AgentMessage>::empty());
                    reveal_with_fuel(frames, 2);
                }
                assert(link_outstanding(link_step(s, e).0) =~= link_outstanding(s) + frame(m));
            } else {
                assert(link_outstanding(link_step(s, e).0) =~= link_outstanding(s) + Seq::<u8>::empty());
            }
        },
        LinkEvent::Attempt { accepted } => {
            let t = link_load(s);
            assert(link_outstanding(t) =~= link_outstanding(s));
            if accepted && t.pending.len() > 0 {
                assert(seq![t.pending[0]] + (t.pending.drop_first() + frames(t.queue)) =~= link_outstanding(t));
            }
            assert(link_outstanding(s) + frames(Seq::<AgentMessage>::empty()) =~= link_outstanding(s));
            assert(Seq::<u8>::empty() + link_outstanding(t) =~= link_outstanding(t));
        },
    }
}

/// Whatever the interleaving of offers and transmit attempts, stalls
/// included, the bytes the transmitter takes, followed by what is still
/// owed, are exactly what was owed at the start followed by the frames of
/// the accepted messages in the order they were offered: no byte is
/// dropped, duplicated or reordered.
pub proof fn lemma_transmit_in_order(s: LinkState, es: Seq<LinkEvent>)
    ensures
        link_run(s, es).1 + link_outstanding(link_run(s, es).0) == link_outstanding(s) + frames(accepted_offers(s, es)),
    decreases es.len(),
{
    if es.len() == 0 {
        assert(link_outstanding(s) + frames(Seq::<AgentMessage>::empty()) =~= link_outstanding(s));
        assert(Seq::<u8>::empty() + link_outstanding(s) =~= link_outstanding(s));
    } else {
        let (t, sent) = link_step(s, es[0]);
        let here = match es[0] {
            LinkEvent::Offer { m } => if s.queue.len() < BUS_CAPACITY { seq![m] } else { Seq::empty() },
            LinkEvent::Attempt { .. } => Seq::empty(),
        };
        lemma_link_step(s, es[0]);
        lemma_transmit_in_order(t, es.drop_first());
        lemma_frames_concat(here, accepted_offers(t, es.drop_first()));
        let (u, rest) = link_run(t, es.drop_first());
        assert(link_run(s, es).1 == sent + rest);
        assert(sent + rest + link_outstanding(u) =~= sent + (rest + link_outstanding(u)));
        assert(link_outstanding(s) + frames(here + accepted_offers(t, es.drop_first()))
            =~= link_outstanding(s) + frames(here) + frames(accepted_offers(t, es.drop_first())));
    }
}

proof fn lemma_frames_concat(a: Seq<AgentMessage>, b: Seq<AgentMessage>)
    ensures
        frames(a + b) == frames(a) + frames(b),
    decreases a.len(),
{
    if a.len() == 0 {
        assert(a + b =~= b);
        assert(frames(a) + frames(b) =~= frames(b));
    } else {
        assert((a + b).drop_first() =~= a.drop_first() + b);
        lemma_frames_concat(a.drop_first(), b);
        assert(frames(a + b) =~= frames(a) + frames(b));
    }
}

/// A byte stream without a delimiter completes no line, and the
/// accumulator keeps every byte of it, in order.
pub proof fn lemma_no_delimiter_no_line(buf: Seq<char>, bs: Seq<u8>)
    requires
        !bs.contains(DELIMITER),
    ensures
        accumulate_all(buf, bs).1 == Seq::<Seq<char>>::empty(),
        accumulate_all(buf, bs).0 == buf + bs.map_values(|b: u8| byte_char(b)),
    decreases bs.len(),
{
    if bs.len() > 0 {
        assert(bs[0] != DELIMITER) by {
            assert(bs.contains(bs[0]) || bs[0] != DELIMITER);
        }
        assert(!bs.drop_first().contains(DELIMITER)) by {
            if bs.drop_first().contains(DELIMITER) {
                let k = choose|k: int| 0 <= k < bs.drop_first().len() && bs.drop_first()[k] == DELIMITER;
                assert(bs[k + 1] == DELIMITER);
            }
        }
        lemma_no_delimiter_no_line(buf.push(byte_char(bs[0])), bs.drop_first());
        assert(buf.push(byte_char(bs[0])) + bs.drop_first().map_values(|b: u8| byte_char(b))
            =~= buf + bs.map_values(|b: u8| byte_char(b)));
    } else {
        assert(buf + bs.map_values(|b: u8| byte_char(b)) =~= buf);
    }
}

/// A delimiter empties the accumulator: the lines completed after it are
/// those a fresh accumulator would complete, whatever came before it.
pub proof fn lemma_lines_independent(buf: Seq<char>, a: Seq<u8>, c: Seq<u8>)
    ensures
        accumulate_all(buf, a.push(DELIMITER) + c).1
            == accumulate_all(buf, a.push(DELIMITER)).1 + accumulate_all(Seq::empty(), c).1,
        accumulate_all(buf, a.push(DELIMITER)).0 == Seq::<char>::empty(),
    decreases a.len(),
{
    if a.len() == 0 {
        let s = a.push(DELIMITER);
        assert(s + c =~= seq![DELIMITER] + c);
        assert((s + c).drop_first() =~= c);
        assert(s.drop_first() =~= Seq::<u8>::empty());
        assert(s[0] == DELIMITER);
        assert((s + c)[0] == DELIMITER);
        reveal_with_fuel(accumulate_all, 2);
        if buf.len() > 0 {
            assert(accumulate_all(buf, s).1 =~= seq![buf]);
        } else {
            assert(buf =~= Seq::<char>::empty());
            assert(accumulate_all(buf, s).1 =~= Seq::<Seq<char>>::empty());
            assert(accumulate_all(buf, s + c).1 =~= accumulate_all(Seq::empty(), c).1);
        }
    } else {
        let next = accumulate(buf, a[0]).0;
        assert((a.push(DELIMITER) + c).drop_first() =~= a.drop_first().push(DELIMITER) + c);
        assert(a.push(DELIMITER).drop_first() =~= a.drop_first().push(DELIMITER));
        lemma_lines_independent(next, a.drop_first(), c);
        match accumulate(buf, a[0]).1 {
            Some(l) => {
                assert(seq![l] + (accumulate_all(next, a.drop_first().push(DELIMITER)).1 + accumulate_all(Seq::empty(), c).1)
                    =~= seq![l] + accumulate_all(next, a.drop_first().push(DELIMITER)).1 + accumulate_all(Seq::empty(), c).1);
            },
            None => {},
        }
    }
}

} // verus!
