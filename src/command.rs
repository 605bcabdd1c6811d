//! Host-to-controller commands and their exact bytes on the wire.

use vstd::prelude::*;
use vstd::utf8::encode_utf8;

verus! {

/// A realtime command: a single byte of a reserved set, written unterminated and
/// never acknowledged by the controller.
#[derive(Clone, Copy, Debug, PartialEq, Eq, Structural)]
pub enum Realtime {
    Reset,
    Stop,
    JogCancel,
    StatusQuery,
    Report,
    CycleStart,
    FeedHold,
    ParserStateReport,
    FullReport,
}

/// The byte that stands for a realtime command on the wire.
pub open spec fn realtime_byte(r: Realtime) -> u8 {
    match r {
        Realtime::Reset => 0x18,
        Realtime::Stop => 0x19,
        Realtime::JogCancel => 0x85,
        Realtime::StatusQuery => 0x3f,
        Realtime::Report => 0x80,
        Realtime::CycleStart => 0x81,
        Realtime::FeedHold => 0x82,
        Realtime::ParserStateReport => 0x83,
        Realtime::FullReport => 0x87,
    }
}

/// The byte belongs to the reserved realtime set.
pub open spec fn is_realtime_byte(b: u8) -> bool {
    b == 0x18 || b == 0x19 || b == 0x85 || b == 0x3f || b == 0x80 || b == 0x81 || b == 0x82
        || b == 0x83 || b == 0x87
}

impl Realtime {
    /// The byte written for this command.
    pub fn byte(self) -> (b: u8)
        ensures
            b == realtime_byte(self),
    {
        match self {
            Realtime::Reset => 0x18,
            Realtime::Stop => 0x19,
            Realtime::JogCancel => 0x85,
            Realtime::StatusQuery => 0x3f,
            Realtime::Report => 0x80,
            Realtime::CycleStart => 0x81,
            Realtime::FeedHold => 0x82,
            Realtime::ParserStateReport => 0x83,
            Realtime::FullReport => 0x87,
        }
    }

    /// The realtime command written as `b`, if `b` is one.
    pub fn from_byte(b: u8) -> (r: Option<Realtime>)
        ensures
            r is None <==> !is_realtime_byte(b),
            r matches Some(x) ==> realtime_byte(x) == b,
    {
        if b == 0x18 {
            Some(Realtime::Reset)
        } else if b == 0x19 {
            Some(Realtime::Stop)
        } else if b == 0x85 {
            Some(Realtime::JogCancel)
        } else if b == 0x3f {
            Some(Realtime::StatusQuery)
        } else if b == 0x80 {
            Some(Realtime::Report)
        } else if b == 0x81 {
            Some(Realtime::CycleStart)
        } else if b == 0x82 {
            Some(Realtime::FeedHold)
        } else if b == 0x83 {
            Some(Realtime::ParserStateReport)
        } else if b == 0x87 {
            Some(Realtime::FullReport)
        } else {
            None
        }
    }
}

/// A host-to-controller instruction.
#[derive(Clone, Debug)]
pub enum Command {
    /// A single realtime byte.
    Realtime(Realtime),
    /// An opaque text line, sent terminated by a line feed and acknowledged by
    /// exactly one response.
    Block(String),
}

/// The line-feed byte that terminates a block on the wire.
pub const LINE_FEED: u8 = 10;

/// The bytes that a line of text occupies on the wire, without terminator.
pub open spec fn line_bytes(line: Seq<char>) -> Seq<u8> {
    encode_utf8(line)
}

/// The bytes written for one command.
pub open spec fn render(c: Command) -> Seq<u8> {
    match c {
        Command::Realtime(r) => seq![realtime_byte(r)],
        Command::Block(line) => line_bytes(line@).push(LINE_FEED),
    }
}

/// The bytes written for a sequence of commands, in order.
pub open spec fn wire(cs: Seq<Command>) -> Seq<u8>
    decreases cs.len(),
{
    if cs.len() == 0 {
        seq![]
    } else {
        wire(cs.drop_last()) + render(cs.last())
    }
}

impl Command {
    /// The exact bytes to write to the transport for this command.
    pub fn wire_bytes(&self) -> (r: Vec<u8>)
        ensures
            r@ == render(*self),
    {
        match self {
            Command::Realtime(rt) => {
                let mut v: Vec<u8> = Vec::new();
                v.push(rt.byte());
                assert(v@ =~= seq![realtime_byte(*rt)]);
                v
            },
            Command::Block(line) => {
                let mut v = vstd::slice::slice_to_vec(line.as_str().as_bytes());
                v.push(LINE_FEED);
                v
            },
        }
    }
}

impl From<String> for Command {
    fn from(line: String) -> (c: Command)
        ensures
            c == Command::Block(line),
    {
        Command::Block(line)
    }
}

impl vstd::std_specs::convert::FromSpecImpl<String> for Command {
    open spec fn obeys_from_spec() -> bool {
        true
    }

    open spec fn from_spec(line: String) -> Command {
        Command::Block(line)
    }
}

proof fn lemma_wire_concat(a: Seq<Command>, b: Seq<Command>)
    ensures
        wire(a + b) == wire(a) + wire(b),
    decreases b.len(),
{
    if b.len() == 0 {
        assert(a + b =~= a);
        assert(wire(b) =~= seq![]);
        assert(wire(a) + wire(b) =~= wire(a));
    } else {
        lemma_wire_concat(a, b.drop_last());
        assert((a + b).drop_last() =~= a + b.drop_last());
        assert((a + b).last() == b.last());
        assert(wire(a + b) == wire(a + b.drop_last()) + render(b.last()));
        assert(wire(a) + wire(b) =~= wire(a) + wire(b.drop_last()) + render(b.last()));
    }
}

/// The wire of the first `k` commands is a prefix of the wire of all of them.
pub proof fn lemma_wire_prefix(cs: Seq<Command>, k: int)
    requires
        0 <= k <= cs.len(),
    ensures
        wire(cs) == wire(cs.take(k)) + wire(cs.skip(k)),
{
    lemma_wire_concat(cs.take(k), cs.skip(k));
    assert(cs.take(k) + cs.skip(k) =~= cs);
}

/// A realtime command is written as its byte alone, which is never a line feed:
/// on the wire the byte that follows it is the first byte of the next command's
/// own rendering, so no terminator is ever added after a realtime byte.
pub proof fn lemma_realtime_unterminated(cs: Seq<Command>, i: int)
    requires
        0 <= i < cs.len(),
        cs[i] is Realtime,
    ensures
        render(cs[i]).len() == 1,
        render(cs[i])[0] != LINE_FEED,
        wire(cs)[wire(cs.take(i)).len() as int] == render(cs[i])[0],
        i + 1 < cs.len() ==> render(cs[i + 1]).len() > 0 && wire(cs)[wire(cs.take(i)).len() + 1int]
            == render(cs[i + 1])[0],
{
    let pre = wire(cs.take(i));
    assert(cs.take(i + 1).drop_last() =~= cs.take(i));
    assert(wire(cs.take(i + 1)) == pre + render(cs[i]));
    lemma_wire_prefix(cs, i + 1);
    assert(wire(cs)[pre.len() as int] == (pre + render(cs[i]))[pre.len() as int]);
    if i + 1 < cs.len() {
        assert(cs.take(i + 2).drop_last() =~= cs.take(i + 1));
        assert(wire(cs.take(i + 2)) == wire(cs.take(i + 1)) + render(cs[i + 1]));
        lemma_wire_prefix(cs, i + 2);
        match cs[i + 1] {
            Command::Realtime(r) => {},
            Command::Block(l) => {},
        }
        assert(wire(cs)[pre.len() + 1int] == wire(cs.take(i + 2))[pre.len() + 1int]);
    }
}

} // verus!
