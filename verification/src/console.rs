//! USB maintenance only. Browser commands cannot reach this parser.
use vstd::prelude::*;

verus! {

pub const LINE_LIMIT: usize = 128;

#[derive(Debug, Clone, Copy, PartialEq, Eq, Structural)]
pub enum Maintenance {
    Ping,
    RestartDevice,
}

impl Maintenance {
    /// The answer to a command; there is none to a restart.
    pub fn reply(self) -> (reply: Option<&'static str>)
        ensures
            self is Ping <==> reply is Some,
            reply matches Some(text) ==> text@
                == "PROBE {\"event\":\"command_result\",\"cmd\":\"ping\",\"result\":0,\"firmware\":\"rust\"}"@,
    {
        match self {
            Maintenance::Ping => Some(
                "PROBE {\"event\":\"command_result\",\"cmd\":\"ping\",\"result\":0,\"firmware\":\"rust\"}",
            ),
            Maintenance::RestartDevice => None,
        }
    }
}

/// What a byte from the console asks for.
#[derive(Debug)]
pub enum Input {
    /// No byte has come: wait.
    Idle,
    /// The line goes on.
    More,
    /// A line has ended; it is there unless it was too long.
    Line(Option<Vec<u8>>),
}

/// A line that is being read.
#[derive(Debug)]
pub struct Line {
    bytes: Vec<u8>,
    overflow: bool,
}

/// The bytes of a line so far, `None` once there were too many.
pub open spec fn grown(line: Option<Seq<u8>>, byte: u8) -> Option<Seq<u8>> {
    match line {
        None => None,
        Some(bytes) => if bytes.len() < LINE_LIMIT {
            Some(bytes.push(byte))
        } else {
            None
        },
    }
}

impl View for Line {
    type V = Option<Seq<u8>>;

    closed spec fn view(&self) -> Option<Seq<u8>> {
        if self.overflow {
            None
        } else {
            Some(self.bytes@)
        }
    }
}

/// The low eight bits of what the console gave.
pub open spec fn low_byte(value: i32) -> u8 {
    (value % 0x100) as u8
}

impl Line {
    pub fn new() -> (line: Self)
        ensures
            line@ == Some(Seq::<u8>::empty()),
    {
        Line { bytes: Vec::new(), overflow: false }
    }

    /// Takes what the console gave: -1 for nothing, 10 for the end of a line, or a byte.
    pub fn take(&mut self, value: i32) -> (input: Input)
        ensures
            if value == -1 {
                input is Idle && final(self)@ == old(self)@
            } else if value == 10 {
                &&& final(self)@ == Some(Seq::<u8>::empty())
                &&& input matches Input::Line(line) && match line {
                    Some(bytes) => old(self)@ == Some(bytes@),
                    None => old(self)@ is None,
                }
            } else {
                input is More && final(self)@ == grown(old(self)@, low_byte(value))
            },
    {
        if value == -1 {
            Input::Idle
        } else if value == 10 {
            let mut bytes: Vec<u8> = Vec::new();
            std::mem::swap(&mut bytes, &mut self.bytes);
            let line = if self.overflow {
                None
            } else {
                Some(bytes)
            };
            self.overflow = false;
            assert(self@ == Some(Seq::<u8>::empty()));
            Input::Line(line)
        } else {
            if self.bytes.len() < LINE_LIMIT {
                let byte: u8 = #[verifier::truncate] (value as u8);
                assert(byte == low_byte(value)) by (bit_vector)
                    requires
                        byte == value as u8,
                ;
                self.bytes.push(byte);
            } else {
                self.overflow = true;
            }
            Input::More
        }
    }
}

/// A line once more bytes have come.
pub open spec fn fed(line: Option<Seq<u8>>, bytes: Seq<u8>) -> Option<Seq<u8>>
    decreases bytes.len(),
{
    if bytes.len() == 0 {
        line
    } else {
        grown(fed(line, bytes.drop_last()), bytes.last())
    }
}

/// A line of up to 128 bytes comes through whole; a longer one does not come through at all.
pub proof fn lemma_lines_are_whole_or_dropped(bytes: Seq<u8>)
    ensures
        fed(Some(Seq::empty()), bytes) == if bytes.len() <= LINE_LIMIT {
            Some(bytes)
        } else {
            None
        },
    decreases bytes.len(),
{
    if bytes.len() == 0 {
        assert(bytes =~= Seq::empty());
    } else {
        lemma_lines_are_whole_or_dropped(bytes.drop_last());
        assert(bytes.drop_last().push(bytes.last()) =~= bytes);
    }
}

/// A byte from the console comes through as it is, and a line has room for 128 of them.
pub proof fn lemma_bytes_come_through(byte: u8)
    ensures
        low_byte(byte as i32) == byte,
        LINE_LIMIT == 128,
{
}

/// A line that was too long is forgotten with its end: what has come before the end of a line
/// has no say in the next one.
pub proof fn lemma_lines_do_not_mix(line: Option<Seq<u8>>, bytes: Seq<u8>, byte: u8)
    ensures
        grown(None, byte) is None,
        line is None ==> fed(line, bytes) is None,
        line matches Some(so_far) ==> fed(line, seq![byte]) == if so_far.len() < 128 {
            Some(so_far.push(byte))
        } else {
            None
        },
    decreases bytes.len(),
{
    if bytes.len() > 0 {
        lemma_lines_do_not_mix(line, bytes.drop_last(), byte);
    }
    reveal_with_fuel(fed, 2);
    assert(seq![byte].drop_last() =~= Seq::empty());
}

} // verus!
