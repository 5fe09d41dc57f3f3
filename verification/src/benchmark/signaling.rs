//! Responses and recovery of the archived radio. Its peer allocates streams in creation order.
use crate::error::{Cause, Error};
use crate::signaling;
use crate::text;
use vstd::prelude::*;

pub use crate::signaling::{needs_recovery, retryable, Identity, Started};

verus! {

/// The data channels that were allocated, in the order of the response.
#[derive(Debug)]
pub struct Channels {
    channels: Vec<Channel>,
}

#[derive(Debug)]
struct Channel {
    data_channel_name: String,
    id: u16,
}

impl View for Channels {
    type V = Seq<(Seq<char>, u16)>;

    closed spec fn view(&self) -> Seq<(Seq<char>, u16)> {
        self.channels@.map_values(|channel: Channel| (channel.data_channel_name@, channel.id))
    }
}

/// How many of the channels are a given one.
pub open spec fn count_of(channels: Seq<(Seq<char>, u16)>, wanted: (Seq<char>, u16)) -> nat
    decreases channels.len(),
{
    if channels.len() == 0 {
        0
    } else {
        count_of(channels.drop_last(), wanted) + if channels.last() == wanted {
            1nat
        } else {
            0nat
        }
    }
}

/// Exactly the two channels of the application were allocated, each on its stream.
pub open spec fn expected(channels: Seq<(Seq<char>, u16)>, robot: u16, spectrum: u16) -> bool {
    &&& channels.len() == 2
    &&& count_of(channels, ("robot"@, robot)) == 1
    &&& count_of(channels, ("spectrum"@, spectrum)) == 1
}

impl Channels {
    pub fn new() -> (channels: Self)
        ensures
            channels@ == Seq::<(Seq<char>, u16)>::empty(),
    {
        let channels = Channels { channels: Vec::new() };
        assert(channels@ =~= Seq::empty());
        channels
    }

    /// Adds a channel behind the others.
    pub fn push(&mut self, data_channel_name: String, id: u16)
        ensures
            final(self)@ == old(self)@.push((data_channel_name@, id)),
    {
        self.channels.push(Channel { data_channel_name, id });
        assert(self@ =~= old(self)@.push((data_channel_name@, id)));
    }

    fn count(&self, name: &str, id: u16) -> (count: usize)
        ensures
            count == count_of(self@, (name@, id)),
    {
        let mut count: usize = 0;
        let mut i: usize = 0;
        while i < self.channels.len()
            invariant
                i <= self.channels@.len(),
                self@.len() == self.channels@.len(),
                count <= i,
                count == count_of(self@.take(i as int), (name@, id)),
            decreases self.channels@.len() - i,
        {
            assert(self@.take(i + 1).drop_last() =~= self@.take(i as int));
            assert(self@.take(i + 1).last() == self@[i as int]);
            if self.channels[i].id == id && text::same(
                self.channels[i].data_channel_name.as_str(),
                name,
            ) {
                count = count + 1;
            }
            i = i + 1;
        }
        assert(self@.take(i as int) =~= self@);
        count
    }

    /// The native peer allocates streams in creation order and cannot select them.
    pub fn validate(&self, robot: u16, spectrum: u16) -> (result: Result<(), &'static str>)
        ensures
            match result {
                Ok(()) => expected(self@, robot, spectrum),
                Err(text) => !expected(self@, robot, spectrum) && text@
                    == "unexpected data channel allocation"@,
            },
    {
        if self.channels.len() != 2 || self.count("robot", robot) != 1 || self.count(
            "spectrum",
            spectrum,
        ) != 1 {
            return Err("unexpected data channel allocation");
        }
        Ok(())
    }
}

/// The order of the response does not matter.
pub proof fn lemma_response_order_does_not_matter(
    a: (Seq<char>, u16),
    b: (Seq<char>, u16),
    robot: u16,
    spectrum: u16,
)
    ensures
        expected(seq![a, b], robot, spectrum) == expected(seq![b, a], robot, spectrum),
{
    reveal_with_fuel(count_of, 3);
    assert(seq![a, b].drop_last() =~= seq![a]);
    assert(seq![b, a].drop_last() =~= seq![b]);
    assert(seq![a].drop_last() =~= Seq::empty());
    assert(seq![b].drop_last() =~= Seq::empty());
}

/// Looks for a lost transport between two heartbeats, and the pause between looks.
pub const LOOKS_PER_HEARTBEAT: u32 = 50;

pub const LOOK_MS: u64 = 100;

/// When the Worker last acknowledged a heartbeat.
#[derive(Debug, Clone, Copy)]
pub struct Heartbeat {
    pub last_success: u64,
}

impl Heartbeat {
    /// Takes note of the Worker's answer, which came at `now_us`; ends the session where it is
    /// lost.
    pub fn answered(&mut self, status: i32, valid: bool, now_us: u64) -> (result: Result<
        (),
        Error,
    >)
        ensures
            final(self).last_success == if valid {
                now_us
            } else {
                old(self).last_success
            },
            ({
                let silence = if now_us < old(self).last_success {
                    0
                } else {
                    now_us - old(self).last_success
                };
                match result {
                    Ok(()) => valid || !signaling::lost(status as int, silence),
                    Err(error) => {
                        &&& !valid && signaling::lost(status as int, silence)
                        &&& error == (Error {
                            context: "signaling session needs recovery",
                            cause: Some(Cause::Native(status)),
                        })
                    },
                }
            }),
    {
        if valid {
            self.last_success = now_us;
        } else if signaling::needs_recovery(status, now_us.saturating_sub(self.last_success)) {
            return Err(Error::native("signaling session needs recovery", status));
        }
        Ok(())
    }
}

/// The two channels of the application are expected in either order, each on its own stream, and
/// nothing else is.
pub proof fn lemma_channels_are_expected_by_name(
    channels: Seq<(Seq<char>, u16)>,
    robot: u16,
    spectrum: u16,
)
    ensures
        expected(channels, robot, spectrum) <==> {
            ||| channels == seq![("robot"@, robot), ("spectrum"@, spectrum)]
            ||| channels == seq![("spectrum"@, spectrum), ("robot"@, robot)]
        },
        LOOKS_PER_HEARTBEAT * LOOK_MS == 5000,
{
    reveal_with_fuel(count_of, 3);
    reveal_strlit("robot");
    reveal_strlit("spectrum");
    assert("robot"@.len() == 5 && "spectrum"@.len() == 8);
    let one = seq![("robot"@, robot), ("spectrum"@, spectrum)];
    let two = seq![("spectrum"@, spectrum), ("robot"@, robot)];
    assert(one[0] == ("robot"@, robot) && one[1] == ("spectrum"@, spectrum));
    assert(two[0] == ("spectrum"@, spectrum) && two[1] == ("robot"@, robot));
    if channels.len() == 2 {
        assert(channels.drop_last().last() == channels[0]);
        assert(channels.drop_last().drop_last() =~= Seq::empty());
        assert(channels.last() == channels[1]);
        if expected(channels, robot, spectrum) {
            if channels[0] == one[0] {
                assert(channels =~= one);
            } else {
                assert(channels =~= two);
            }
        }
    }
}

} // verus!
