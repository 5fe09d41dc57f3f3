//! Validated Worker responses and recovery policy; no HTTP implementation here.
use crate::text;
use vstd::prelude::*;
use vstd::utf8::*;

verus! {

/// The longest generation name and the longest session description, in bytes of UTF-8.
pub const GENERATION_LIMIT: usize = 64;

pub const SDP_LIMIT: usize = 16_000;

/// Without a success for longer than this, the session is given up.
pub const RECOVERY_US: u64 = 55_000_000;

/// A publisher's answer. SDP contains temporary transport credentials: there is no `Debug`.
pub struct Started {
    generation: String,
    session_description: Description,
}

struct Description {
    kind: String,
    sdp: String,
}

/// What an answer holds.
pub struct StartedView {
    pub generation: Seq<char>,
    pub kind: Seq<char>,
    pub sdp: Seq<char>,
}

impl View for Started {
    type V = StartedView;

    closed spec fn view(&self) -> StartedView {
        StartedView {
            generation: self.generation@,
            kind: self.session_description.kind@,
            sdp: self.session_description.sdp@,
        }
    }
}

/// The name of a publisher generation.
#[derive(Debug)]
pub struct Identity {
    generation: String,
}

impl View for Identity {
    type V = Seq<char>;

    closed spec fn view(&self) -> Seq<char> {
        self.generation@
    }
}

impl Clone for Identity {
    fn clone(&self) -> (copy: Self)
        ensures
            copy == *self,
    {
        Identity { generation: self.generation.clone() }
    }
}

impl Identity {
    pub fn generation(&self) -> (generation: &str)
        ensures
            generation@ == self@,
    {
        self.generation.as_str()
    }
}

/// An answer that can be used: a short generation name, and a session description of the right
/// type that is neither too long nor cut by a zero character.
pub open spec fn usable(started: StartedView) -> bool {
    &&& 0 < started.generation.len()
    &&& encode_utf8(started.generation).len() <= GENERATION_LIMIT
    &&& started.kind == "answer"@
    &&& "v=0"@.is_prefix_of(started.sdp)
    &&& encode_utf8(started.sdp).len() <= SDP_LIMIT
    &&& !started.sdp.contains('\0')
}

impl Started {
    pub fn new(generation: String, kind: String, sdp: String) -> (started: Self)
        ensures
            started@ == (StartedView { generation: generation@, kind: kind@, sdp: sdp@ }),
    {
        Started { generation, session_description: Description { kind, sdp } }
    }

    /// A text that shows nothing of the answer.
    pub fn describe(&self) -> (text: &'static str)
        ensures
            text@ == "Started { .. }"@,
    {
        "Started { .. }"
    }

    pub fn validate(self) -> (result: Result<(Identity, String), &'static str>)
        ensures
            match result {
                Ok((identity, sdp)) => {
                    &&& usable(self@)
                    &&& identity@ == self@.generation
                    &&& sdp@ == self@.sdp
                },
                Err(text) => !usable(self@) && text@ == "invalid publisher answer"@,
            },
    {
        let Started { generation, session_description } = self;
        let Description { kind, sdp } = session_description;
        if generation.as_str().is_empty() || generation.as_str().as_bytes().len() > GENERATION_LIMIT
            || !text::same(kind.as_str(), "answer") || !text::starts_with(sdp.as_str(), "v=0")
            || sdp.as_str().as_bytes().len() > SDP_LIMIT || text::contains_char(sdp.as_str(), '\0') {
            return Err("invalid publisher answer");
        }
        Ok((Identity { generation }, sdp))
    }
}

/// The data channels that were allocated, in the order of the response.
#[derive(Debug)]
pub struct Channels {
    channels: Vec<Channel>,
}

#[derive(Debug)]
struct Channel {
    data_channel_name: String,
    id: u16,
}

impl View for Channels {
    type V = Seq<(Seq<char>, u16)>;

    closed spec fn view(&self) -> Seq<(Seq<char>, u16)> {
        self.channels@.map_values(|channel: Channel| (channel.data_channel_name@, channel.id))
    }
}

/// Validated, distinct application stream IDs. SFU stream 0 carries server
/// events; 65535 is reserved by SCTP and cannot identify a data channel.
#[derive(Debug, Clone, Copy, PartialEq, Eq, Structural)]
pub struct ChannelIds {
    robot: u16,
    spectrum: u16,
}

/// Two streams that the application can use.
pub open spec fn usable_ids(robot: u16, spectrum: u16) -> bool {
    &&& robot != spectrum
    &&& 0 < robot < u16::MAX
    &&& 0 < spectrum < u16::MAX
}

impl ChannelIds {
    #[verifier::type_invariant]
    spec fn distinct(self) -> bool {
        usable_ids(self.robot, self.spectrum)
    }

    pub closed spec fn robot_id(self) -> u16 {
        self.robot
    }

    pub closed spec fn spectrum_id(self) -> u16 {
        self.spectrum
    }

    pub fn new(robot: u16, spectrum: u16) -> (result: Result<Self, &'static str>)
        ensures
            match result {
                Ok(ids) => {
                    &&& usable_ids(robot, spectrum)
                    &&& ids.robot_id() == robot
                    &&& ids.spectrum_id() == spectrum
                },
                Err(text) => {
                    &&& !usable_ids(robot, spectrum)
                    &&& text@ == "invalid application channel IDs"@
                },
            },
    {
        if robot == spectrum || robot == 0 || robot == u16::MAX || spectrum == 0 || spectrum
            == u16::MAX {
            return Err("invalid application channel IDs");
        }
        Ok(ChannelIds { robot, spectrum })
    }

    pub fn robot(self) -> (id: u16)
        ensures
            id == self.robot_id(),
            usable_ids(self.robot_id(), self.spectrum_id()),
    {
        proof {
            use_type_invariant(self);
        }
        self.robot
    }

    pub fn spectrum(self) -> (id: u16)
        ensures
            id == self.spectrum_id(),
            usable_ids(self.robot_id(), self.spectrum_id()),
    {
        proof {
            use_type_invariant(self);
        }
        self.spectrum
    }
}

/// The first channel with a name.
pub open spec fn named(channels: Seq<(Seq<char>, u16)>, name: Seq<char>) -> Option<u16>
    decreases channels.len(),
{
    if channels.len() == 0 {
        None
    } else if channels[0].0 == name {
        Some(channels[0].1)
    } else {
        named(channels.skip(1), name)
    }
}

/// Exactly two channels were allocated, one under each of the two names.
pub open spec fn allocated(channels: Seq<(Seq<char>, u16)>) -> Option<(u16, u16)> {
    match (named(channels, "robot"@), named(channels, "spectrum"@)) {
        (Some(robot), Some(spectrum)) => if channels.len() == 2 {
            Some((robot, spectrum))
        } else {
            None
        },
        _ => None,
    }
}

impl Channels {
    pub fn new() -> (channels: Self)
        ensures
            channels@ == Seq::<(Seq<char>, u16)>::empty(),
    {
        let channels = Channels { channels: Vec::new() };
        assert(channels@ =~= Seq::empty());
        channels
    }

    /// Adds a channel behind the others.
    pub fn push(&mut self, data_channel_name: String, id: u16)
        ensures
            final(self)@ == old(self)@.push((data_channel_name@, id)),
    {
        self.channels.push(Channel { data_channel_name, id });
        assert(self@ =~= old(self)@.push((data_channel_name@, id)));
    }

    fn find(&self, name: &str) -> (id: Option<u16>)
        ensures
            id == named(self@, name@),
    {
        let mut i: usize = 0;
        assert(self@.skip(0) =~= self@);
        while i < self.channels.len()
            invariant
                i <= self.channels@.len(),
                self@.len() == self.channels@.len(),
                named(self@, name@) == named(self@.skip(i as int), name@),
            decreases self.channels@.len() - i,
        {
            assert(self@.skip(i as int).skip(1) =~= self@.skip(i + 1));
            assert(self@.skip(i as int)[0] == self@[i as int]);
            if text::same(self.channels[i].data_channel_name.as_str(), name) {
                return Some(self.channels[i].id);
            }
            i = i + 1;
        }
        None
    }

    /// Match names rather than response order; use the IDs allocated by the SFU.
    pub fn validate(&self) -> (result: Result<ChannelIds, &'static str>)
        ensures
            match allocated(self@) {
                None => result matches Err(text) && text@ == "unexpected data channel allocation"@,
                Some((robot, spectrum)) => match result {
                    Ok(ids) => {
                        &&& usable_ids(robot, spectrum)
                        &&& ids.robot_id() == robot
                        &&& ids.spectrum_id() == spectrum
                    },
                    Err(text) => {
                        &&& !usable_ids(robot, spectrum)
                        &&& text@ == "invalid application channel IDs"@
                    },
                },
            },
    {
        let robot = self.find("robot");
        let spectrum = self.find("spectrum");
        match (robot, spectrum) {
            (Some(robot), Some(spectrum)) => {
                if self.channels.len() == 2 {
                    ChannelIds::new(robot, spectrum)
                } else {
                    Err("unexpected data channel allocation")
                }
            },
            _ => Err("unexpected data channel allocation"),
        }
    }
}

/// The order of the response does not matter.
pub proof fn lemma_response_order_does_not_matter(a: (Seq<char>, u16), b: (Seq<char>, u16))
    ensures
        allocated(seq![a, b]) == allocated(seq![b, a]),
{
    reveal_with_fuel(named, 3);
    reveal_strlit("robot");
    reveal_strlit("spectrum");
    assert(seq![a, b].skip(1) =~= seq![b]);
    assert(seq![b, a].skip(1) =~= seq![a]);
    assert(seq![a].skip(1) =~= Seq::empty());
    assert(seq![b].skip(1) =~= Seq::empty());
    assert("robot"@.len() == 5 && "spectrum"@.len() == 8);
}

/// A failure that may pass: no response, too many requests, or a failure of the server.
pub open spec fn transient(status: int) -> bool {
    status < 0 || status == 429 || status >= 500
}

pub fn retryable(status: i32) -> (result: bool)
    ensures
        result == transient(status as int),
{
    status < 0 || status == 429 || status >= 500
}

/// The Worker refuses this generation, or nothing has succeeded for too long.
pub open spec fn lost(status: int, since_success: int) -> bool {
    (400 <= status < 500 && status != 429) || since_success > RECOVERY_US
}

/// Recover after a non-429 4xx response or more than 55 seconds without a
/// successful heartbeat.
pub fn needs_recovery(status: i32, since_success_us: u64) -> (result: bool)
    ensures
        result == lost(status as int, since_success_us as int),
{
    (400 <= status && status < 500 && status != 429) || since_success_us > RECOVERY_US
}

/// A failure that may pass never forces recovery by itself, only by lasting too long.
pub proof fn lemma_transient_failures_recover_by_time_alone(status: int, since_success: int)
    requires
        transient(status),
    ensures
        lost(status, since_success) <==> since_success > RECOVERY_US,
{
}

/// The two channels are found by their names in either order, each with its own stream; anything
/// else, fewer, more or other channels, is no allocation.
pub proof fn lemma_channels_are_found_by_name(
    channels: Seq<(Seq<char>, u16)>,
    robot: u16,
    spectrum: u16,
)
    ensures
        allocated(channels) == Some((robot, spectrum)) <==> {
            ||| channels == seq![("robot"@, robot), ("spectrum"@, spectrum)]
            ||| channels == seq![("spectrum"@, spectrum), ("robot"@, robot)]
        },
{
    reveal_with_fuel(named, 3);
    reveal_strlit("robot");
    reveal_strlit("spectrum");
    assert("robot"@.len() == 5 && "spectrum"@.len() == 8);
    if channels.len() == 2 {
        let a = channels[0];
        let b = channels[1];
        assert(channels =~= seq![a, b]);
        assert(channels.skip(1) =~= seq![b]);
        assert(seq![b].skip(1) =~= Seq::empty());
        if allocated(channels) == Some((robot, spectrum)) {
            if a.0 == "robot"@ {
                assert(channels =~= seq![("robot"@, robot), ("spectrum"@, spectrum)]);
            } else {
                assert(channels =~= seq![("spectrum"@, spectrum), ("robot"@, robot)]);
            }
        }
        let one = seq![("robot"@, robot), ("spectrum"@, spectrum)];
        let two = seq![("spectrum"@, spectrum), ("robot"@, robot)];
        assert(one[0] == ("robot"@, robot) && one[1] == ("spectrum"@, spectrum));
        assert(two[0] == ("spectrum"@, spectrum) && two[1] == ("robot"@, robot));
    }
}

/// Streams can be used if they are not the same and neither is the first or the last one.
pub proof fn lemma_streams_that_can_be_used(robot: u16, spectrum: u16)
    ensures
        usable_ids(robot, spectrum) <==> 1 <= robot <= 65_534 && 1 <= spectrum <= 65_534 && robot
            != spectrum,
        usable_ids(robot, spectrum) == usable_ids(spectrum, robot),
{
}

/// An answer can be used exactly where it has a name of one to 64 bytes, is an answer, and its
/// description begins as one, has at most 16,000 bytes and no zero character.
pub proof fn lemma_answers_that_can_be_used(started: StartedView)
    ensures
        usable(started) <==> {
            &&& started.generation.len() >= 1
            &&& encode_utf8(started.generation).len() <= 64
            &&& started.kind == seq!['a', 'n', 's', 'w', 'e', 'r']
            &&& started.sdp.len() >= 3
            &&& started.sdp.take(3) == seq!['v', '=', '0']
            &&& encode_utf8(started.sdp).len() <= 16_000
            &&& forall|i: int| 0 <= i < started.sdp.len() ==> #[trigger] started.sdp[i] != '\0'
        },
{
    reveal_strlit("answer");
    reveal_strlit("v=0");
    assert("answer"@ =~= seq!['a', 'n', 's', 'w', 'e', 'r']);
    assert("v=0"@ =~= seq!['v', '=', '0']);
    let sdp = started.sdp;
    if "v=0"@.is_prefix_of(sdp) {
        assert(sdp.take(3) =~= "v=0"@);
    }
    if sdp.len() >= 3 && sdp.take(3) == seq!['v', '=', '0'] {
        assert("v=0"@.is_prefix_of(sdp)) by {
            assert("v=0"@ =~= sdp.subrange(0, 3));
        }
    }
    if !sdp.contains('\0') {
        assert forall|i: int| 0 <= i < sdp.len() implies #[trigger] sdp[i] != '\0' by {}
    }
}

/// A session is lost when the Worker refuses it, but not for asking too often, or after more than
/// 55 seconds of silence. A failure that may pass is one without an answer, too many requests or
/// the server's own.
pub proof fn lemma_sessions_are_lost_for_a_reason(status: int, since_success: int)
    ensures
        lost(status, since_success) <==> since_success > 55_000_000 || (400 <= status <= 499
            && status != 429),
        transient(status) <==> status < 0 || status == 429 || 500 <= status,
        transient(status) && since_success <= 55_000_000 ==> !lost(status, since_success),
        200 <= status <= 299 ==> !transient(status),
{
}

} // verus!
