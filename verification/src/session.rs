//! What the signaling task decides on its way on air and while it stays there.
use crate::error::{Cause, Error};
use crate::signaling;
use crate::text;
use vstd::prelude::*;
use vstd::string::*;

verus! {

/// The requests that the Worker answers.
#[derive(Debug, Clone, Copy, PartialEq, Eq, Structural)]
pub enum Endpoint {
    Start,
    Channels,
    Ready,
    Heartbeat,
}

/// The path of each request.
pub open spec fn endpoint_path(endpoint: Endpoint) -> Seq<char> {
    match endpoint {
        Endpoint::Start => "start"@,
        Endpoint::Channels => "channels"@,
        Endpoint::Ready => "ready"@,
        Endpoint::Heartbeat => "heartbeat"@,
    }
}

impl Endpoint {
    pub fn path(self) -> (path: &'static str)
        ensures
            path@ == endpoint_path(self),
    {
        match self {
            Endpoint::Start => "start",
            Endpoint::Channels => "channels",
            Endpoint::Ready => "ready",
            Endpoint::Heartbeat => "heartbeat",
        }
    }
}

/// The most bytes that a response may have.
pub const RESPONSE_LIMIT: usize = 24_576;

/// Checks the length of a response against the limit; only an empty response has no bytes.
pub fn response_length(used: usize, present: bool) -> (result: Result<usize, Error>)
    ensures
        match result {
            Ok(length) => length == used && used <= RESPONSE_LIMIT && (used > 0 ==> present),
            Err(error) => {
                &&& used > RESPONSE_LIMIT || (used > 0 && !present)
                &&& error == (Error { context: "invalid HTTPS response length", cause: None })
            },
        },
{
    if used > RESPONSE_LIMIT || (used > 0 && !present) {
        Err(Error::new("invalid HTTPS response length"))
    } else {
        Ok(used)
    }
}

/// A status that reports success.
pub open spec fn success(status: int) -> bool {
    200 <= status < 300
}

/// Whether `serde_json` reads the bytes as one JSON object.
pub uninterp spec fn json_object(bytes: Seq<u8>) -> bool;

/// Calls `serde_json::from_slice` for a map of names to values: it succeeds or fails by the
/// bytes alone. What counts as an object is left to `serde_json`.
#[verifier::external_body]
fn is_object(bytes: &[u8]) -> (result: bool)
    ensures
        result == json_object(bytes@),
{
    serde_json::from_slice::<serde_json::Map<String, serde_json::Value>>(bytes).is_ok()
}

/// Whether a response is a success that carries a JSON object.
pub fn acknowledged(status: i32, response: &[u8]) -> (result: bool)
    ensures
        result == (success(status as int) && json_object(response@)),
{
    200 <= status && status < 300 && is_object(response)
}

/// How often a request of the setup is sent at most.
pub const ATTEMPTS: u32 = 3;

/// What follows an answer to a request of the setup.
#[derive(Debug, Clone, Copy)]
pub enum Verdict {
    /// Read the response.
    Accept,
    /// Send the same request again after that many seconds.
    Retry(u64),
    /// End the session.
    Fail(Error),
}

/// What follows the answer to the given attempt: failures that may pass are tried again, after
/// a wait that doubles.
pub open spec fn verdict(attempt: int, status: i32) -> Verdict {
    if success(status as int) {
        Verdict::Accept
    } else if !signaling::transient(status as int) {
        Verdict::Fail(
            Error { context: "Worker rejected setup", cause: Some(Cause::Native(status)) },
        )
    } else if attempt + 1 < ATTEMPTS {
        Verdict::Retry(if attempt == 0 { 1u64 } else { 2u64 })
    } else {
        Verdict::Fail(Error { context: "Worker unavailable after setup retries", cause: None })
    }
}

pub fn judge(attempt: u32, status: i32) -> (result: Verdict)
    requires
        attempt < ATTEMPTS,
    ensures
        result == verdict(attempt as int, status),
{
    if 200 <= status && status < 300 {
        Verdict::Accept
    } else if !signaling::retryable(status) {
        Verdict::Fail(Error::native("Worker rejected setup", status))
    } else if attempt == 0 {
        Verdict::Retry(1)
    } else if attempt == 1 {
        Verdict::Retry(2)
    } else {
        Verdict::Fail(Error::new("Worker unavailable after setup retries"))
    }
}

/// The name of a boot: four random numbers in hexadecimal.
pub open spec fn boot_text(random: Seq<u32>) -> Seq<char> {
    text::hex8(random[0] as int) + text::hex8(random[1] as int) + text::hex8(random[2] as int)
        + text::hex8(random[3] as int)
}

pub fn boot_id(random: [u32; 4]) -> (name: String)
    ensures
        name@ == boot_text(random@),
        name@.len() == 32,
{
    let mut name = String::new();
    text::push_hex8(&mut name, random[0]);
    text::push_hex8(&mut name, random[1]);
    text::push_hex8(&mut name, random[2]);
    text::push_hex8(&mut name, random[3]);
    assert(name@ =~= boot_text(random@));
    name
}

/// The steps on the way on air, in order.
#[derive(Debug, Clone, Copy, PartialEq, Eq, Structural)]
pub enum Step {
    AwaitOffer,
    PostStart,
    ApplyAnswer,
    AwaitConnection,
    PostChannels,
    StartPlayback,
    PostReady,
    OnAir,
}

/// How a step ended.
#[derive(Debug, Clone, Copy)]
pub enum Outcome {
    Done,
    /// The radio task could not be reached.
    Unreachable,
    /// The wait ended without the event that the step waits for.
    Expired,
    /// The step failed with an error of its own.
    Failed(Error),
}

/// The step that comes after another.
pub open spec fn next_step(step: Step) -> Step {
    match step {
        Step::AwaitOffer => Step::PostStart,
        Step::PostStart => Step::ApplyAnswer,
        Step::ApplyAnswer => Step::AwaitConnection,
        Step::AwaitConnection => Step::PostChannels,
        Step::PostChannels => Step::StartPlayback,
        Step::StartPlayback => Step::PostReady,
        Step::PostReady => Step::OnAir,
        Step::OnAir => Step::OnAir,
    }
}

/// The error with which a wait ends.
pub open spec fn expired(step: Step) -> Seq<char> {
    match step {
        Step::AwaitOffer => "local offer unavailable"@,
        Step::ApplyAnswer => "answer application timed out"@,
        Step::AwaitConnection => "WebRTC connection timed out"@,
        Step::StartPlayback => "playback start timed out"@,
        _ => "WebRTC transport lost"@,
    }
}

/// The longest wait of a step, in seconds.
pub open spec fn patience(step: Step) -> int {
    match step {
        Step::AwaitOffer => 20,
        Step::ApplyAnswer => 15,
        Step::AwaitConnection => 30,
        Step::StartPlayback => 15,
        _ => 0,
    }
}

impl Step {
    /// The longest wait of this step, in seconds; the other steps wait for the Worker.
    pub fn wait_seconds(self) -> (seconds: u64)
        ensures
            seconds == patience(self),
    {
        match self {
            Step::AwaitOffer => 20,
            Step::ApplyAnswer => 15,
            Step::AwaitConnection => 30,
            Step::StartPlayback => 15,
            _ => 0,
        }
    }

    /// Goes on to the next step, or ends the session.
    pub fn advance(self, outcome: Outcome) -> (result: Result<Step, Error>)
        ensures
            match outcome {
                Outcome::Done => result == Ok::<Step, Error>(next_step(self)),
                Outcome::Unreachable => {
                    result matches Err(error) && error.cause is None && error.context@
                        == "radio task unavailable"@
                },
                Outcome::Expired => {
                    result matches Err(error) && error.cause is None && error.context@ == expired(
                        self,
                    )
                },
                Outcome::Failed(error) => result == Err::<Step, Error>(error),
            },
    {
        match outcome {
            Outcome::Done => Ok(
                match self {
                    Step::AwaitOffer => Step::PostStart,
                    Step::PostStart => Step::ApplyAnswer,
                    Step::ApplyAnswer => Step::AwaitConnection,
                    Step::AwaitConnection => Step::PostChannels,
                    Step::PostChannels => Step::StartPlayback,
                    Step::StartPlayback => Step::PostReady,
                    Step::PostReady => Step::OnAir,
                    Step::OnAir => Step::OnAir,
                },
            ),
            Outcome::Unreachable => Err(Error::new("radio task unavailable")),
            Outcome::Expired => Err(
                Error::new(
                    match self {
                        Step::AwaitOffer => "local offer unavailable",
                        Step::ApplyAnswer => "answer application timed out",
                        Step::AwaitConnection => "WebRTC connection timed out",
                        Step::StartPlayback => "playback start timed out",
                        _ => "WebRTC transport lost",
                    },
                ),
            ),
            Outcome::Failed(error) => Err(error),
        }
    }
}

/// The time between heartbeats, the time that an announcement waits after a success, and after
/// a failure, in microseconds.
pub const HEARTBEAT_US: u64 = 5_000_000;

pub const CHANGE_US: u64 = 250_000;

pub const FAILED_CHANGE_US: u64 = 1_000_000;

/// When the Worker hears of this session again.
#[derive(Debug, Clone, Copy)]
pub struct Heartbeat {
    pub last_success: u64,
    pub next_heartbeat: u64,
    pub next_change_post: u64,
    pub published_revision: Option<u32>,
}

/// A heartbeat is due: the time has come, or the song has changed and the last report is long
/// enough ago. Without a song there is nothing to report.
pub open spec fn beats(heartbeat: Heartbeat, now: int, revision: Option<u32>) -> bool {
    match revision {
        None => false,
        Some(revision) => {
            ||| now >= heartbeat.next_heartbeat
            ||| heartbeat.published_revision != Some(revision) && now
                >= heartbeat.next_change_post
        },
    }
}

/// The schedule once the Worker has answered at `now`.
pub open spec fn beaten(heartbeat: Heartbeat, valid: bool, revision: u32, now: u64) -> Heartbeat {
    Heartbeat {
        next_heartbeat: (now + HEARTBEAT_US) as u64,
        next_change_post: (now + if valid { CHANGE_US } else { FAILED_CHANGE_US }) as u64,
        last_success: if valid { now } else { heartbeat.last_success },
        published_revision: if valid { Some(revision) } else { heartbeat.published_revision },
    }
}

/// The time since the last success.
pub open spec fn silence(heartbeat: Heartbeat, now: int) -> int {
    if now < heartbeat.last_success {
        0
    } else {
        now - heartbeat.last_success
    }
}

impl Heartbeat {
    /// The schedule of a session that has just gone on air.
    pub fn new(now_us: u64) -> (heartbeat: Self)
        ensures
            heartbeat == (Heartbeat {
                last_success: now_us,
                next_heartbeat: now_us,
                next_change_post: now_us,
                published_revision: None,
            }),
    {
        Heartbeat {
            last_success: now_us,
            next_heartbeat: now_us,
            next_change_post: now_us,
            published_revision: None,
        }
    }

    /// Whether to report the song that plays now.
    pub fn due(&self, now_us: u64, revision: Option<u32>) -> (due: bool)
        ensures
            due == beats(*self, now_us as int, revision),
    {
        match revision {
            None => false,
            Some(revision) => {
                let changed = match self.published_revision {
                    Some(published) => published != revision,
                    None => true,
                };
                !(now_us < self.next_heartbeat && (!changed || now_us < self.next_change_post))
            },
        }
    }

    /// Takes note of the Worker's answer, which came at `now_us`; ends the session where it is
    /// lost. `valid` says whether the answer acknowledged the report.
    pub fn answered(&mut self, status: i32, valid: bool, revision: u32, now_us: u64) -> (result:
        Result<(), Error>)
        requires
            now_us + HEARTBEAT_US <= u64::MAX,
        ensures
            *final(self) == beaten(*old(self), valid, revision, now_us),
            match result {
                Ok(()) => valid || !signaling::lost(
                    status as int,
                    silence(*old(self), now_us as int),
                ),
                Err(error) => {
                    &&& !valid
                    &&& signaling::lost(status as int, silence(*old(self), now_us as int))
                    &&& error == (Error {
                        context: "signaling session needs recovery",
                        cause: Some(Cause::Native(status)),
                    })
                },
            },
    {
        self.next_heartbeat = now_us + HEARTBEAT_US;
        self.next_change_post = now_us + if valid {
            CHANGE_US
        } else {
            FAILED_CHANGE_US
        };
        if valid {
            self.last_success = now_us;
            self.published_revision = Some(revision);
        } else if signaling::needs_recovery(status, now_us.saturating_sub(self.last_success)) {
            return Err(Error::native("signaling session needs recovery", status));
        }
        Ok(())
    }
}

/// A song that has been reported is not reported again before the next heartbeat; a new one
/// waits for a quarter of a second after a success.
pub proof fn lemma_reports_are_coalesced(
    heartbeat: Heartbeat,
    revision: u32,
    now: u64,
    later: int,
    other: u32,
)
    requires
        now + HEARTBEAT_US <= u64::MAX,
        now <= later,
    ensures
        ({
            let after = beaten(heartbeat, true, revision, now);
            &&& later < now + HEARTBEAT_US ==> !beats(after, later, Some(revision))
            &&& later < now + CHANGE_US ==> !beats(after, later, Some(other))
            &&& other != revision && later >= now + CHANGE_US ==> beats(after, later, Some(other))
            &&& later >= now + HEARTBEAT_US ==> beats(after, later, Some(revision))
        }),
{
}

/// However the attempts go, a request of the setup is sent at most three times, with at most
/// three seconds of waiting: the last attempt never asks for another.
pub proof fn lemma_setup_retries_are_bounded(attempt: int, status: i32)
    requires
        0 <= attempt < ATTEMPTS,
    ensures
        verdict(attempt, status) matches Verdict::Retry(seconds) ==> {
            &&& attempt + 1 < ATTEMPTS
            &&& seconds == attempt + 1
            &&& signaling::transient(status as int)
        },
{
}

/// Going on step by step from the first, the session is on air after seven steps and stays so.
pub proof fn lemma_seven_steps_lead_on_air()
    ensures
        next_step(
            next_step(
                next_step(next_step(next_step(next_step(next_step(Step::AwaitOffer))))),
            ),
        ) == Step::OnAir,
        next_step(Step::OnAir) == Step::OnAir,
{
}

/// An answer is read exactly where its status is one of the two hundreds. A failure that may pass
/// is tried again after one second and then after two, and gives up at the third attempt; every
/// other failure ends the setup at once, with its status.
pub proof fn lemma_answers_are_judged_by_their_status(attempt: int, status: i32)
    requires
        0 <= attempt < 3,
    ensures
        verdict(attempt, status) is Accept <==> 200 <= status <= 299,
        (verdict(attempt, status) is Retry) <==> attempt < 2 && (status < 0 || status == 429
            || status >= 500),
        verdict(attempt, status) matches Verdict::Retry(seconds) ==> seconds == attempt + 1,
        verdict(attempt, status) matches Verdict::Fail(error) ==> {
            if status < 0 || status == 429 || status >= 500 {
                &&& attempt == 2
                &&& error.cause is None
                &&& error.context == "Worker unavailable after setup retries"
            } else {
                &&& error.cause == Some(Cause::Native(status))
                &&& error.context == "Worker rejected setup"
            }
        },
        success(status as int) <==> 200 <= status <= 299,
        ATTEMPTS == 3,
        RESPONSE_LIMIT == 24 * 1024,
{
}

/// A boot is named by 32 hexadecimal digits, eight for each random number in order.
pub proof fn lemma_boots_are_named_by_their_numbers(random: Seq<u32>, i: int)
    requires
        random.len() == 4,
        0 <= i < 4,
    ensures
        boot_text(random).len() == 32,
        boot_text(random).subrange(8 * i, 8 * i + 8) == text::hex8(random[i] as int),
        text::digits_value(boot_text(random).subrange(8 * i, 8 * i + 8), 16) == random[i],
{
    text::lemma_hex8_reads_back(random[i] as int);
    lemma_four_parts(
        text::hex8(random[0] as int),
        text::hex8(random[1] as int),
        text::hex8(random[2] as int),
        text::hex8(random[3] as int),
        i,
    );
}

/// Four texts of eight characters in a row.
proof fn lemma_four_parts(a: Seq<char>, b: Seq<char>, c: Seq<char>, d: Seq<char>, i: int)
    requires
        a.len() == 8,
        b.len() == 8,
        c.len() == 8,
        d.len() == 8,
        0 <= i < 4,
    ensures
        (a + b + c + d).len() == 32,
        (a + b + c + d).subrange(8 * i, 8 * i + 8) == seq![a, b, c, d][i],
{
    assert((a + b + c + d).subrange(8 * i, 8 * i + 8) =~= seq![a, b, c, d][i]);
}

/// Two boots have the same name only where all their random numbers are the same.
pub proof fn lemma_different_boots_have_different_names(a: Seq<u32>, b: Seq<u32>)
    requires
        a.len() == 4,
        b.len() == 4,
        boot_text(a) == boot_text(b),
    ensures
        a == b,
{
    lemma_boots_are_named_by_their_numbers(a, 0);
    lemma_boots_are_named_by_their_numbers(a, 1);
    lemma_boots_are_named_by_their_numbers(a, 2);
    lemma_boots_are_named_by_their_numbers(a, 3);
    lemma_boots_are_named_by_their_numbers(b, 0);
    lemma_boots_are_named_by_their_numbers(b, 1);
    lemma_boots_are_named_by_their_numbers(b, 2);
    lemma_boots_are_named_by_their_numbers(b, 3);
    assert(a =~= b);
}

/// The way on air, in order.
pub open spec fn way_on_air() -> Seq<Step> {
    seq![
        Step::AwaitOffer,
        Step::PostStart,
        Step::ApplyAnswer,
        Step::AwaitConnection,
        Step::PostChannels,
        Step::StartPlayback,
        Step::PostReady,
        Step::OnAir,
    ]
}

/// Each step leads to the next one of the way on air; the offer, the answer, the connection and
/// the start are waited for, for 20, 15, 30 and 15 seconds, and the Worker by itself.
pub proof fn lemma_steps_follow_the_way_on_air(i: int)
    requires
        0 <= i < 7,
    ensures
        next_step(way_on_air()[i]) == way_on_air()[i + 1],
        patience(way_on_air()[i]) == seq![20int, 0, 15, 30, 0, 15, 0][i],
        patience(Step::OnAir) == 0,
{
}

/// A wait that ends says what was waited for.
pub proof fn lemma_waits_end_with_what_was_waited_for()
    ensures
        expired(Step::AwaitOffer) == "local offer unavailable"@,
        expired(Step::ApplyAnswer) == "answer application timed out"@,
        expired(Step::AwaitConnection) == "WebRTC connection timed out"@,
        expired(Step::StartPlayback) == "playback start timed out"@,
        expired(Step::OnAir) == "WebRTC transport lost"@,
        endpoint_path(Endpoint::Start) == "start"@,
        endpoint_path(Endpoint::Channels) == "channels"@,
        endpoint_path(Endpoint::Ready) == "ready"@,
        endpoint_path(Endpoint::Heartbeat) == "heartbeat"@,
{
}

/// Without a song there is nothing to report. A report that failed counts for nothing: the song
/// is still to be reported, after a second, and the silence goes on; one that succeeded ends the
/// silence. Either way the next heartbeat comes after five seconds.
pub proof fn lemma_failed_reports_count_for_nothing(
    heartbeat: Heartbeat,
    revision: u32,
    now: u64,
    later: int,
)
    requires
        now + 5_000_000 <= u64::MAX,
        heartbeat.last_success <= now <= later,
    ensures
        !beats(heartbeat, later, None),
        ({
            let failed = beaten(heartbeat, false, revision, now);
            &&& failed.last_success == heartbeat.last_success
            &&& failed.published_revision == heartbeat.published_revision
            &&& silence(failed, later) == later - heartbeat.last_success
            &&& heartbeat.published_revision != Some(revision) ==> (beats(
                failed,
                later,
                Some(revision),
            ) <==> later >= now + 1_000_000)
            &&& heartbeat.published_revision == Some(revision) ==> (beats(
                failed,
                later,
                Some(revision),
            ) <==> later >= now + 5_000_000)
        }),
        ({
            let told = beaten(heartbeat, true, revision, now);
            &&& told.last_success == now
            &&& silence(told, later) == later - now
            &&& beats(told, later, Some(revision)) <==> later >= now + 5_000_000
            &&& forall|other: u32|
                other != revision ==> (#[trigger] beats(told, later, Some(other)) <==> later >= now
                    + 250_000)
        }),
        later < heartbeat.last_success ==> silence(heartbeat, later) == 0,
{
}

} // verus!
