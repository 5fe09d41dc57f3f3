//! What holds of analysis together with playback.
use crate::playback::{self, Due, PlaybackView, FRAME_US};
use crate::protocol::Action;
use crate::spectrum::{self, Tag, FFT_SIZE};
use crate::text;
use vstd::arithmetic::div_mod::*;
use vstd::prelude::*;

verus! {

/// How samples are cut into pieces does not matter: the window keeps the latest of all.
pub proof fn lemma_samples_may_come_in_pieces(window: Seq<int>, first: Seq<i16>, second: Seq<i16>)
    requires
        window.len() <= FFT_SIZE,
        first.len() % 2 == 0,
        second.len() % 2 == 0,
    ensures
        ({
            let size = FFT_SIZE as int;
            spectrum::last(
                spectrum::last(window + spectrum::mono(first), size) + spectrum::mono(second),
                size,
            ) == spectrum::last(window + spectrum::mono(first + second), size)
        }),
{
    let size = FFT_SIZE as int;
    let a = spectrum::mono(first);
    let b = spectrum::mono(second);
    assert(spectrum::mono(first + second) =~= a + b);
    assert(window + (a + b) =~= (window + a) + b);
    assert(spectrum::last(spectrum::last(window + a, size) + b, size) =~= spectrum::last(
        (window + a) + b,
        size,
    ));
}

/// Analysis of a packet is stale as soon as an action changes anything: it cannot cross a
/// pause, a restart or a change of song.
pub proof fn lemma_actions_make_analysis_stale(
    state: PlaybackView,
    now: int,
    action: Action,
    tag: Tag,
    later: int,
)
    requires
        playback::valid(state),
        state.next_us <= now <= u64::MAX,
        tag.due == playback::packet(playback::at_deadline(state, now)),
        ({
            let after = playback::handed_out(playback::at_deadline(state, now));
            playback::applied(after, action) != after
        }),
    ensures
        ({
            let after = playback::handed_out(playback::at_deadline(state, now));
            !spectrum::fresh(tag, playback::applied(after, action).epoch, later)
        }),
{
    playback::laws::lemma_playback_stays_valid(state, now, action);
    playback::laws::lemma_actions_that_change_playback_change_the_epoch(
        playback::handed_out(playback::at_deadline(state, now)),
        action,
    );
}

/// Analysis of a packet is stale once playback has moved on to another song, for stalls of less
/// than 2^32 - 1 frames.
pub proof fn lemma_a_new_song_makes_analysis_stale(
    state: PlaybackView,
    tag: Tag,
    now: int,
    later: int,
)
    requires
        playback::valid(state),
        tag.due.epoch == state.epoch,
        state.next_us <= now <= u64::MAX,
        playback::late(state, now) < 0xffff_ffff,
        playback::at_deadline(state, now).revision != state.revision,
    ensures
        !spectrum::fresh(tag, playback::at_deadline(state, now).epoch, later),
{
    if playback::at_deadline(state, now).epoch == state.epoch {
        playback::laws::lemma_an_unchanged_epoch_means_the_same_song(state, now);
    }
}

/// The timestamps of two packets differ by 20 ms for each frame between them.
proof fn lemma_timestamps(elapsed: int, frames: int)
    ensures
        playback::wrap32(playback::wrap64(elapsed + frames) * 20) == playback::wrap32(
            playback::wrap32(elapsed * 20) + frames * 20,
        ),
{
    let word: int = 0x1_0000_0000;
    let sum = elapsed + frames;
    lemma_fundamental_div_mod(sum, word * word);
    let turns = sum / (word * word);
    assert(playback::wrap64(sum) * 20 == word * (-(word * turns * 20)) + sum * 20) by {
        assert(word * word * turns * 20 == word * (word * turns * 20)) by (nonlinear_arith);
    }
    lemma_mod_multiples_vanish(-(word * turns * 20), sum * 20, word);
    lemma_add_mod_noop_right(frames * 20, elapsed * 20, word);
}

/// A timestamp that moves on by less than a full turn of frames comes back only where it did
/// not move.
proof fn lemma_stamps_differ(stamp: int, missed: int)
    requires
        0 <= stamp <= u32::MAX,
        0 <= missed < 0x4000_0000,
    ensures
        playback::wrap32(stamp + (1 + missed) * 20) == playback::wrap32(stamp + 20) <==> missed
            == 0,
{
}

/// The clock of a deadline that comes after another.
proof fn lemma_clock_of_the_next(after: PlaybackView, before: int, now: int)
    requires
        playback::valid(after),
        after.next_us <= now <= u64::MAX,
        after.elapsed == playback::wrap64(before + 1),
    ensures
        playback::at_deadline(after, now).elapsed == playback::wrap64(
            before + 1 + playback::late(after, now),
        ),
        0 <= playback::late(after, now),
{
    let missed = playback::late(after, now);
    lemma_fundamental_div_mod(now - after.next_us, FRAME_US as int);
    lemma_add_mod_noop_right(missed, before + 1, 0x1_0000_0000_0000_0000);
    assert(playback::at_deadline(after, now).elapsed == playback::wrap64(after.elapsed + missed));
}

/// Packets of deadlines that are met one after the other continue each other as long as the
/// epoch stays; after a skipped packet (fewer than 2^30 of them) decoding starts afresh.
pub proof fn lemma_met_deadlines_continue(state: PlaybackView, now: int)
    requires
        playback::valid(state),
        ({
            let after = playback::handed_out(playback::at_deadline(state, state.next_us));
            &&& after.next_us <= now <= u64::MAX
            &&& playback::late(after, now) < 0x4000_0000
        }),
    ensures
        ({
            let first = playback::at_deadline(state, state.next_us);
            let after = playback::handed_out(first);
            let second = playback::at_deadline(after, now);
            spectrum::continues(playback::packet(first), playback::packet(second)) <==> (
            second.epoch == first.epoch && playback::late(after, now) == 0)
        }),
{
    let first = playback::at_deadline(state, state.next_us);
    let after = playback::handed_out(first);
    let second = playback::at_deadline(after, now);
    playback::laws::lemma_playback_stays_valid(state, state.next_us, Action::Play);
    playback::laws::lemma_playback_stays_valid(after, now, Action::Play);
    lemma_continues_by_the_clock(first, after, second, now);
}

/// Whether a packet continues another, by the clock alone.
proof fn lemma_continues_by_the_clock(
    first: PlaybackView,
    after: PlaybackView,
    second: PlaybackView,
    now: int,
)
    requires
        playback::valid(first),
        playback::valid(after),
        playback::valid(second),
        after == playback::handed_out(first),
        second == playback::at_deadline(after, now),
        after.next_us <= now <= u64::MAX,
        playback::late(after, now) < 0x4000_0000,
    ensures
        spectrum::continues(playback::packet(first), playback::packet(second)) <==> (second.epoch
            == first.epoch && playback::late(after, now) == 0),
{
    let missed = playback::late(after, now);
    lemma_clock_of_the_next(after, first.elapsed, now);
    lemma_timestamps(first.elapsed, 1 + missed);
    let stamp = playback::wrap32(first.elapsed * 20);
    lemma_stamps_differ(stamp, missed);
    assert(playback::packet(first).pts_ms == stamp);
    assert(playback::packet(second).pts_ms == playback::wrap32(stamp + (1 + missed) * 20));
}

/// Each mono sample is the sum of both channels of its pair, whatever they are.
pub proof fn lemma_mono_is_the_sum_of_both_channels(pcm: Seq<i16>)
    ensures
        spectrum::mono(pcm).len() == pcm.len() / 2,
        forall|i: int|
            0 <= i && 2 * i + 1 < pcm.len() ==> #[trigger] spectrum::mono(pcm)[i] == pcm[2 * i]
                + pcm[2 * i + 1],
{
}

/// It does not matter which channel is left and which is right.
pub proof fn lemma_channels_may_be_swapped(pcm: Seq<i16>, swapped: Seq<i16>)
    requires
        pcm.len() % 2 == 0,
        swapped.len() == pcm.len(),
        forall|i: int|
            0 <= i < pcm.len() / 2 ==> #[trigger] swapped[2 * i] == pcm[2 * i + 1],
        forall|i: int|
            0 <= i < pcm.len() / 2 ==> #[trigger] swapped[2 * i + 1] == pcm[2 * i],
    ensures
        spectrum::mono(swapped) == spectrum::mono(pcm),
{
    assert forall|i: int| 0 <= i < pcm.len() / 2 implies spectrum::mono(swapped)[i]
        == spectrum::mono(pcm)[i] by {
        assert(swapped[2 * i] == pcm[2 * i + 1]);
        assert(swapped[2 * i + 1] == pcm[2 * i]);
    }
    assert(spectrum::mono(swapped) =~= spectrum::mono(pcm));
}

/// The mix is linear: to raise one sample of either channel raises its mono sample by as much and
/// leaves the others.
pub proof fn lemma_the_mix_is_linear(pcm: Seq<i16>, at: int, value: i16)
    requires
        pcm.len() % 2 == 0,
        0 <= at < pcm.len(),
    ensures
        spectrum::mono(pcm.update(at, value)) == spectrum::mono(pcm).update(
            at / 2,
            spectrum::mono(pcm)[at / 2] + value - pcm[at],
        ),
{
    let changed = pcm.update(at, value);
    let wanted = spectrum::mono(pcm).update(
        at / 2,
        spectrum::mono(pcm)[at / 2] + value - pcm[at],
    );
    assert(spectrum::mono(changed) =~= wanted);
}

/// The window keeps the latest 2,048 of all samples, in order: fewer only where fewer have come.
pub proof fn lemma_the_window_keeps_the_latest_samples(window: Seq<int>, pcm: Seq<i16>)
    requires
        window.len() <= 2048,
        pcm.len() % 2 == 0,
    ensures
        ({
            let pairs = pcm.len() as int / 2;
            let after = spectrum::last(window + spectrum::mono(pcm), FFT_SIZE as int);
            &&& after.len() == if window.len() + pairs < 2048 {
                window.len() + pairs
            } else {
                2048
            }
            &&& forall|age: int|
                1 <= age <= after.len() ==> #[trigger] after[after.len() - age] == if age
                    <= pairs {
                    pcm[2 * (pairs - age)] + pcm[2 * (pairs - age) + 1]
                } else {
                    window[window.len() + pairs - age]
                }
        }),
{
    let pairs = pcm.len() as int / 2;
    let all = window + spectrum::mono(pcm);
    let after = spectrum::last(all, FFT_SIZE as int);
    assert forall|age: int| 1 <= age <= after.len() implies #[trigger] after[after.len() - age]
        == if age <= pairs {
        pcm[2 * (pairs - age)] + pcm[2 * (pairs - age) + 1]
    } else {
        window[window.len() + pairs - age]
    } by {
        assert(after[after.len() - age] == all[all.len() - age]);
        if age <= pairs {
            assert(all[all.len() - age] == spectrum::mono(pcm)[pairs - age]);
        }
    }
}

/// The transform's input is the samples in order as real parts, each with no imaginary part.
pub proof fn lemma_samples_are_real(samples: Seq<int>)
    ensures
        spectrum::complex(samples).len() == 2 * samples.len(),
        forall|i: int|
            0 <= i < samples.len() ==> {
                &&& #[trigger] spectrum::complex(samples)[2 * i] == samples[i]
                &&& spectrum::complex(samples)[2 * i + 1] == 0
            },
{
}

/// A full window of new samples is transformed as they came: the real parts are the sums of the
/// pairs from the first to the last, whatever was in the window before.
pub proof fn lemma_a_full_window_is_transformed_as_it_came(window: Seq<int>, pcm: Seq<i16>)
    requires
        window.len() <= 2048,
        pcm.len() == 4096,
    ensures
        ({
            let after = spectrum::last(window + spectrum::mono(pcm), FFT_SIZE as int);
            &&& after.len() == 2048
            &&& spectrum::complex(after).len() == 4096
            &&& forall|i: int|
                0 <= i < 2048 ==> {
                    &&& #[trigger] spectrum::complex(after)[2 * i] == pcm[2 * i] + pcm[2 * i + 1]
                    &&& spectrum::complex(after)[2 * i + 1] == 0
                }
        }),
{
    lemma_the_window_keeps_the_latest_samples(window, pcm);
    let after = spectrum::last(window + spectrum::mono(pcm), FFT_SIZE as int);
    lemma_samples_are_real(after);
    assert forall|i: int| 0 <= i < 2048 implies {
        &&& #[trigger] spectrum::complex(after)[2 * i] == pcm[2 * i] + pcm[2 * i + 1]
        &&& spectrum::complex(after)[2 * i + 1] == 0
    } by {
        assert(after[after.len() - (2048 - i)] == after[i]);
    }
}

/// A band between two different bins covers all the bins from the one to before the other that
/// are neither the constant component nor beyond half the sample rate, and no others. A band
/// between two equal ones covers the nearest bin alone, but never the constant component.
pub proof fn lemma_a_band_covers_its_bins(first: int, end: int, nearest: int, bin: int)
    requires
        0 <= first,
        0 <= end,
        0 <= nearest,
    ensures
        ({
            let (from, to) = spectrum::bins(first, end, nearest);
            &&& first != end ==> (from <= bin < to <==> first <= bin < end && 1 <= bin <= 1024)
            &&& first == end ==> (from <= bin < to <==> bin == if nearest == 0 {
                1
            } else {
                nearest
            })
        }),
{
}

/// Analysis counts for 120 ms from when it was handed over, in its own epoch alone, and never
/// before.
pub proof fn lemma_analysis_counts_for_120_ms(tag: Tag, epoch: int, now: int)
    ensures
        spectrum::fresh(tag, epoch, now) <==> {
            &&& epoch == tag.due.epoch
            &&& 0 <= now - tag.queued_us <= 120_000
        },
{
}

/// A packet continues another exactly where it has the same epoch and its timestamp is 20 ms
/// later, also where the timestamp turns over; so each packet is continued by one timestamp.
pub proof fn lemma_a_packet_continues_the_one_20_ms_before(last: Due, due: Due)
    ensures
        spectrum::continues(last, due) <==> {
            &&& due.epoch == last.epoch
            &&& due.pts_ms - last.pts_ms == 20 || due.pts_ms - last.pts_ms == 20 - 0x1_0000_0000
        },
{
}

/// The sizes of analysis: 2,048 samples at 48 kHz, 960 stereo pairs to a packet.
pub proof fn lemma_sizes_of_analysis()
    ensures
        FFT_SIZE == 2048,
        spectrum::SAMPLE_RATE == 48_000,
        spectrum::STEREO_SAMPLES == 2 * 960,
        spectrum::HISTORY_FLOATS == 2 * 2048,
        spectrum::MAX_AGE_US == 120_000,
{
}

/// The text of a window tells how many samples it holds, and the size of the transform.
pub proof fn lemma_a_window_tells_how_far_it_is_filled(filled: nat)
    ensures
        ({
            let shown = spectrum::window_text(filled as int);
            &&& shown.take(17) == "Window { filled: "@
            &&& text::digits_value(shown.subrange(17, shown.len() - 22), 10) == filled
            &&& shown.skip(shown.len() - 22) == ", fft_size: 2048, .. }"@
        }),
{
    reveal_strlit("Window { filled: ");
    reveal_strlit(", fft_size: 2048, .. }");
    let shown = spectrum::window_text(filled as int);
    assert("Window { filled: "@.len() == 17 && ", fft_size: 2048, .. }"@.len() == 22);
    assert(shown.take(17) =~= "Window { filled: "@);
    assert(shown.subrange(17, shown.len() - 22) =~= text::decimal(filled));
    assert(shown.skip(shown.len() - 22) =~= ", fft_size: 2048, .. }"@);
    text::lemma_decimal_reads_back(filled);
}

} // verus!
