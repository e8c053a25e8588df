//! The PC speaker, driven by channel 2 of the programmable interval timer.
//!
//! The functions here decide what is to be written to which port and how
//! long to wait in between; carrying the steps out is left to the caller.

use vstd::prelude::*;

verus! {

/// Data port of channel 2 of the interval timer.
pub const PIT_CHANNEL_2_DATA_PORT: u16 = 0x42;

/// Command port of the interval timer.
pub const PIT_COMMAND_PORT: u16 = 0x43;

/// Control port of the speaker.
pub const PC_SPEAKER_CONTROL_PORT: u16 = 0x61;

/// The rate at which the interval timer counts, in Hz.
pub const PIT_FREQUENCY: u32 = 1193180;

/// One step in driving the speaker.
#[derive(Clone, Copy, PartialEq, Eq, Structural, Debug)]
pub enum SpeakerStep {
    /// Write `value` to `port`.
    Write { port: u16, value: u8 },
    /// Read `port`, set the bits of `mask` in what was read, write it back.
    SetBits { port: u16, mask: u8 },
    /// Read `port`, clear the bits of `mask` in what was read, write it back.
    ClearBits { port: u16, mask: u8 },
    /// Wait until `ticks` timer ticks have passed.
    Sleep { ticks: u64 },
}

/// The value that makes the timer's channel 2 divide its rate down to
/// `frequency`: the quotient, cut to 16 bits.
pub open spec fn pit_divisor_spec(frequency: u32) -> u16 {
    ((1193180int / frequency as int) % 0x1_0000) as u16
}

/// The steps that start a tone of `frequency` Hz: channel 2 is set to
/// square-wave mode, the divisor is written low byte first, and the speaker
/// is switched on.
pub open spec fn start_steps(frequency: u32) -> Seq<SpeakerStep> {
    seq![
        SpeakerStep::Write { port: 0x43, value: 0xB6 },
        SpeakerStep::Write { port: 0x42, value: (pit_divisor_spec(frequency) % 256) as u8 },
        SpeakerStep::Write { port: 0x42, value: (pit_divisor_spec(frequency) / 256) as u8 },
        SpeakerStep::SetBits { port: 0x61, mask: 0x03 },
    ]
}

/// The steps that stop the tone: the speaker is switched off.
pub open spec fn stop_steps() -> Seq<SpeakerStep> {
    seq![SpeakerStep::ClearBits { port: 0x61, mask: 0x03 }]
}

/// The steps that play one tone: start it, wait, stop it.
pub open spec fn play_steps(frequency: u32, duration_ticks: u64) -> Seq<SpeakerStep> {
    start_steps(frequency) + seq![SpeakerStep::Sleep { ticks: duration_ticks }] + stop_steps()
}

/// The steps that play a sequence of tones, one after the other.
pub open spec fn tune_steps(notes: Seq<(u32, u64)>) -> Seq<SpeakerStep>
    decreases notes.len(),
{
    if notes.len() == 0 {
        Seq::empty()
    } else {
        tune_steps(notes.drop_last()) + play_steps(notes.last().0, notes.last().1)
    }
}

/// The tones of the boot sound: four rising pairs of 100 Hz and 200 Hz, the
/// second of each pair twice as long as the first, then 400 Hz.
pub open spec fn boot_notes() -> Seq<(u32, u64)> {
    seq![
        (100u32, 1u64),
        (200u32, 2u64),
        (100u32, 2u64),
        (200u32, 4u64),
        (100u32, 3u64),
        (200u32, 6u64),
        (100u32, 4u64),
        (200u32, 8u64),
        (400u32, 5u64),
    ]
}

/// The tones of a drum roll: `times_around` times the base frequency and the
/// frequency 50 Hz above it, each for `tick_gap` ticks.
pub open spec fn drum_notes(tick_gap: u64, times_around: u64, base_frequency: u32) -> Seq<
    (u32, u64),
> {
    Seq::new(
        2 * times_around as nat,
        |k: int|
            if k % 2 == 0 {
                (base_frequency, tick_gap)
            } else {
                ((base_frequency + 50) as u32, tick_gap)
            },
    )
}

/// The control value with the speaker switched on.
pub fn speaker_on(control: u8) -> (r: u8)
    ensures
        r == control | 0x03,
{
    control | 0x03
}

/// The control value with the speaker switched off.
pub fn speaker_off(control: u8) -> (r: u8)
    ensures
        r == control & 0xFC,
{
    control & 0xFC
}

/// The divisor for a tone of `frequency` Hz.
pub fn pit_divisor(frequency: u32) -> (r: u16)
    requires
        frequency != 0,
    ensures
        r == pit_divisor_spec(frequency),
{
    let quotient: u32 = PIT_FREQUENCY / frequency;
    (quotient % 0x1_0000) as u16
}

/// The steps that start a tone of `frequency` Hz.
pub fn start_sound(frequency: u32) -> (steps: Vec<SpeakerStep>)
    requires
        frequency != 0,
    ensures
        steps@ == start_steps(frequency),
{
    let mut steps: Vec<SpeakerStep> = Vec::new();
    push_start(&mut steps, frequency);
    steps
}

/// The steps that stop the tone.
pub fn stop_sound() -> (steps: Vec<SpeakerStep>)
    ensures
        steps@ == stop_steps(),
{
    let mut steps: Vec<SpeakerStep> = Vec::new();
    steps.push(SpeakerStep::ClearBits { port: PC_SPEAKER_CONTROL_PORT, mask: 0x03 });
    steps
}

/// The steps that play a tone of `frequency` Hz for `duration_ticks` timer
/// ticks.
pub fn play_sound(frequency: u32, duration_ticks: u64) -> (steps: Vec<SpeakerStep>)
    requires
        frequency != 0,
    ensures
        steps@ == play_steps(frequency, duration_ticks),
{
    let mut steps: Vec<SpeakerStep> = Vec::new();
    push_note(&mut steps, frequency, duration_ticks);
    steps
}

/// The steps that play the boot sound.
pub fn boot_sound() -> (steps: Vec<SpeakerStep>)
    ensures
        steps@ == tune_steps(boot_notes()),
{
    let mut steps: Vec<SpeakerStep> = Vec::new();
    let ghost mut played: Seq<(u32, u64)> = Seq::empty();
    let mut i: u64 = 1;
    while i < 5
        invariant
            1 <= i <= 5,
            played == boot_notes().take(2 * (i - 1)),
            steps@ == tune_steps(played),
        decreases 5 - i,
    {
        push_note(&mut steps, 100, i);
        proof {
            lemma_tune_push(played, 100, i);
            played = played.push((100, i));
        }
        push_note(&mut steps, 200, i * 2);
        proof {
            lemma_tune_push(played, 200, (i * 2) as u64);
            played = played.push((200, (i * 2) as u64));
            assert(played =~= boot_notes().take(2 * i));
        }
        i += 1;
    }
    push_note(&mut steps, 400, 5);
    proof {
        lemma_tune_push(played, 400, 5);
        assert(played.push((400u32, 5u64)) =~= boot_notes());
    }
    steps
}

/// The steps that play a drum roll.
pub fn drum_roll(tick_gap: u64, times_around: u64, base_frequency: u32) -> (steps: Vec<
    SpeakerStep,
>)
    requires
        times_around > 0 ==> base_frequency != 0 && base_frequency + 50 <= u32::MAX,
    ensures
        steps@ == tune_steps(drum_notes(tick_gap, times_around, base_frequency)),
{
    let mut steps: Vec<SpeakerStep> = Vec::new();
    let ghost notes = drum_notes(tick_gap, times_around, base_frequency);
    let mut i: u64 = 0;
    while i < times_around
        invariant
            i <= times_around,
            times_around > 0 ==> base_frequency != 0 && base_frequency + 50 <= u32::MAX,
            notes == drum_notes(tick_gap, times_around, base_frequency),
            steps@ == tune_steps(notes.take(2 * i)),
        decreases times_around - i,
    {
        push_note(&mut steps, base_frequency, tick_gap);
        proof {
            lemma_tune_push(notes.take(2 * i), base_frequency, tick_gap);
            assert(notes.take(2 * i).push((base_frequency, tick_gap)) =~= notes.take(2 * i + 1));
        }
        push_note(&mut steps, base_frequency + 50, tick_gap);
        proof {
            lemma_tune_push(notes.take(2 * i + 1), (base_frequency + 50) as u32, tick_gap);
            assert(notes.take(2 * i + 1).push(((base_frequency + 50) as u32, tick_gap))
                =~= notes.take(2 * (i + 1)));
        }
        i += 1;
    }
    proof {
        assert(notes.take(2 * i) =~= notes);
    }
    steps
}

/// Appends the steps that start a tone.
fn push_start(steps: &mut Vec<SpeakerStep>, frequency: u32)
    requires
        frequency != 0,
    ensures
        final(steps)@ == old(steps)@ + start_steps(frequency),
{
    let divisor: u16 = pit_divisor(frequency);
    steps.push(SpeakerStep::Write { port: PIT_COMMAND_PORT, value: 0xB6 });
    steps.push(SpeakerStep::Write { port: PIT_CHANNEL_2_DATA_PORT, value: (divisor % 256) as u8 });
    steps.push(SpeakerStep::Write { port: PIT_CHANNEL_2_DATA_PORT, value: (divisor / 256) as u8 });
    steps.push(SpeakerStep::SetBits { port: PC_SPEAKER_CONTROL_PORT, mask: 0x03 });
    proof {
        assert(steps@ =~= old(steps)@ + start_steps(frequency));
    }
}

/// Appends the steps that play one tone.
fn push_note(steps: &mut Vec<SpeakerStep>, frequency: u32, duration_ticks: u64)
    requires
        frequency != 0,
    ensures
        final(steps)@ == old(steps)@ + play_steps(frequency, duration_ticks),
{
    push_start(steps, frequency);
    steps.push(SpeakerStep::Sleep { ticks: duration_ticks });
    steps.push(SpeakerStep::ClearBits { port: PC_SPEAKER_CONTROL_PORT, mask: 0x03 });
    proof {
        assert(steps@ =~= old(steps)@ + play_steps(frequency, duration_ticks));
    }
}

/// A tune with one more note is the tune, then the note.
proof fn lemma_tune_push(notes: Seq<(u32, u64)>, frequency: u32, duration_ticks: u64)
    ensures
        tune_steps(notes.push((frequency, duration_ticks))) == tune_steps(notes) + play_steps(
            frequency,
            duration_ticks,
        ),
{
    let longer = notes.push((frequency, duration_ticks));
    assert(longer.drop_last() =~= notes);
    assert(longer.last() == (frequency, duration_ticks));
}

} // verus!
