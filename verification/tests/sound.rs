use nesos::sound::pc_speaker::{
    boot_sound, drum_roll, pit_divisor, play_sound, speaker_off, speaker_on, start_sound,
    stop_sound, SpeakerStep,
};

fn note(divisor: u16, ticks: u64) -> Vec<SpeakerStep> {
    vec![
        SpeakerStep::Write { port: 0x43, value: 0xB6 },
        SpeakerStep::Write { port: 0x42, value: (divisor & 0xff) as u8 },
        SpeakerStep::Write { port: 0x42, value: (divisor >> 8) as u8 },
        SpeakerStep::SetBits { port: 0x61, mask: 3 },
        SpeakerStep::Sleep { ticks },
        SpeakerStep::ClearBits { port: 0x61, mask: 3 },
    ]
}

#[test]
fn divisor_is_the_quotient_cut_to_16_bits() {
    assert_eq!(pit_divisor(100), 11931);
    assert_eq!(pit_divisor(440), 2711);
    assert_eq!(pit_divisor(1193180), 1);
    assert_eq!(pit_divisor(2000000), 0);
    // 1193180 / 10 = 119318 = 0x1d216.
    assert_eq!(pit_divisor(10), 0xd216);
}

#[test]
fn speaker_bits() {
    assert_eq!(speaker_on(0x30), 0x33);
    assert_eq!(speaker_off(0x33), 0x30);
    assert_eq!(speaker_off(0xff), 0xfc);
}

#[test]
fn a_tone_is_started_held_and_stopped() {
    assert_eq!(
        start_sound(100),
        vec![
            SpeakerStep::Write { port: 0x43, value: 0xB6 },
            SpeakerStep::Write { port: 0x42, value: 0x9b },
            SpeakerStep::Write { port: 0x42, value: 0x2e },
            SpeakerStep::SetBits { port: 0x61, mask: 3 },
        ]
    );
    assert_eq!(stop_sound(), vec![SpeakerStep::ClearBits { port: 0x61, mask: 3 }]);
    assert_eq!(play_sound(100, 7), note(11931, 7));
}

#[test]
fn boot_sound_has_nine_tones() {
    let mut expected = Vec::new();
    for i in 1..5u64 {
        expected.extend(note(11931, i));
        expected.extend(note(5965, i * 2));
    }
    expected.extend(note(2982, 5));
    assert_eq!(boot_sound(), expected);
    assert_eq!(boot_sound().len(), 54);
}

#[test]
fn drum_roll_alternates_two_tones() {
    let mut expected = Vec::new();
    for _ in 0..3 {
        expected.extend(note((1193180u32 / 200) as u16, 1));
        expected.extend(note((1193180u32 / 250) as u16, 1));
    }
    assert_eq!(drum_roll(1, 3, 200), expected);
    assert!(drum_roll(1, 0, 200).is_empty());
}

#[test]
fn drum_roll_of_no_rounds_takes_any_frequency() {
    assert!(drum_roll(1, 0, 0).is_empty());
    assert!(drum_roll(7, 0, u32::MAX).is_empty());
}
