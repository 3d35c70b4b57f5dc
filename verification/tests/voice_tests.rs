use rust_synth::envelope::EnvelopeStage;
use rust_synth::note::Note;
use rust_synth::voices::{Voice, VoiceBank};

fn stages(bank: &VoiceBank<u32>) -> Vec<(u8, EnvelopeStage, u32)> {
    (0..bank.len())
        .map(|i| {
            let v = bank.voice(i);
            (v.note().midi, v.envelope.stage(), v.sound)
        })
        .collect()
}

#[test]
fn new_voice_is_silent() {
    let mut v = Voice::new(Note { midi: 60 }, 7u32);
    assert_eq!(v.note(), Note { midi: 60 });
    assert!(v.is_finished());
    v.note_on();
    assert!(!v.is_finished());
    assert_eq!(v.envelope.stage(), EnvelopeStage::Attack);
    v.note_off();
    assert_eq!(v.envelope.stage(), EnvelopeStage::Release);
    assert_eq!(v.sound, 7);
}

#[test]
fn bank_note_on_appends_silent_voice() {
    let mut bank: VoiceBank<u32> = VoiceBank::new();
    assert_eq!(bank.len(), 0);
    bank.note_on(Note { midi: 60 }, 1);
    bank.note_on(Note { midi: 64 }, 2);
    assert_eq!(
        stages(&bank),
        vec![(60, EnvelopeStage::Idle, 1), (64, EnvelopeStage::Idle, 2)]
    );
}

#[test]
fn bank_unstruck_voices_are_dropped() {
    let mut bank: VoiceBank<u32> = VoiceBank::new();
    bank.note_on(Note { midi: 60 }, 1);
    bank.remove_finished();
    assert_eq!(bank.len(), 0);
}

#[test]
fn bank_note_off_releases_matching_voices() {
    let mut bank: VoiceBank<u32> = VoiceBank::new();
    bank.note_on(Note { midi: 60 }, 1);
    bank.note_on(Note { midi: 64 }, 2);
    bank.note_on(Note { midi: 60 }, 3);
    bank.voice_mut(1).note_on();
    bank.note_off(Note { midi: 60 });
    assert_eq!(
        stages(&bank),
        vec![
            (60, EnvelopeStage::Release, 1),
            (64, EnvelopeStage::Attack, 2),
            (60, EnvelopeStage::Release, 3)
        ]
    );
    bank.note_off(Note { midi: 61 });
    assert_eq!(bank.len(), 3);
}

#[test]
fn bank_remove_finished_keeps_order() {
    let mut bank: VoiceBank<u32> = VoiceBank::new();
    for (i, midi) in [60u8, 62, 64, 65, 67].iter().enumerate() {
        bank.note_on(Note { midi: *midi }, i as u32);
    }
    bank.voice_mut(0).note_on();
    bank.voice_mut(2).note_on();
    bank.voice_mut(3).note_off();
    bank.voice_mut(3).envelope.advance(true);
    bank.voice_mut(4).note_off();
    bank.remove_finished();
    assert_eq!(
        stages(&bank),
        vec![
            (60, EnvelopeStage::Attack, 0),
            (64, EnvelopeStage::Attack, 2),
            (67, EnvelopeStage::Release, 4)
        ]
    );
}
