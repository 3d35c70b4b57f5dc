use std::collections::BTreeSet;

use rust_synth::envelope::{Envelope, EnvelopeStage};
use rust_synth::keyboard::{
    key_to_midi, major_scale_degree, scale_note, Key, KeyEvent, KeyboardState, NoteCommand,
};
use rust_synth::note::{midi_to_name, Note};
use rust_synth::oscillator::{same_waveform, waveform_name, Waveform};
use rust_synth::piano::{black_keys, key_name, white_key_shortcut, white_keys};

fn press(key: Key) -> KeyEvent {
    KeyEvent { key, pressed: true, repeat: false }
}

fn release(key: Key) -> KeyEvent {
    KeyEvent { key, pressed: false, repeat: false }
}

fn repeat(key: Key) -> KeyEvent {
    KeyEvent { key, pressed: true, repeat: true }
}

const ALL_KEYS: [Key; 27] = [
    Key::A, Key::B, Key::C, Key::D, Key::E, Key::F, Key::G, Key::H, Key::I, Key::J, Key::K,
    Key::L, Key::M, Key::N, Key::O, Key::P, Key::Q, Key::R, Key::S, Key::T, Key::U, Key::V,
    Key::W, Key::X, Key::Y, Key::Z, Key::Other,
];

#[test]
fn major_scale_degrees() {
    let steps: Vec<u8> = (0..7).map(major_scale_degree).collect();
    assert_eq!(steps, vec![0, 2, 4, 5, 7, 9, 11]);
}

#[test]
fn scale_note_values() {
    assert_eq!(scale_note(12, 5, 0), 72);
    assert_eq!(scale_note(12, 4, 9), 76);
    assert_eq!(scale_note(12, 3, 5), 57);
    assert_eq!(scale_note(12, 5, 7), 84);
    assert_eq!(scale_note(60, 0, 13), 83);
}

#[test]
fn scale_note_narrows_to_a_byte() {
    // -12 wraps to 244, 271 wraps to 15.
    assert_eq!(scale_note(0, -1, 0), 244);
    assert_eq!(scale_note(255, 0, 9), 15);
}

#[test]
fn scale_note_seven_degrees_is_an_octave() {
    for degree in 0..20usize {
        assert_eq!(scale_note(12, 3, degree + 7), scale_note(12, 4, degree));
    }
}

#[test]
fn key_to_midi_rows() {
    assert_eq!(key_to_midi(Key::A), Some(72));
    assert_eq!(key_to_midi(Key::P), Some(88));
    assert_eq!(key_to_midi(Key::Q), Some(60));
    assert_eq!(key_to_midi(Key::M), Some(76));
    assert_eq!(key_to_midi(Key::W), Some(48));
    assert_eq!(key_to_midi(Key::N), Some(57));
    assert_eq!(key_to_midi(Key::Other), None);
}

#[test]
fn key_to_midi_rows_an_octave_apart() {
    let top = [Key::A, Key::Z, Key::E, Key::R, Key::T, Key::Y, Key::U, Key::I, Key::O, Key::P];
    let mid = [Key::Q, Key::S, Key::D, Key::F, Key::G, Key::H, Key::J, Key::K, Key::L, Key::M];
    let low = [Key::W, Key::X, Key::C, Key::V, Key::B, Key::N];
    for i in 0..10 {
        assert_eq!(key_to_midi(top[i]).unwrap(), key_to_midi(mid[i]).unwrap() + 12);
    }
    for i in 0..6 {
        assert_eq!(key_to_midi(mid[i]).unwrap(), key_to_midi(low[i]).unwrap() + 12);
    }
}

#[test]
fn every_key_plays_c_major() {
    for key in ALL_KEYS {
        if let Some(n) = key_to_midi(key) {
            assert!([0, 2, 4, 5, 7, 9, 11].contains(&(n % 12)));
            assert!((48..=88).contains(&n));
        }
    }
}

#[test]
fn midi_names() {
    assert_eq!(midi_to_name(60), "C4");
    assert_eq!(midi_to_name(69), "A4");
    assert_eq!(midi_to_name(0), "C-1");
    assert_eq!(midi_to_name(1), "C#-1");
    assert_eq!(midi_to_name(11), "B-1");
    assert_eq!(midi_to_name(12), "C0");
    assert_eq!(midi_to_name(127), "G9");
    assert_eq!(midi_to_name(120), "C9");
    assert_eq!(midi_to_name(130), "A#9");
    assert_eq!(midi_to_name(132), "C10");
    assert_eq!(midi_to_name(255), "D#20");
}

#[test]
fn midi_names_follow_format() {
    let names = ["C", "C#", "D", "D#", "E", "F", "F#", "G", "G#", "A", "A#", "B"];
    for midi in 0..=255u8 {
        let expected = format!("{}{}", names[(midi % 12) as usize], midi as i32 / 12 - 1);
        assert_eq!(midi_to_name(midi), expected);
    }
}

#[test]
fn waveform_names() {
    assert_eq!(waveform_name(Waveform::Sine), "SINE");
    assert_eq!(waveform_name(Waveform::Saw), "SAW");
    assert_eq!(waveform_name(Waveform::Square), "SQUARE");
    assert_eq!(waveform_name(Waveform::Triangle), "TRIANGLE");
}

#[test]
fn waveform_equality() {
    let all = [Waveform::Sine, Waveform::Saw, Waveform::Square, Waveform::Triangle];
    for (i, a) in all.iter().enumerate() {
        for (j, b) in all.iter().enumerate() {
            assert_eq!(same_waveform(*a, *b), i == j);
            assert_eq!(waveform_name(*a) == waveform_name(*b), i == j);
        }
    }
}

#[test]
fn note_equality() {
    assert_eq!(Note { midi: 60 }, Note { midi: 60 });
    assert_ne!(Note { midi: 60 }, Note { midi: 61 });
}

#[test]
fn envelope_starts_silent() {
    let env = Envelope::new();
    assert_eq!(env.stage(), EnvelopeStage::Idle);
    assert!(env.is_finished());
}

#[test]
fn envelope_attack_decay_sustain() {
    let mut env = Envelope::new();
    env.note_on();
    assert_eq!(env.stage(), EnvelopeStage::Attack);
    assert!(!env.is_finished());
    env.advance(false);
    assert_eq!(env.stage(), EnvelopeStage::Attack);
    env.advance(true);
    assert_eq!(env.stage(), EnvelopeStage::Decay);
    env.advance(false);
    assert_eq!(env.stage(), EnvelopeStage::Decay);
    env.advance(true);
    assert_eq!(env.stage(), EnvelopeStage::Sustain);
    env.advance(true);
    assert_eq!(env.stage(), EnvelopeStage::Sustain);
    assert!(!env.is_finished());
}

#[test]
fn envelope_release_to_idle() {
    let mut env = Envelope::new();
    env.note_on();
    env.advance(true);
    env.note_off();
    assert_eq!(env.stage(), EnvelopeStage::Release);
    assert!(!env.is_finished());
    env.advance(false);
    assert_eq!(env.stage(), EnvelopeStage::Release);
    env.advance(true);
    assert_eq!(env.stage(), EnvelopeStage::Idle);
    assert!(env.is_finished());
    env.advance(true);
    assert_eq!(env.stage(), EnvelopeStage::Idle);
}

#[test]
fn envelope_note_off_when_idle_enters_release() {
    let mut env = Envelope::new();
    env.note_off();
    assert_eq!(env.stage(), EnvelopeStage::Release);
    assert!(!env.is_finished());
}

#[test]
fn envelope_retrigger() {
    let mut env = Envelope::new();
    env.note_on();
    env.note_off();
    env.note_on();
    assert_eq!(env.stage(), EnvelopeStage::Attack);
}

#[test]
fn keyboard_press_and_release() {
    let mut kb = KeyboardState::new();
    assert_eq!(kb.handle_key(press(Key::Q)), Some(NoteCommand::NoteOn(60)));
    assert!(kb.keyboard_note_is_active(60));
    assert_eq!(kb.active_notes(), vec![60]);
    assert_eq!(kb.handle_key(repeat(Key::Q)), None);
    assert_eq!(kb.handle_key(press(Key::Q)), None);
    assert_eq!(kb.handle_key(release(Key::Q)), Some(NoteCommand::NoteOff(60)));
    assert!(!kb.keyboard_note_is_active(60));
    assert_eq!(kb.active_notes(), Vec::<u8>::new());
}

#[test]
fn keyboard_ignores_unmapped_and_unheld() {
    let mut kb = KeyboardState::new();
    assert_eq!(kb.handle_key(press(Key::Other)), None);
    assert_eq!(kb.handle_key(release(Key::Other)), None);
    assert_eq!(kb.handle_key(release(Key::A)), None);
    assert_eq!(kb.active_notes(), Vec::<u8>::new());
}

#[test]
fn keyboard_shared_note_stays_until_last_key() {
    // A and K both play 72.
    let mut kb = KeyboardState::new();
    assert_eq!(kb.handle_key(press(Key::A)), Some(NoteCommand::NoteOn(72)));
    assert_eq!(kb.handle_key(press(Key::K)), Some(NoteCommand::NoteOn(72)));
    assert_eq!(kb.active_notes(), vec![72]);
    assert_eq!(kb.handle_key(release(Key::A)), None);
    assert!(kb.keyboard_note_is_active(72));
    assert_eq!(kb.handle_key(release(Key::K)), Some(NoteCommand::NoteOff(72)));
    assert!(!kb.keyboard_note_is_active(72));
}

#[test]
fn keyboard_active_notes_order() {
    let mut kb = KeyboardState::new();
    kb.handle_key(press(Key::D));
    kb.handle_key(press(Key::Q));
    kb.handle_key(press(Key::I));
    kb.handle_key(press(Key::K));
    assert_eq!(kb.active_notes(), vec![64, 60, 84, 72]);
    kb.handle_pointer(true, Some(60));
    assert_eq!(kb.active_notes(), vec![64, 60, 84, 72]);
    kb.handle_pointer(true, Some(62));
    assert_eq!(kb.active_notes(), vec![64, 60, 84, 72, 62]);
}

#[test]
fn keyboard_batch_of_events() {
    let mut kb = KeyboardState::new();
    let events = vec![
        press(Key::W),
        repeat(Key::W),
        press(Key::X),
        release(Key::W),
        press(Key::Other),
        release(Key::X),
    ];
    assert_eq!(
        kb.handle_keyboard(&events),
        vec![
            NoteCommand::NoteOn(48),
            NoteCommand::NoteOn(50),
            NoteCommand::NoteOff(48),
            NoteCommand::NoteOff(50),
        ]
    );
    assert_eq!(kb.active_notes(), Vec::<u8>::new());
}

#[test]
fn pointer_moves_between_keys() {
    let mut kb = KeyboardState::new();
    assert_eq!(kb.handle_pointer(true, Some(60)), vec![NoteCommand::NoteOn(60)]);
    assert_eq!(kb.mouse_note(), Some(60));
    assert_eq!(kb.handle_pointer(true, Some(60)), vec![]);
    assert_eq!(
        kb.handle_pointer(true, Some(62)),
        vec![NoteCommand::NoteOff(60), NoteCommand::NoteOn(62)]
    );
    assert_eq!(kb.handle_pointer(true, None), vec![]);
    assert_eq!(kb.mouse_note(), Some(62));
    assert_eq!(kb.handle_pointer(false, Some(62)), vec![NoteCommand::NoteOff(62)]);
    assert_eq!(kb.mouse_note(), None);
    assert_eq!(kb.handle_pointer(false, None), vec![]);
}

#[test]
fn pointer_and_key_share_a_note() {
    let mut kb = KeyboardState::new();
    kb.handle_key(press(Key::Q));
    assert_eq!(kb.handle_pointer(true, Some(60)), vec![NoteCommand::NoteOn(60)]);
    // the key still holds 60
    assert_eq!(kb.handle_pointer(false, None), vec![]);
    assert!(kb.keyboard_note_is_active(60));
    kb.handle_pointer(true, Some(62));
    // the mouse holds 62, so letting go of a key that plays 60 releases 60
    assert_eq!(kb.handle_key(release(Key::Q)), Some(NoteCommand::NoteOff(60)));
    // a key pressed on the mouse's note, then let go: the mouse still holds it
    assert_eq!(kb.handle_key(press(Key::D)), Some(NoteCommand::NoteOn(64)));
    kb.handle_pointer(true, Some(64));
    assert_eq!(kb.handle_key(release(Key::D)), None);
}

#[test]
fn commands_track_held_notes() {
    let mut kb = KeyboardState::new();
    let mut sounding: BTreeSet<u8> = BTreeSet::new();
    let script: Vec<KeyEvent> = vec![
        press(Key::A),
        press(Key::K),
        press(Key::Q),
        release(Key::A),
        repeat(Key::K),
        release(Key::Q),
        release(Key::K),
        press(Key::P),
    ];
    let mut apply = |cmds: Vec<NoteCommand>, sounding: &mut BTreeSet<u8>| {
        for c in cmds {
            match c {
                NoteCommand::NoteOn(n) => {
                    sounding.insert(n);
                }
                NoteCommand::NoteOff(n) => {
                    sounding.remove(&n);
                }
            }
        }
    };
    for (i, ev) in script.iter().enumerate() {
        let cmd = kb.handle_key(*ev);
        apply(cmd.into_iter().collect(), &mut sounding);
        if i == 3 {
            apply(kb.handle_pointer(true, Some(72)), &mut sounding);
        }
        if i == 5 {
            apply(kb.handle_pointer(false, None), &mut sounding);
        }
        let active: BTreeSet<u8> = kb.active_notes().into_iter().collect();
        assert_eq!(active, sounding);
    }
}

#[test]
fn piano_white_keys() {
    assert_eq!(
        white_keys(),
        vec![48, 50, 52, 53, 55, 57, 59, 60, 62, 64, 65, 67, 69, 71, 72, 74, 76, 77, 79, 81, 83, 84]
    );
}

#[test]
fn piano_shortcuts_play_their_keys() {
    let white = white_keys();
    let labels = [
        "W", "X", "C", "V", "B", "N", "", "Q", "S", "D", "F", "G", "H", "J", "A", "Z", "E", "R",
        "T", "Y", "U", "I",
    ];
    for i in 0..22 {
        match white_key_shortcut(i) {
            Some(key) => {
                assert_eq!(key_to_midi(key), Some(white[i]));
                assert_eq!(key_name(key), labels[i]);
            }
            None => assert_eq!(labels[i], ""),
        }
    }
}

#[test]
fn piano_black_keys() {
    assert_eq!(
        black_keys(),
        vec![(1, 49), (3, 53), (6, 58), (8, 61), (10, 65), (13, 70), (15, 73), (18, 78), (20, 82)]
    );
}

#[test]
fn key_names() {
    assert_eq!(key_name(Key::A), "A");
    assert_eq!(key_name(Key::Z), "Z");
    assert_eq!(key_name(Key::Other), "");
}
