use vstd::prelude::*;

verus! {

/// The semitones above the tonic of each degree of the major scale.
pub open spec fn major_step(degree: int) -> int {
    if degree == 0 {
        0
    } else if degree == 1 {
        2
    } else if degree == 2 {
        4
    } else if degree == 3 {
        5
    } else if degree == 4 {
        7
    } else if degree == 5 {
        9
    } else {
        11
    }
}

/// The semitones above the tonic of a degree (0 to 6) of the major scale.
pub fn major_scale_degree(degree: usize) -> (r: u8)
    requires
        degree < 7,
    ensures
        r == major_step(degree as int),
{
    match degree {
        0 => 0,
        1 => 2,
        2 => 4,
        3 => 5,
        4 => 7,
        5 => 9,
        _ => 11,
    }
}

/// The whole octaves that a scale degree climbs, as the 16-bit integer that
/// `scale_note` computes with.
pub open spec fn degree_octaves(degree: usize) -> int {
    ((degree / 7) as i16) as int
}

/// The pitch of `degree` in the major scale on `root_midi`, `octave` octaves up,
/// before it is narrowed to a byte.
pub open spec fn scale_pitch(root_midi: u8, octave: i8, degree: usize) -> int {
    root_midi + octave * 12 + degree_octaves(degree) * 12 + major_step(degree as int % 7)
}

/// Whether every step of `scale_note`'s 16-bit arithmetic stays in range.
pub open spec fn scale_note_in_range(root_midi: u8, octave: i8, degree: usize) -> bool {
    &&& i16::MIN <= degree_octaves(degree) * 12 <= i16::MAX
    &&& i16::MIN <= root_midi + octave * 12 + degree_octaves(degree) * 12 <= i16::MAX
    &&& scale_pitch(root_midi, octave, degree) <= i16::MAX
}

/// The MIDI note of `degree` (counted from 0, and running on past the
/// octave) in the major scale on `root_midi`, shifted by `octave` octaves,
/// narrowed to a byte.
pub fn scale_note(root_midi: u8, octave: i8, degree: usize) -> (r: u8)
    requires
        scale_note_in_range(root_midi, octave, degree),
    ensures
        r == scale_pitch(root_midi, octave, degree) as u8,
{
    let octave_offset: i16 = octave as i16 * 12;
    let degree_octave: usize = degree / 7;
    let degree_in_octave: usize = degree % 7;
    let midi: i16 = root_midi as i16 + octave_offset + degree_octave as i16 * 12
        + major_scale_degree(degree_in_octave) as i16;
    midi as u8
}

/// Moving seven degrees up the scale is moving one octave up.
pub proof fn lemma_scale_note_seven_degrees(root_midi: u8, octave: i8, degree: usize)
    requires
        degree + 7 <= 7 * 2730,
        octave < i8::MAX,
    ensures
        scale_pitch(root_midi, octave, (degree + 7) as usize) == scale_pitch(
            root_midi,
            (octave + 1) as i8,
            degree,
        ),
{
    assert((degree + 7) as usize / 7 == degree / 7 + 1);
    assert(((degree + 7) as usize) as int % 7 == degree as int % 7);
}

/// A key of the computer keyboard, as far as the note mapping tells keys
/// apart: each letter, and every other key.
#[derive(Clone, Copy, Debug, PartialEq, Eq, Structural)]
pub enum Key {
    A,
    B,
    C,
    D,
    E,
    F,
    G,
    H,
    I,
    J,
    K,
    L,
    M,
    N,
    O,
    P,
    Q,
    R,
    S,
    T,
    U,
    V,
    W,
    X,
    Y,
    Z,
    Other,
}

/// The (octave, degree) of the C major scale that a key plays: the top letter
/// row of an AZERTY keyboard from octave 5, the middle row from octave 4 and
/// the bottom row from octave 3.
pub open spec fn key_position(key: Key) -> Option<(i8, usize)> {
    match key {
        Key::A => Some((5, 0)),
        Key::Z => Some((5, 1)),
        Key::E => Some((5, 2)),
        Key::R => Some((5, 3)),
        Key::T => Some((5, 4)),
        Key::Y => Some((5, 5)),
        Key::U => Some((5, 6)),
        Key::I => Some((5, 7)),
        Key::O => Some((5, 8)),
        Key::P => Some((5, 9)),
        Key::Q => Some((4, 0)),
        Key::S => Some((4, 1)),
        Key::D => Some((4, 2)),
        Key::F => Some((4, 3)),
        Key::G => Some((4, 4)),
        Key::H => Some((4, 5)),
        Key::J => Some((4, 6)),
        Key::K => Some((4, 7)),
        Key::L => Some((4, 8)),
        Key::M => Some((4, 9)),
        Key::W => Some((3, 0)),
        Key::X => Some((3, 1)),
        Key::C => Some((3, 2)),
        Key::V => Some((3, 3)),
        Key::B => Some((3, 4)),
        Key::N => Some((3, 5)),
        _ => None,
    }
}

/// The MIDI note that a key plays, if any.
pub open spec fn key_note(key: Key) -> Option<u8> {
    match key_position(key) {
        Some((octave, degree)) => Some(scale_pitch(12, octave, degree) as u8),
        None => None,
    }
}

/// The MIDI note that a key of the computer keyboard plays, if any.
pub fn key_to_midi(key: Key) -> (r: Option<u8>)
    ensures
        r == key_note(key),
{
    match key {
        Key::A => Some(scale_note(12, 5, 0)),
        Key::Z => Some(scale_note(12, 5, 1)),
        Key::E => Some(scale_note(12, 5, 2)),
        Key::R => Some(scale_note(12, 5, 3)),
        Key::T => Some(scale_note(12, 5, 4)),
        Key::Y => Some(scale_note(12, 5, 5)),
        Key::U => Some(scale_note(12, 5, 6)),
        Key::I => Some(scale_note(12, 5, 7)),
        Key::O => Some(scale_note(12, 5, 8)),
        Key::P => Some(scale_note(12, 5, 9)),
        Key::Q => Some(scale_note(12, 4, 0)),
        Key::S => Some(scale_note(12, 4, 1)),
        Key::D => Some(scale_note(12, 4, 2)),
        Key::F => Some(scale_note(12, 4, 3)),
        Key::G => Some(scale_note(12, 4, 4)),
        Key::H => Some(scale_note(12, 4, 5)),
        Key::J => Some(scale_note(12, 4, 6)),
        Key::K => Some(scale_note(12, 4, 7)),
        Key::L => Some(scale_note(12, 4, 8)),
        Key::M => Some(scale_note(12, 4, 9)),
        Key::W => Some(scale_note(12, 3, 0)),
        Key::X => Some(scale_note(12, 3, 1)),
        Key::C => Some(scale_note(12, 3, 2)),
        Key::V => Some(scale_note(12, 3, 3)),
        Key::B => Some(scale_note(12, 3, 4)),
        Key::N => Some(scale_note(12, 3, 5)),
        _ => None,
    }
}

/// Whether a pitch class (0 is C) belongs to the C major scale.
pub open spec fn in_c_major(pitch_class: int) -> bool {
    pitch_class == 0 || pitch_class == 2 || pitch_class == 4 || pitch_class == 5 || pitch_class
        == 7 || pitch_class == 9 || pitch_class == 11
}

/// Every key plays a note of the C major scale, between C3 (48) and E6 (88).
pub proof fn lemma_key_notes_in_c_major(key: Key)
    ensures
        key_note(key) matches Some(n) ==> in_c_major(n as int % 12) && 48 <= n <= 88,
{
}

/// The keys of the top letter row, A to P, of an AZERTY keyboard, left to right.
pub open spec fn top_row() -> Seq<Key> {
    seq![Key::A, Key::Z, Key::E, Key::R, Key::T, Key::Y, Key::U, Key::I, Key::O, Key::P]
}

/// The keys of the middle letter row, Q to M, of an AZERTY keyboard, left to right.
pub open spec fn middle_row() -> Seq<Key> {
    seq![Key::Q, Key::S, Key::D, Key::F, Key::G, Key::H, Key::J, Key::K, Key::L, Key::M]
}

/// The keys of the bottom letter row, W to N, of an AZERTY keyboard, left to right.
pub open spec fn bottom_row() -> Seq<Key> {
    seq![Key::W, Key::X, Key::C, Key::V, Key::B, Key::N]
}

/// The semitones above C of the seven notes of C major, C D E F G A B.
pub open spec fn c_major_semitones() -> Seq<int> {
    seq![0, 2, 4, 5, 7, 9, 11]
}

/// The `index`-th note (counted from 0) of C major going up from the C with
/// MIDI number `tonic`.
pub open spec fn c_major_note(tonic: int, index: int) -> int {
    tonic + 12 * (index / 7) + c_major_semitones()[index % 7]
}

/// Along the top letter row, A to P, key `c` plays the `c`-th note of C major from the C
/// with MIDI number 72, so the notes rise strictly from left to right.
pub proof fn lemma_top_row_notes()
    ensures
        forall|c: int|
            0 <= c < 10 ==> key_note(#[trigger] top_row()[c]) == Some(c_major_note(72, c) as u8),
        forall|c: int, d: int|
            0 <= c < d < 10 ==> (key_note(#[trigger] top_row()[c])->0 as int) < (key_note(
                #[trigger] top_row()[d],
            )->0 as int),
{
    assert forall|c: int| 0 <= c < 10 implies key_note(#[trigger] top_row()[c]) == Some(
        c_major_note(72, c) as u8,
    ) by {
        if c == 0 {
            assert(top_row()[c] == Key::A);
        }
        if c == 1 {
            assert(top_row()[c] == Key::Z);
        }
        if c == 2 {
            assert(top_row()[c] == Key::E);
        }
        if c == 3 {
            assert(top_row()[c] == Key::R);
        }
        if c == 4 {
            assert(top_row()[c] == Key::T);
        }
        if c == 5 {
            assert(top_row()[c] == Key::Y);
        }
        if c == 6 {
            assert(top_row()[c] == Key::U);
        }
        if c == 7 {
            assert(top_row()[c] == Key::I);
        }
        if c == 8 {
            assert(top_row()[c] == Key::O);
        }
        if c == 9 {
            assert(top_row()[c] == Key::P);
        }
    }
    assert forall|c: int, d: int| 0 <= c < d < 10 implies (key_note(#[trigger] top_row()[c])->0 as int) < (
    key_note(#[trigger] top_row()[d])->0 as int) by {
        assert(key_note(top_row()[c]) == Some(c_major_note(72, c) as u8));
        assert(key_note(top_row()[d]) == Some(c_major_note(72, d) as u8));
        assert(c_major_note(72, c) < c_major_note(72, d)) by {
            if c == 0 {
                assert(c_major_note(72, c) == 72);
            }
            if d == 0 {
                assert(c_major_note(72, d) == 72);
            }
            if c == 1 {
                assert(c_major_note(72, c) == 74);
            }
            if d == 1 {
                assert(c_major_note(72, d) == 74);
            }
            if c == 2 {
                assert(c_major_note(72, c) == 76);
            }
            if d == 2 {
                assert(c_major_note(72, d) == 76);
            }
            if c == 3 {
                assert(c_major_note(72, c) == 77);
            }
            if d == 3 {
                assert(c_major_note(72, d) == 77);
            }
            if c == 4 {
                assert(c_major_note(72, c) == 79);
            }
            if d == 4 {
                assert(c_major_note(72, d) == 79);
            }
            if c == 5 {
                assert(c_major_note(72, c) == 81);
            }
            if d == 5 {
                assert(c_major_note(72, d) == 81);
            }
            if c == 6 {
                assert(c_major_note(72, c) == 83);
            }
            if d == 6 {
                assert(c_major_note(72, d) == 83);
            }
            if c == 7 {
                assert(c_major_note(72, c) == 84);
            }
            if d == 7 {
                assert(c_major_note(72, d) == 84);
            }
            if c == 8 {
                assert(c_major_note(72, c) == 86);
            }
            if d == 8 {
                assert(c_major_note(72, d) == 86);
            }
            if c == 9 {
                assert(c_major_note(72, c) == 88);
            }
            if d == 9 {
                assert(c_major_note(72, d) == 88);
            }
        }
    }
}

/// Along the middle letter row, Q to M, key `c` plays the `c`-th note of C major from the C
/// with MIDI number 60, so the notes rise strictly from left to right.
pub proof fn lemma_middle_row_notes()
    ensures
        forall|c: int|
            0 <= c < 10 ==> key_note(#[trigger] middle_row()[c]) == Some(c_major_note(60, c) as u8),
        forall|c: int, d: int|
            0 <= c < d < 10 ==> (key_note(#[trigger] middle_row()[c])->0 as int) < (key_note(
                #[trigger] middle_row()[d],
            )->0 as int),
{
    assert forall|c: int| 0 <= c < 10 implies key_note(#[trigger] middle_row()[c]) == Some(
        c_major_note(60, c) as u8,
    ) by {
        if c == 0 {
            assert(middle_row()[c] == Key::Q);
        }
        if c == 1 {
            assert(middle_row()[c] == Key::S);
        }
        if c == 2 {
            assert(middle_row()[c] == Key::D);
        }
        if c == 3 {
            assert(middle_row()[c] == Key::F);
        }
        if c == 4 {
            assert(middle_row()[c] == Key::G);
        }
        if c == 5 {
            assert(middle_row()[c] == Key::H);
        }
        if c == 6 {
            assert(middle_row()[c] == Key::J);
        }
        if c == 7 {
            assert(middle_row()[c] == Key::K);
        }
        if c == 8 {
            assert(middle_row()[c] == Key::L);
        }
        if c == 9 {
            assert(middle_row()[c] == Key::M);
        }
    }
    assert forall|c: int, d: int| 0 <= c < d < 10 implies (key_note(#[trigger] middle_row()[c])->0 as int) < (
    key_note(#[trigger] middle_row()[d])->0 as int) by {
        assert(key_note(middle_row()[c]) == Some(c_major_note(60, c) as u8));
        assert(key_note(middle_row()[d]) == Some(c_major_note(60, d) as u8));
        assert(c_major_note(60, c) < c_major_note(60, d)) by {
            if c == 0 {
                assert(c_major_note(60, c) == 60);
            }
            if d == 0 {
                assert(c_major_note(60, d) == 60);
            }
            if c == 1 {
                assert(c_major_note(60, c) == 62);
            }
            if d == 1 {
                assert(c_major_note(60, d) == 62);
            }
            if c == 2 {
                assert(c_major_note(60, c) == 64);
            }
            if d == 2 {
                assert(c_major_note(60, d) == 64);
            }
            if c == 3 {
                assert(c_major_note(60, c) == 65);
            }
            if d == 3 {
                assert(c_major_note(60, d) == 65);
            }
            if c == 4 {
                assert(c_major_note(60, c) == 67);
            }
            if d == 4 {
                assert(c_major_note(60, d) == 67);
            }
            if c == 5 {
                assert(c_major_note(60, c) == 69);
            }
            if d == 5 {
                assert(c_major_note(60, d) == 69);
            }
            if c == 6 {
                assert(c_major_note(60, c) == 71);
            }
            if d == 6 {
                assert(c_major_note(60, d) == 71);
            }
            if c == 7 {
                assert(c_major_note(60, c) == 72);
            }
            if d == 7 {
                assert(c_major_note(60, d) == 72);
            }
            if c == 8 {
                assert(c_major_note(60, c) == 74);
            }
            if d == 8 {
                assert(c_major_note(60, d) == 74);
            }
            if c == 9 {
                assert(c_major_note(60, c) == 76);
            }
            if d == 9 {
                assert(c_major_note(60, d) == 76);
            }
        }
    }
}

/// Along the bottom letter row, W to N, key `c` plays the `c`-th note of C major from the C
/// with MIDI number 48, so the notes rise strictly from left to right.
pub proof fn lemma_bottom_row_notes()
    ensures
        forall|c: int|
            0 <= c < 6 ==> key_note(#[trigger] bottom_row()[c]) == Some(c_major_note(48, c) as u8),
        forall|c: int, d: int|
            0 <= c < d < 6 ==> (key_note(#[trigger] bottom_row()[c])->0 as int) < (key_note(
                #[trigger] bottom_row()[d],
            )->0 as int),
{
    assert forall|c: int| 0 <= c < 6 implies key_note(#[trigger] bottom_row()[c]) == Some(
        c_major_note(48, c) as u8,
    ) by {
        if c == 0 {
            assert(bottom_row()[c] == Key::W);
        }
        if c == 1 {
            assert(bottom_row()[c] == Key::X);
        }
        if c == 2 {
            assert(bottom_row()[c] == Key::C);
        }
        if c == 3 {
            assert(bottom_row()[c] == Key::V);
        }
        if c == 4 {
            assert(bottom_row()[c] == Key::B);
        }
        if c == 5 {
            assert(bottom_row()[c] == Key::N);
        }
    }
    assert forall|c: int, d: int| 0 <= c < d < 6 implies (key_note(#[trigger] bottom_row()[c])->0 as int) < (
    key_note(#[trigger] bottom_row()[d])->0 as int) by {
        assert(key_note(bottom_row()[c]) == Some(c_major_note(48, c) as u8));
        assert(key_note(bottom_row()[d]) == Some(c_major_note(48, d) as u8));
        assert(c_major_note(48, c) < c_major_note(48, d)) by {
            if c == 0 {
                assert(c_major_note(48, c) == 48);
            }
            if d == 0 {
                assert(c_major_note(48, d) == 48);
            }
            if c == 1 {
                assert(c_major_note(48, c) == 50);
            }
            if d == 1 {
                assert(c_major_note(48, d) == 50);
            }
            if c == 2 {
                assert(c_major_note(48, c) == 52);
            }
            if d == 2 {
                assert(c_major_note(48, d) == 52);
            }
            if c == 3 {
                assert(c_major_note(48, c) == 53);
            }
            if d == 3 {
                assert(c_major_note(48, d) == 53);
            }
            if c == 4 {
                assert(c_major_note(48, c) == 55);
            }
            if d == 4 {
                assert(c_major_note(48, d) == 55);
            }
            if c == 5 {
                assert(c_major_note(48, c) == 57);
            }
            if d == 5 {
                assert(c_major_note(48, d) == 57);
            }
        }
    }
}

/// The top row plays one octave above the middle row, key for key, and the
/// middle row one octave above the bottom row.
pub proof fn lemma_rows_an_octave_apart()
    ensures
        key_note(Key::A) == Some((key_note(Key::Q)->0 + 12) as u8),
        key_note(Key::Z) == Some((key_note(Key::S)->0 + 12) as u8),
        key_note(Key::E) == Some((key_note(Key::D)->0 + 12) as u8),
        key_note(Key::R) == Some((key_note(Key::F)->0 + 12) as u8),
        key_note(Key::T) == Some((key_note(Key::G)->0 + 12) as u8),
        key_note(Key::Y) == Some((key_note(Key::H)->0 + 12) as u8),
        key_note(Key::U) == Some((key_note(Key::J)->0 + 12) as u8),
        key_note(Key::I) == Some((key_note(Key::K)->0 + 12) as u8),
        key_note(Key::O) == Some((key_note(Key::L)->0 + 12) as u8),
        key_note(Key::P) == Some((key_note(Key::M)->0 + 12) as u8),
        key_note(Key::Q) == Some((key_note(Key::W)->0 + 12) as u8),
        key_note(Key::S) == Some((key_note(Key::X)->0 + 12) as u8),
        key_note(Key::D) == Some((key_note(Key::C)->0 + 12) as u8),
        key_note(Key::F) == Some((key_note(Key::V)->0 + 12) as u8),
        key_note(Key::G) == Some((key_note(Key::B)->0 + 12) as u8),
        key_note(Key::H) == Some((key_note(Key::N)->0 + 12) as u8),
{
}

/// What the keyboard asks of the synthesizer.
#[derive(Clone, Copy, Debug, PartialEq, Eq, Structural)]
pub enum NoteCommand {
    /// Strike the note with this MIDI number.
    NoteOn(u8),
    /// Release the note with this MIDI number.
    NoteOff(u8),
}

/// A key going down (`pressed`) or up; `repeat` marks the auto-repeat of a
/// key that is held down.
#[derive(Clone, Copy, Debug, PartialEq, Eq, Structural)]
pub struct KeyEvent {
    pub key: Key,
    pub pressed: bool,
    pub repeat: bool,
}

/// What the player holds: the keys of the computer keyboard that are down and
/// the note held with the mouse on the on-screen piano.
#[verifier::ext_equal]
pub struct KeyboardModel {
    pub held: Seq<Key>,
    pub mouse: Option<u8>,
}

impl KeyboardModel {
    /// No key is held twice, and every held key plays a note.
    pub open spec fn wf(self) -> bool {
        &&& self.held.no_duplicates()
        &&& forall|i: int| 0 <= i < self.held.len() ==> (#[trigger] key_note(self.held[i])) is Some
    }

    /// Whether a held key plays this note.
    pub open spec fn held_by_keys(self, midi: u8) -> bool {
        exists|i: int| 0 <= i < self.held.len() && key_note(#[trigger] self.held[i]) == Some(midi)
    }

    /// Whether the note sounds at the player's request: a held key plays it,
    /// or the mouse holds it.
    pub open spec fn is_active(self, midi: u8) -> bool {
        self.held_by_keys(midi) || self.mouse == Some(midi)
    }

    /// The same keys, with the mouse holding `mouse`.
    pub open spec fn with_mouse(self, mouse: Option<u8>) -> KeyboardModel {
        KeyboardModel { held: self.held, mouse }
    }

    /// The same mouse, with these keys held.
    pub open spec fn with_held(self, held: Seq<Key>) -> KeyboardModel {
        KeyboardModel { held, mouse: self.mouse }
    }
}

/// `notes` with `n` added at the end, unless it is already there.
pub open spec fn push_unique(notes: Seq<u8>, n: u8) -> Seq<u8> {
    if notes.contains(n) {
        notes
    } else {
        notes.push(n)
    }
}

/// The notes that the keys play, each once, in the order of the keys.
pub open spec fn key_notes(keys: Seq<Key>) -> Seq<u8>
    decreases keys.len(),
{
    if keys.len() == 0 {
        Seq::empty()
    } else {
        match key_note(keys.last()) {
            Some(n) => push_unique(key_notes(keys.drop_last()), n),
            None => key_notes(keys.drop_last()),
        }
    }
}

/// The notes the player holds, each once: those of the held keys in the order
/// the keys went down, then the mouse's note.
pub open spec fn active_list(m: KeyboardModel) -> Seq<u8> {
    match m.mouse {
        Some(n) => push_unique(key_notes(m.held), n),
        None => key_notes(m.held),
    }
}

/// One key event: the new state and what to ask of the synthesizer.
/// A key that plays no note and an auto-repeat change nothing. A key going
/// down that is not yet held is held and strikes its note. A held key going
/// up is let go, and releases its note unless another held key or the mouse
/// still holds it.
pub open spec fn key_step(m: KeyboardModel, event: KeyEvent) -> (KeyboardModel, Option<NoteCommand>) {
    match key_note(event.key) {
        None => (m, None),
        Some(midi) => if event.pressed {
            if event.repeat || m.held.contains(event.key) {
                (m, None)
            } else {
                (m.with_held(m.held.push(event.key)), Some(NoteCommand::NoteOn(midi)))
            }
        } else {
            if !m.held.contains(event.key) {
                (m, None)
            } else {
                let rest = m.with_held(m.held.remove(m.held.index_of(event.key)));
                if !rest.is_active(midi) {
                    (rest, Some(NoteCommand::NoteOff(midi)))
                } else {
                    (rest, None)
                }
            }
        },
    }
}

/// The commands of an optional command, as a sequence.
pub open spec fn commands_of(c: Option<NoteCommand>) -> Seq<NoteCommand> {
    match c {
        Some(c) => seq![c],
        None => Seq::empty(),
    }
}

/// A run of key events, one after the other: the final state and all the
/// commands, in order.
pub open spec fn keys_step(m: KeyboardModel, events: Seq<KeyEvent>) -> (KeyboardModel, Seq<NoteCommand>)
    decreases events.len(),
{
    if events.len() == 0 {
        (m, Seq::empty())
    } else {
        let (m1, c1) = keys_step(m, events.drop_last());
        let (m2, c2) = key_step(m1, events.last());
        (m2, c1 + commands_of(c2))
    }
}

/// The mouse on the on-screen piano: whether its main button is down, and the
/// piano key under it, if any. With the button down over a key other than the
/// one the mouse holds, the mouse moves to that key: the note it held is
/// released unless a key of the computer keyboard holds it, and the new note
/// is struck. With the button up, the mouse lets go of its note, which is
/// released unless a key holds it. Otherwise nothing changes.
pub open spec fn pointer_step(m: KeyboardModel, primary_down: bool, hovered: Option<u8>) -> (KeyboardModel, Seq<NoteCommand>) {
    if primary_down {
        match hovered {
            Some(note) => if m.mouse != Some(note) {
                let off = match m.mouse {
                    Some(prev) => if !m.held_by_keys(prev) {
                        seq![NoteCommand::NoteOff(prev)]
                    } else {
                        Seq::empty()
                    },
                    None => Seq::empty(),
                };
                (m.with_mouse(Some(note)), off.push(NoteCommand::NoteOn(note)))
            } else {
                (m, Seq::empty())
            },
            None => (m, Seq::empty()),
        }
    } else {
        match m.mouse {
            Some(prev) => (
                m.with_mouse(None),
                if !m.held_by_keys(prev) {
                    seq![NoteCommand::NoteOff(prev)]
                } else {
                    Seq::empty()
                },
            ),
            None => (m, Seq::empty()),
        }
    }
}

/// The player's side of the synthesizer: the computer-keyboard keys held down
/// and the note held with the mouse. Each input yields the commands to send to
/// the synthesizer.
pub struct KeyboardState {
    held_keys: Vec<Key>,
    mouse_note: Option<u8>,
}

impl View for KeyboardState {
    type V = KeyboardModel;

    closed spec fn view(&self) -> KeyboardModel {
        KeyboardModel { held: self.held_keys@, mouse: self.mouse_note }
    }
}

impl KeyboardState {
    /// The held keys are distinct and each plays a note.
    #[verifier::type_invariant]
    closed spec fn inv(self) -> bool {
        self@.wf()
    }

    /// Nothing held.
    pub fn new() -> (r: KeyboardState)
        ensures
            r@.held == Seq::<Key>::empty(),
            r@.mouse == None::<u8>,
            r@.wf(),
    {
        KeyboardState { held_keys: Vec::new(), mouse_note: None }
    }

    /// The note held with the mouse, if any.
    pub fn mouse_note(&self) -> (r: Option<u8>)
        ensures
            r == self@.mouse,
    {
        self.mouse_note
    }

    /// Where the key stands among the held keys, if it is held.
    fn held_index(&self, key: Key) -> (r: Option<usize>)
        ensures
            r matches Some(i) ==> i < self@.held.len() && self@.held[i as int] == key
                && self@.held.index_of(key) == i,
            r is None ==> !self@.held.contains(key),
    {
        proof {
            use_type_invariant(self);
        }
        let n = self.held_keys.len();
        for i in 0..n
            invariant
                n == self.held_keys@.len(),
                self@.wf(),
                forall|j: int| 0 <= j < i ==> self.held_keys@[j] != key,
        {
            if self.held_keys[i] == key {
                proof {
                    let k = self@.held.index_of(key);
                    assert(self@.held[i as int] == key);
                    assert(self@.held.contains(key));
                    assert(0 <= k < self@.held.len() && self@.held[k] == key);
                    assert(k == i);
                }
                return Some(i);
            }
        }
        None
    }

    /// Whether a held key plays this note.
    fn held_by_keys(&self, midi: u8) -> (r: bool)
        ensures
            r == self@.held_by_keys(midi),
    {
        let n = self.held_keys.len();
        for i in 0..n
            invariant
                n == self.held_keys@.len(),
                forall|j: int| 0 <= j < i ==> key_note(#[trigger] self.held_keys@[j]) != Some(midi),
        {
            match key_to_midi(self.held_keys[i]) {
                Some(note) => {
                    if note == midi {
                        assert(key_note(self@.held[i as int]) == Some(midi));
                        return true;
                    }
                },
                None => {},
            }
        }
        false
    }

    /// Whether the note sounds at the player's request: a held key plays it,
    /// or the mouse holds it.
    pub fn keyboard_note_is_active(&self, midi: u8) -> (r: bool)
        ensures
            r == self@.is_active(midi),
            self@.wf(),
    {
        proof {
            use_type_invariant(self);
        }
        if self.held_by_keys(midi) {
            return true;
        }
        match self.mouse_note {
            Some(note) => note == midi,
            None => false,
        }
    }

    /// The notes the player holds, each once: those of the held keys in the
    /// order the keys went down, then the mouse's note.
    pub fn active_notes(&self) -> (r: Vec<u8>)
        ensures
            r@ == active_list(self@),
    {
        let mut notes: Vec<u8> = Vec::new();
        let n = self.held_keys.len();
        for i in 0..n
            invariant
                n == self.held_keys@.len(),
                notes@ == key_notes(self@.held.take(i as int)),
        {
            proof {
                assert(self@.held.take(i + 1).drop_last() =~= self@.held.take(i as int));
            }
            match key_to_midi(self.held_keys[i]) {
                Some(midi) => push_unique_vec(&mut notes, midi),
                None => {},
            }
        }
        proof {
            assert(self@.held.take(n as int) =~= self@.held);
        }
        match self.mouse_note {
            Some(midi) => push_unique_vec(&mut notes, midi),
            None => {},
        }
        notes
    }

    /// Takes in one key event and says what to ask of the synthesizer.
    pub fn handle_key(&mut self, event: KeyEvent) -> (r: Option<NoteCommand>)
        ensures
            final(self)@ == key_step(old(self)@, event).0,
            r == key_step(old(self)@, event).1,
            final(self)@.wf(),
    {
        proof {
            use_type_invariant(&*self);
            lemma_key_step_wf(self@, event);
        }
        let midi = match key_to_midi(event.key) {
            Some(midi) => midi,
            None => {
                return None;
            },
        };
        if event.pressed {
            if event.repeat {
                return None;
            }
            match self.held_index(event.key) {
                Some(_) => None,
                None => {
                    let mut held: Vec<Key> = Vec::new();
                    std::mem::swap(&mut held, &mut self.held_keys);
                    held.push(event.key);
                    proof {
                        assert(held@ =~= old(self)@.held.push(event.key));
                    }
                    self.held_keys = held;
                    proof {
                        assert(self@ =~= old(self)@.with_held(old(self)@.held.push(event.key)));
                    }
                    Some(NoteCommand::NoteOn(midi))
                },
            }
        } else {
            match self.held_index(event.key) {
                None => None,
                Some(i) => {
                    let mut held: Vec<Key> = Vec::new();
                    std::mem::swap(&mut held, &mut self.held_keys);
                    held.remove(i);
                    proof {
                        assert(held@ =~= old(self)@.held.remove(old(self)@.held.index_of(event.key)));
                    }
                    self.held_keys = held;
                    proof {
                        assert(self@ =~= old(self)@.with_held(
                            old(self)@.held.remove(old(self)@.held.index_of(event.key)),
                        ));
                    }
                    if !self.keyboard_note_is_active(midi) {
                        Some(NoteCommand::NoteOff(midi))
                    } else {
                        None
                    }
                },
            }
        }
    }

    /// Takes in key events in order and gives what to ask of the synthesizer,
    /// in order.
    pub fn handle_keyboard(&mut self, events: &Vec<KeyEvent>) -> (r: Vec<NoteCommand>)
        ensures
            final(self)@ == keys_step(old(self)@, events@).0,
            r@ == keys_step(old(self)@, events@).1,
            final(self)@.wf(),
    {
        proof {
            use_type_invariant(&*self);
        }
        let mut commands: Vec<NoteCommand> = Vec::new();
        let n = events.len();
        for i in 0..n
            invariant
                n == events@.len(),
                self@.wf(),
                self@ == keys_step(old(self)@, events@.take(i as int)).0,
                commands@ == keys_step(old(self)@, events@.take(i as int)).1,
        {
            proof {
                assert(events@.take(i + 1).drop_last() =~= events@.take(i as int));
            }
            match self.handle_key(events[i]) {
                Some(c) => commands.push(c),
                None => {},
            }
            proof {
                let prev = keys_step(old(self)@, events@.take(i as int));
                assert(commands@ =~= prev.1 + commands_of(key_step(prev.0, events@[i as int]).1));
            }
        }
        proof {
            assert(events@.take(n as int) =~= events@);
        }
        commands
    }

    /// Takes in the state of the mouse on the on-screen piano and says what to
    /// ask of the synthesizer.
    pub fn handle_pointer(&mut self, primary_down: bool, hovered: Option<u8>) -> (r: Vec<NoteCommand>)
        ensures
            final(self)@ == pointer_step(old(self)@, primary_down, hovered).0,
            r@ == pointer_step(old(self)@, primary_down, hovered).1,
            final(self)@.wf(),
    {
        proof {
            use_type_invariant(&*self);
        }
        let mut commands: Vec<NoteCommand> = Vec::new();
        if primary_down {
            if let Some(note) = hovered {
                let moved = match self.mouse_note {
                    Some(current) => current != note,
                    None => true,
                };
                if moved {
                    let taken = self.mouse_note;
                    self.mouse_note = None;
                    if let Some(previous) = taken {
                        if !self.keyboard_note_is_active(previous) {
                            commands.push(NoteCommand::NoteOff(previous));
                        }
                    }
                    self.mouse_note = Some(note);
                    commands.push(NoteCommand::NoteOn(note));
                }
            }
        } else {
            let taken = self.mouse_note;
            self.mouse_note = None;
            if let Some(previous) = taken {
                if !self.keyboard_note_is_active(previous) {
                    commands.push(NoteCommand::NoteOff(previous));
                }
            }
        }
        proof {
            assert(self@ =~= pointer_step(old(self)@, primary_down, hovered).0);
            assert(commands@ =~= pointer_step(old(self)@, primary_down, hovered).1);
        }
        commands
    }
}

/// Adds `n` at the end of `notes` unless it is already there.
fn push_unique_vec(notes: &mut Vec<u8>, n: u8)
    ensures
        final(notes)@ == push_unique(old(notes)@, n),
{
    let len = notes.len();
    for i in 0..len
        invariant
            len == notes@.len(),
            notes@ == old(notes)@,
            forall|j: int| 0 <= j < i ==> notes@[j] != n,
    {
        if notes[i] == n {
            assert(notes@.contains(n));
            return;
        }
    }
    notes.push(n);
}

/// Every key event keeps the held keys distinct and playing notes.
pub proof fn lemma_key_step_wf(m: KeyboardModel, event: KeyEvent)
    requires
        m.wf(),
    ensures
        key_step(m, event).0.wf(),
{
    if key_note(event.key) is Some && !event.repeat && event.pressed && !m.held.contains(event.key) {
        let h = m.held.push(event.key);
        assert forall|i: int, j: int| 0 <= i < h.len() && 0 <= j < h.len() && i != j implies h[i] != h[j] by {
            if i < m.held.len() && j < m.held.len() {
            } else if i < m.held.len() {
                assert(m.held[i] == h[i]);
            } else {
                assert(m.held[j] == h[j]);
            }
        }
        assert forall|i: int| 0 <= i < h.len() implies (#[trigger] key_note(h[i])) is Some by {
            if i < m.held.len() {
                assert(h[i] == m.held[i]);
            }
        }
    }
    if key_note(event.key) is Some && !event.pressed && m.held.contains(event.key) {
        let k = m.held.index_of(event.key);
        let h = m.held.remove(k);
        assert forall|i: int, j: int| 0 <= i < h.len() && 0 <= j < h.len() && i != j implies h[i] != h[j] by {
            let i2 = if i < k { i } else { i + 1 };
            let j2 = if j < k { j } else { j + 1 };
            assert(h[i] == m.held[i2]);
            assert(h[j] == m.held[j2]);
        }
        assert forall|i: int| 0 <= i < h.len() implies (#[trigger] key_note(h[i])) is Some by {
            let i2 = if i < k { i } else { i + 1 };
            assert(h[i] == m.held[i2]);
        }
    }
}

/// A key event strikes only a note that then sounds, and releases only a note
/// that then no longer sounds: a note shared by two keys, or held by the
/// mouse, is not cut off when one key goes up.
pub proof fn lemma_key_step_commands(m: KeyboardModel, event: KeyEvent)
    requires
        m.wf(),
    ensures
        key_step(m, event).1 matches Some(NoteCommand::NoteOn(n)) ==> key_step(m, event).0.is_active(n)
            && !m.held.contains(event.key) && key_note(event.key) == Some(n),
        key_step(m, event).1 matches Some(NoteCommand::NoteOff(n)) ==> !key_step(m, event).0.is_active(n)
            && m.held.contains(event.key) && key_note(event.key) == Some(n),
        key_step(m, event).0.mouse == m.mouse,
{
    if key_note(event.key) is Some && !event.repeat && event.pressed && !m.held.contains(event.key) {
        let h = m.held.push(event.key);
        assert(h[m.held.len() as int] == event.key);
    }
}

/// Auto-repeats of a held key change nothing and ask nothing.
pub proof fn lemma_repeat_ignored(m: KeyboardModel, key: Key)
    ensures
        key_step(m, KeyEvent { key, pressed: true, repeat: true }) == (m, None::<NoteCommand>),
{
}

/// Pressing a key that is not held and letting it go again leaves the state as
/// it was; the key's note is struck, then released unless something else
/// (another key, or the mouse) holds it.
pub proof fn lemma_press_release(m: KeyboardModel, key: Key)
    requires
        m.wf(),
        key_note(key) is Some,
        !m.held.contains(key),
    ensures
        ({
            let n = key_note(key)->0;
            let (m1, c1) = key_step(m, KeyEvent { key, pressed: true, repeat: false });
            let (m2, c2) = key_step(m1, KeyEvent { key, pressed: false, repeat: false });
            &&& m2 == m
            &&& c1 == Some(NoteCommand::NoteOn(n))
            &&& c2 == if m.is_active(n) {
                None
            } else {
                Some(NoteCommand::NoteOff(n))
            }
        }),
{
    let h = m.held.push(key);
    let last = m.held.len() as int;
    assert(h[last] == key);
    assert(h.contains(key));
    let k = h.index_of(key);
    assert(0 <= k < h.len() && h[k] == key);
    if k != last {
        assert(m.held[k] == key);
        assert(m.held.contains(key));
    }
    assert(h.remove(k) =~= m.held);
    let m1 = m.with_held(h);
    assert(m1.with_held(h.remove(k)) =~= m);
}

/// A mouse move strikes only a note that then sounds and releases only a note
/// that then no longer sounds; it never changes the held keys.
pub proof fn lemma_pointer_step_commands(m: KeyboardModel, primary_down: bool, hovered: Option<u8>)
    requires
        m.wf(),
    ensures
        pointer_step(m, primary_down, hovered).0.held == m.held,
        forall|i: int|
            0 <= i < pointer_step(m, primary_down, hovered).1.len() ==> match #[trigger] pointer_step(
                m,
                primary_down,
                hovered,
            ).1[i] {
                NoteCommand::NoteOn(n) => pointer_step(m, primary_down, hovered).0.is_active(n),
                NoteCommand::NoteOff(n) => !pointer_step(m, primary_down, hovered).0.is_active(n),
            },
        !primary_down ==> pointer_step(m, primary_down, hovered).0.mouse is None,
{
}

/// The notes `key_notes` lists are distinct, and are those that some key plays.
pub proof fn lemma_key_notes(keys: Seq<Key>)
    ensures
        key_notes(keys).no_duplicates(),
        forall|n: u8|
            key_notes(keys).contains(n) <==> exists|i: int|
                0 <= i < keys.len() && key_note(#[trigger] keys[i]) == Some(n),
    decreases keys.len(),
{
    if keys.len() > 0 {
        let rest = keys.drop_last();
        lemma_key_notes(rest);
        assert forall|n: u8|
            key_notes(keys).contains(n) <==> exists|i: int|
                0 <= i < keys.len() && key_note(#[trigger] keys[i]) == Some(n) by {
            if key_notes(keys).contains(n) {
                if key_notes(rest).contains(n) {
                    let i = choose|i: int| 0 <= i < rest.len() && key_note(#[trigger] rest[i]) == Some(n);
                    assert(keys[i] == rest[i]);
                } else {
                    let j = key_notes(keys).len() - 1;
                    assert(key_notes(keys)[j] == n || !key_notes(keys).contains(n)) by {
                        if key_notes(keys).contains(n) {
                            let k = choose|k: int| 0 <= k < key_notes(keys).len() && key_notes(keys)[k] == n;
                            if k < j {
                                assert(key_notes(rest)[k] == n);
                            }
                        }
                    }
                    assert(key_note(keys[keys.len() - 1]) == Some(n));
                }
            }
            if exists|i: int| 0 <= i < keys.len() && key_note(#[trigger] keys[i]) == Some(n) {
                let i = choose|i: int| 0 <= i < keys.len() && key_note(#[trigger] keys[i]) == Some(n);
                if i < rest.len() {
                    assert(rest[i] == keys[i]);
                    assert(key_notes(rest).contains(n));
                    let k = choose|k: int| 0 <= k < key_notes(rest).len() && key_notes(rest)[k] == n;
                    assert(key_notes(keys)[k] == n);
                } else {
                    let l = key_notes(keys);
                    if !key_notes(rest).contains(n) {
                        assert(l[l.len() - 1] == n);
                    } else {
                        let k = choose|k: int| 0 <= k < key_notes(rest).len() && key_notes(rest)[k] == n;
                        assert(l[k] == n);
                    }
                }
            }
        }
        let l = key_notes(keys);
        assert forall|a: int, b: int| 0 <= a < l.len() && 0 <= b < l.len() && a != b implies l[a] != l[b] by {
            let r = key_notes(rest);
            if a < r.len() && b < r.len() {
                assert(l[a] == r[a] && l[b] == r[b]);
            } else if a < r.len() {
                assert(l[a] == r[a]);
                assert(r.contains(r[a]));
            } else {
                assert(l[b] == r[b]);
                assert(r.contains(r[b]));
            }
        }
    }
}

/// The notes `active_notes` lists are distinct, and are exactly the notes the
/// player holds.
pub proof fn lemma_active_list(m: KeyboardModel)
    ensures
        active_list(m).no_duplicates(),
        forall|n: u8| active_list(m).contains(n) <==> m.is_active(n),
{
    lemma_key_notes(m.held);
    let k = key_notes(m.held);
    if let Some(x) = m.mouse {
        let l = active_list(m);
        if !k.contains(x) {
            assert(l == k.push(x));
            assert forall|n: u8| l.contains(n) <==> m.is_active(n) by {
                if l.contains(n) && n != x {
                    let i = choose|i: int| 0 <= i < l.len() && l[i] == n;
                    assert(k[i] == n);
                }
                if k.contains(n) {
                    let i = choose|i: int| 0 <= i < k.len() && k[i] == n;
                    assert(l[i] == n);
                }
                if n == x {
                    assert(l[l.len() - 1] == x);
                }
            }
            assert forall|a: int, b: int| 0 <= a < l.len() && 0 <= b < l.len() && a != b implies l[a] != l[b] by {
                if a < k.len() && b < k.len() {
                } else if a < k.len() {
                    assert(k.contains(k[a]));
                } else {
                    assert(k.contains(k[b]));
                }
            }
        }
    }
}

/// The notes left sounding after the synthesizer carries out `commands`,
/// starting from `sounding`, if it treats a note as one thing that is on or
/// off.
pub open spec fn apply_commands(sounding: Set<u8>, commands: Seq<NoteCommand>) -> Set<u8>
    decreases commands.len(),
{
    if commands.len() == 0 {
        sounding
    } else {
        let before = apply_commands(sounding, commands.drop_last());
        match commands.last() {
            NoteCommand::NoteOn(n) => before.insert(n),
            NoteCommand::NoteOff(n) => before.remove(n),
        }
    }
}

/// The notes the player holds, as a set.
pub open spec fn active_set(m: KeyboardModel) -> Set<u8> {
    Set::new(|n: u8| m.is_active(n))
}

/// Letting go of a held key changes whether a note is held by the keys only
/// for that key's own note.
proof fn lemma_remove_key_other_notes(m: KeyboardModel, key: Key, n: u8)
    requires
        m.wf(),
        m.held.contains(key),
        key_note(key) != Some(n),
    ensures
        m.with_held(m.held.remove(m.held.index_of(key))).held_by_keys(n) == m.held_by_keys(n),
{
    let k = m.held.index_of(key);
    let h = m.held.remove(k);
    if m.held_by_keys(n) {
        let i = choose|i: int| 0 <= i < m.held.len() && key_note(#[trigger] m.held[i]) == Some(n);
        assert(i != k);
        if i < k {
            assert(h[i] == m.held[i]);
        } else {
            assert(h[i - 1] == m.held[i]);
        }
    }
    if m.with_held(h).held_by_keys(n) {
        let i = choose|i: int| 0 <= i < h.len() && key_note(#[trigger] h[i]) == Some(n);
        if i < k {
            assert(h[i] == m.held[i]);
        } else {
            assert(h[i] == m.held[i + 1]);
        }
    }
}

/// The synthesizer is asked to sound exactly the notes the player holds: if
/// the notes it sounds were those held before a key event, then after it
/// carries out the event's command they are those held after it.
pub proof fn lemma_key_step_tracks_active(m: KeyboardModel, event: KeyEvent)
    requires
        m.wf(),
    ensures
        apply_commands(active_set(m), commands_of(key_step(m, event).1)) == active_set(
            key_step(m, event).0,
        ),
{
    let (m2, c) = key_step(m, event);
    reveal_with_fuel(apply_commands, 2);
    if let Some(midi) = key_note(event.key) {
        if event.pressed && !event.repeat && !m.held.contains(event.key) {
            let h = m.held.push(event.key);
            assert(h[m.held.len() as int] == event.key);
            assert forall|n: u8| m2.is_active(n) == (m.is_active(n) || n == midi) by {
                if m2.held_by_keys(n) && n != midi {
                    let i = choose|i: int| 0 <= i < h.len() && key_note(#[trigger] h[i]) == Some(n);
                    assert(h[i] == m.held[i]);
                }
                if m.held_by_keys(n) {
                    let i = choose|i: int| 0 <= i < m.held.len() && key_note(#[trigger] m.held[i]) == Some(n);
                    assert(h[i] == m.held[i]);
                }
            }
            assert(apply_commands(active_set(m), commands_of(c)) =~= active_set(m2));
        } else if !event.pressed && m.held.contains(event.key) {
            let k = m.held.index_of(event.key);
            assert forall|n: u8| n != midi implies m2.is_active(n) == m.is_active(n) by {
                lemma_remove_key_other_notes(m, event.key, n);
            }
            assert(m.held[k] == event.key);
            assert(m.is_active(midi));
            assert(apply_commands(active_set(m), commands_of(c)) =~= active_set(m2));
        }
    }
}

/// The same for a move of the mouse on the on-screen piano.
pub proof fn lemma_pointer_step_tracks_active(m: KeyboardModel, primary_down: bool, hovered: Option<u8>)
    requires
        m.wf(),
    ensures
        apply_commands(active_set(m), pointer_step(m, primary_down, hovered).1) == active_set(
            pointer_step(m, primary_down, hovered).0,
        ),
{
    let (m2, c) = pointer_step(m, primary_down, hovered);
    reveal_with_fuel(apply_commands, 3);
    if c.len() == 2 {
        assert(c.drop_last() =~= seq![c[0]]);
    }
    if c.len() == 1 {
        assert(c.drop_last() =~= Seq::<NoteCommand>::empty());
    }
    assert(apply_commands(active_set(m), c) =~= active_set(m2));
}

/// The same for a run of key events: commands carried out in order keep the
/// synthesizer sounding exactly the notes the player holds.
pub proof fn lemma_keys_step_tracks_active(m: KeyboardModel, events: Seq<KeyEvent>)
    requires
        m.wf(),
    ensures
        keys_step(m, events).0.wf(),
        apply_commands(active_set(m), keys_step(m, events).1) == active_set(keys_step(m, events).0),
    decreases events.len(),
{
    if events.len() > 0 {
        lemma_keys_step_tracks_active(m, events.drop_last());
        let (m1, c1) = keys_step(m, events.drop_last());
        lemma_key_step_wf(m1, events.last());
        lemma_key_step_tracks_active(m1, events.last());
        lemma_apply_commands_append(active_set(m), c1, commands_of(key_step(m1, events.last()).1));
    }
}

/// Carrying out two runs of commands is carrying out the one after the other.
pub proof fn lemma_apply_commands_append(s: Set<u8>, a: Seq<NoteCommand>, b: Seq<NoteCommand>)
    ensures
        apply_commands(s, a + b) == apply_commands(apply_commands(s, a), b),
    decreases b.len(),
{
    if b.len() > 0 {
        lemma_apply_commands_append(s, a, b.drop_last());
        assert((a + b).drop_last() =~= a + b.drop_last());
        assert((a + b).last() == b.last());
    } else {
        assert(a + b =~= a);
    }
}

/// Handling a run of key events and then one more is handling the run, then
/// that event on the state the run left: the commands are the run's followed
/// by the event's.
pub proof fn lemma_keys_step_push(m: KeyboardModel, events: Seq<KeyEvent>, event: KeyEvent)
    ensures
        keys_step(m, events.push(event)).0 == key_step(keys_step(m, events).0, event).0,
        keys_step(m, events.push(event)).1 == keys_step(m, events).1 + commands_of(
            key_step(keys_step(m, events).0, event).1,
        ),
{
    assert(events.push(event).drop_last() =~= events);
    assert(events.push(event).last() == event);
}

/// A single key event handled as a run is that event handled alone.
pub proof fn lemma_keys_step_single(m: KeyboardModel, event: KeyEvent)
    ensures
        keys_step(m, seq![event]).0 == key_step(m, event).0,
        keys_step(m, seq![event]).1 == commands_of(key_step(m, event).1),
{
    lemma_keys_step_push(m, Seq::empty(), event);
    assert(Seq::<KeyEvent>::empty().push(event) =~= seq![event]);
    assert(Seq::<NoteCommand>::empty() + commands_of(key_step(m, event).1) =~= commands_of(
        key_step(m, event).1,
    ));
}

/// Handling two runs of key events one after the other is handling them as
/// one run: the state is that left by the second run, started where the first
/// left off, and the commands are the first run's followed by the second's.
pub proof fn lemma_keys_step_append(m: KeyboardModel, first: Seq<KeyEvent>, second: Seq<KeyEvent>)
    ensures
        keys_step(m, first + second).0 == keys_step(keys_step(m, first).0, second).0,
        keys_step(m, first + second).1 == keys_step(m, first).1 + keys_step(
            keys_step(m, first).0,
            second,
        ).1,
    decreases second.len(),
{
    let mid = keys_step(m, first).0;
    if second.len() == 0 {
        assert(first + second =~= first);
        assert(keys_step(m, first).1 + Seq::<NoteCommand>::empty() =~= keys_step(m, first).1);
    } else {
        let rest = second.drop_last();
        let e = second.last();
        lemma_keys_step_append(m, first, rest);
        assert((first + rest).push(e) =~= first + second);
        assert(rest.push(e) =~= second);
        lemma_keys_step_push(m, first + rest, e);
        lemma_keys_step_push(mid, rest, e);
        let c = commands_of(key_step(keys_step(mid, rest).0, e).1);
        assert(keys_step(m, first).1 + keys_step(mid, rest).1 + c =~= keys_step(m, first).1 + (
        keys_step(mid, rest).1 + c));
    }
}

/// A key pressed and let go within a run is struck and then released (when
/// nothing else holds its note), whatever events came before in the run.
pub proof fn lemma_keys_step_press_release(m: KeyboardModel, before: Seq<KeyEvent>, key: Key)
    requires
        m.wf(),
        key_note(key) is Some,
        !keys_step(m, before).0.held.contains(key),
        !keys_step(m, before).0.is_active(key_note(key)->0),
    ensures
        keys_step(
            m,
            before + seq![
                KeyEvent { key, pressed: true, repeat: false },
                KeyEvent { key, pressed: false, repeat: false },
            ],
        ).0 == keys_step(m, before).0,
        keys_step(
            m,
            before + seq![
                KeyEvent { key, pressed: true, repeat: false },
                KeyEvent { key, pressed: false, repeat: false },
            ],
        ).1 == keys_step(m, before).1 + seq![
            NoteCommand::NoteOn(key_note(key)->0),
            NoteCommand::NoteOff(key_note(key)->0),
        ],
{
    let press = KeyEvent { key, pressed: true, repeat: false };
    let release = KeyEvent { key, pressed: false, repeat: false };
    let pair = seq![press, release];
    let mid = keys_step(m, before).0;
    lemma_keys_step_tracks_active(m, before);
    lemma_keys_step_append(m, before, pair);
    lemma_keys_step_single(mid, press);
    assert(seq![press].push(release) =~= pair);
    lemma_keys_step_push(mid, seq![press], release);
    lemma_press_release(mid, key);
    let n = key_note(key)->0;
    assert(commands_of(Some(NoteCommand::NoteOn(n))) + commands_of(Some(NoteCommand::NoteOff(n)))
        =~= seq![NoteCommand::NoteOn(n), NoteCommand::NoteOff(n)]);
}

/// The mouse on the on-screen piano. With the button down over a piano key
/// other than the one the mouse holds, the mouse moves to that key: the last
/// command strikes it, whatever the computer keyboard holds, and before it at
/// most the note the mouse held is released, exactly when no key of the
/// computer keyboard holds that note. With the button down over no key, or
/// over the key the mouse already holds, nothing happens. With the button up,
/// the mouse lets go: its note, if any, is released exactly when no key holds
/// it, and nothing else is asked. The held keys never change.
pub proof fn lemma_pointer_moves(m: KeyboardModel, primary_down: bool, hovered: Option<u8>)
    ensures
        ({
            let (m2, c) = pointer_step(m, primary_down, hovered);
            &&& m2.held == m.held
            &&& (primary_down && hovered is Some && m.mouse != hovered) ==> {
                let n = hovered->0;
                &&& m2.mouse == Some(n)
                &&& c.len() >= 1
                &&& c.last() == NoteCommand::NoteOn(n)
                &&& c.len() == if m.mouse is Some && !m.held_by_keys(m.mouse->0) {
                    2int
                } else {
                    1int
                }
                &&& c.len() == 2 ==> c[0] == NoteCommand::NoteOff(m.mouse->0)
            }
            &&& (primary_down && (hovered is None || m.mouse == hovered)) ==> m2 == m && c.len()
                == 0
            &&& !primary_down ==> {
                &&& m2.mouse is None
                &&& c.len() == if m.mouse is Some && !m.held_by_keys(m.mouse->0) {
                    1int
                } else {
                    0int
                }
                &&& c.len() == 1 ==> c[0] == NoteCommand::NoteOff(m.mouse->0)
            }
        }),
{
}

/// What one key event does, told by which keys are held. A key that plays no
/// note, an auto-repeat, a press of a key already held and a release of a key
/// not held change nothing and ask nothing. A press of a key not yet held
/// holds it (and nothing else changes) and always strikes its note, even when
/// another key or the mouse already holds that note. A release of a held key
/// lets go of it (and nothing else changes), and releases its note exactly
/// when no other held key plays that note and the mouse does not hold it.
pub proof fn lemma_key_step_effect(m: KeyboardModel, event: KeyEvent)
    requires
        m.wf(),
    ensures
        ({
            let (m2, c) = key_step(m, event);
            let k = event.key;
            &&& m2.mouse == m.mouse
            &&& m2.wf()
            &&& (key_note(k) is None || (event.pressed && (event.repeat || m.held.contains(k)))
                || (!event.pressed && !m.held.contains(k))) ==> m2 == m && c is None
            &&& (key_note(k) is Some && event.pressed && !event.repeat && !m.held.contains(k))
                ==> {
                &&& c == Some(NoteCommand::NoteOn(key_note(k)->0))
                &&& forall|k2: Key| #[trigger] m2.held.contains(k2) <==> (m.held.contains(k2) || k2 == k)
            }
            &&& (key_note(k) is Some && !event.pressed && m.held.contains(k)) ==> {
                &&& forall|k2: Key| #[trigger] m2.held.contains(k2) <==> (m.held.contains(k2) && k2 != k)
                &&& c == if (exists|k2: Key| #[trigger] m.held.contains(k2) && k2 != k && key_note(k2)
                    == key_note(k)) || m.mouse == key_note(k) {
                    None
                } else {
                    Some(NoteCommand::NoteOff(key_note(k)->0))
                }
            }
        }),
{
    lemma_key_step_wf(m, event);
    let k = event.key;
    let (m2, c) = key_step(m, event);
    if key_note(k) is Some && event.pressed && !event.repeat && !m.held.contains(k) {
        let h = m.held.push(k);
        assert forall|k2: Key| #[trigger] m2.held.contains(k2) <==> (m.held.contains(k2) || k2 == k) by {
            if m2.held.contains(k2) {
                let i = choose|i: int| 0 <= i < h.len() && h[i] == k2;
                if i < m.held.len() {
                    assert(m.held[i] == k2);
                }
            }
            if m.held.contains(k2) {
                let i = choose|i: int| 0 <= i < m.held.len() && m.held[i] == k2;
                assert(h[i] == k2);
            }
            if k2 == k {
                assert(h[m.held.len() as int] == k);
            }
        }
    }
    if key_note(k) is Some && !event.pressed && m.held.contains(k) {
        let idx = m.held.index_of(k);
        let h = m.held.remove(idx);
        assert(m.held[idx] == k);
        assert forall|k2: Key| #[trigger] m2.held.contains(k2) <==> (m.held.contains(k2) && k2 != k) by {
            if m2.held.contains(k2) {
                let i = choose|i: int| 0 <= i < h.len() && h[i] == k2;
                let i2 = if i < idx { i } else { i + 1 };
                assert(m.held[i2] == k2);
                assert(i2 != idx);
            }
            if m.held.contains(k2) && k2 != k {
                let i = choose|i: int| 0 <= i < m.held.len() && m.held[i] == k2;
                assert(i != idx);
                if i < idx {
                    assert(h[i] == k2);
                } else {
                    assert(h[i - 1] == k2);
                }
            }
        }
        let n = key_note(k)->0;
        let other = exists|k2: Key| #[trigger] m.held.contains(k2) && k2 != k && key_note(k2) == key_note(k);
        if other {
            let k2 = choose|k2: Key| #[trigger] m.held.contains(k2) && k2 != k && key_note(k2) == key_note(k);
            assert(m2.held.contains(k2));
            let i = choose|i: int| 0 <= i < m2.held.len() && m2.held[i] == k2;
            assert(m2.held_by_keys(n));
        }
        if m2.held_by_keys(n) {
            let i = choose|i: int| 0 <= i < m2.held.len() && key_note(#[trigger] m2.held[i]) == Some(n);
            let k2 = m2.held[i];
            assert(m2.held.contains(k2));
            assert(m.held.contains(k2) && k2 != k);
        }
    }
}

/// The note the mouse holds comes last among the active notes, unless a key
/// already plays it.
pub proof fn lemma_mouse_note_last(m: KeyboardModel)
    requires
        m.mouse is Some,
        !m.held_by_keys(m.mouse->0),
    ensures
        active_list(m).len() > 0,
        active_list(m).last() == m.mouse->0,
{
    lemma_key_notes(m.held);
}

/// The pitch of a scale degree is the root, the octave shift and the degree's
/// place in C major's pattern of whole and half steps.
pub proof fn lemma_scale_pitch_is_major(root_midi: u8, octave: i8, degree: usize)
    requires
        degree < 7 * 2730,
    ensures
        scale_pitch(root_midi, octave, degree) == root_midi + 12 * octave + c_major_note(0, degree as int),
{
    let d = degree as int;
    assert(0 <= d % 7 < 7);
    if d % 7 == 0 {
    } else if d % 7 == 1 {
    } else if d % 7 == 2 {
    } else if d % 7 == 3 {
    } else if d % 7 == 4 {
    } else if d % 7 == 5 {
    } else {
    }
}

} // verus!
