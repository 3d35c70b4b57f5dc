use vstd::prelude::*;

use crate::keyboard::{bottom_row, key_note, middle_row, top_row, Key};

verus! {

/// The MIDI notes of the white keys of the on-screen piano, left to right:
/// three octaves of C major from C3 (48) up to C6 (84).
pub open spec fn white_key_notes() -> Seq<u8> {
    seq![48, 50, 52, 53, 55, 57, 59, 60, 62, 64, 65, 67, 69, 71, 72, 74, 76, 77, 79, 81, 83, 84]
}

/// The white keys of the on-screen piano, left to right.
pub fn white_keys() -> (r: Vec<u8>)
    ensures
        r@ == white_key_notes(),
{
    vec![48, 50, 52, 53, 55, 57, 59, 60, 62, 64, 65, 67, 69, 71, 72, 74, 76, 77, 79, 81, 83, 84]
}

/// The key of the computer keyboard whose letter is printed on a white key of
/// the on-screen piano, if any.
pub open spec fn shortcut_of(index: int) -> Option<Key> {
    if index == 0 {
        Some(Key::W)
    } else     if index == 1 {
        Some(Key::X)
    } else     if index == 2 {
        Some(Key::C)
    } else     if index == 3 {
        Some(Key::V)
    } else     if index == 4 {
        Some(Key::B)
    } else     if index == 5 {
        Some(Key::N)
    } else     if index == 6 {
        None
    } else     if index == 7 {
        Some(Key::Q)
    } else     if index == 8 {
        Some(Key::S)
    } else     if index == 9 {
        Some(Key::D)
    } else     if index == 10 {
        Some(Key::F)
    } else     if index == 11 {
        Some(Key::G)
    } else     if index == 12 {
        Some(Key::H)
    } else     if index == 13 {
        Some(Key::J)
    } else     if index == 14 {
        Some(Key::A)
    } else     if index == 15 {
        Some(Key::Z)
    } else     if index == 16 {
        Some(Key::E)
    } else     if index == 17 {
        Some(Key::R)
    } else     if index == 18 {
        Some(Key::T)
    } else     if index == 19 {
        Some(Key::Y)
    } else     if index == 20 {
        Some(Key::U)
    } else {
        Some(Key::I)
    }
}

/// The key of the computer keyboard whose letter is printed on the white key
/// at `index` (from the left) of the on-screen piano, if any.
pub fn white_key_shortcut(index: usize) -> (r: Option<Key>)
    requires
        index < 22,
    ensures
        r == shortcut_of(index as int),
{
    match index {
        0 => Some(Key::W),
        1 => Some(Key::X),
        2 => Some(Key::C),
        3 => Some(Key::V),
        4 => Some(Key::B),
        5 => Some(Key::N),
        6 => None,
        7 => Some(Key::Q),
        8 => Some(Key::S),
        9 => Some(Key::D),
        10 => Some(Key::F),
        11 => Some(Key::G),
        12 => Some(Key::H),
        13 => Some(Key::J),
        14 => Some(Key::A),
        15 => Some(Key::Z),
        16 => Some(Key::E),
        17 => Some(Key::R),
        18 => Some(Key::T),
        19 => Some(Key::Y),
        20 => Some(Key::U),
        _ => Some(Key::I),
    }
}

/// The letter of a key, as printed on the on-screen piano.
pub open spec fn key_label(key: Key) -> Seq<char> {
    match key {
        Key::A => seq!['A'],
        Key::B => seq!['B'],
        Key::C => seq!['C'],
        Key::D => seq!['D'],
        Key::E => seq!['E'],
        Key::F => seq!['F'],
        Key::G => seq!['G'],
        Key::H => seq!['H'],
        Key::I => seq!['I'],
        Key::J => seq!['J'],
        Key::K => seq!['K'],
        Key::L => seq!['L'],
        Key::M => seq!['M'],
        Key::N => seq!['N'],
        Key::O => seq!['O'],
        Key::P => seq!['P'],
        Key::Q => seq!['Q'],
        Key::R => seq!['R'],
        Key::S => seq!['S'],
        Key::T => seq!['T'],
        Key::U => seq!['U'],
        Key::V => seq!['V'],
        Key::W => seq!['W'],
        Key::X => seq!['X'],
        Key::Y => seq!['Y'],
        Key::Z => seq!['Z'],
        Key::Other => Seq::empty(),
    }
}

/// The letter of a key, as printed on the on-screen piano (empty for a key
/// that is not a letter).
pub fn key_name(key: Key) -> (r: &'static str)
    ensures
        r@ == key_label(key),
{
    match key {
        Key::A => {
            proof {
                reveal_strlit("A");
            }
            "A"
        },
        Key::B => {
            proof {
                reveal_strlit("B");
            }
            "B"
        },
        Key::C => {
            proof {
                reveal_strlit("C");
            }
            "C"
        },
        Key::D => {
            proof {
                reveal_strlit("D");
            }
            "D"
        },
        Key::E => {
            proof {
                reveal_strlit("E");
            }
            "E"
        },
        Key::F => {
            proof {
                reveal_strlit("F");
            }
            "F"
        },
        Key::G => {
            proof {
                reveal_strlit("G");
            }
            "G"
        },
        Key::H => {
            proof {
                reveal_strlit("H");
            }
            "H"
        },
        Key::I => {
            proof {
                reveal_strlit("I");
            }
            "I"
        },
        Key::J => {
            proof {
                reveal_strlit("J");
            }
            "J"
        },
        Key::K => {
            proof {
                reveal_strlit("K");
            }
            "K"
        },
        Key::L => {
            proof {
                reveal_strlit("L");
            }
            "L"
        },
        Key::M => {
            proof {
                reveal_strlit("M");
            }
            "M"
        },
        Key::N => {
            proof {
                reveal_strlit("N");
            }
            "N"
        },
        Key::O => {
            proof {
                reveal_strlit("O");
            }
            "O"
        },
        Key::P => {
            proof {
                reveal_strlit("P");
            }
            "P"
        },
        Key::Q => {
            proof {
                reveal_strlit("Q");
            }
            "Q"
        },
        Key::R => {
            proof {
                reveal_strlit("R");
            }
            "R"
        },
        Key::S => {
            proof {
                reveal_strlit("S");
            }
            "S"
        },
        Key::T => {
            proof {
                reveal_strlit("T");
            }
            "T"
        },
        Key::U => {
            proof {
                reveal_strlit("U");
            }
            "U"
        },
        Key::V => {
            proof {
                reveal_strlit("V");
            }
            "V"
        },
        Key::W => {
            proof {
                reveal_strlit("W");
            }
            "W"
        },
        Key::X => {
            proof {
                reveal_strlit("X");
            }
            "X"
        },
        Key::Y => {
            proof {
                reveal_strlit("Y");
            }
            "Y"
        },
        Key::Z => {
            proof {
                reveal_strlit("Z");
            }
            "Z"
        },
        Key::Other => {
            proof {
                reveal_strlit("");
            }
            ""
        },
    }
}

/// The white keys (by index from the left) at whose left edge a black key
/// sits.
pub open spec fn black_key_slots() -> Seq<usize> {
    seq![1, 3, 6, 8, 10, 13, 15, 18, 20]
}

/// The black keys of the on-screen piano, left to right: for each, the white
/// key at whose left edge it sits and its MIDI note, a semitone above the
/// white key to its left.
pub open spec fn black_key_list() -> Seq<(usize, u8)> {
    black_key_slots().map_values(|slot: usize| (slot, (white_key_notes()[slot - 1] + 1) as u8))
}

/// The black keys of the on-screen piano, left to right: the white key at
/// whose left edge each sits, and its MIDI note.
pub fn black_keys() -> (r: Vec<(usize, u8)>)
    ensures
        r@ == black_key_list(),
{
    let white = white_keys();
    let slots: Vec<usize> = vec![1, 3, 6, 8, 10, 13, 15, 18, 20];
    let mut keys: Vec<(usize, u8)> = Vec::new();
    for i in 0..slots.len()
        invariant
            white@ == white_key_notes(),
            slots@ == black_key_slots(),
            keys@ == black_key_list().take(i as int),
    {
        let slot = slots[i];
        let note = white[slot - 1] + 1;
        keys.push((slot, note));
        proof {
            assert(keys@ =~= black_key_list().take(i + 1));
        }
    }
    proof {
        assert(black_key_list().take(9) =~= black_key_list());
    }
    keys
}

/// Every letter printed on the on-screen piano is that of the key of the
/// computer keyboard which plays the note of that piano key.
pub proof fn lemma_shortcuts_match_notes(index: int)
    requires
        0 <= index < 22,
    ensures
        shortcut_of(index) matches Some(k) ==> key_note(k) == Some(white_key_notes()[index]),
{
}

/// Each black key sits between two white keys and plays a semitone above the
/// white key to its left; apart from the second and fifth black keys (which
/// sit between E and F, and so play F), it plays the sharp between its two
/// white neighbours, a note outside C major.
pub proof fn lemma_black_keys_are_sharps(i: int)
    requires
        0 <= i < 9,
        i != 1,
        i != 4,
    ensures
        ({
            let (slot, note) = black_key_list()[i];
            &&& 1 <= slot < 22
            &&& note == white_key_notes()[slot - 1] + 1
            &&& note + 1 == white_key_notes()[slot as int]
            &&& !crate::keyboard::in_c_major(note as int % 12)
        }),
{
    let slots = black_key_slots();
    let white = white_key_notes();
    assert(black_key_list()[i] == (slots[i], (white[slots[i] - 1] + 1) as u8));
    if i == 0 {
        assert(slots[i] == 1);
    }
    if i == 1 {
        assert(slots[i] == 3);
    }
    if i == 2 {
        assert(slots[i] == 6);
    }
    if i == 3 {
        assert(slots[i] == 8);
    }
    if i == 4 {
        assert(slots[i] == 10);
    }
    if i == 5 {
        assert(slots[i] == 13);
    }
    if i == 6 {
        assert(slots[i] == 15);
    }
    if i == 7 {
        assert(slots[i] == 18);
    }
    if i == 8 {
        assert(slots[i] == 20);
    }
}

/// The black keys of the on-screen piano sit at the left edges of white keys
/// 1, 3, 6, 8, 10, 13, 15, 18 and 20 and play MIDI notes 49, 53, 58, 61, 65,
/// 70, 73, 78 and 82.
pub proof fn lemma_black_key_layout()
    ensures
        black_key_list().len() == 9,
        black_key_list()[0] == (1usize, 49u8),
        black_key_list()[1] == (3usize, 53u8),
        black_key_list()[2] == (6usize, 58u8),
        black_key_list()[3] == (8usize, 61u8),
        black_key_list()[4] == (10usize, 65u8),
        black_key_list()[5] == (13usize, 70u8),
        black_key_list()[6] == (15usize, 73u8),
        black_key_list()[7] == (18usize, 78u8),
        black_key_list()[8] == (20usize, 82u8),
{
}

/// The letters printed for the keys of the three letter rows spell the rows
/// as they read on an AZERTY keyboard.
pub proof fn lemma_row_labels()
    ensures
        top_row().map_values(|k: Key| key_label(k)[0]) =~= seq!['A', 'Z', 'E', 'R', 'T', 'Y', 'U', 'I', 'O', 'P'],
        middle_row().map_values(|k: Key| key_label(k)[0]) =~= seq!['Q', 'S', 'D', 'F', 'G', 'H', 'J', 'K', 'L', 'M'],
        bottom_row().map_values(|k: Key| key_label(k)[0]) =~= seq!['W', 'X', 'C', 'V', 'B', 'N'],
        forall|k: Key| k != Key::Other ==> (#[trigger] key_label(k)).len() == 1,
{
}

} // verus!
