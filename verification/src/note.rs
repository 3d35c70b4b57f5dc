use vstd::prelude::*;

verus! {

/// A note, identified by its MIDI number (60 is middle C, 69 is A4).
#[derive(Clone, Copy, Debug, PartialEq, Eq, Structural)]
pub struct Note {
    pub midi: u8,
}

/// The name of a pitch class (0 is C, 11 is B), sharps written with `#`.
pub open spec fn pitch_label(pitch_class: int) -> Seq<char> {
    if pitch_class == 0 {
        seq!['C']
    } else     if pitch_class == 1 {
        seq!['C', '#']
    } else     if pitch_class == 2 {
        seq!['D']
    } else     if pitch_class == 3 {
        seq!['D', '#']
    } else     if pitch_class == 4 {
        seq!['E']
    } else     if pitch_class == 5 {
        seq!['F']
    } else     if pitch_class == 6 {
        seq!['F', '#']
    } else     if pitch_class == 7 {
        seq!['G']
    } else     if pitch_class == 8 {
        seq!['G', '#']
    } else     if pitch_class == 9 {
        seq!['A']
    } else     if pitch_class == 10 {
        seq!['A', '#']
    } else {
        seq!['B']
    }
}

/// The decimal digit of a number from 0 to 9.
pub open spec fn digit_char(d: int) -> char {
    if d == 0 {
        '0'
    } else if d == 1 {
        '1'
    } else if d == 2 {
        '2'
    } else if d == 3 {
        '3'
    } else if d == 4 {
        '4'
    } else if d == 5 {
        '5'
    } else if d == 6 {
        '6'
    } else if d == 7 {
        '7'
    } else if d == 8 {
        '8'
    } else {
        '9'
    }
}

/// The decimal digits of a natural number, without leading zeros.
pub open spec fn decimal(n: nat) -> Seq<char>
    decreases n,
{
    if n < 10 {
        seq![digit_char(n as int)]
    } else {
        decimal(n / 10).push(digit_char((n % 10) as int))
    }
}

/// An integer in decimal, with a leading `-` when it is negative.
pub open spec fn signed_decimal(i: int) -> Seq<char> {
    if i < 0 {
        seq!['-'] + decimal((-i) as nat)
    } else {
        decimal(i as nat)
    }
}

/// The octave that a MIDI note lies in (note 60, middle C, is in octave 4).
pub open spec fn octave_of(midi: u8) -> int {
    midi as int / 12 - 1
}

/// The scientific name of a MIDI note, such as `C4` for 60 or `C#-1` for 1.
pub open spec fn note_label(midi: u8) -> Seq<char> {
    pitch_label(midi as int % 12) + signed_decimal(octave_of(midi))
}

fn pitch_name(pitch_class: u8) -> (r: &'static str)
    requires
        pitch_class < 12,
    ensures
        r@ == pitch_label(pitch_class as int),
{
    match pitch_class {
        0 => {
            proof {
                reveal_strlit("C");
            }
            "C"
        },
        1 => {
            proof {
                reveal_strlit("C#");
            }
            "C#"
        },
        2 => {
            proof {
                reveal_strlit("D");
            }
            "D"
        },
        3 => {
            proof {
                reveal_strlit("D#");
            }
            "D#"
        },
        4 => {
            proof {
                reveal_strlit("E");
            }
            "E"
        },
        5 => {
            proof {
                reveal_strlit("F");
            }
            "F"
        },
        6 => {
            proof {
                reveal_strlit("F#");
            }
            "F#"
        },
        7 => {
            proof {
                reveal_strlit("G");
            }
            "G"
        },
        8 => {
            proof {
                reveal_strlit("G#");
            }
            "G#"
        },
        9 => {
            proof {
                reveal_strlit("A");
            }
            "A"
        },
        10 => {
            proof {
                reveal_strlit("A#");
            }
            "A#"
        },
        _ => {
            proof {
                reveal_strlit("B");
            }
            "B"
        },
    }
}

fn digit_name(d: u8) -> (r: &'static str)
    requires
        d < 10,
    ensures
        r@ == seq![digit_char(d as int)],
{
    match d {
        0 => {
            proof {
                reveal_strlit("0");
            }
            "0"
        },
        1 => {
            proof {
                reveal_strlit("1");
            }
            "1"
        },
        2 => {
            proof {
                reveal_strlit("2");
            }
            "2"
        },
        3 => {
            proof {
                reveal_strlit("3");
            }
            "3"
        },
        4 => {
            proof {
                reveal_strlit("4");
            }
            "4"
        },
        5 => {
            proof {
                reveal_strlit("5");
            }
            "5"
        },
        6 => {
            proof {
                reveal_strlit("6");
            }
            "6"
        },
        7 => {
            proof {
                reveal_strlit("7");
            }
            "7"
        },
        8 => {
            proof {
                reveal_strlit("8");
            }
            "8"
        },
        _ => {
            proof {
                reveal_strlit("9");
            }
            "9"
        },
    }
}

/// The scientific name of a MIDI note: its pitch class then its octave.
pub fn midi_to_name(midi: u8) -> (r: String)
    ensures
        r@ == note_label(midi),
{
    let mut name = String::from_str(pitch_name(midi % 12));
    if midi < 12 {
        proof {
            reveal_strlit("-1");
        }
        name.append("-1");
    } else {
        let octave: u8 = midi / 12 - 1;
        if octave >= 10 {
            name.append(digit_name(octave / 10));
        }
        name.append(digit_name(octave % 10));
        proof {
            reveal_with_fuel(decimal, 2);
            if octave >= 10 {
                assert(decimal(octave as nat) == seq![digit_char((octave / 10) as int), digit_char((octave % 10) as int)]);
            }
        }
    }
    proof {
        reveal_with_fuel(decimal, 2);
    }
    name
}

/// The number a decimal digit character stands for.
pub open spec fn digit_value(c: char) -> int {
    (c as int) - ('0' as int)
}

/// The number that a string of decimal digits stands for.
pub open spec fn decimal_value(digits: Seq<char>) -> int
    decreases digits.len(),
{
    if digits.len() == 0 {
        0
    } else {
        decimal_value(digits.drop_last()) * 10 + digit_value(digits.last())
    }
}

proof fn lemma_digit_value(d: int)
    requires
        0 <= d < 10,
    ensures
        digit_value(digit_char(d)) == d,
        '0' <= digit_char(d) <= '9',
        d != 0 ==> digit_char(d) != '0',
{
    if d == 0 {
        assert(('0' as int) == 48);
    } else if d == 1 {
        assert(('1' as int) == 49);
    } else if d == 2 {
        assert(('2' as int) == 50);
    } else if d == 3 {
        assert(('3' as int) == 51);
    } else if d == 4 {
        assert(('4' as int) == 52);
    } else if d == 5 {
        assert(('5' as int) == 53);
    } else if d == 6 {
        assert(('6' as int) == 54);
    } else if d == 7 {
        assert(('7' as int) == 55);
    } else if d == 8 {
        assert(('8' as int) == 56);
    } else {
        assert(('9' as int) == 57);
    }
}

/// Writing a number in decimal and reading it back gives the number: the
/// digits are all between `0` and `9`, there is at least one, and the first
/// is `0` only for zero.
pub proof fn lemma_decimal_round_trip(n: nat)
    ensures
        decimal(n).len() > 0,
        decimal_value(decimal(n)) == n,
        forall|i: int| 0 <= i < decimal(n).len() ==> '0' <= #[trigger] decimal(n)[i] <= '9',
        decimal(n)[0] == '0' ==> n == 0,
    decreases n,
{
    if n < 10 {
        lemma_digit_value(n as int);
        assert(decimal(n) == seq![digit_char(n as int)]);
        assert(decimal(n).drop_last() =~= Seq::<char>::empty());
        assert(decimal_value(Seq::<char>::empty()) == 0);
        assert(decimal(n).last() == digit_char(n as int));
        assert(decimal_value(decimal(n)) == decimal_value(decimal(n).drop_last()) * 10 + digit_value(
            decimal(n).last(),
        ));
    } else {
        lemma_decimal_round_trip(n / 10);
        let d = (n % 10) as int;
        lemma_digit_value(d);
        assert(decimal(n).drop_last() =~= decimal(n / 10));
        assert(decimal(n).last() == digit_char(d));
        assert(decimal_value(decimal(n)) == decimal_value(decimal(n / 10)) * 10 + d);
        assert(n == (n / 10) * 10 + d);
        assert(decimal(n)[0] == decimal(n / 10)[0]);
        assert forall|i: int| 0 <= i < decimal(n).len() implies '0' <= #[trigger] decimal(n)[i] <= '9' by {
            if i < decimal(n / 10).len() {
                assert(decimal(n)[i] == decimal(n / 10)[i]);
            }
        }
    }
}

/// The names of the notes of C major are the single letters C D E F G A B, in
/// order; every other pitch class is named after the natural note a semitone
/// below it, followed by `#`.
pub proof fn lemma_pitch_labels(pitch_class: int)
    requires
        0 <= pitch_class < 12,
    ensures
        forall|j: int|
            0 <= j < 7 ==> pitch_label(#[trigger] crate::keyboard::c_major_semitones()[j])
                == seq![seq!['C', 'D', 'E', 'F', 'G', 'A', 'B'][j]],
        crate::keyboard::in_c_major(pitch_class) ==> pitch_label(pitch_class).len() == 1,
        !crate::keyboard::in_c_major(pitch_class) ==> crate::keyboard::in_c_major(pitch_class - 1)
            && pitch_label(pitch_class) == pitch_label(pitch_class - 1).push('#'),
{
    assert forall|j: int|
        0 <= j < 7 implies pitch_label(#[trigger] crate::keyboard::c_major_semitones()[j])
            == seq![seq!['C', 'D', 'E', 'F', 'G', 'A', 'B'][j]] by {
        if j == 0 {
        } else if j == 1 {
        } else if j == 2 {
        } else if j == 3 {
        } else if j == 4 {
        } else if j == 5 {
        } else {
        }
    }
    assert(pitch_label(pitch_class - 1).push('#') =~= pitch_label(pitch_class) || crate::keyboard::in_c_major(pitch_class));
}

/// The name of a note is its pitch class's name followed by its octave in
/// decimal (with `-` for octave -1), where the octave goes up by one every
/// twelve semitones and middle C, MIDI 60, starts octave 4.
pub proof fn lemma_note_label_octaves(midi: u8)
    ensures
        octave_of(midi) == (midi as int - 60) / 12 + 4,
        note_label(midi).take(pitch_label(midi as int % 12).len() as int) == pitch_label(
            midi as int % 12,
        ),
        midi >= 12 ==> decimal_value(note_label(midi).skip(pitch_label(midi as int % 12).len() as int))
            == octave_of(midi),
        midi < 12 ==> note_label(midi).skip(pitch_label(midi as int % 12).len() as int) == seq![
            '-',
            '1',
        ],
{
    let p = pitch_label(midi as int % 12);
    let o = octave_of(midi);
    assert(note_label(midi).take(p.len() as int) =~= p);
    assert(note_label(midi).skip(p.len() as int) =~= signed_decimal(o));
    if midi >= 12 {
        lemma_decimal_round_trip(o as nat);
    } else {
        reveal_with_fuel(decimal, 1);
        assert(signed_decimal(o) =~= seq!['-', '1']);
    }
}

} // verus!
