use vstd::prelude::*;

verus! {

/// The shape of an oscillator's output.
#[derive(Clone, Copy, Debug, PartialEq, Eq, Structural)]
pub enum Waveform {
    Sine,
    Saw,
    Square,
    Triangle,
}

/// Whether two waveforms are the same shape.
pub fn same_waveform(a: Waveform, b: Waveform) -> (r: bool)
    ensures
        r == (a == b),
{
    match (a, b) {
        (Waveform::Sine, Waveform::Sine) => true,
        (Waveform::Saw, Waveform::Saw) => true,
        (Waveform::Square, Waveform::Square) => true,
        (Waveform::Triangle, Waveform::Triangle) => true,
        _ => false,
    }
}

/// The label under which a waveform is shown.
pub open spec fn waveform_label(waveform: Waveform) -> Seq<char> {
    match waveform {
        Waveform::Sine => seq!['S', 'I', 'N', 'E'],
        Waveform::Saw => seq!['S', 'A', 'W'],
        Waveform::Square => seq!['S', 'Q', 'U', 'A', 'R', 'E'],
        Waveform::Triangle => seq!['T', 'R', 'I', 'A', 'N', 'G', 'L', 'E'],
    }
}

/// The display name of a waveform.
pub fn waveform_name(waveform: Waveform) -> (r: &'static str)
    ensures
        r@ == waveform_label(waveform),
{
    match waveform {
        Waveform::Sine => {
            proof {
                reveal_strlit("SINE");
            }
            "SINE"
        },
        Waveform::Saw => {
            proof {
                reveal_strlit("SAW");
            }
            "SAW"
        },
        Waveform::Square => {
            proof {
                reveal_strlit("SQUARE");
            }
            "SQUARE"
        },
        Waveform::Triangle => {
            proof {
                reveal_strlit("TRIANGLE");
            }
            "TRIANGLE"
        },
    }
}

/// Distinct waveforms are shown under distinct names.
pub proof fn lemma_waveform_label_injective(a: Waveform, b: Waveform)
    requires
        waveform_label(a) == waveform_label(b),
    ensures
        a == b,
{
    if a != b {
        match (a, b) {
            (Waveform::Sine, Waveform::Saw) | (Waveform::Saw, Waveform::Sine) => {
                assert(waveform_label(a)[1] != waveform_label(b)[1]);
            },
            _ => {
                assert(waveform_label(a).len() != waveform_label(b).len());
            },
        }
    }
}

/// Each waveform is shown under the name of its shape, in capitals: a sine as
/// SINE, a sawtooth as SAW, a square as SQUARE and a triangle as TRIANGLE.
pub proof fn lemma_waveform_labels()
    ensures
        waveform_label(Waveform::Sine) =~= seq!['S', 'I', 'N', 'E'],
        waveform_label(Waveform::Saw) =~= seq!['S', 'A', 'W'],
        waveform_label(Waveform::Square) =~= seq!['S', 'Q', 'U', 'A', 'R', 'E'],
        waveform_label(Waveform::Triangle) =~= seq!['T', 'R', 'I', 'A', 'N', 'G', 'L', 'E'],
{
}

} // verus!
