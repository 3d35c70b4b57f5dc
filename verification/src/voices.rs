use vstd::prelude::*;

use crate::envelope::{Envelope, EnvelopeStage};
use crate::note::Note;

verus! {

/// One voice of the synthesizer: the note it plays, the stage machine of its
/// envelope, and the sound-generating state `S` that the audio code keeps for
/// it (the library never looks inside `S`).
pub struct Voice<S> {
    pub note: Note,
    pub envelope: Envelope,
    pub sound: S,
}

impl<S> Voice<S> {
    /// A voice for `note`; its envelope has not been struck, so it is silent.
    pub fn new(note: Note, sound: S) -> (r: Voice<S>)
        ensures
            r.note == note,
            r.envelope.spec_stage() == EnvelopeStage::Idle,
            r.sound == sound,
    {
        Voice { note, envelope: Envelope::new(), sound }
    }

    /// The note the voice plays.
    pub fn note(&self) -> (r: Note)
        ensures
            r == self.note,
    {
        self.note
    }

    /// Strikes the voice's note.
    pub fn note_on(&mut self)
        ensures
            final(self).note == old(self).note,
            final(self).sound == old(self).sound,
            final(self).envelope.spec_stage() == EnvelopeStage::Attack,
    {
        self.envelope.note_on();
    }

    /// Releases the voice's note.
    pub fn note_off(&mut self)
        ensures
            final(self).note == old(self).note,
            final(self).sound == old(self).sound,
            final(self).envelope.spec_stage() == EnvelopeStage::Release,
    {
        self.envelope.note_off();
    }

    /// Whether the voice has fallen silent.
    pub fn is_finished(&self) -> (r: bool)
        ensures
            r == (self.envelope.spec_stage() == EnvelopeStage::Idle),
    {
        self.envelope.is_finished()
    }
}

/// Whether a voice has fallen silent.
pub open spec fn is_silent<S>(voice: Voice<S>) -> bool {
    voice.envelope.spec_stage() == EnvelopeStage::Idle
}

/// The voices that still sound, in order.
pub open spec fn audible_voices<S>(voices: Seq<Voice<S>>) -> Seq<Voice<S>> {
    voices.filter(|v: Voice<S>| !is_silent(v))
}

/// The voices of the synthesizer, in the order their notes were struck.
pub struct VoiceBank<S> {
    voices: Vec<Voice<S>>,
}

impl<S> View for VoiceBank<S> {
    type V = Seq<Voice<S>>;

    closed spec fn view(&self) -> Seq<Voice<S>> {
        self.voices@
    }
}

impl<S> VoiceBank<S> {
    /// No voices.
    pub fn new() -> (r: VoiceBank<S>)
        ensures
            r@ == Seq::<Voice<S>>::empty(),
    {
        VoiceBank { voices: Vec::new() }
    }

    /// How many voices there are.
    pub fn len(&self) -> (r: usize)
        ensures
            r == self@.len(),
    {
        self.voices.len()
    }

    /// The voice at `index`.
    pub fn voice(&self, index: usize) -> (r: &Voice<S>)
        requires
            index < self@.len(),
        ensures
            *r == self@[index as int],
    {
        &self.voices[index]
    }

    /// The voice at `index`, to render it.
    pub fn voice_mut(&mut self, index: usize) -> (r: &mut Voice<S>)
        requires
            index < old(self)@.len(),
        ensures
            *r == old(self)@[index as int],
            final(self)@ == old(self)@.update(index as int, *final(r)),
    {
        &mut self.voices[index]
    }

    /// Adds a voice for `note` with its sound state; like every new voice it
    /// is silent until its envelope is struck.
    pub fn note_on(&mut self, note: Note, sound: S)
        ensures
            final(self)@.len() == old(self)@.len() + 1,
            final(self)@.drop_last() == old(self)@,
            final(self)@.last().note == note,
            final(self)@.last().sound == sound,
            is_silent(final(self)@.last()),
    {
        let voice = Voice::new(note, sound);
        self.voices.push(voice);
        proof {
            assert(self@.drop_last() =~= old(self)@);
        }
    }

    /// Releases every voice that plays `note`; the other voices are left as
    /// they were.
    pub fn note_off(&mut self, note: Note)
        ensures
            final(self)@.len() == old(self)@.len(),
            forall|i: int|
                0 <= i < old(self)@.len() ==> {
                    let before = #[trigger] old(self)@[i];
                    let after = final(self)@[i];
                    if before.note == note {
                        &&& after.note == before.note
                        &&& after.sound == before.sound
                        &&& after.envelope.spec_stage() == EnvelopeStage::Release
                    } else {
                        after == before
                    }
                },
    {
        let n = self.voices.len();
        for i in 0..n
            invariant
                n == old(self)@.len(),
                self@.len() == n,
                forall|j: int|
                    0 <= j < n ==> {
                        let before = #[trigger] old(self)@[j];
                        let after = self@[j];
                        if j < i && before.note == note {
                            &&& after.note == before.note
                            &&& after.sound == before.sound
                            &&& after.envelope.spec_stage() == EnvelopeStage::Release
                        } else {
                            after == before
                        }
                    },
        {
            if self.voices[i].note == note {
                self.voices[i].note_off();
            }
        }
    }

    /// Drops the voices that have fallen silent, keeping the others in order.
    pub fn remove_finished(&mut self)
        ensures
            final(self)@ == audible_voices(old(self)@),
    {
        let mut kept: Vec<Voice<S>> = Vec::new();
        let mut all: Vec<Voice<S>> = Vec::new();
        std::mem::swap(&mut all, &mut self.voices);
        let ghost before_all = all@;
        let ghost keep = |v: Voice<S>| !is_silent(v);
        for voice in iter: all.into_iter()
            invariant
                iter.seq() == before_all,
                keep == (|v: Voice<S>| !is_silent(v)),
                kept@ == before_all.take(iter.index() as int).filter(keep),
        {
            assert(voice == before_all[iter.index() as int]);
            let ghost i = iter.index() as int;
            assert(before_all.take(i + 1).last() == before_all[i]);
            if !voice.is_finished() {
                kept.push(voice);
            }
            proof {
                reveal(Seq::filter);
                assert(before_all.take(i + 1).drop_last() =~= before_all.take(i));
                assert(kept@ =~= before_all.take(i + 1).filter(keep));
            }
        }
        proof {
            assert(before_all.take(before_all.len() as int) =~= before_all);
        }
        self.voices = kept;
    }
}

/// Dropping the silent voices leaves no silent voice, and keeps every voice
/// that still sounds.
pub proof fn lemma_remove_finished<S>(voices: Seq<Voice<S>>)
    ensures
        forall|i: int|
            0 <= i < audible_voices(voices).len() ==> !is_silent(
                #[trigger] audible_voices(voices)[i],
            ),
        forall|i: int|
            0 <= i < voices.len() && !is_silent(voices[i]) ==> #[trigger] audible_voices(
                voices,
            ).contains(voices[i]),
{
    broadcast use vstd::seq_lib::group_filter_ensures;

    let keep = |v: Voice<S>| !is_silent(v);
    assert forall|i: int| 0 <= i < voices.len() && !is_silent(voices[i]) implies #[trigger] audible_voices(voices).contains(voices[i]) by {
        assert(keep(voices[i]));
    }
    assert forall|i: int| 0 <= i < audible_voices(voices).len() implies !is_silent(#[trigger] audible_voices(voices)[i]) by {
        assert(keep(audible_voices(voices)[i]));
    }
}

} // verus!
