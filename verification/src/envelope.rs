use vstd::prelude::*;

verus! {

/// The stage an ADSR envelope is in.
#[derive(Clone, Copy, Debug, PartialEq, Eq, Structural)]
pub enum EnvelopeStage {
    Idle,
    Attack,
    Decay,
    Sustain,
    Release,
}

/// The stage that follows `stage` once the level has crossed the target of
/// that stage (`reached`); without a crossing the stage stays.
/// Attack ends at the peak, Decay at the sustain level, Release at silence;
/// Idle and Sustain have no target and hold.
pub open spec fn next_stage(stage: EnvelopeStage, reached: bool) -> EnvelopeStage {
    if !reached {
        stage
    } else {
        match stage {
            EnvelopeStage::Attack => EnvelopeStage::Decay,
            EnvelopeStage::Decay => EnvelopeStage::Sustain,
            EnvelopeStage::Release => EnvelopeStage::Idle,
            EnvelopeStage::Idle => EnvelopeStage::Idle,
            EnvelopeStage::Sustain => EnvelopeStage::Sustain,
        }
    }
}

/// The stage after a run of samples, `reached[i]` telling whether the level
/// crossed its target at the `i`-th sample.
pub open spec fn stage_after(stage: EnvelopeStage, reached: Seq<bool>) -> EnvelopeStage
    decreases reached.len(),
{
    if reached.len() == 0 {
        stage
    } else {
        stage_after(next_stage(stage, reached[0]), reached.drop_first())
    }
}

/// Whether the stage belongs to a held note (the note has been struck and not
/// yet released).
pub open spec fn is_held_stage(stage: EnvelopeStage) -> bool {
    stage == EnvelopeStage::Attack || stage == EnvelopeStage::Decay || stage
        == EnvelopeStage::Sustain
}

/// The stage machine of an ADSR envelope. The level itself is a float that the
/// audio code keeps; it reports here when the level crossed the current
/// stage's target.
pub struct Envelope {
    stage: EnvelopeStage,
}

impl Envelope {
    /// The current stage.
    pub closed spec fn spec_stage(&self) -> EnvelopeStage {
        self.stage
    }

    /// A silent envelope, waiting for a note.
    pub fn new() -> (r: Envelope)
        ensures
            r.spec_stage() == EnvelopeStage::Idle,
    {
        Envelope { stage: EnvelopeStage::Idle }
    }

    /// The current stage.
    pub fn stage(&self) -> (r: EnvelopeStage)
        ensures
            r == self.spec_stage(),
    {
        self.stage
    }

    /// Strikes the note: the envelope (re)starts its attack, whatever stage
    /// it was in.
    pub fn note_on(&mut self)
        ensures
            final(self).spec_stage() == EnvelopeStage::Attack,
    {
        self.stage = EnvelopeStage::Attack;
    }

    /// Releases the note: the envelope enters its release, whatever stage it
    /// was in.
    pub fn note_off(&mut self)
        ensures
            final(self).spec_stage() == EnvelopeStage::Release,
    {
        self.stage = EnvelopeStage::Release;
    }

    /// Whether the envelope has fallen silent.
    pub fn is_finished(&self) -> (r: bool)
        ensures
            r == (self.spec_stage() == EnvelopeStage::Idle),
    {
        match self.stage {
            EnvelopeStage::Idle => true,
            _ => false,
        }
    }

    /// Moves to the next stage when the level crossed the current stage's
    /// target.
    pub fn advance(&mut self, reached: bool)
        ensures
            final(self).spec_stage() == next_stage(old(self).spec_stage(), reached),
    {
        if reached {
            self.stage = match self.stage {
                EnvelopeStage::Attack => EnvelopeStage::Decay,
                EnvelopeStage::Decay => EnvelopeStage::Sustain,
                EnvelopeStage::Release => EnvelopeStage::Idle,
                EnvelopeStage::Idle => EnvelopeStage::Idle,
                EnvelopeStage::Sustain => EnvelopeStage::Sustain,
            };
        }
    }
}

/// A released note never sounds again by itself: from Release or Idle the
/// envelope stays in one of these two stages.
pub proof fn lemma_released_stays_released(stage: EnvelopeStage, reached: Seq<bool>)
    requires
        stage == EnvelopeStage::Release || stage == EnvelopeStage::Idle,
    ensures
        stage_after(stage, reached) == EnvelopeStage::Release || stage_after(stage, reached)
            == EnvelopeStage::Idle,
    decreases reached.len(),
{
    if reached.len() > 0 {
        lemma_released_stays_released(next_stage(stage, reached[0]), reached.drop_first());
    }
}

/// An envelope falls silent only at the end of its release.
pub proof fn lemma_finishes_only_from_release(stage: EnvelopeStage, reached: bool)
    requires
        stage != EnvelopeStage::Idle,
        next_stage(stage, reached) == EnvelopeStage::Idle,
    ensures
        stage == EnvelopeStage::Release,
        reached,
{
}

/// How many of the samples crossed their stage's target.
pub open spec fn crossings(reached: Seq<bool>) -> nat
    decreases reached.len(),
{
    if reached.len() == 0 {
        0
    } else {
        (if reached[0] {
            1nat
        } else {
            0nat
        }) + crossings(reached.drop_first())
    }
}

/// The position of a held stage along Attack, Decay, Sustain.
pub open spec fn held_position(stage: EnvelopeStage) -> nat {
    match stage {
        EnvelopeStage::Attack => 0,
        EnvelopeStage::Decay => 1,
        _ => 2,
    }
}

/// A struck note goes through its stages in order: every crossing moves one
/// stage on along Attack, Decay, Sustain, and Sustain holds.
pub proof fn lemma_held_progression(stage: EnvelopeStage, reached: Seq<bool>)
    requires
        is_held_stage(stage),
    ensures
        is_held_stage(stage_after(stage, reached)),
        held_position(stage_after(stage, reached)) == if held_position(stage) + crossings(
            reached,
        ) >= 2 {
            2
        } else {
            held_position(stage) + crossings(reached)
        },
    decreases reached.len(),
{
    if reached.len() > 0 {
        lemma_held_progression(next_stage(stage, reached[0]), reached.drop_first());
    }
}

/// Without a crossing the stage never changes. A crossing ends the attack in
/// the decay, the decay in the sustain and the release in silence; the
/// sustain and the silence have no target, so a crossing leaves them be.
pub proof fn lemma_stage_transitions(stage: EnvelopeStage)
    ensures
        next_stage(stage, false) == stage,
        next_stage(EnvelopeStage::Attack, true) == EnvelopeStage::Decay,
        next_stage(EnvelopeStage::Decay, true) == EnvelopeStage::Sustain,
        next_stage(EnvelopeStage::Sustain, true) == EnvelopeStage::Sustain,
        next_stage(EnvelopeStage::Release, true) == EnvelopeStage::Idle,
        next_stage(EnvelopeStage::Idle, true) == EnvelopeStage::Idle,
{
}

/// A silent envelope stays silent until the note is struck again.
pub proof fn lemma_idle_stays_idle(reached: Seq<bool>)
    ensures
        stage_after(EnvelopeStage::Idle, reached) == EnvelopeStage::Idle,
    decreases reached.len(),
{
    if reached.len() > 0 {
        lemma_idle_stays_idle(reached.drop_first());
    }
}

} // verus!
