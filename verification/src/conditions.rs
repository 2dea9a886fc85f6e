use vstd::prelude::*;

use crate::commands::BoolSupplier;
use crate::manager::Condition;
use crate::manager::ConditionResponse;

verus! {

/// The pure edge rule of the on-true detector: `Start` exactly on a
/// false-to-true transition of the source, `NoChange` otherwise.
pub open spec fn on_true_spec(last_state: bool, state: bool) -> ConditionResponse {
    if state && !last_state {
        ConditionResponse::Start
    } else {
        ConditionResponse::NoChange
    }
}

/// The pure rule of the while-true detector: `Start` on a false-to-true
/// transition, `Continue` while the source stays true, `Stop` on a
/// true-to-false transition, `NoChange` while it stays false.
pub open spec fn while_true_spec(last_state: bool, state: bool) -> ConditionResponse {
    if state && !last_state {
        ConditionResponse::Start
    } else if state {
        ConditionResponse::Continue
    } else if !state && last_state {
        ConditionResponse::Stop
    } else {
        ConditionResponse::NoChange
    }
}

/// The responses an on-true detector yields over a whole sequence of
/// samples, starting from remembered state `initial`.
pub open spec fn on_true_responses(initial: bool, samples: Seq<bool>) -> Seq<ConditionResponse>
    decreases samples.len(),
{
    if samples.len() == 0 {
        Seq::empty()
    } else {
        seq![on_true_spec(initial, samples[0])] + on_true_responses(
            samples[0],
            samples.drop_first(),
        )
    }
}

/// Edge-triggering of the on-true detector: over any sample sequence, the
/// detector answers `Start` exactly at the rising edges of its source —
/// never while the source stays true, and never while it stays false.
pub proof fn lemma_on_true_edges(initial: bool, samples: Seq<bool>, k: int)
    requires
        0 <= k < samples.len(),
    ensures
        on_true_responses(initial, samples).len() == samples.len(),
        on_true_responses(initial, samples)[k] == ConditionResponse::Start
            <==> samples[k] && !(if k == 0 {
                initial
            } else {
                samples[k - 1]
            }),
    decreases samples.len(),
{
    lemma_on_true_len(initial, samples);
    if k == 0 {
        assert(on_true_responses(initial, samples)[0] == on_true_spec(initial, samples[0]));
    } else {
        let rest = samples.drop_first();
        lemma_on_true_edges(samples[0], rest, k - 1);
        assert(on_true_responses(initial, samples)[k]
            == on_true_responses(samples[0], rest)[k - 1]);
        assert(rest[k - 1] == samples[k]);
        if k - 1 > 0 {
            assert(rest[k - 2] == samples[k - 1]);
        }
    }
}

/// The detector yields one response per sample.
pub proof fn lemma_on_true_len(initial: bool, samples: Seq<bool>)
    ensures
        on_true_responses(initial, samples).len() == samples.len(),
    decreases samples.len(),
{
    if samples.len() > 0 {
        lemma_on_true_len(samples[0], samples.drop_first());
    }
}

/// A source wrapper that answers the logical negation of its inner source.
struct NegatedSupplier {
    inner: Box<dyn BoolSupplier>,
}

impl BoolSupplier for NegatedSupplier {
    fn call(&mut self) -> bool {
        !self.inner.call()
    }
}

/// An edge detector that asks to start its command exactly once per rising
/// edge of its boolean source.
pub struct OnTrue {
    function: Box<dyn BoolSupplier>,
    last_state: bool,
}

impl OnTrue {
    /// The source state remembered from the previous poll.
    pub closed spec fn prev(&self) -> bool {
        self.last_state
    }
}

impl Condition for OnTrue {
    fn get_condition(&mut self) -> (r: ConditionResponse)
        ensures
            exists|state: bool| r == on_true_spec(old(self).prev(), state)
                && final(self).prev() == state,
    {
        let state = self.function.call();
        let r = if state && !self.last_state {
            ConditionResponse::Start
        } else {
            ConditionResponse::NoChange
        };
        self.last_state = state;
        proof {
            assert(r == on_true_spec(old(self).prev(), state) && self.prev() == state);
        }
        r
    }
}

/// A level detector that starts its command on a rising edge of its source,
/// keeps it while the source stays true, and stops it on a falling edge.
pub struct WhileTrue {
    function: Box<dyn BoolSupplier>,
    last_state: bool,
}

impl WhileTrue {
    /// The source state remembered from the previous poll.
    pub closed spec fn prev(&self) -> bool {
        self.last_state
    }
}

impl Condition for WhileTrue {
    fn get_condition(&mut self) -> (r: ConditionResponse)
        ensures
            exists|state: bool| r == while_true_spec(old(self).prev(), state)
                && final(self).prev() == state,
    {
        let state = self.function.call();
        let r = if state && !self.last_state {
            ConditionResponse::Start
        } else if state {
            ConditionResponse::Continue
        } else if !state && self.last_state {
            ConditionResponse::Stop
        } else {
            ConditionResponse::NoChange
        };
        self.last_state = state;
        proof {
            assert(r == while_true_spec(old(self).prev(), state) && self.prev() == state);
        }
        r
    }
}

/// Builds an on-true detector over `f`, with no edge remembered yet.
pub fn on_true(f: Box<dyn BoolSupplier>) -> (r: OnTrue)
    ensures
        !r.prev(),
{
    OnTrue { function: f, last_state: false }
}

/// Builds an on-true detector over the negation of `f`.
pub fn on_false(f: Box<dyn BoolSupplier>) -> (r: OnTrue)
    ensures
        !r.prev(),
{
    let negated = NegatedSupplier { inner: f };
    OnTrue { function: Box::new(negated), last_state: false }
}

/// Builds a while-true detector over `f`, with no edge remembered yet.
pub fn while_true(f: Box<dyn BoolSupplier>) -> (r: WhileTrue)
    ensures
        !r.prev(),
{
    WhileTrue { function: f, last_state: false }
}

/// Builds a while-true detector over the negation of `f`.
pub fn while_false(f: Box<dyn BoolSupplier>) -> (r: WhileTrue)
    ensures
        !r.prev(),
{
    let negated = NegatedSupplier { inner: f };
    WhileTrue { function: Box::new(negated), last_state: false }
}

} // verus!
