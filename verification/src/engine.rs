//! Per-target bounded sampling with an early-stop rule.
//!
//! Each target yields a sequence of probe outcomes; an outcome is either a
//! measured round-trip latency in microseconds or `None` for "no reply".
//! Sampling a target consumes at most `MAX_ATTEMPTS` raw outcomes, keeps the
//! minimum of the successful ones, and stops early as soon as an outcome
//! drops below the cutoff.

use vstd::prelude::*;

verus! {

/// Number of probe attempts per target before giving up.
pub const MAX_ATTEMPTS: u64 = 5;

/// Minimum of a running best and one new successful latency; an equal new
/// value keeps the earlier one.
pub open spec fn upd_best(best: Option<u64>, v: u64) -> Option<u64> {
    match best {
        None => Some(v),
        Some(b) => Some(if v < b { v } else { b }),
    }
}

/// One raw outcome folded into the running best: "no reply" changes nothing.
pub open spec fn upd_best_outcome(best: Option<u64>, o: Option<u64>) -> Option<u64> {
    match o {
        None => best,
        Some(v) => upd_best(best, v),
    }
}

/// Running best after folding a whole outcome sequence, front to back.
pub open spec fn fold_best(best: Option<u64>, outcomes: Seq<Option<u64>>) -> Option<u64>
    decreases outcomes.len(),
{
    if outcomes.len() == 0 {
        best
    } else {
        fold_best(upd_best_outcome(best, outcomes[0]), outcomes.drop_first())
    }
}

/// Minimum successful latency of an outcome sequence, `None` if it has none.
pub open spec fn min_success(outcomes: Seq<Option<u64>>) -> Option<u64> {
    fold_best(None, outcomes)
}

/// Final best latency of sampling, starting from running best `best` with
/// `left` attempts still allowed: outcomes are consumed in order until the
/// budget or the sequence is exhausted, and a successful outcome below the
/// cutoff ends sampling at once.
pub open spec fn sample_rec(
    outcomes: Seq<Option<u64>>,
    cutoff: u64,
    left: nat,
    best: Option<u64>,
) -> Option<u64>
    decreases outcomes.len(),
{
    if left == 0 || outcomes.len() == 0 {
        best
    } else {
        match outcomes[0] {
            None => sample_rec(outcomes.drop_first(), cutoff, (left - 1) as nat, best),
            Some(v) => {
                let nb = upd_best(best, v);
                if v < cutoff {
                    nb
                } else {
                    sample_rec(outcomes.drop_first(), cutoff, (left - 1) as nat, nb)
                }
            },
        }
    }
}

/// Best latency reported for one target's outcome sequence.
pub open spec fn sample_spec(outcomes: Seq<Option<u64>>, cutoff: u64) -> Option<u64> {
    sample_rec(outcomes, cutoff, MAX_ATTEMPTS as nat, None)
}

/// Number of raw outcomes consumed, starting with `left` attempts allowed.
pub open spec fn attempts_rec(outcomes: Seq<Option<u64>>, cutoff: u64, left: nat) -> nat
    decreases outcomes.len(),
{
    if left == 0 || outcomes.len() == 0 {
        0
    } else {
        match outcomes[0] {
            None => 1 + attempts_rec(outcomes.drop_first(), cutoff, (left - 1) as nat),
            Some(v) => if v < cutoff {
                1
            } else {
                1 + attempts_rec(outcomes.drop_first(), cutoff, (left - 1) as nat)
            },
        }
    }
}

/// Number of raw outcomes sampling consumes for one target.
pub open spec fn attempts_spec(outcomes: Seq<Option<u64>>, cutoff: u64) -> nat {
    attempts_rec(outcomes, cutoff, MAX_ATTEMPTS as nat)
}

/// Sampling state for one target: attempts consumed so far and the running
/// minimum of the successful latencies. Each target owns exactly one sampler,
/// so no two targets' stopping decisions can influence each other.
pub struct Sampler {
    /// Latency below which sampling this target stops early (microseconds).
    pub cutoff: u64,
    /// Raw outcomes consumed so far, never above `MAX_ATTEMPTS`.
    pub attempts: u64,
    /// Minimum successful latency seen so far, `None` before the first reply.
    pub best: Option<u64>,
}

impl Sampler {
    /// Fresh sampler: nothing consumed, no best latency yet.
    pub fn new(cutoff: u64) -> (s: Sampler)
        ensures
            s.cutoff == cutoff,
            s.attempts == 0,
            s.best is None,
    {
        Sampler { cutoff, attempts: 0, best: None }
    }

    /// Whether the attempt budget allows consuming one more outcome.
    pub fn wants_more(&self) -> (r: bool)
        ensures
            r == (self.attempts < MAX_ATTEMPTS),
    {
        self.attempts < MAX_ATTEMPTS
    }

    /// Consumes one raw outcome: counts the attempt whether or not a reply
    /// came, and folds a successful latency into the running best.
    pub fn update(&mut self, outcome: Option<u64>)
        requires
            old(self).attempts < MAX_ATTEMPTS,
        ensures
            final(self).cutoff == old(self).cutoff,
            final(self).attempts == old(self).attempts + 1,
            final(self).best == upd_best_outcome(old(self).best, outcome),
    {
        self.attempts = self.attempts + 1;
        match outcome {
            None => {},
            Some(v) => {
                match self.best {
                    None => {
                        self.best = Some(v);
                    },
                    Some(b) => {
                        if v < b {
                            self.best = Some(v);
                        }
                    },
                }
            },
        }
    }

    /// Whether sampling goes on after the given outcome: it stops exactly
    /// when a reply came in below the cutoff.
    pub fn should_continue(&self, outcome: Option<u64>) -> (r: bool)
        ensures
            r == match outcome {
                None => true,
                Some(v) => v >= self.cutoff,
            },
    {
        match outcome {
            None => true,
            Some(v) => v >= self.cutoff,
        }
    }
}

/// Samples one target from a recorded outcome sequence: consumes outcomes in
/// order under the attempt budget and the early-stop rule, and returns the
/// final best latency.
pub fn sample_target(outcomes: &Vec<Option<u64>>, cutoff: u64) -> (best: Option<u64>)
    ensures
        best == sample_spec(outcomes@, cutoff),
{
    let mut s = Sampler::new(cutoff);
    let mut i: usize = 0;
    proof {
        assert(outcomes@.skip(0) =~= outcomes@);
    }
    loop
        invariant
            i <= outcomes@.len(),
            s.cutoff == cutoff,
            s.attempts == i,
            i <= MAX_ATTEMPTS,
            sample_rec(outcomes@.skip(i as int), cutoff, (MAX_ATTEMPTS - i) as nat, s.best)
                == sample_spec(outcomes@, cutoff),
        decreases outcomes@.len() - i,
    {
        if i >= outcomes.len() || !s.wants_more() {
            return s.best;
        }
        let o = outcomes[i];
        proof {
            assert(outcomes@.skip(i as int)[0] == outcomes@[i as int]);
            assert(outcomes@.skip(i as int).drop_first() =~= outcomes@.skip(i as int + 1));
        }
        s.update(o);
        i = i + 1;
        if !s.should_continue(o) {
            return s.best;
        }
    }
}

/// Samples every target independently and returns one best latency per
/// target, in input order. An empty target list yields an empty result.
pub fn measure(targets: &Vec<Vec<Option<u64>>>, cutoff: u64) -> (res: Vec<Option<u64>>)
    ensures
        res@.len() == targets@.len(),
        forall|i: int| 0 <= i < targets@.len() ==> res@[i] == sample_spec(targets@[i]@, cutoff),
{
    let mut res: Vec<Option<u64>> = Vec::new();
    let mut t: usize = 0;
    while t < targets.len()
        invariant
            t <= targets@.len(),
            res@.len() == t,
            forall|i: int| 0 <= i < t ==> res@[i] == sample_spec(targets@[i]@, cutoff),
        decreases targets@.len() - t,
    {
        let best = sample_target(&targets[t], cutoff);
        res.push(best);
        t = t + 1;
    }
    res
}

/// Once set, the best latency only ever decreases or stays equal as more
/// outcomes are folded in, and it never becomes unset again.
pub proof fn lemma_best_never_increases(best: Option<u64>, o: Option<u64>)
    requires
        best matches Some(b),
    ensures
        upd_best_outcome(best, o) matches Some(nb) && nb <= best->Some_0,
{
}

/// Attempts never exceed the budget they start with.
proof fn lemma_attempts_rec_bounded(outcomes: Seq<Option<u64>>, cutoff: u64, left: nat)
    ensures
        attempts_rec(outcomes, cutoff, left) <= left,
    decreases outcomes.len(),
{
    if left == 0 || outcomes.len() == 0 {
    } else {
        lemma_attempts_rec_bounded(outcomes.drop_first(), cutoff, (left - 1) as nat);
    }
}

/// For every target, the number of raw attempts consumed is at most
/// `MAX_ATTEMPTS`, whatever the outcome sequence and the cutoff.
pub proof fn lemma_attempt_cap(outcomes: Seq<Option<u64>>, cutoff: u64)
    ensures
        attempts_spec(outcomes, cutoff) <= MAX_ATTEMPTS,
{
    lemma_attempts_rec_bounded(outcomes, cutoff, MAX_ATTEMPTS as nat);
}

/// Attempts never exceed the length of the outcome sequence.
proof fn lemma_attempts_rec_le_len(outcomes: Seq<Option<u64>>, cutoff: u64, left: nat)
    ensures
        attempts_rec(outcomes, cutoff, left) <= outcomes.len(),
    decreases outcomes.len(),
{
    if left == 0 || outcomes.len() == 0 {
    } else {
        lemma_attempts_rec_le_len(outcomes.drop_first(), cutoff, (left - 1) as nat);
    }
}

/// Sampling from running best `best` returns exactly the fold of the
/// consumed prefix of the outcome sequence into `best`.
proof fn lemma_sample_rec_fold(outcomes: Seq<Option<u64>>, cutoff: u64, left: nat, best: Option<u64>)
    ensures
        sample_rec(outcomes, cutoff, left, best)
            == fold_best(best, outcomes.take(attempts_rec(outcomes, cutoff, left) as int)),
    decreases outcomes.len(),
{
    if left == 0 || outcomes.len() == 0 {
        assert(outcomes.take(0) =~= Seq::<Option<u64>>::empty());
    } else {
        let rest = outcomes.drop_first();
        let m = attempts_rec(rest, cutoff, (left - 1) as nat) as int;
        lemma_attempts_rec_le_len(rest, cutoff, (left - 1) as nat);
        assert(rest.len() == outcomes.len() - 1);
        match outcomes[0] {
            None => {
                lemma_sample_rec_fold(rest, cutoff, (left - 1) as nat, best);
                assert(outcomes.take(1 + m)[0] == outcomes[0]);
                assert(outcomes.take(1 + m).drop_first() =~= rest.take(m));
                assert(fold_best(best, outcomes.take(1 + m))
                    == fold_best(best, rest.take(m)));
            },
            Some(v) => {
                let nb = upd_best(best, v);
                if v < cutoff {
                    let t1 = outcomes.take(1);
                    assert(t1.len() == 1);
                    assert(t1[0] == outcomes[0]);
                    assert(t1.drop_first() =~= Seq::<Option<u64>>::empty());
                    assert(fold_best(best, t1) == fold_best(nb, t1.drop_first()));
                    assert(fold_best(nb, t1.drop_first()) == nb);
                } else {
                    lemma_sample_rec_fold(rest, cutoff, (left - 1) as nat, nb);
                    assert(outcomes.take(1 + m)[0] == outcomes[0]);
                    assert(outcomes.take(1 + m).drop_first() =~= rest.take(m));
                    assert(fold_best(best, outcomes.take(1 + m))
                        == fold_best(nb, rest.take(m)));
                }
            },
        }
    }
}

/// The reported best latency is the minimum of the successful outcomes in
/// the consumed prefix of the target's outcome sequence.
pub proof fn lemma_best_is_min_of_consumed(outcomes: Seq<Option<u64>>, cutoff: u64)
    ensures
        sample_spec(outcomes, cutoff)
            == min_success(outcomes.take(attempts_spec(outcomes, cutoff) as int)),
{
    lemma_sample_rec_fold(outcomes, cutoff, MAX_ATTEMPTS as nat, None);
}

/// A below-cutoff attempt is never consumed and then passed over.
proof fn lemma_attempts_rec_stops(outcomes: Seq<Option<u64>>, cutoff: u64, left: nat, k: int)
    requires
        0 <= k < outcomes.len(),
        outcomes[k] matches Some(v) && v < cutoff,
    ensures
        attempts_rec(outcomes, cutoff, left) <= k + 1,
    decreases outcomes.len(),
{
    if left == 0 || outcomes.len() == 0 {
    } else if k == 0 {
        lemma_attempts_rec_bounded(outcomes.drop_first(), cutoff, (left - 1) as nat);
    } else {
        assert(outcomes.drop_first()[k - 1] == outcomes[k]);
        lemma_attempts_rec_stops(outcomes.drop_first(), cutoff, (left - 1) as nat, k - 1);
    }
}

/// If the outcome sequence holds a reply below the cutoff at index `k`,
/// sampling stops at or before the attempt that produced it, and the
/// reported best latency is the minimum of all successful outcomes in the
/// prefix actually consumed.
pub proof fn lemma_early_stop(outcomes: Seq<Option<u64>>, cutoff: u64, k: int)
    requires
        0 <= k < outcomes.len(),
        outcomes[k] matches Some(v) && v < cutoff,
    ensures
        attempts_spec(outcomes, cutoff) <= k + 1,
        sample_spec(outcomes, cutoff)
            == min_success(outcomes.take(attempts_spec(outcomes, cutoff) as int)),
{
    lemma_attempts_rec_stops(outcomes, cutoff, MAX_ATTEMPTS as nat, k);
    lemma_best_is_min_of_consumed(outcomes, cutoff);
}

} // verus!

