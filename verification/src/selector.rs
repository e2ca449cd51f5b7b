//! The weighted selector: turns a list of weights and a random source into
//! an index selection with probability proportional to the weights.
//!
//! A selector is constructed once per variant set and reused across draws;
//! construction validates the weights, so repeated draws are cheap and
//! cannot fail.

use crate::rng::{next_below, RandomSource};
use crate::types::ConfigError;
use vstd::prelude::*;

verus! {

/// The total of a sequence of weights.
pub open spec fn sum_weights(s: Seq<u64>) -> nat
    decreases s.len(),
{
    if s.len() == 0 {
        0
    } else {
        (s[0] + sum_weights(s.drop_first())) as nat
    }
}

/// Appending one weight adds exactly that weight to the total.
pub proof fn lemma_sum_weights_push(s: Seq<u64>, x: u64)
    ensures
        sum_weights(s.push(x)) == sum_weights(s) + x,
    decreases s.len(),
{
    if s.len() == 0 {
        assert(s.push(x)[0] == x);
        assert(s.push(x).drop_first() =~= Seq::<u64>::empty());
        assert(sum_weights(Seq::<u64>::empty()) == 0);
    } else {
        assert(s.push(x)[0] == s[0]);
        assert(s.push(x).drop_first() =~= s.drop_first().push(x));
        lemma_sum_weights_push(s.drop_first(), x);
    }
}

/// The total of a sequence of weights splits at any position.
pub proof fn lemma_sum_weights_split(s: Seq<u64>, i: int)
    requires
        0 <= i <= s.len(),
    ensures
        sum_weights(s) == sum_weights(s.take(i)) + sum_weights(s.skip(i)),
    decreases i,
{
    if i == 0 {
        assert(s.take(0) =~= Seq::<u64>::empty());
        assert(s.skip(0) =~= s);
    } else {
        lemma_sum_weights_split(s.drop_first(), i - 1);
        assert(s.take(i).drop_first() =~= s.drop_first().take(i - 1));
        assert(s.skip(i) =~= s.drop_first().skip(i - 1));
        assert(s.take(i)[0] == s[0]);
    }
}

/// The index selected by a draw of `x`: the first index whose cumulative
/// weight exceeds `x`.
pub open spec fn pick_index(ws: Seq<u64>, x: nat) -> int
    decreases ws.len(),
{
    if ws.len() == 0 {
        0
    } else if x < ws[0] {
        0
    } else {
        1 + pick_index(ws.drop_first(), (x - ws[0]) as nat)
    }
}

/// The draw that lands in the cumulative slot of index `i` selects `i`.
proof fn lemma_pick_index_at(ws: Seq<u64>, x: nat, i: int)
    requires
        0 <= i < ws.len(),
        sum_weights(ws.take(i)) <= x,
        x < sum_weights(ws.take(i)) + ws[i],
    ensures
        pick_index(ws, x) == i,
    decreases i,
{
    if i == 0 {
        assert(ws.take(0) =~= Seq::<u64>::empty());
        assert(sum_weights(Seq::<u64>::empty()) == 0);
    } else {
        assert(ws.take(i)[0] == ws[0]);
        assert(sum_weights(ws.take(i)) >= ws[0]) by {
            lemma_sum_weights_split(ws.take(i), 1);
            assert(ws.take(i).take(1) =~= seq![ws[0]]);
            assert(seq![ws[0]].drop_first() =~= Seq::<u64>::empty());
        }
        assert(x >= ws[0]);
        let tail = ws.drop_first();
        assert(tail.take(i - 1) =~= ws.take(i).drop_first());
        assert(sum_weights(ws.take(i)) == ws[0] + sum_weights(tail.take(i - 1))) by {
            assert(ws.take(i)[0] == ws[0]);
            assert(ws.take(i).drop_first() =~= tail.take(i - 1));
        }
        assert(tail[i - 1] == ws[i]);
        lemma_pick_index_at(tail, (x - ws[0]) as nat, i - 1);
    }
}

/// Selects indices with probability proportional to a fixed list of
/// weights. A zero weight is never selected.
#[derive(Debug, Clone)]
pub struct WeightedSelector {
    weights: Vec<u64>,
    total: u64,
}

impl WeightedSelector {
    /// The weights this selector draws over.
    pub closed spec fn weights_spec(&self) -> Seq<u64> {
        self.weights@
    }

    /// Well-formedness: the cached total is the true total, and it is
    /// positive (so a draw always lands on some index).
    pub closed spec fn wf(&self) -> bool {
        &&& self.total == sum_weights(self.weights@)
        &&& self.total > 0
    }

    /// Builds a selector over `weights`.
    ///
    /// Weights need not be normalized; they must not total zero (a
    /// configuration error, rejected here rather than at draw time) and
    /// their total must fit a machine word.
    pub fn new(weights: Vec<u64>) -> (r: Result<Self, ConfigError>)
        ensures
            match r {
                Ok(s) => {
                    &&& s.wf()
                    &&& s.weights_spec() == weights@
                    &&& 0 < sum_weights(weights@) <= u64::MAX
                },
                Err(e) => {
                    &&& (e == ConfigError::ZeroTotalWeight || e
                        == ConfigError::TotalWeightOverflow)
                    &&& (e == ConfigError::ZeroTotalWeight <==> sum_weights(weights@) == 0)
                    &&& (e == ConfigError::TotalWeightOverflow <==> sum_weights(weights@)
                        > u64::MAX)
                },
            },
    {
        let mut total: u64 = 0;
        let mut i: usize = 0;
        while i < weights.len()
            invariant
                i <= weights@.len(),
                total == sum_weights(weights@.take(i as int)),
            decreases weights@.len() - i,
        {
            proof {
                assert(weights@.take(i as int + 1) =~= weights@.take(i as int).push(
                    weights@[i as int],
                ));
                lemma_sum_weights_push(weights@.take(i as int), weights@[i as int]);
            }
            let w = weights[i];
            if w > u64::MAX - total {
                proof {
                    lemma_sum_weights_split(weights@, i as int + 1);
                }
                return Err(ConfigError::TotalWeightOverflow);
            }
            total = total + w;
            i = i + 1;
        }
        proof {
            assert(weights@.take(weights@.len() as int) =~= weights@);
        }
        if total == 0 {
            Err(ConfigError::ZeroTotalWeight)
        } else {
            Ok(WeightedSelector { weights, total })
        }
    }

    /// A well-formed selector's weights have a positive total.
    pub proof fn lemma_wf_pos(&self)
        requires
            self.wf(),
        ensures
            sum_weights(self.weights_spec()) > 0,
    {
    }

    /// How many outcomes the selector draws over.
    pub fn len(&self) -> (r: usize)
        ensures
            r == self.weights_spec().len(),
    {
        self.weights.len()
    }

    /// Draws one index: the source's next word, reduced modulo the weight
    /// total, selects the first index whose cumulative weight exceeds it.
    /// The chosen index is always in range and its weight is positive, so
    /// an outcome with weight zero is never selected.
    pub fn pick<R: RandomSource>(&self, rng: &mut R) -> (idx: usize)
        requires
            self.wf(),
        ensures
            idx < self.weights_spec().len(),
            self.weights_spec()[idx as int] > 0,
            idx as int == pick_index(
                self.weights_spec(),
                (old(rng).next_word_spec() as nat) % sum_weights(self.weights_spec()),
            ),
            *final(rng) == old(rng).next_state_spec(),
    {
        let x = next_below(rng, self.total);
        let mut acc: u64 = 0;
        let mut i: usize = 0;
        while i < self.weights.len()
            invariant
                self.wf(),
                x < self.total,
                x as nat == (old(rng).next_word_spec() as nat) % sum_weights(self.weights@),
                *rng == old(rng).next_state_spec(),
                i <= self.weights@.len(),
                acc == sum_weights(self.weights@.take(i as int)),
                acc <= x,
            decreases self.weights@.len() - i,
        {
            proof {
                assert(self.weights@.take(i as int + 1) =~= self.weights@.take(i as int).push(
                    self.weights@[i as int],
                ));
                lemma_sum_weights_push(self.weights@.take(i as int), self.weights@[i as int]);
                lemma_sum_weights_split(self.weights@, i as int + 1);
            }
            let w = self.weights[i];
            if x - acc < w {
                proof {
                    lemma_pick_index_at(self.weights@, x as nat, i as int);
                }
                return i;
            }
            acc = acc + w;
            i = i + 1;
        }
        proof {
            assert(self.weights@.take(self.weights@.len() as int) =~= self.weights@);
            assert(false);
        }
        0
    }
}

} // verus!
