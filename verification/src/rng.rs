//! The injected pseudo-random capability: a source of random words, uniform
//! range sampling, and sampling without replacement for field-order
//! randomization.

use vstd::assert_multisets_equal;
use vstd::multiset::Multiset;
use vstd::prelude::*;

verus! {

/// An injected source of pseudo-random words.
///
/// The engine never seeds or reseeds a source: callers hand one in, so two
/// runs given identically-seeded sources see identical word streams.
pub trait RandomSource: Sized {
    /// The word this source will produce next.
    spec fn next_word_spec(&self) -> u64;

    /// The state this source will move to after producing one word.
    spec fn next_state_spec(&self) -> Self;

    /// Produces the next word of the stream. The result and the successor
    /// state are functions of the current state alone, so a source replays
    /// identically from an identical state.
    fn next_u64(&mut self) -> (r: u64)
        ensures
            r == old(self).next_word_spec(),
            *final(self) == old(self).next_state_spec(),
    ;
}

/// One step of the xorshift64 recurrence.
pub open spec fn xorshift64_step(x: u64) -> u64 {
    let a = x ^ (x << 13u64);
    let b = a ^ (a >> 7u64);
    b ^ (b << 17u64)
}

/// The library's default random source: a xorshift64 generator.
#[derive(Debug, Clone, Copy, PartialEq, Eq, Structural)]
pub struct XorShiftRng {
    pub state: u64,
}

impl XorShiftRng {
    /// Seeds the generator. A zero seed is replaced by an arbitrary odd
    /// constant, since the all-zero state is a fixed point of the
    /// recurrence.
    pub fn new(seed: u64) -> (r: Self)
        ensures
            r.state == if seed == 0 {
                0x9E37_79B9_7F4A_7C15u64
            } else {
                seed
            },
    {
        XorShiftRng { state: if seed == 0 { 0x9E37_79B9_7F4A_7C15 } else { seed } }
    }
}

impl RandomSource for XorShiftRng {
    open spec fn next_word_spec(&self) -> u64 {
        xorshift64_step(self.state)
    }

    open spec fn next_state_spec(&self) -> Self {
        XorShiftRng { state: xorshift64_step(self.state) }
    }

    fn next_u64(&mut self) -> (r: u64) {
        let mut x = self.state;
        x = x ^ (x << 13u64);
        x = x ^ (x >> 7u64);
        x = x ^ (x << 17u64);
        self.state = x;
        x
    }
}

/// Draws a value uniformly below `n`: exactly the source's next word
/// reduced modulo `n`.
///
/// (For fuzzing purposes the residual modulo bias of a 64-bit word is
/// immaterial.)
pub fn next_below<R: RandomSource>(rng: &mut R, n: u64) -> (r: u64)
    requires
        n > 0,
    ensures
        r < n,
        r == old(rng).next_word_spec() % n,
        *final(rng) == old(rng).next_state_spec(),
{
    let x = rng.next_u64();
    x % n
}

/// The sequence `0, 1, ..., n - 1`.
pub open spec fn identity_order(n: nat) -> Seq<usize> {
    Seq::new(n, |i: int| i as usize)
}

/// Draws a uniformly random permutation of `0 .. n` by sampling indices
/// without replacement.
pub fn random_order<R: RandomSource>(rng: &mut R, n: usize) -> (r: Vec<usize>)
    ensures
        r@.to_multiset() == identity_order(n as nat).to_multiset(),
{
    broadcast use vstd::seq_lib::group_to_multiset_ensures;

    let mut pool: Vec<usize> = Vec::new();
    let mut i: usize = 0;
    while i < n
        invariant
            i <= n,
            pool@ == identity_order(n as nat).take(i as int),
        decreases n - i,
    {
        pool.push(i);
        proof {
            assert(pool@ =~= identity_order(n as nat).take(i as int + 1));
        }
        i = i + 1;
    }
    proof {
        assert(pool@ =~= identity_order(n as nat));
    }
    let mut order: Vec<usize> = Vec::new();
    while pool.len() > 0
        invariant
            order@.to_multiset().add(pool@.to_multiset()) == identity_order(n as nat).to_multiset(),
        decreases pool@.len(),
    {
        let ghost prev_order = order@;
        let ghost prev_pool = pool@;
        let k = next_below(rng, pool.len() as u64) as usize;
        let v = pool[k];
        order.push(v);
        pool.remove(k);
        proof {
            broadcast use vstd::seq_lib::group_to_multiset_ensures;

            assert(prev_pool.contains(v));
            assert(prev_pool.to_multiset().count(v) > 0);
            assert(order@ == prev_order.push(v));
            assert(prev_order.push(v).to_multiset() =~= prev_order.to_multiset().insert(v));
            assert(pool@ == prev_pool.remove(k as int));
            assert(prev_pool.remove(k as int).to_multiset() =~= prev_pool.to_multiset().remove(v));
            assert_multisets_equal!(
                prev_order.to_multiset().insert(v).add(prev_pool.to_multiset().remove(v)),
                prev_order.to_multiset().add(prev_pool.to_multiset())
            );
        }
    }
    proof {
        assert(pool@.to_multiset() =~= Multiset::<usize>::empty());
        assert(order@.to_multiset().add(Multiset::<usize>::empty()) =~= order@.to_multiset());
    }
    order
}

/// What the multiset equality of `random_order` means index-wise: the
/// drawn order is exactly the indices below `n`, each once.
pub proof fn lemma_order_covers(order: Seq<usize>, n: nat)
    requires
        n <= usize::MAX,
        order.to_multiset() == identity_order(n).to_multiset(),
    ensures
        order.len() == n,
        forall|j: int| 0 <= j < order.len() ==> (order[j] as nat) < n,
        order.no_duplicates(),
        forall|v: usize| (v as nat) < n ==> order.contains(v),
{
    broadcast use vstd::seq_lib::group_to_multiset_ensures;

    let ident = identity_order(n);
    assert(order.len() == n) by {
        assert(order.to_multiset().len() == order.len());
        assert(ident.to_multiset().len() == ident.len());
    }
    assert forall|j: int| 0 <= j < order.len() implies (order[j] as nat) < n by {
        let v = order[j];
        assert(order.contains(v));
        assert(order.to_multiset().count(v) > 0);
        assert(ident.contains(v));
        let k = choose|k: int| 0 <= k < ident.len() && ident[k] == v;
        assert(ident[k] == k as usize);
    }
    assert forall|a: int, b: int| 0 <= a < b < ident.len() implies ident[a] != ident[b] by {
        assert(ident[a] == a as usize);
        assert(ident[b] == b as usize);
    }
    assert(ident.no_duplicates());
    ident.lemma_multiset_has_no_duplicates();
    order.lemma_multiset_has_no_duplicates_conv();
    assert forall|v: usize| (v as nat) < n implies order.contains(v) by {
        assert(ident[v as int] == v);
        assert(ident.contains(v));
        assert(ident.to_multiset().count(v) > 0);
        assert(order.to_multiset().count(v) > 0);
    }
}

} // verus!
