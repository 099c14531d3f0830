//! Bounded circular seat identifiers.

use vstd::prelude::*;

verus! {

/// A seat at the table: an index in `[0, N)` with cyclic increment.
///
/// Construction fails for any value outside the bound, and `increment`
/// wraps `N - 1` back to `0`, so a `PlayerId` can always be used to index
/// a fixed-size per-seat table without further checks.
#[derive(Clone, Copy, Debug, PartialEq, Eq, Hash)]
pub struct PlayerId<const N: usize> {
    id: usize,
}

impl<const N: usize> View for PlayerId<N> {
    type V = int;

    closed spec fn view(&self) -> int {
        self.id as int
    }
}

impl<const N: usize> PlayerId<N> {
    /// Every seat identifier lies inside its bound; holds of every value
    /// of the type by construction.
    #[verifier::type_invariant]
    pub open spec fn bounded(self) -> bool {
        0 <= self@ < N
    }

    /// Builds a seat identifier; yields `None` when `id` lies outside `[0, N)`.
    pub fn new(id: usize) -> (r: Option<PlayerId<N>>)
        ensures
            r is Some <==> id < N,
            r is Some ==> r->0@ == id,
    {
        if id < N {
            Some(PlayerId { id })
        } else {
            None
        }
    }

    /// Builds a seat identifier from an index already known to be in range.
    pub(crate) fn from_index(id: usize) -> (r: PlayerId<N>)
        requires
            id < N,
        ensures
            r@ == id,
    {
        PlayerId { id }
    }

    /// The seat number, usable as an index into a table of `N` entries.
    pub fn get(&self) -> (i: usize)
        ensures
            i == self@,
            i < N,
    {
        proof {
            use_type_invariant(&*self);
        }
        self.id
    }

    /// Advances to the next seat in rotation, wrapping `N - 1` back to `0`.
    pub fn increment(&mut self)
        ensures
            final(self)@ == (old(self)@ + 1) % (N as int),
    {
        proof {
            use_type_invariant(&*self);
        }
        if self.id + 1 == N {
            proof {
                vstd::arithmetic::div_mod::lemma_mod_self_0(N as int);
            }
            self.id = 0;
        } else {
            proof {
                vstd::arithmetic::div_mod::lemma_small_mod((self.id + 1) as nat, N as nat);
            }
            self.id = self.id + 1;
        }
    }
}

/// The seat number reached from `v` after `k` single-step cyclic increments
/// modulo `n`.
pub open spec fn iterate_increment(v: int, k: nat, n: int) -> int
    decreases k,
{
    if k == 0 {
        v
    } else {
        (iterate_increment(v, (k - 1) as nat, n) + 1) % n
    }
}

/// After `k` increments a seat sits `k` places further along the rotation.
proof fn lemma_iterate_formula(v: int, n: int, k: nat)
    requires
        0 <= v < n,
    ensures
        iterate_increment(v, k, n) == (v + k) % n,
    decreases k,
{
    if k == 0 {
        vstd::arithmetic::div_mod::lemma_small_mod(v as nat, n as nat);
    } else {
        lemma_iterate_formula(v, n, (k - 1) as nat);
        vstd::arithmetic::div_mod::lemma_add_mod_noop(v + k - 1, 1, n);
        if n == 1 {
            vstd::arithmetic::div_mod::lemma_mod_self_0(1);
        } else {
            vstd::arithmetic::div_mod::lemma_small_mod(1nat, n as nat);
        }
        vstd::arithmetic::div_mod::lemma_mod_twice(v + k - 1, n);
        assert(((v + k - 1) % n + 1int % n) % n == (v + k) % n);
    }
}

/// Law: repeating `increment` any whole number of full cycles — `n * k`
/// single steps — returns a seat to itself.
pub proof fn lemma_increment_cycle(v: int, n: int, k: nat)
    requires
        0 <= v < n,
    ensures
        iterate_increment(v, (n * k) as nat, n) == v,
{
    lemma_iterate_formula(v, n, (n * k) as nat);
    vstd::arithmetic::mul::lemma_mul_nonnegative(n, k as int);
    vstd::arithmetic::div_mod::lemma_mod_multiples_vanish(k as int, v, n);
    vstd::arithmetic::div_mod::lemma_small_mod(v as nat, n as nat);
    assert(n * (k as int) + v == v + (n * k) as nat);
}

} // verus!
