//! Round-robin pool: a circular sequence with a cursor.
//!
//! `next` serves the element under the cursor and advances the cursor by
//! one modulo the current length, so successive calls cycle through the
//! pool in insertion order.  `push` appends at the end and leaves the
//! cursor where it is.

use vstd::prelude::*;
use vstd::arithmetic::div_mod::lemma_fundamental_div_mod;

verus! {

/// A circular sequence with a round-robin cursor.
#[derive(Debug)]
pub struct Cursor<T> {
    pub items: Vec<T>,
    pub cursor: usize,
}

impl<T> Cursor<T> {
    /// The cursor stays inside the pool, and sits at zero while the pool
    /// is empty.
    pub open spec fn wf(self) -> bool {
        if self.items@.len() == 0 {
            self.cursor == 0
        } else {
            self.cursor < self.items@.len()
        }
    }

    /// The index served by the `k`-th `next` call from this state, while
    /// the pool composition stays fixed.
    pub open spec fn served_index(self, k: int) -> int
        recommends
            self.items@.len() > 0,
    {
        (self.cursor + k) % (self.items@.len() as int)
    }

    pub fn new(items: Vec<T>) -> (r: Self)
        ensures
            r.items@ == items@,
            r.cursor == 0,
            r.wf(),
    {
        Cursor { items, cursor: 0 }
    }

    /// Serves the element under the cursor and advances the cursor by one
    /// modulo the current length; an empty pool serves nothing.
    pub fn next(&mut self) -> (r: Option<&T>)
        requires
            old(self).wf(),
        ensures
            final(self).wf(),
            final(self).items@ == old(self).items@,
            old(self).items@.len() == 0 ==> (r is None && final(self).cursor == old(self).cursor),
            old(self).items@.len() > 0 ==> (match r {
                Some(item) => {
                    &&& *item == old(self).items@[old(self).cursor as int]
                    &&& final(self).cursor == old(self).served_index(1)
                },
                None => false,
            }),
    {
        if self.items.len() == 0 {
            return None;
        }

        let i = self.cursor;
        self.cursor = (self.cursor + 1) % self.items.len();

        Some(&self.items[i])
    }

    pub fn len(&self) -> (r: usize)
        ensures
            r == self.items@.len(),
    {
        self.items.len()
    }

    pub fn is_empty(&self) -> (r: bool)
        ensures
            r == (self.items@.len() == 0),
    {
        self.items.len() == 0
    }

    /// Appends at the end; the cursor keeps its position, so the relative
    /// serving order of the elements already present is unchanged.
    pub fn push(&mut self, item: T)
        requires
            old(self).wf(),
        ensures
            final(self).wf(),
            final(self).items@ == old(self).items@.push(item),
            final(self).cursor == old(self).cursor,
    {
        self.items.push(item);
    }

    /// One `next` call shifts the serving schedule by one: what the old
    /// state would have served as call `k + 1`, the new state serves as
    /// call `k`.
    pub proof fn lemma_served_step(pre: Self, post: Self, k: int)
        requires
            pre.wf(),
            pre.items@.len() > 0,
            post.items@ == pre.items@,
            post.cursor == pre.served_index(1),
            0 <= k,
        ensures
            post.served_index(k) == pre.served_index(k + 1),
    {
        let len = pre.items@.len() as int;
        lemma_mod_shift(pre.cursor as int, k, len);
    }

    /// Within one full cycle over a fixed pool, no index is served twice.
    pub proof fn lemma_round_robin_no_repeat(self, i: int, j: int)
        requires
            self.wf(),
            self.items@.len() > 0,
            0 <= i < self.items@.len(),
            0 <= j < self.items@.len(),
            i != j,
        ensures
            self.served_index(i) != self.served_index(j),
    {
        let len = self.items@.len() as int;
        let c = self.cursor as int;
        if self.served_index(i) == self.served_index(j) {
            lemma_fundamental_div_mod(c + i, len);
            lemma_fundamental_div_mod(c + j, len);
            let qi = (c + i) / len;
            let qj = (c + j) / len;
            let r = (c + i) % len;
            assert((c + j) % len == r);
            assert(false) by (nonlinear_arith)
                requires
                    c + i == len * qi + r,
                    c + j == len * qj + r,
                    0 < len,
                    0 <= i < len,
                    0 <= j < len,
                    i != j,
            {
            }
        }
    }

    /// Within one full cycle over a fixed pool, every index is served:
    /// nothing is skipped.
    pub proof fn lemma_round_robin_covers(self, e: int)
        requires
            self.wf(),
            self.items@.len() > 0,
            0 <= e < self.items@.len(),
        ensures
            exists|k: int|
                0 <= k < self.items@.len() && self.served_index(k) == e,
    {
        let len = self.items@.len() as int;
        let c = self.cursor as int;
        let k = if e >= c {
            e - c
        } else {
            e - c + len
        };
        if e >= c {
            vstd::arithmetic::div_mod::lemma_small_mod(e as nat, len as nat);
        } else {
            vstd::arithmetic::div_mod::lemma_mod_add_multiples_vanish(e, len);
            vstd::arithmetic::div_mod::lemma_small_mod(e as nat, len as nat);
        }
        assert(0 <= k < self.items@.len() && self.served_index(k) == e);
    }
}

/// Advancing the base of a modulus by one and dropping one step of the
/// offset lands on the same residue.
proof fn lemma_mod_shift(c: int, k: int, len: int)
    requires
        0 < len,
        0 <= c,
        0 <= k,
    ensures
        ((c + 1) % len + k) % len == (c + k + 1) % len,
{
    vstd::arithmetic::div_mod::lemma_add_mod_noop_right(k, c + 1, len);
}

} // verus!
