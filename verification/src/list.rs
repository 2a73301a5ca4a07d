//! Cyclic single selection over an ordered, growable sequence of items.

use vstd::prelude::*;

verus! {

/// What `next` does to a selection over a sequence of length `n`:
/// an unselected list selects the first item, the last index wraps to the
/// first, anything else advances by one. An empty list stays unselected.
pub open spec fn spec_next_sel(sel: Option<usize>, n: nat) -> Option<usize> {
    if n == 0 {
        sel
    } else {
        match sel {
            None => Some(0usize),
            Some(i) => if i >= n - 1 {
                Some(0usize)
            } else {
                Some((i + 1) as usize)
            },
        }
    }
}

/// What `previous` does to a selection over a sequence of length `n`:
/// an unselected list selects the first item, index zero wraps to the last
/// index, anything else steps back by one. An empty list stays unselected.
pub open spec fn spec_prev_sel(sel: Option<usize>, n: nat) -> Option<usize> {
    if n == 0 {
        sel
    } else {
        match sel {
            None => Some(0usize),
            Some(i) => if i == 0 {
                Some((n - 1) as usize)
            } else {
                Some((i - 1) as usize)
            },
        }
    }
}

/// The selection reached from an unselected list of length `n` after `k`
/// consecutive `next` calls.
pub open spec fn spec_iter_next(k: nat, n: nat) -> Option<usize>
    decreases k,
{
    if k == 0 {
        None
    } else {
        spec_next_sel(spec_iter_next((k - 1) as nat, n), n)
    }
}

/// Cyclic navigation visits the items in order and wraps: starting
/// unselected, the first `next` selects index 0 and after `k` calls the
/// selected index is `(k - 1) mod n`.
pub proof fn lemma_next_cycles(k: nat, n: nat)
    requires
        n > 0,
        n <= usize::MAX,
        k > 0,
    ensures
        spec_iter_next(k, n) == Some((((k - 1) as nat % n) as usize)),
    decreases k,
{
    if k == 1 {
        assert(spec_iter_next(1, n) == spec_next_sel(spec_iter_next(0, n), n));
        vstd::arithmetic::div_mod::lemma_small_mod(0, n);
    } else {
        lemma_next_cycles((k - 1) as nat, n);
        let m = (k - 2) as nat;
        vstd::arithmetic::div_mod::lemma_mod_bound(m as int, n as int);
        let r = m % n;
        let i = r as usize;
        assert(spec_iter_next(k, n) == spec_next_sel(Some(i), n));
        vstd::arithmetic::div_mod::lemma_fundamental_div_mod(m as int, n as int);
        let q = m as int / n as int;
        if r == n - 1 {
            assert(m as int + 1 == (q + 1) * (n as int)) by (nonlinear_arith)
                requires
                    m as int == (n as int) * q + (n as int) - 1,
            ;
            vstd::arithmetic::div_mod::lemma_fundamental_div_mod_converse(
                m as int + 1,
                n as int,
                q + 1,
                0,
            );
            assert((k - 1) as nat % n == 0);
        } else {
            assert((n as int) * q == q * (n as int)) by (nonlinear_arith);
            assert(m as int + 1 == q * (n as int) + (r as int + 1));
            vstd::arithmetic::div_mod::lemma_fundamental_div_mod_converse(
                m as int + 1,
                n as int,
                q,
                r as int + 1,
            );
            assert((k - 1) as nat % n == r + 1);
        }
    }
}

/// `previous` exactly inverts `next`: from any valid selected state a
/// `next` followed by a `previous` restores the original selection.
pub proof fn lemma_previous_inverts_next(i: usize, n: nat)
    requires
        n > 0,
        n <= usize::MAX,
        i < n,
    ensures
        spec_prev_sel(spec_next_sel(Some(i), n), n) == Some(i),
{
}

/// An ordered sequence of items plus the index of the selected one, if any.
/// Navigation is cyclic; appending never disturbs an existing selection.
pub struct StatefulList<T> {
    pub selected: Option<usize>,
    pub items: Vec<T>,
}

impl<T> StatefulList<T> {
    /// A selected index, when present, lies inside the sequence.
    pub open spec fn wf(&self) -> bool {
        match self.selected {
            Some(i) => i < self.items@.len(),
            None => true,
        }
    }

    /// A fresh list over the given items starts unselected.
    pub fn with_items(items: Vec<T>) -> (l: StatefulList<T>)
        ensures
            l.items == items,
            l.selected == Option::<usize>::None,
            l.wf(),
    {
        StatefulList { selected: None, items }
    }

    /// Move the selection to the following item, cyclically.
    pub fn next(&mut self)
        requires
            old(self).wf(),
        ensures
            final(self).wf(),
            final(self).items == old(self).items,
            final(self).selected == spec_next_sel(
                old(self).selected,
                old(self).items@.len(),
            ),
    {
        let n = self.items.len();
        if n == 0 {
            return ;
        }
        let i: usize = match self.selected {
            Some(i) => if i >= n - 1 {
                0
            } else {
                i + 1
            },
            None => 0,
        };
        self.selected = Some(i);
    }

    /// Move the selection to the preceding item, cyclically.
    pub fn previous(&mut self)
        requires
            old(self).wf(),
        ensures
            final(self).wf(),
            final(self).items == old(self).items,
            final(self).selected == spec_prev_sel(
                old(self).selected,
                old(self).items@.len(),
            ),
    {
        let n = self.items.len();
        if n == 0 {
            return ;
        }
        let i: usize = match self.selected {
            Some(i) => if i == 0 {
                n - 1
            } else {
                i - 1
            },
            None => 0,
        };
        self.selected = Some(i);
    }

    /// Add an item at the end; the selected index is left untouched.
    pub fn append(&mut self, item: T)
        requires
            old(self).wf(),
        ensures
            final(self).wf(),
            final(self).items@ == old(self).items@.push(item),
            final(self).selected == old(self).selected,
    {
        self.items.push(item);
    }
}

} // verus!
