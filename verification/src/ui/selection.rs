//! Moving the selection of a list that wraps around at both ends.
use vstd::prelude::*;

verus! {

/// The selection after moving down in a list of `n` items: the next item,
/// the first after the last, the first when nothing was selected.
pub open spec fn next_sel(sel: Option<usize>, n: nat) -> Option<usize> {
    if n == 0 {
        sel
    } else {
        match sel {
            Some(i) => Some(((i + 1) % (n as int)) as usize),
            None => Some(0),
        }
    }
}

/// The selection after moving up: the previous item, the last before the
/// first, the first when nothing was selected.
pub open spec fn prev_sel(sel: Option<usize>, n: nat) -> Option<usize> {
    if n == 0 {
        sel
    } else {
        match sel {
            Some(i) => Some(if i == 0 { (n - 1) as usize } else { (i - 1) as usize }),
            None => Some(0),
        }
    }
}

pub fn select_next(sel: Option<usize>, n: usize) -> (r: Option<usize>)
    ensures
        r == next_sel(sel, n as nat),
{
    if n == 0 {
        return sel;
    }
    match sel {
        Some(i) => {
            proof {
                lemma_next_mod(i as int, n as int);
            }
            Some(if i < n - 1 { i + 1 } else if i == n - 1 { 0 } else { (i % n + 1) % n })
        },
        None => Some(0),
    }
}

proof fn lemma_next_mod(i: int, n: int)
    requires
        0 <= i,
        0 < n,
    ensures
        i < n - 1 ==> (i + 1) % n == i + 1,
        i == n - 1 ==> (i + 1) % n == 0,
        (i % n + 1) % n == (i + 1) % n,
        0 <= (i % n + 1) % n < n,
{
    if i < n - 1 {
        vstd::arithmetic::div_mod::lemma_small_mod((i + 1) as nat, n as nat);
    }
    if i == n - 1 {
        vstd::arithmetic::div_mod::lemma_mod_self_0(n);
    }
    vstd::arithmetic::div_mod::lemma_add_mod_noop(i, 1, n);
    if n > 1 {
        vstd::arithmetic::div_mod::lemma_small_mod(1, n as nat);
    } else {
        vstd::arithmetic::div_mod::lemma_mod_self_0(n);
    }
    vstd::arithmetic::div_mod::lemma_mod_pos_bound(i, n);
    vstd::arithmetic::div_mod::lemma_mod_pos_bound(i % n + 1, n);
}

pub fn select_previous(sel: Option<usize>, n: usize) -> (r: Option<usize>)
    ensures
        r == prev_sel(sel, n as nat),
{
    if n == 0 {
        return sel;
    }
    match sel {
        Some(i) => Some(if i == 0 { n - 1 } else { i - 1 }),
        None => Some(0),
    }
}

/// Moving down and then up returns to a selected item, and moving up and
/// then down does too.
pub proof fn law_next_then_previous(i: usize, n: usize)
    requires
        i < n,
    ensures
        prev_sel(next_sel(Some(i), n as nat), n as nat) == Some(i),
        next_sel(prev_sel(Some(i), n as nat), n as nat) == Some(i),
{
    lemma_next_mod(i as int, n as int);
    if i > 0 {
        lemma_next_mod(i - 1, n as int);
    } else {
        lemma_next_mod(n - 1, n as int);
    }
}

/// Moving down from any selection lands on an item of the list.
pub proof fn law_selection_in_range(sel: Option<usize>, n: usize)
    requires
        n > 0,
        sel matches Some(i) ==> i < n,
    ensures
        next_sel(sel, n as nat) matches Some(j) && j < n,
        prev_sel(sel, n as nat) matches Some(j) && j < n,
{
    if let Some(i) = sel {
        lemma_next_mod(i as int, n as int);
    }
}

} // verus!
