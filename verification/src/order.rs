//! Ordering word pairs: sorting them and finding them again.
use vstd::prelude::*;
use crate::reading::State;

verus! {

broadcast use {vstd::seq_lib::to_multiset_insert, vstd::seq_lib::to_multiset_build, vstd::seq_lib::to_multiset_len, vstd::seq_lib::to_multiset_contains};

/// The order of word pairs: by all four positions (`full`), or by the start
/// positions of the two words only.
pub open spec fn state_lt(x: State, y: State, full: bool) -> bool {
    if full {
        x.0.0 < y.0.0 || (x.0.0 == y.0.0 && (x.0.1 < y.0.1 || (x.0.1 == y.0.1 && (x.1.0 < y.1.0 || (
        x.1.0 == y.1.0 && x.1.1 < y.1.1)))))
    } else {
        x.0.0 < y.0.0 || (x.0.0 == y.0.0 && x.1.0 < y.1.0)
    }
}

/// `v` is in ascending order.
pub open spec fn sorted_by(v: Seq<State>, full: bool) -> bool {
    forall|i: int, j: int| 0 <= i < j < v.len() ==> !state_lt(#[trigger] v[j], #[trigger] v[i], full)
}

/// `v` is in strictly ascending order.
pub open spec fn strictly_sorted(v: Seq<State>) -> bool {
    forall|i: int, j: int| 0 <= i < j < v.len() ==> state_lt(#[trigger] v[i], #[trigger] v[j], true)
}

pub fn state_less(x: State, y: State, full: bool) -> (r: bool)
    ensures
        r == state_lt(x, y, full),
{
    if full {
        x.0.0 < y.0.0 || (x.0.0 == y.0.0 && (x.0.1 < y.0.1 || (x.0.1 == y.0.1 && (x.1.0 < y.1.0 || (
        x.1.0 == y.1.0 && x.1.1 < y.1.1)))))
    } else {
        x.0.0 < y.0.0 || (x.0.0 == y.0.0 && x.1.0 < y.1.0)
    }
}

/// The first position of sorted `v` whose element is greater than `x`.
fn upper_bound(v: &Vec<State>, x: State, full: bool) -> (r: usize)
    requires
        sorted_by(v@, full),
    ensures
        r <= v@.len(),
        forall|q: int| 0 <= q < r ==> !state_lt(x, #[trigger] v@[q], full),
        forall|q: int| r <= q < v@.len() ==> state_lt(x, #[trigger] v@[q], full),
{
    let mut lo: usize = 0;
    let mut hi: usize = v.len();
    while lo < hi
        invariant
            lo <= hi <= v@.len(),
            sorted_by(v@, full),
            forall|q: int| 0 <= q < lo ==> !state_lt(x, #[trigger] v@[q], full),
            forall|q: int| hi <= q < v@.len() ==> state_lt(x, #[trigger] v@[q], full),
        decreases hi - lo,
    {
        let mid = lo + (hi - lo) / 2;
        if state_less(x, v[mid], full) {
            assert forall|q: int| mid <= q < v@.len() implies state_lt(x, #[trigger] v@[q], full) by {
                if q > mid {
                    assert(!state_lt(v@[q], v@[mid as int], full));
                }
            }
            hi = mid;
        } else {
            assert forall|q: int| 0 <= q <= mid implies !state_lt(x, #[trigger] v@[q], full) by {
                if q < mid {
                    assert(!state_lt(v@[mid as int], v@[q], full));
                }
            }
            lo = mid + 1;
        }
    }
    lo
}

/// The word pairs of `keys` in ascending order.
pub fn sort_states(keys: &Vec<State>, full: bool) -> (r: Vec<State>)
    ensures
        sorted_by(r@, full),
        r@.to_multiset() == keys@.to_multiset(),
{
    let mut out: Vec<State> = Vec::new();
    let mut i: usize = 0;
    while i < keys.len()
        invariant
            i <= keys@.len(),
            sorted_by(out@, full),
            out@.to_multiset() == keys@.take(i as int).to_multiset(),
        decreases keys.len() - i,
    {
        let x = keys[i];
        let p = upper_bound(&out, x, full);
        let ghost before = out@;
        out.insert(p, x);
        proof {
            before.insert_ensures(p as int, x);
            assert forall|a: int, b: int| 0 <= a < b < out@.len() implies !state_lt(
                #[trigger] out@[b],
                #[trigger] out@[a],
                full,
            ) by {
                if b < p {
                } else if b == p {
                    assert(out@[a] == before[a]);
                } else if a < p {
                    assert(out@[a] == before[a]);
                    assert(out@[b] == before[b - 1]);
                } else if a == p {
                    assert(out@[b] == before[b - 1]);
                } else {
                    assert(out@[a] == before[a - 1]);
                    assert(out@[b] == before[b - 1]);
                }
            }
            assert(keys@.take(i + 1) =~= keys@.take(i as int).push(x));
        }
        i += 1;
    }
    assert(keys@.take(keys@.len() as int) =~= keys@);
    out
}

/// The position of `x` in strictly sorted `v`, if it occurs there.
pub fn find_state(v: &Vec<State>, x: State) -> (r: Option<usize>)
    requires
        strictly_sorted(v@),
    ensures
        r matches Some(i) ==> i < v@.len() && v@[i as int] == x,
        r is None ==> !v@.contains(x),
{
    let mut lo: usize = 0;
    let mut hi: usize = v.len();
    while lo < hi
        invariant
            lo <= hi <= v@.len(),
            strictly_sorted(v@),
            forall|q: int| 0 <= q < lo ==> state_lt(#[trigger] v@[q], x, true),
            forall|q: int| hi <= q < v@.len() ==> state_lt(x, #[trigger] v@[q], true),
        decreases hi - lo,
    {
        let mid = lo + (hi - lo) / 2;
        let m = v[mid];
        if state_less(x, m, true) {
            assert forall|q: int| mid <= q < v@.len() implies state_lt(x, #[trigger] v@[q], true) by {
                if q > mid {
                    assert(state_lt(v@[mid as int], v@[q], true));
                }
            }
            hi = mid;
        } else if state_less(m, x, true) {
            assert forall|q: int| 0 <= q <= mid implies state_lt(#[trigger] v@[q], x, true) by {
                if q < mid {
                    assert(state_lt(v@[q], v@[mid as int], true));
                }
            }
            lo = mid + 1;
        } else {
            assert(m == x);
            return Some(mid);
        }
    }
    assert(!v@.contains(x)) by {
        if v@.contains(x) {
            let q = choose|q: int| 0 <= q < v@.len() && v@[q] == x;
        }
    }
    None
}

} // verus!
