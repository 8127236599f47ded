//! Mutable references to several values of one array of entries at once.

use crate::collect::array_from_vec;
use crate::model::first_index;
use crate::model::has_key;
use crate::traits::key::Key;
use vstd::prelude::*;

verus! {

/// Position `p` is one of the first `a` positions of `idx`.
pub open spec fn chosen(idx: Seq<usize>, a: int, p: int) -> bool {
    exists|c: int| 0 <= c < a && #[trigger] idx[c] == p
}

/// The first `base` entries, with the values at the first `a` positions of
/// `idx` replaced by `vals`.
pub open spec fn patched<K, V>(
    before: Seq<(K, V)>,
    idx: Seq<usize>,
    vals: Seq<V>,
    a: int,
    base: int,
) -> Seq<(K, V)> {
    Seq::new(
        base as nat,
        |p: int|
            if chosen(idx, a, p) {
                (before[p].0, vals[choose|c: int| 0 <= c < a && #[trigger] idx[c] == p])
            } else {
                before[p]
            },
    )
}

/// The positions are all different.
pub open spec fn distinct_positions(idx: Seq<usize>) -> bool {
    forall|a: int, b: int| 0 <= a < idx.len() && 0 <= b < idx.len() && a != b ==> idx[a] != idx[b]
}

/// Place `a` is listed in `order`.
pub open spec fn listed(order: Seq<usize>, a: int) -> bool {
    exists|t: int| 0 <= t < order.len() && #[trigger] order[t] == a
}

/// Where `order` lists place `a`, `now` holds `x` and `then` holds `y`.
pub open spec fn taken_for<V>(order: Seq<usize>, now: Seq<V>, then: Seq<V>, a: int, x: V, y: V) -> bool {
    exists|t: int| 0 <= t < order.len() && #[trigger] order[t] == a && x == now[t] && y == then[t]
}

/// No two of the keys are the same key.
pub open spec fn distinct_views<K: View>(keys: Seq<&K>) -> bool {
    forall|i: int, j: int|
        0 <= i < keys.len() && 0 <= j < keys.len() && i != j ==> (#[trigger] keys[i])@ != (
        #[trigger] keys[j])@
}

/// The keys are all different, and each of them is a key of `entries`.
pub open spec fn all_found<K: View, V>(entries: Seq<(K, V)>, keys: Seq<&K>) -> bool {
    &&& distinct_views(keys)
    &&& forall|i: int| 0 <= i < keys.len() ==> has_key(entries, (#[trigger] keys[i])@)
}

/// Position `p` is where one of the keys is found in `entries`.
pub open spec fn is_target<K: View, V>(entries: Seq<(K, V)>, keys: Seq<&K>, p: int) -> bool {
    exists|i: int| 0 <= i < keys.len() && first_index(entries, (#[trigger] keys[i])@) == p
}

/// Whether the keys are all different.
pub fn keys_are_distinct<K: Key, const N: usize>(keys: &[&K; N]) -> (r: bool)
    ensures
        r == distinct_views(keys@),
{
    let mut i: usize = 0;
    while i < N
        invariant
            i <= N,
            forall|a: int, b: int|
                0 <= a < i && 0 <= b < a ==> (#[trigger] keys@[a])@ != (#[trigger] keys@[b])@,
        decreases N - i,
    {
        let mut j: usize = 0;
        while j < i
            invariant
                j <= i < N,
                forall|b: int| 0 <= b < j ==> keys@[i as int]@ != (#[trigger] keys@[b])@,
            decreases i - j,
        {
            if keys[j].key_eq(keys[i]) {
                return false;
            }
            j += 1;
        }
        i += 1;
    }
    assert forall|a: int, b: int| 0 <= a < N && 0 <= b < N && a != b implies (#[trigger] keys@[a])@
        != (#[trigger] keys@[b])@ by {
        if b < a {
        } else {
            assert(keys@[b]@ != keys@[a]@);
        }
    }
    true
}

/// Returns mutable references to the values at the positions `idx`, which
/// ascend. What is written through them is all that changes in the entries.
pub fn refs_in_order<'a, K, V>(entries: &'a mut Vec<(K, V)>, idx: &Vec<usize>) -> (r: Vec<
    &'a mut V,
>)
    requires
        forall|a: int| 0 <= a < idx@.len() ==> idx@[a] < old(entries)@.len(),
        forall|a: int, b: int| 0 <= a < b < idx@.len() ==> idx@[a] < idx@[b],
    ensures
        r@.len() == idx@.len(),
        forall|c: int|
            0 <= c < idx@.len() ==> *(#[trigger] r@[c]) == old(entries)@[idx@[c] as int].1,
        final(entries)@ == patched(
            old(entries)@,
            idx@,
            Seq::new(r@.len(), |c: int| *final(r@[c])),
            idx@.len() as int,
            old(entries)@.len() as int,
        ),
{
    let n = entries.len();
    let ghost before = entries@;
    let ghost fin = final(entries)@;
    let mut out: Vec<&'a mut V> = Vec::new();
    let mut rest: &'a mut [(K, V)] = entries.as_mut_slice();
    let mut base: usize = 0;
    let mut a: usize = 0;
    assert(patched(before, idx@, Seq::new(0, |c: int| *final(out@[c])), 0, 0) =~= Seq::<
        (K, V),
    >::empty());
    while a < idx.len()
        invariant
            a <= idx@.len(),
            out@.len() == a,
            n == before.len(),
            base + rest@.len() == n,
            rest@ == before.subrange(base as int, n as int),
            a == 0 ==> base == 0,
            a > 0 ==> base == idx@[a - 1] + 1,
            forall|c: int| 0 <= c < idx@.len() ==> idx@[c] < n,
            forall|c: int, d: int| 0 <= c < d < idx@.len() ==> idx@[c] < idx@[d],
            forall|c: int| 0 <= c < a ==> *(#[trigger] out@[c]) == before[idx@[c] as int].1,
            fin == patched(
                before,
                idx@,
                Seq::new(a as nat, |c: int| *final(out@[c])),
                a as int,
                base as int,
            ) + final(rest)@,
        decreases idx@.len() - a,
    {
        let ghost old_out = out@;
        let ghost old_base = base;
        assert(a > 0 ==> idx@[a - 1] < idx@[a as int]);
        let k = idx[a] - base;
        let (head, tail) = rest.split_at_mut(k + 1);
        let ghost head_before = head@;
        let r = &mut head[k].1;
        out.push(r);
        rest = tail;
        base = idx[a] + 1;
        a += 1;
        proof {
            let vals_old = Seq::new((a - 1) as nat, |c: int| *final(old_out[c]));
            let vals_new = Seq::new(a as nat, |c: int| *final(out@[c]));
            let d_old = patched(before, idx@, vals_old, a - 1, old_base as int);
            let d_new = patched(before, idx@, vals_new, a as int, base as int);
            let mid = head_before.update(k as int, (head_before[k as int].0, *final(out@[a - 1])));
            assert(d_new =~= d_old + mid) by {
                assert forall|p: int| 0 <= p < base implies d_new[p] == (d_old + mid)[p] by {
                    if p < old_base {
                        if chosen(idx@, a - 1, p) {
                            let c = choose|c: int| 0 <= c < a - 1 && #[trigger] idx@[c] == p;
                            assert(chosen(idx@, a as int, p));
                            let c2 = choose|c: int| 0 <= c < a && #[trigger] idx@[c] == p;
                            assert(c2 == c);
                            assert(vals_new[c] == vals_old[c]);
                        } else {
                            if chosen(idx@, a as int, p) {
                                let c2 = choose|c: int| 0 <= c < a && #[trigger] idx@[c] == p;
                                assert(c2 == a - 1);
                            }
                        }
                    } else if p == base - 1 {
                        assert(idx@[a - 1] == p);
                        assert(chosen(idx@, a as int, p));
                        let c2 = choose|c: int| 0 <= c < a && #[trigger] idx@[c] == p;
                        assert(c2 == a - 1);
                    } else {
                        if chosen(idx@, a as int, p) {
                            let c2 = choose|c: int| 0 <= c < a && #[trigger] idx@[c] == p;
                            assert(idx@[c2] <= idx@[a - 1]);
                            if c2 < a - 1 {
                                assert(a - 1 > 0);
                                assert(idx@[c2] <= idx@[a - 2]);
                            }
                        }
                        assert(mid[p - old_base] == before[p]);
                    }
                }
            }
        }
    }
    assert(final(rest)@ == rest@);
    assert(Seq::new(out@.len(), |c: int| *final(out@[c])) =~= Seq::new(
        a as nat,
        |c: int| *final(out@[c]),
    ));
    assert(fin =~= patched(
        before,
        idx@,
        Seq::new(out@.len(), |c: int| *final(out@[c])),
        idx@.len() as int,
        n as int,
    )) by {
        let vals = Seq::new(a as nat, |c: int| *final(out@[c]));
        let d = patched(before, idx@, vals, a as int, base as int);
        let full = patched(before, idx@, vals, a as int, n as int);
        assert forall|p: int| 0 <= p < n implies (d + rest@)[p] == full[p] by {
            if p >= base {
                if chosen(idx@, a as int, p) {
                    let c2 = choose|c: int| 0 <= c < a && #[trigger] idx@[c] == p;
                    assert(idx@[c2] <= idx@[a - 1]);
                }
            }
        }
    }
    out
}

/// Returns the places of `idx` in the order of the positions that they hold,
/// ascending; the positions must be all different and lie below `bound`.
pub fn ascending_order(idx: &Vec<usize>, bound: usize) -> (order: Vec<usize>)
    requires
        distinct_positions(idx@),
        forall|a: int| 0 <= a < idx@.len() ==> idx@[a] < bound,
    ensures
        forall|t: int| 0 <= t < order@.len() ==> (#[trigger] order@[t]) < idx@.len(),
        forall|s: int, t: int|
            0 <= s < t < order@.len() ==> idx@[order@[s] as int] < idx@[order@[t] as int],
        forall|a: int| 0 <= a < idx@.len() ==> #[trigger] listed(order@, a),
{
    let n = idx.len();
    let mut order: Vec<usize> = Vec::new();
    let mut lower: usize = 0;
    loop
        invariant
            n == idx@.len(),
            lower <= bound,
            distinct_positions(idx@),
            forall|a: int| 0 <= a < idx@.len() ==> idx@[a] < bound,
            forall|t: int| 0 <= t < order@.len() ==> (#[trigger] order@[t]) < n,
            forall|s: int, t: int|
                0 <= s < t < order@.len() ==> idx@[order@[s] as int] < idx@[order@[t] as int],
            order@.len() == 0 ==> lower == 0,
            order@.len() > 0 ==> lower == idx@[order@[order@.len() - 1] as int] + 1,
            forall|a: int| 0 <= a < n && idx@[a] < lower ==> #[trigger] listed(order@, a),
        ensures
            forall|a: int| 0 <= a < n ==> #[trigger] listed(order@, a),
        decreases bound - lower,
    {
        // the place with the least position that is not below `lower`
        let mut best: Option<usize> = None;
        let mut i: usize = 0;
        while i < n
            invariant
                i <= n,
                n == idx@.len(),
                best matches Some(b) ==> b < i && idx@[b as int] >= lower,
                forall|a: int|
                    0 <= a < i && idx@[a] >= lower ==> (best matches Some(b) && idx@[b as int]
                        <= idx@[a]),
            decreases n - i,
        {
            if idx[i] >= lower {
                match best {
                    Some(b) => {
                        if idx[i] < idx[b] {
                            best = Some(i);
                        }
                    },
                    None => {
                        best = Some(i);
                    },
                }
            }
            i += 1;
        }
        match best {
            None => {
                break ;
            },
            Some(b) => {
                let ghost before = order@;
                order.push(b);
                lower = idx[b] + 1;
                proof {
                    assert forall|a: int| 0 <= a < n && idx@[a] < lower implies #[trigger] listed(
                        order@,
                        a,
                    ) by {
                        if idx@[a] < idx@[b as int] {
                            assert(listed(before, a));
                            let t = choose|t: int| 0 <= t < before.len() && #[trigger] before[t] == a;
                            assert(order@[t] == a);
                        } else {
                            assert(a == b);
                            assert(order@[before.len() as int] == a);
                        }
                    }
                    assert forall|s: int, t: int| 0 <= s < t < order@.len() implies idx@[order@[s] as int]
                        < idx@[order@[t] as int] by {
                        if t == before.len() {
                            if s < before.len() - 1 {
                                assert(idx@[before[s] as int] < idx@[before[before.len() - 1] as int]);
                            }
                        }
                    }
                }
            },
        }
    }
    order
}

/// Returns mutable references to the values at the positions `idx`, which are
/// all different, in the order of `idx`. What is written through them is all
/// that changes in the entries.
pub fn refs_at<'a, K, V, const N: usize>(entries: &'a mut Vec<(K, V)>, idx: &Vec<usize>) -> (r: [&'a mut V; N])
    requires
        idx@.len() == N,
        distinct_positions(idx@),
        forall|a: int| 0 <= a < idx@.len() ==> idx@[a] < old(entries)@.len(),
    ensures
        forall|i: int| 0 <= i < N ==> *(#[trigger] r@[i]) == old(entries)@[idx@[i] as int].1,
        final(entries)@.len() == old(entries)@.len(),
        forall|p: int|
            0 <= p < old(entries)@.len() ==> (#[trigger] final(entries)@[p]).0 == old(entries)@[p].0,
        forall|i: int|
            0 <= i < N ==> final(entries)@[(#[trigger] idx@[i]) as int].1 == *final(r@[i]),
        forall|p: int|
            0 <= p < old(entries)@.len() && !chosen(idx@, N as int, p) ==> #[trigger] final(entries)@[p] == old(entries)@[p],
{
    let ghost before = entries@;
    let ghost fin = final(entries)@;
    let n = entries.len();
    let order = ascending_order(idx, n);
    let mut sorted: Vec<usize> = Vec::new();
    let mut t: usize = 0;
    while t < order.len()
        invariant
            t <= order@.len(),
            sorted@.len() == t,
            idx@.len() == N,
            forall|s: int| 0 <= s < order@.len() ==> (#[trigger] order@[s]) < idx@.len(),
            forall|s: int| 0 <= s < t ==> #[trigger] sorted@[s] == idx@[order@[s] as int],
        decreases order@.len() - t,
    {
        sorted.push(idx[order[t]]);
        t += 1;
    }
    let mut refs = refs_in_order(entries, &sorted);
    let ghost now = Seq::new(refs@.len(), |c: int| *refs@[c]);
    let ghost then = Seq::new(refs@.len(), |c: int| *final(refs@[c]));

    // put each reference at the place of its position in `idx`
    let mut slots: Vec<Option<&'a mut V>> = Vec::new();
    let mut i: usize = 0;
    while i < N
        invariant
            i <= N,
            slots@.len() == i,
            forall|c: int| 0 <= c < i ==> (#[trigger] slots@[c]) is None,
        decreases N - i,
    {
        slots.push(None);
        i += 1;
    }
    while refs.len() > 0
        invariant
            refs@.len() <= order@.len(),
            now.len() == order@.len(),
            then.len() == order@.len(),
            forall|c: int|
                0 <= c < refs@.len() ==> *(#[trigger] refs@[c]) == now[c] && *final(refs@[c])
                    == then[c],
            slots@.len() == N,
            idx@.len() == N,
            forall|s: int| 0 <= s < order@.len() ==> (#[trigger] order@[s]) < N,
            forall|s: int, t: int|
                0 <= s < t < order@.len() ==> idx@[order@[s] as int] < idx@[order@[t] as int],
            forall|s: int|
                refs@.len() <= s < order@.len() ==> (slots@[(#[trigger] order@[s]) as int] matches Some(
                    x,
                ) && *x == now[s] && *final(x) == then[s]),
        decreases refs@.len(),
    {
        let s = refs.len() - 1;
        let ghost old_slots = slots@;
        let r = refs.pop().unwrap();
        let place = order[s];
        slots[place] = Some(r);
        proof {
            assert(forall|c: int| 0 <= c < N && c != place ==> slots@[c] == old_slots[c]);
            assert forall|u: int| s <= u < order@.len() implies (slots@[(#[trigger] order@[u]) as int] matches Some(
                x,
            ) && *x == now[u] && *final(x) == then[u]) by {
                if u > s {
                    assert(idx@[order@[s as int] as int] < idx@[order@[u] as int]);
                    assert(old_slots[order@[u] as int] is Some);
                }
            }
        }
    }
    let mut out: Vec<&'a mut V> = Vec::new();
    let mut i: usize = 0;
    while i < N
        invariant
            i <= N,
            slots@.len() == N,
            out@.len() == i,
            now.len() == order@.len(),
            then.len() == order@.len(),
            forall|s: int| 0 <= s < order@.len() ==> (#[trigger] order@[s]) < N,
            forall|s: int|
                0 <= s < order@.len() && (#[trigger] order@[s]) >= i ==> (slots@[order@[s] as int] matches Some(
                    x,
                ) && *x == now[s] && *final(x) == then[s]),
            forall|a: int| 0 <= a < N ==> #[trigger] listed(order@, a),
            forall|a: int|
                0 <= a < i ==> taken_for(
                    order@,
                    now,
                    then,
                    a,
                    *(#[trigger] out@[a]),
                    *final(out@[a]),
                ),
        decreases N - i,
    {
        assert(listed(order@, i as int));
        let ghost t = choose|t: int| 0 <= t < order@.len() && #[trigger] order@[t] == i;
        let ghost old_out = out@;
        let slot = slots[i].take();
        let r = slot.unwrap();
        out.push(r);
        proof {
            assert forall|a: int| 0 <= a < i + 1 implies taken_for(
                order@,
                now,
                then,
                a,
                *(#[trigger] out@[a]),
                *final(out@[a]),
            ) by {
                if a < i {
                    assert(taken_for(order@, now, then, a, *old_out[a], *final(old_out[a])));
                } else {
                    assert(order@[t] == a && *out@[a] == now[t] && *final(out@[a]) == then[t]);
                }
            }
        }
        i += 1;
    }
    let ghost got = out@;
    let r: [&'a mut V; N] = match array_from_vec(out) {
        Ok(a) => a,
        Err(_) => vstd::pervasive::unreached(),
    };
    proof {
        assert(r@ == got);
        assert forall|i: int| 0 <= i < N implies *(#[trigger] r@[i]) == before[idx@[i] as int].1
            && fin[idx@[i] as int].1 == *final(r@[i]) by {
            assert(taken_for(order@, now, then, i, *got[i], *final(got[i])));
            let t = choose|t: int|
                0 <= t < order@.len() && #[trigger] order@[t] == i && *got[i] == now[t] && *final(got[i]) == then[t];
            assert(sorted@[t] == idx@[i]);
            assert(chosen(sorted@, sorted@.len() as int, idx@[i] as int));
            let c = choose|c: int| 0 <= c < sorted@.len() && #[trigger] sorted@[c] == idx@[i];
            if c < t {
                assert(idx@[order@[c] as int] < idx@[order@[t] as int]);
            } else if t < c {
                assert(idx@[order@[t] as int] < idx@[order@[c] as int]);
            }
        }
        assert forall|p: int| 0 <= p < before.len() && !chosen(idx@, N as int, p) implies #[trigger] fin[p]
            == before[p] by {
            if chosen(sorted@, sorted@.len() as int, p) {
                let c = choose|c: int| 0 <= c < sorted@.len() && #[trigger] sorted@[c] == p;
                assert(idx@[order@[c] as int] == p);
            }
        }
    }
    r
}

} // verus!
