//! First-seen order of distinct values.
//!
//! Equality is the one of `PartialEq`, seen through `eq_spec`; no value is
//! hashed or sorted, so the order that comes out is the order of the input.

use vstd::laws_eq::obeys_concrete_eq;
use vstd::prelude::*;
use vstd::std_specs::cmp::PartialEqSpec;

verus! {

/// `s[i]` equals none of the values at the positions in `kept`.
pub open spec fn is_new_value<V: PartialEq>(s: Seq<V>, kept: Seq<int>, i: int) -> bool {
    forall|k: int| 0 <= k < kept.len() ==> !(#[trigger] s[kept[k]]).eq_spec(&s[i])
}

/// Positions kept by a left-to-right scan of `s[..n]` that keeps a position
/// whenever its value equals none of the values kept before it.
pub open spec fn kept_positions<V: PartialEq>(s: Seq<V>, n: nat) -> Seq<int>
    decreases n,
{
    if n == 0 {
        Seq::empty()
    } else {
        let p = kept_positions(s, (n - 1) as nat);
        if is_new_value(s, p, n - 1) {
            p.push(n - 1)
        } else {
            p
        }
    }
}

/// The positions in `s[..n]`, in increasing order, whose value equals `target`.
pub open spec fn positions_equal_to<V: PartialEq>(s: Seq<V>, target: V, n: nat) -> Seq<int>
    decreases n,
{
    if n == 0 {
        Seq::empty()
    } else {
        let p = positions_equal_to(s, target, (n - 1) as nat);
        if s[n - 1].eq_spec(&target) {
            p.push(n - 1)
        } else {
            p
        }
    }
}

/// Widens a sequence of positions to mathematical integers.
pub open spec fn as_ints(p: Seq<usize>) -> Seq<int> {
    p.map_values(|x: usize| x as int)
}

/// Every element of `p` lies below `n`, in strictly increasing order.
pub open spec fn increasing_below(p: Seq<int>, n: int) -> bool {
    &&& forall|k: int| 0 <= k < p.len() ==> 0 <= #[trigger] p[k] < n
    &&& forall|a: int, b: int| 0 <= a < b < p.len() ==> p[a] < p[b]
}

/// The values behind a sequence of references.
pub open spec fn derefs<V>(s: Seq<&V>) -> Seq<V> {
    s.map_values(|x: &V| *x)
}

/// Positions of the first occurrence of each distinct value of `s`, in the
/// order in which the values first appear.
pub fn first_seen_positions<V: PartialEq>(s: &Vec<&V>) -> (r: Vec<usize>)
    ensures
        increasing_below(as_ints(r@), s.len() as int),
        V::obeys_eq_spec() ==> as_ints(r@) == kept_positions(derefs(s@), s.len() as nat),
{
    let ghost vals = derefs(s@);
    let mut r: Vec<usize> = Vec::new();
    let mut i: usize = 0;
    while i < s.len()
        invariant
            vals == derefs(s@),
            i <= s.len(),
            increasing_below(as_ints(r@), i as int),
            V::obeys_eq_spec() ==> as_ints(r@) == kept_positions(vals, i as nat),
        decreases s.len() - i,
    {
        let mut k: usize = 0;
        let mut seen = false;
        while k < r.len()
            invariant
                vals == derefs(s@),
                i < s.len(),
                k <= r.len(),
                increasing_below(as_ints(r@), i as int),
                V::obeys_eq_spec() ==> (seen <==> exists|m: int|
                    0 <= m < k && (#[trigger] vals[as_ints(r@)[m]]).eq_spec(&vals[i as int])),
            decreases r.len() - k,
        {
            assert(as_ints(r@)[k as int] == r@[k as int]);
            assert(vals[r@[k as int] as int] == *s@[r@[k as int] as int]);
            assert(vals[i as int] == *s@[i as int]);
            if *s[r[k]] == *s[i] {
                seen = true;
            }
            k += 1;
        }
        proof {
            if V::obeys_eq_spec() {
                if seen {
                    assert(!is_new_value(vals, as_ints(r@), i as int));
                } else {
                    assert(is_new_value(vals, as_ints(r@), i as int));
                }
            }
        }
        let ghost prev = r@;
        if !seen {
            r.push(i);
            assert(as_ints(r@) =~= as_ints(prev).push(i as int));
        }
        i += 1;
    }
    r
}

/// The positions, in increasing order, whose value equals the one at `p`.
pub fn positions_equal_to_one_at<V: PartialEq>(s: &Vec<&V>, p: usize) -> (r: Vec<usize>)
    requires
        p < s.len(),
    ensures
        increasing_below(as_ints(r@), s.len() as int),
        V::obeys_eq_spec() ==> as_ints(r@) == positions_equal_to(
            derefs(s@),
            derefs(s@)[p as int],
            s.len() as nat,
        ),
{
    let ghost vals = derefs(s@);
    let mut r: Vec<usize> = Vec::new();
    let mut i: usize = 0;
    while i < s.len()
        invariant
            vals == derefs(s@),
            p < s.len(),
            i <= s.len(),
            increasing_below(as_ints(r@), i as int),
            V::obeys_eq_spec() ==> as_ints(r@) == positions_equal_to(
                vals,
                vals[p as int],
                i as nat,
            ),
        decreases s.len() - i,
    {
        let ghost prev = r@;
        if *s[i] == *s[p] {
            r.push(i);
            assert(as_ints(r@) =~= as_ints(prev).push(i as int));
        }
        i += 1;
    }
    r
}

/// The first position of `values` whose value equals `v`, if any.
pub fn position_of<V: PartialEq>(values: &Vec<V>, v: &V) -> (r: Option<usize>)
    ensures
        r matches Some(k) ==> k < values.len(),
        V::obeys_eq_spec() ==> match r {
            Some(k) => {
                &&& values@[k as int].eq_spec(v)
                &&& forall|m: int| 0 <= m < k ==> !(#[trigger] values@[m]).eq_spec(v)
            },
            None => forall|m: int| 0 <= m < values.len() ==> !(#[trigger] values@[m]).eq_spec(v),
        },
{
    let mut k: usize = 0;
    while k < values.len()
        invariant
            k <= values.len(),
            V::obeys_eq_spec() ==> forall|m: int| 0 <= m < k ==> !(#[trigger] values@[m]).eq_spec(v),
        decreases values.len() - k,
    {
        if values[k] == *v {
            return Some(k);
        }
        k += 1;
    }
    None
}

/// With `eq_spec` the identity of values, a position is among those equal to
/// `target` exactly when its value is `target`.
pub proof fn lemma_positions_equal_to_contains<V: PartialEq>(s: Seq<V>, target: V, n: nat, i: int)
    requires
        n <= s.len(),
        obeys_concrete_eq::<V>(),
    ensures
        positions_equal_to(s, target, n).contains(i) <==> 0 <= i < n && s[i] == target,
    decreases n,
{
    reveal(obeys_concrete_eq);
    if n > 0 {
        lemma_positions_equal_to_contains(s, target, (n - 1) as nat, i);
        lemma_positions_equal_to_contains(s, target, (n - 1) as nat, n - 1);
        let p = positions_equal_to(s, target, (n - 1) as nat);
        if s[n - 1].eq_spec(&target) {
            let q = p.push(n - 1);
            if p.contains(i) {
                let w = choose|w: int| 0 <= w < p.len() && p[w] == i;
                assert(q[w] == i);
            }
            if i == n - 1 {
                assert(q[p.len() as int] == i);
            }
            if q.contains(i) {
                let w = choose|w: int| 0 <= w < q.len() && q[w] == i;
                if w < p.len() {
                    assert(p[w] == i);
                }
            }
        }
    }
}

/// With `eq_spec` the identity of values, the kept positions hold distinct
/// values, and every value of `s[..n]` is among them.
pub proof fn lemma_kept_positions_cover<V: PartialEq>(s: Seq<V>, n: nat)
    requires
        n <= s.len(),
        obeys_concrete_eq::<V>(),
    ensures
        forall|c: int|
            0 <= c < kept_positions(s, n).len() ==> 0 <= #[trigger] kept_positions(s, n)[c] < n,
        forall|c1: int, c2: int|
            0 <= c1 < c2 < kept_positions(s, n).len() ==> s[kept_positions(s, n)[c1]] != s[kept_positions(
                s,
                n,
            )[c2]],
        forall|i: int|
            0 <= i < n ==> exists|c: int|
                0 <= c < kept_positions(s, n).len() && s[kept_positions(s, n)[c]] == #[trigger] s[i],
    decreases n,
{
    reveal(obeys_concrete_eq);
    if n > 0 {
        lemma_kept_positions_cover(s, (n - 1) as nat);
        let p = kept_positions(s, (n - 1) as nat);
        let k = kept_positions(s, n);
        if is_new_value(s, p, n - 1) {
            assert(k == p.push(n - 1));
            assert forall|i: int| 0 <= i < n implies exists|c: int|
                0 <= c < k.len() && s[k[c]] == #[trigger] s[i] by {
                if i == n - 1 {
                    assert(k[p.len() as int] == n - 1);
                } else {
                    let c = choose|c: int| 0 <= c < p.len() && s[p[c]] == s[i];
                    assert(k[c] == p[c]);
                }
            }
            assert forall|c1: int, c2: int| 0 <= c1 < c2 < k.len() implies s[k[c1]] != s[k[c2]] by {
                if c2 == p.len() {
                    assert(!s[p[c1]].eq_spec(&s[n - 1]));
                }
            }
        } else {
            assert forall|i: int| 0 <= i < n implies exists|c: int|
                0 <= c < k.len() && s[k[c]] == #[trigger] s[i] by {
                if i == n - 1 {
                    let c = choose|c: int| 0 <= c < p.len() && s[p[c]].eq_spec(&s[n - 1]);
                    assert(s[k[c]] == s[i]);
                } else {
                    let c = choose|c: int| 0 <= c < p.len() && s[p[c]] == s[i];
                    assert(s[k[c]] == s[i]);
                }
            }
        }
    }
}

/// The character sequences of some strings.
pub open spec fn views(s: Seq<String>) -> Seq<Seq<char>> {
    s.map_values(|x: String| x@)
}

/// Positions kept by a left-to-right scan of `s[..n]` that keeps a position
/// whenever its value is none of the values kept before it.
pub open spec fn first_seen<T>(s: Seq<T>, n: nat) -> Seq<int>
    decreases n,
{
    if n == 0 {
        Seq::empty()
    } else {
        let p = first_seen(s, (n - 1) as nat);
        if forall|k: int| 0 <= k < p.len() ==> s[#[trigger] p[k]] != s[n - 1] {
            p.push(n - 1)
        } else {
            p
        }
    }
}

/// The positions in `s[..n]`, in increasing order, that hold `target`.
pub open spec fn positions_holding<T>(s: Seq<T>, target: T, n: nat) -> Seq<int>
    decreases n,
{
    if n == 0 {
        Seq::empty()
    } else {
        let p = positions_holding(s, target, (n - 1) as nat);
        if s[n - 1] == target {
            p.push(n - 1)
        } else {
            p
        }
    }
}

/// Positions of the first occurrence of each distinct string of `s`, in the
/// order in which the strings first appear.
pub fn first_seen_string_positions(s: &Vec<&String>) -> (r: Vec<usize>)
    ensures
        increasing_below(as_ints(r@), s.len() as int),
        as_ints(r@) == first_seen(views(derefs(s@)), s.len() as nat),
{
    let ghost vals = views(derefs(s@));
    let mut r: Vec<usize> = Vec::new();
    let mut i: usize = 0;
    while i < s.len()
        invariant
            vals == views(derefs(s@)),
            i <= s.len(),
            increasing_below(as_ints(r@), i as int),
            as_ints(r@) == first_seen(vals, i as nat),
        decreases s.len() - i,
    {
        let mut k: usize = 0;
        let mut seen = false;
        while k < r.len()
            invariant
                vals == views(derefs(s@)),
                i < s.len(),
                k <= r.len(),
                increasing_below(as_ints(r@), i as int),
                seen <==> exists|m: int| 0 <= m < k && vals[#[trigger] as_ints(r@)[m]] == vals[i as int],
            decreases r.len() - k,
        {
            assert(as_ints(r@)[k as int] == r@[k as int]);
            assert(vals[r@[k as int] as int] == (*s@[r@[k as int] as int])@);
            assert(vals[i as int] == (*s@[i as int])@);
            if *s[r[k]] == *s[i] {
                seen = true;
            }
            k += 1;
        }
        let ghost prev = r@;
        if !seen {
            r.push(i);
            assert(as_ints(r@) =~= as_ints(prev).push(i as int));
        }
        i += 1;
    }
    r
}

/// The positions, in increasing order, whose string equals the one at `p`.
pub fn string_positions_equal_to_one_at(s: &Vec<&String>, p: usize) -> (r: Vec<usize>)
    requires
        p < s.len(),
    ensures
        increasing_below(as_ints(r@), s.len() as int),
        as_ints(r@) == positions_holding(
            views(derefs(s@)),
            views(derefs(s@))[p as int],
            s.len() as nat,
        ),
{
    let ghost vals = views(derefs(s@));
    let mut r: Vec<usize> = Vec::new();
    let mut i: usize = 0;
    while i < s.len()
        invariant
            vals == views(derefs(s@)),
            p < s.len(),
            i <= s.len(),
            increasing_below(as_ints(r@), i as int),
            as_ints(r@) == positions_holding(vals, vals[p as int], i as nat),
        decreases s.len() - i,
    {
        let ghost prev = r@;
        assert(vals[i as int] == (*s@[i as int])@);
        assert(vals[p as int] == (*s@[p as int])@);
        if *s[i] == *s[p] {
            r.push(i);
            assert(as_ints(r@) =~= as_ints(prev).push(i as int));
        }
        i += 1;
    }
    r
}

/// The first position of `values` whose string equals `v`, if any.
pub fn string_position_of(values: &Vec<String>, v: &String) -> (r: Option<usize>)
    ensures
        match r {
            Some(k) => {
                &&& k < values.len()
                &&& values@[k as int]@ == v@
                &&& forall|m: int| 0 <= m < k ==> (#[trigger] values@[m])@ != v@
            },
            None => forall|m: int| 0 <= m < values.len() ==> (#[trigger] values@[m])@ != v@,
        },
{
    let mut k: usize = 0;
    while k < values.len()
        invariant
            k <= values.len(),
            forall|m: int| 0 <= m < k ==> (#[trigger] values@[m])@ != v@,
        decreases values.len() - k,
    {
        if values[k] == *v {
            return Some(k);
        }
        k += 1;
    }
    None
}

/// The positions that `first_seen` keeps hold distinct values, and every
/// value of `s[..n]` is at one of them.
pub proof fn lemma_first_seen_cover<T>(s: Seq<T>, n: nat)
    requires
        n <= s.len(),
    ensures
        forall|c: int| 0 <= c < first_seen(s, n).len() ==> 0 <= #[trigger] first_seen(s, n)[c] < n,
        forall|i: int|
            0 <= i < n ==> exists|c: int|
                0 <= c < first_seen(s, n).len() && s[first_seen(s, n)[c]] == #[trigger] s[i],
    decreases n,
{
    if n > 0 {
        lemma_first_seen_cover(s, (n - 1) as nat);
        let p = first_seen(s, (n - 1) as nat);
        let k = first_seen(s, n);
        if forall|m: int| 0 <= m < p.len() ==> s[#[trigger] p[m]] != s[n - 1] {
            assert(k == p.push(n - 1));
            assert forall|i: int| 0 <= i < n implies exists|c: int|
                0 <= c < k.len() && s[k[c]] == #[trigger] s[i] by {
                if i == n - 1 {
                    assert(k[p.len() as int] == n - 1);
                } else {
                    let c = choose|c: int| 0 <= c < p.len() && s[p[c]] == s[i];
                    assert(k[c] == p[c]);
                }
            }
        } else {
            assert forall|i: int| 0 <= i < n implies exists|c: int|
                0 <= c < k.len() && s[k[c]] == #[trigger] s[i] by {
                if i == n - 1 {
                    let c = choose|c: int| 0 <= c < p.len() && s[p[c]] == s[n - 1];
                    assert(s[k[c]] == s[i]);
                } else {
                    let c = choose|c: int| 0 <= c < p.len() && s[p[c]] == s[i];
                    assert(s[k[c]] == s[i]);
                }
            }
        }
    }
}

} // verus!
