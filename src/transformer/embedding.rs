//! Categorical values embedded as numbers.

use vstd::laws_eq::obeys_concrete_eq;
use vstd::prelude::*;
use vstd::std_specs::cmp::PartialEqSpec;

use crate::distinct::{
    as_ints,
    derefs,
    first_seen_positions,
    increasing_below,
    kept_positions,
    first_seen,
    first_seen_string_positions,
    lemma_first_seen_cover,
    lemma_kept_positions_cover,
    position_of,
    string_position_of,
    views,
};
use crate::transformer::Transformer;
use crate::Estimator;

verus! {

/// Estimator of a one-hot embedding.
#[derive(Copy, Clone, Debug, Default)]
pub struct OneHotEmbeddingEstimator;

/// One-hot embedding: each category seen in fitting owns one column, in the
/// order in which the categories first appeared.
#[derive(Debug, Clone)]
pub struct OneHotEmbeddingTransformer<V> {
    categories: Vec<V>,
}

impl<V> View for OneHotEmbeddingTransformer<V> {
    type V = Seq<V>;

    /// The categories, one per column.
    closed spec fn view(&self) -> Seq<V> {
        self.categories@
    }
}

/// Embedding of values that convert to an index by themselves.
#[derive(Clone, Copy, Debug, Default)]
pub struct OrderedEnumEmbeddingTransformer;

/// The row of `n` entries that is `1` at column `k` and `0` elsewhere.
pub open spec fn indicator(n: nat, k: int) -> Seq<u8> {
    Seq::new(n, |j: int| if j == k { 1u8 } else { 0u8 })
}

/// `row` has `n` entries, one of which is `1` and the others `0`.
pub open spec fn is_one_hot(row: Seq<u8>, n: nat) -> bool {
    exists|k: int| 0 <= k < n && row == indicator(n, k)
}

/// `k` is the first column whose category equals `v`.
pub open spec fn first_match<V: PartialEq>(categories: Seq<V>, v: V, k: int) -> bool {
    &&& 0 <= k < categories.len()
    &&& categories[k].eq_spec(&v)
    &&& forall|j: int| 0 <= j < k ==> !(#[trigger] categories[j]).eq_spec(&v)
}

/// Some category equals `v`.
pub open spec fn known<V: PartialEq>(categories: Seq<V>, v: V) -> bool {
    exists|k: int| 0 <= k < categories.len() && (#[trigger] categories[k]).eq_spec(&v)
}

impl<V: PartialEq + Clone> Estimator<Vec<V>> for OneHotEmbeddingEstimator {
    type Estimator = OneHotEmbeddingTransformer<V>;

    /// Learns the distinct categories of `input`, in first-seen order; `None`
    /// for an empty input.
    fn fit(&self, input: &Vec<V>) -> (r: Option<OneHotEmbeddingTransformer<V>>)
        ensures
            r is None <==> input.len() == 0,
            r matches Some(t) ==> V::obeys_eq_spec() ==> {
                let k = kept_positions(input@, input.len() as nat);
                &&& t@.len() == k.len()
                &&& forall|c: int| 0 <= c < k.len() ==> cloned(input@[k[c]], #[trigger] t@[c])
            },
    {
        if input.len() == 0 {
            return None;
        }
        let mut refs: Vec<&V> = Vec::new();
        let mut i: usize = 0;
        while i < input.len()
            invariant
                i <= input.len(),
                refs.len() == i,
                forall|j: int| 0 <= j < i ==> *(#[trigger] refs@[j]) == input@[j],
            decreases input.len() - i,
        {
            refs.push(&input[i]);
            i += 1;
        }
        assert(derefs(refs@) =~= input@);
        let firsts = first_seen_positions(&refs);
        let mut categories: Vec<V> = Vec::new();
        let mut c: usize = 0;
        while c < firsts.len()
            invariant
                increasing_below(as_ints(firsts@), input.len() as int),
                c <= firsts.len(),
                categories.len() == c,
                forall|m: int|
                    0 <= m < c ==> cloned(input@[as_ints(firsts@)[m]], #[trigger] categories@[m]),
            decreases firsts.len() - c,
        {
            assert(as_ints(firsts@)[c as int] == firsts@[c as int]);
            let v = input[firsts[c]].clone();
            categories.push(v);
            c += 1;
        }
        Some(OneHotEmbeddingTransformer { categories })
    }
}

impl<V: PartialEq> Transformer<Vec<V>, Vec<Vec<u8>>> for OneHotEmbeddingTransformer<V> {
    /// One row per value: `1` in the column of its category, `0` elsewhere.
    /// `None` when a value matches no category seen in fitting.
    fn transform(&self, input: &Vec<V>) -> (r: Option<Vec<Vec<u8>>>)
        ensures
            V::obeys_eq_spec() ==> (r is Some <==> forall|i: int|
                0 <= i < input.len() ==> known(self@, #[trigger] input@[i])),
            r matches Some(m) ==> {
                &&& m.len() == input.len()
                &&& forall|i: int| 0 <= i < m.len() ==> is_one_hot((#[trigger] m@[i])@, self@.len())
                &&& V::obeys_eq_spec() ==> forall|i: int, k: int|
                    0 <= i < m.len() && #[trigger] first_match(self@, input@[i], k) ==> (#[trigger] m@[i])@
                        == indicator(self@.len(), k)
            },
    {
        let n_columns = self.categories.len();
        let mut m: Vec<Vec<u8>> = Vec::new();
        let mut i: usize = 0;
        while i < input.len()
            invariant
                n_columns == self@.len(),
                i <= input.len(),
                m.len() == i,
                V::obeys_eq_spec() ==> forall|j: int| 0 <= j < i ==> known(self@, #[trigger] input@[j]),
                forall|j: int| 0 <= j < i ==> is_one_hot((#[trigger] m@[j])@, self@.len()),
                V::obeys_eq_spec() ==> forall|j: int, k: int|
                    0 <= j < i && #[trigger] first_match(self@, input@[j], k) ==> (#[trigger] m@[j])@
                        == indicator(self@.len(), k),
            decreases input.len() - i,
        {
            let found = position_of(&self.categories, &input[i]);
            match found {
                None => {
                    proof {
                        if V::obeys_eq_spec() {
                            assert(!known(self@, input@[i as int]));
                        }
                    }
                    return None;
                },
                Some(k) => {
                    let mut row: Vec<u8> = Vec::new();
                    let mut j: usize = 0;
                    while j < n_columns
                        invariant
                            j <= n_columns,
                            k < n_columns,
                            row@ == indicator(n_columns as nat, k as int).take(j as int),
                        decreases n_columns - j,
                    {
                        if j == k {
                            row.push(1u8);
                        } else {
                            row.push(0u8);
                        }
                        assert(row@ =~= indicator(n_columns as nat, k as int).take(j + 1));
                        j += 1;
                    }
                    assert(row@ =~= indicator(n_columns as nat, k as int));
                    proof {
                        if V::obeys_eq_spec() {
                            assert(known(self@, input@[i as int]));
                            assert forall|k2: int| first_match(self@, input@[i as int], k2) implies k2
                                == k by {
                                if k2 < k {
                                } else if k2 > k {
                                }
                            }
                        }
                    }
                    m.push(row);
                },
            }
            i += 1;
        }
        Some(m)
    }
}

/// `k` is the first column whose category is the string `v`.
pub open spec fn first_string_match(categories: Seq<String>, v: String, k: int) -> bool {
    &&& 0 <= k < categories.len()
    &&& categories[k]@ == v@
    &&& forall|j: int| 0 <= j < k ==> (#[trigger] categories[j])@ != v@
}

/// Some category is the string `v`.
pub open spec fn known_string(categories: Seq<String>, v: String) -> bool {
    exists|k: int| 0 <= k < categories.len() && (#[trigger] categories[k])@ == v@
}

impl OneHotEmbeddingEstimator {
    /// Learns the distinct strings of `input`, in first-seen order; `None`
    /// for an empty input. Strings are equal when their characters are.
    pub fn fit_strings(&self, input: &Vec<String>) -> (r: Option<OneHotEmbeddingTransformer<String>>)
        ensures
            r is None <==> input.len() == 0,
            r matches Some(t) ==> {
                let k = first_seen(views(input@), input.len() as nat);
                &&& t@.len() == k.len()
                &&& forall|c: int| 0 <= c < k.len() ==> #[trigger] t@[c] == input@[k[c]]
            },
    {
        if input.len() == 0 {
            return None;
        }
        let mut refs: Vec<&String> = Vec::new();
        let mut i: usize = 0;
        while i < input.len()
            invariant
                i <= input.len(),
                refs.len() == i,
                forall|j: int| 0 <= j < i ==> *(#[trigger] refs@[j]) == input@[j],
            decreases input.len() - i,
        {
            refs.push(&input[i]);
            i += 1;
        }
        assert(derefs(refs@) =~= input@);
        let firsts = first_seen_string_positions(&refs);
        let mut categories: Vec<String> = Vec::new();
        let mut c: usize = 0;
        while c < firsts.len()
            invariant
                increasing_below(as_ints(firsts@), input.len() as int),
                c <= firsts.len(),
                categories.len() == c,
                forall|m: int|
                    0 <= m < c ==> #[trigger] categories@[m] == input@[as_ints(firsts@)[m]],
            decreases firsts.len() - c,
        {
            assert(as_ints(firsts@)[c as int] == firsts@[c as int]);
            let v = input[firsts[c]].clone();
            categories.push(v);
            c += 1;
        }
        Some(OneHotEmbeddingTransformer { categories })
    }
}

impl OneHotEmbeddingTransformer<String> {
    /// One row per string: `1` in the column of its category, `0` elsewhere.
    /// `None` when a string matches no category seen in fitting.
    pub fn transform_strings(&self, input: &Vec<String>) -> (r: Option<Vec<Vec<u8>>>)
        ensures
            r is Some <==> forall|i: int| 0 <= i < input.len() ==> known_string(self@, #[trigger] input@[i]),
            r matches Some(m) ==> {
                &&& m.len() == input.len()
                &&& forall|i: int| 0 <= i < m.len() ==> is_one_hot((#[trigger] m@[i])@, self@.len())
                &&& forall|i: int, k: int|
                    0 <= i < m.len() && #[trigger] first_string_match(self@, input@[i], k) ==> (
                    #[trigger] m@[i])@ == indicator(self@.len(), k)
            },
    {
        let n_columns = self.categories.len();
        let mut m: Vec<Vec<u8>> = Vec::new();
        let mut i: usize = 0;
        while i < input.len()
            invariant
                n_columns == self@.len(),
                i <= input.len(),
                m.len() == i,
                forall|j: int| 0 <= j < i ==> known_string(self@, #[trigger] input@[j]),
                forall|j: int| 0 <= j < i ==> is_one_hot((#[trigger] m@[j])@, self@.len()),
                forall|j: int, k: int|
                    0 <= j < i && #[trigger] first_string_match(self@, input@[j], k) ==> (
                    #[trigger] m@[j])@ == indicator(self@.len(), k),
            decreases input.len() - i,
        {
            match string_position_of(&self.categories, &input[i]) {
                None => {
                    assert(!known_string(self@, input@[i as int]));
                    return None;
                },
                Some(k) => {
                    let mut row: Vec<u8> = Vec::new();
                    let mut j: usize = 0;
                    while j < n_columns
                        invariant
                            j <= n_columns,
                            k < n_columns,
                            row@ == indicator(n_columns as nat, k as int).take(j as int),
                        decreases n_columns - j,
                    {
                        if j == k {
                            row.push(1u8);
                        } else {
                            row.push(0u8);
                        }
                        assert(row@ =~= indicator(n_columns as nat, k as int).take(j + 1));
                        j += 1;
                    }
                    assert(row@ =~= indicator(n_columns as nat, k as int));
                    assert(known_string(self@, input@[i as int]));
                    assert forall|k2: int| first_string_match(self@, input@[i as int], k2) implies k2
                        == k by {
                        if k2 < k {
                        } else if k2 > k {
                        }
                    }
                    m.push(row);
                },
            }
            i += 1;
        }
        Some(m)
    }
}

/// A string embedding fitted on `input` knows every string of `input`, and
/// the column of each is that of the first occurrence of its characters.
pub proof fn lemma_fitted_strings_are_known(input: Seq<String>, t: OneHotEmbeddingTransformer<String>)
    requires
        t@.len() == first_seen(views(input), input.len()).len(),
        forall|c: int|
            0 <= c < t@.len() ==> #[trigger] t@[c] == input[first_seen(views(input), input.len())[c]],
    ensures
        forall|i: int| 0 <= i < input.len() ==> known_string(t@, #[trigger] input[i]),
        forall|i: int, c: int|
            0 <= i < input.len() && #[trigger] first_string_match(t@, input[i], c) ==> input[first_seen(
                views(input),
                input.len(),
            )[c]]@ == input[i]@,
{
    let vs = views(input);
    let k = first_seen(vs, input.len());
    lemma_first_seen_cover(vs, input.len());
    assert forall|i: int| 0 <= i < input.len() implies known_string(t@, #[trigger] input[i]) by {
        assert(vs[i] == input[i]@);
        let c = choose|c: int| 0 <= c < k.len() && vs[k[c]] == #[trigger] vs[i];
        assert(t@[c] == input[k[c]]);
        assert(vs[k[c]] == input[k[c]]@);
    }
}

/// Where equality is the identity of values and a clone equals its
/// original, an embedding fitted on `input` knows every value of `input`, and
/// the column of each is that of the value's first occurrence.
pub proof fn lemma_fitted_values_are_known<V: PartialEq + Clone>(
    input: Seq<V>,
    t: OneHotEmbeddingTransformer<V>,
)
    requires
        obeys_concrete_eq::<V>(),
        forall|a: V, b: V| #[trigger] cloned(a, b) ==> a == b,
        t@.len() == kept_positions(input, input.len()).len(),
        forall|c: int|
            0 <= c < t@.len() ==> cloned(
                input[kept_positions(input, input.len())[c]],
                #[trigger] t@[c],
            ),
    ensures
        forall|i: int| 0 <= i < input.len() ==> known(t@, #[trigger] input[i]),
        forall|i: int, c: int|
            0 <= i < input.len() && #[trigger] first_match(t@, input[i], c) ==> input[kept_positions(
                input,
                input.len(),
            )[c]] == input[i],
{
    reveal(obeys_concrete_eq);
    let k = kept_positions(input, input.len());
    lemma_kept_positions_cover(input, input.len());
    assert forall|c: int| 0 <= c < t@.len() implies #[trigger] t@[c] == input[k[c]] by {
        assert(cloned(input[k[c]], t@[c]));
    }
    assert forall|i: int| 0 <= i < input.len() implies known(t@, #[trigger] input[i]) by {
        let c = choose|c: int| 0 <= c < k.len() && input[k[c]] == input[i];
        assert(t@[c] == input[i]);
        assert(t@[c].eq_spec(&input[i]));
    }
}

/// Relies on num-traits' `ToPrimitive::to_usize` for `i64`: the value itself
/// when it is not negative and fits in `usize`, `None` otherwise.
#[verifier::external_body]
fn index_of_i64(v: i64) -> (r: Option<usize>)
    ensures
        r == (if 0 <= v && v <= usize::MAX {
            Some(v as usize)
        } else {
            None
        }),
{
    num_traits::ToPrimitive::to_usize(&v)
}

impl Transformer<Vec<i64>, Vec<usize>> for OrderedEnumEmbeddingTransformer {
    /// Each value as an index; `None` when a value is negative or does not
    /// fit in `usize`.
    fn transform(&self, input: &Vec<i64>) -> (r: Option<Vec<usize>>)
        ensures
            r is Some <==> forall|i: int| 0 <= i < input.len() ==> 0 <= #[trigger] input@[i] <= usize::MAX,
            r matches Some(v) ==> v.len() == input.len() && forall|i: int|
                0 <= i < input.len() ==> #[trigger] v@[i] == input@[i],
    {
        let mut v: Vec<usize> = Vec::new();
        let mut i: usize = 0;
        while i < input.len()
            invariant
                i <= input.len(),
                v.len() == i,
                forall|j: int| 0 <= j < i ==> 0 <= #[trigger] input@[j] <= usize::MAX,
                forall|j: int| 0 <= j < i ==> #[trigger] v@[j] == input@[j],
            decreases input.len() - i,
        {
            match index_of_i64(input[i]) {
                None => {
                    return None;
                },
                Some(x) => {
                    v.push(x);
                },
            }
            i += 1;
        }
        Some(v)
    }
}

} // verus!
