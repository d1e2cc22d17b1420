use vstd::prelude::*;

use crate::variable::{str_views, VariableValue};

verus! {

// The aggregation of textual measurements: a histogram of the distinct
// values. Numeric aggregates (mean, median, standard deviation) work on
// floating-point numbers and live with the callers.
/// The predicate selecting the occurrences of `x`.
pub open spec fn eq_to(x: Seq<char>) -> spec_fn(Seq<char>) -> bool {
    |y: Seq<char>| y == x
}

/// How often `x` occurs in `s`.
pub open spec fn occurrences(s: Seq<Seq<char>>, x: Seq<char>) -> nat {
    s.filter(eq_to(x)).len()
}

/// The names of a histogram's buckets.
pub open spec fn bucket_names(s: Seq<(String, usize)>) -> Seq<Seq<char>> {
    s.map_values(|p: (String, usize)| p.0@)
}

/// A histogram of string values: one bucket per distinct value, counting
/// its occurrences.
#[derive(Debug)]
pub struct AggregatedStringValue {
    pub histogram: Vec<(String, usize)>,
}

/// Aggregates string values into a histogram: one bucket per distinct
/// value, in order of first appearance, counting its occurrences.
pub fn aggregate_strings(values: &Vec<String>) -> (r: AggregatedStringValue)
    ensures
        bucket_names(r.histogram@).no_duplicates(),
        forall|k: int|
            0 <= k < r.histogram@.len() ==> (#[trigger] r.histogram@[k]).1 == occurrences(
                str_views(values@),
                r.histogram@[k].0@,
            ),
        forall|j: int|
            0 <= j < values@.len() ==> bucket_names(r.histogram@).contains(
                (#[trigger] values@[j])@,
            ),
{
    let ghost s = str_views(values@);
    let mut histogram: Vec<(String, usize)> = Vec::new();
    let mut i: usize = 0;
    while i < values.len()
        invariant
            i <= values@.len(),
            s == str_views(values@),
            bucket_names(histogram@).no_duplicates(),
            forall|k: int|
                0 <= k < histogram@.len() ==> (#[trigger] histogram@[k]).1 == occurrences(
                    s.take(i as int),
                    histogram@[k].0@,
                ) && histogram@[k].1 <= i,
            forall|j: int|
                0 <= j < i ==> bucket_names(histogram@).contains((#[trigger] values@[j])@),
        decreases values@.len() - i,
    {
        proof {
            assert(s[i as int] == values@[i as int]@);
        }
        let mut found: Option<usize> = None;
        let mut k: usize = 0;
        while k < histogram.len()
            invariant
                k <= histogram@.len(),
                i < values@.len(),
                match found {
                    Some(w) => w < histogram@.len() && histogram@[w as int].0@ == values@[
                        i as int]@,
                    None => forall|w: int|
                        0 <= w < k ==> (#[trigger] histogram@[w]).0@ != values@[i as int]@,
                },
            decreases histogram@.len() - k,
        {
            if crate::text::str_eq(histogram[k].0.as_str(), values[i].as_str()) {
                found = Some(k);
            }
            k += 1;
        }
        let ghost pre_hist = histogram@;
        match found {
            Some(w) => {
                let name_copy = histogram[w].0.clone();
                let count = histogram[w].1;
                histogram.set(w, (name_copy, count + 1));
            },
            None => {
                histogram.push((values[i].clone(), 1));
            },
        }
        proof {
            assert(s.take(i + 1).drop_last() =~= s.take(i as int));
            assert(s.take(i + 1).last() == s[i as int]);
            assert(bucket_names(histogram@).no_duplicates()) by {
                assert forall|a: int, b: int|
                    0 <= a < b < bucket_names(histogram@).len() implies bucket_names(histogram@)[a]
                    != bucket_names(histogram@)[b] by {
                    assert(bucket_names(histogram@)[a] == histogram@[a].0@);
                    assert(bucket_names(histogram@)[b] == histogram@[b].0@);
                    if a < pre_hist.len() && b < pre_hist.len() {
                        assert(bucket_names(pre_hist)[a] == pre_hist[a].0@);
                        assert(bucket_names(pre_hist)[b] == pre_hist[b].0@);
                    }
                }
            }
            assert forall|k2: int|
                0 <= k2 < histogram@.len() implies (#[trigger] histogram@[k2]).1 == occurrences(
                s.take(i + 1),
                histogram@[k2].0@,
            ) && histogram@[k2].1 <= i + 1 by {
                crate::sets::lemma_filter_take_step(s, eq_to(histogram@[k2].0@), i as int);
                match found {
                    Some(w) => {
                        assert(pre_hist[w as int].0@ == s[i as int]);
                        assert(pre_hist[k2].1 == occurrences(s.take(i as int), pre_hist[k2].0@));
                        if k2 == w {
                            assert(histogram@[k2].0@ == pre_hist[w as int].0@);
                            assert(histogram@[k2].1 == pre_hist[w as int].1 + 1);
                        } else {
                            assert(histogram@[k2] == pre_hist[k2]);
                            assert(bucket_names(pre_hist)[k2] == pre_hist[k2].0@);
                            assert(bucket_names(pre_hist)[w as int] == pre_hist[w as int].0@);
                            assert(histogram@[k2].0@ != s[i as int]);
                        }
                    },
                    None => {
                        if k2 < pre_hist.len() {
                            assert(histogram@[k2] == pre_hist[k2]);
                            assert(histogram@[k2].0@ != s[i as int]) by {
                                assert(bucket_names(pre_hist)[k2] == pre_hist[k2].0@);
                            }
                        } else {
                            // a new bucket: the value never occurred before
                            assert(histogram@[k2].0@ == s[i as int]);
                            assert forall|j: int|
                                0 <= j < s.take(i as int).len() implies !eq_to(
                                histogram@[k2].0@,
                            )(#[trigger] s.take(i as int)[j]) by {
                                assert(s.take(i as int)[j] == s[j]);
                                assert(s[j] == values@[j]@);
                                assert(bucket_names(pre_hist).contains(values@[j]@));
                                let w = choose|w: int|
                                    0 <= w < bucket_names(pre_hist).len() && bucket_names(
                                        pre_hist,
                                    )[w] == values@[j]@;
                                assert(bucket_names(pre_hist)[w] == pre_hist[w].0@);
                            }
                            crate::sets::lemma_filter_none(
                                s.take(i as int),
                                eq_to(histogram@[k2].0@),
                            );
                        }
                    },
                }
            }
            assert forall|j: int|
                0 <= j < i + 1 implies bucket_names(histogram@).contains(
                (#[trigger] values@[j])@,
            ) by {
                if j < i {
                    let w = choose|w: int|
                        0 <= w < bucket_names(pre_hist).len() && bucket_names(pre_hist)[w]
                            == values@[j]@;
                    assert(bucket_names(pre_hist)[w] == pre_hist[w].0@);
                    assert(bucket_names(histogram@)[w] == histogram@[w].0@);
                } else {
                    match found {
                        Some(w) => {
                            assert(bucket_names(histogram@)[w as int] == histogram@[w as int].0@);
                        },
                        None => {
                            assert(bucket_names(histogram@)[histogram@.len() - 1]
                                == histogram@[histogram@.len() - 1].0@);
                        },
                    }
                }
            }
        }
        i += 1;
    }
    proof {
        assert(s.take(s.len() as int) =~= s);
        assert(s.len() == values@.len());
    }
    AggregatedStringValue { histogram }
}

/// A variable value reduced to plain text, as handed to the serializing
/// renderers.
#[derive(Debug)]
pub struct SerializableVariableValue {
    pub name: String,
    pub value: String,
}

impl SerializableVariableValue {
    /// Reduces a variable value to its name and its serialized text.
    pub fn from_variable_value(value: &VariableValue) -> (r: SerializableVariableValue)
        ensures
            r.name@ == value.variable.name@,
            r.value@ == value.value@.1,
    {
        SerializableVariableValue {
            name: value.variable.name.clone(),
            value: value.value.to_text(),
        }
    }
}

} // verus!
