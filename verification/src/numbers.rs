use vstd::prelude::*;

use crate::codec::{digit_run, first_of2, is_digit, lemma_first_of2_props};
use crate::errors::Error;

verus! {

use vstd::string::StrSliceExecFns;

// Run numbers are entered on the command line as a single decimal number,
// a comma-separated list, or an inclusive range written `first-last`.
/// The numeric value of a run of decimal digits.
pub open spec fn dec_value(s: Seq<char>) -> nat
    decreases s.len(),
{
    if s.len() == 0 {
        0
    } else {
        (dec_value(s.drop_last()) * 10 + (s.last() as int - '0' as int)) as nat
    }
}

/// A digit prefix never exceeds the whole numeral's value, as long as the
/// remaining characters are digits.
proof fn lemma_dec_value_prefix(s: Seq<char>, j: int)
    requires
        0 <= j <= s.len(),
        forall|k: int| j <= k < s.len() ==> is_digit(#[trigger] s[k]),
    ensures
        dec_value(s.take(j)) <= dec_value(s),
    decreases s.len() - j,
{
    if j < s.len() {
        lemma_dec_value_prefix(s, j + 1);
        assert(s.take(j + 1).drop_last() =~= s.take(j));
        assert(s.take(j + 1).last() == s[j]);
        assert(is_digit(s[j]));
        assert(dec_value(s.take(j)) <= dec_value(s.take(j + 1)));
    } else {
        assert(s.take(j) =~= s);
    }
}

/// Parses a decimal numeral. Succeeds exactly on non-empty digit strings
/// whose value fits in `usize`, and returns that value.
pub fn parse_usize(s: &str) -> (r: Result<usize, Error>)
    ensures
        r matches Ok(n) ==> digit_run(s@) && n == dec_value(s@),
        r is Err <==> !digit_run(s@) || dec_value(s@) > usize::MAX,
        r is Err ==> r == Err::<usize, Error>(Error::InvalidRunNumbers),
{
    let n = s.unicode_len();
    if n == 0 {
        return Err(Error::InvalidRunNumbers);
    }
    let mut acc: usize = 0;
    let mut i: usize = 0;
    while i < n
        invariant
            i <= n,
            n == s@.len(),
            n > 0,
            forall|j: int| 0 <= j < i ==> is_digit(#[trigger] s@[j]),
            acc == dec_value(s@.take(i as int)),
        decreases n - i,
    {
        let c = s.get_char(i);
        if !('0' <= c && c <= '9') {
            return Err(Error::InvalidRunNumbers);
        }
        let d: usize = (c as u32 as usize) - 48;
        proof {
            assert(d == c as nat - '0' as nat);
            assert(s@.take(i + 1).drop_last() =~= s@.take(i as int));
            assert(s@.take(i + 1).last() == s@[i as int]);
        }
        if acc > (usize::MAX - d) / 10 {
            proof {
                assert(dec_value(s@.take(i + 1)) == acc * 10 + d);
                assert(acc * 10 + d > usize::MAX) by (nonlinear_arith)
                    requires
                        acc > (usize::MAX - d) / 10,
                        d <= 9,
                {}
                if digit_run(s@) {
                    lemma_dec_value_prefix(s@, i + 1);
                }
            }
            return Err(Error::InvalidRunNumbers);
        }
        proof {
            assert(acc * 10 + d <= usize::MAX) by (nonlinear_arith)
                requires
                    acc <= (usize::MAX - d) / 10,
                    d <= 9,
            {}
        }
        acc = acc * 10 + d;
        i += 1;
    }
    proof {
        assert(s@.take(n as int) =~= s@);
    }
    Ok(acc)
}

/// The comma-separated segments of a string, split at every comma.
pub open spec fn comma_segments(s: Seq<char>) -> Seq<Seq<char>>
    decreases s.len() via comma_segments_decreases
{
    let p = first_of2(s, ',', ',');
    if p == s.len() {
        seq![s]
    } else {
        seq![s.take(p)] + comma_segments(s.skip(p + 1))
    }
}

#[via_fn]
proof fn comma_segments_decreases(s: Seq<char>) {
    lemma_first_of2_props(s, ',', ',');
}

/// Parses the run numbers to delete: a single number, a comma-separated
/// list, or an inclusive range `first-last` (which must not be reversed).
/// On success the returned list holds the parsed numbers in the order
/// written, a range expanded to its consecutive numbers.
pub fn parse_run_numbers_to_vec(run_numbers: &str) -> (r: Result<Vec<usize>, Error>)
    ensures
        r is Err ==> r == Err::<Vec<usize>, Error>(Error::InvalidRunNumbers) || r == Err::<
            Vec<usize>,
            Error,
        >(Error::Unsupported),
        ({
            let s = run_numbers@;
            let comma = first_of2(s, ',', ',') < s.len();
            let dash = first_of2(s, '-', '-') < s.len();
            if comma {
                &&& (r matches Ok(v) ==> v@.len() == comma_segments(s).len() && forall|k: int|
                    0 <= k < v@.len() ==> digit_run(#[trigger] comma_segments(s)[k]) && v@[k]
                        == dec_value(comma_segments(s)[k]))
                &&& ((forall|k: int|
                    0 <= k < comma_segments(s).len() ==> digit_run(
                        #[trigger] comma_segments(s)[k],
                    ) && dec_value(comma_segments(s)[k]) <= usize::MAX) ==> r is Ok)
            } else if dash {
                let p = first_of2(s, '-', '-');
                let lo = dec_value(s.take(p));
                let hi = dec_value(s.skip(p + 1));
                &&& (r matches Ok(v) ==> {
                    &&& digit_run(s.take(p))
                    &&& digit_run(s.skip(p + 1))
                    &&& lo <= hi
                    &&& v@.len() == hi - lo + 1
                    &&& forall|k: int| 0 <= k < v@.len() ==> #[trigger] v@[k] == lo + k
                })
                &&& (digit_run(s.take(p)) && digit_run(s.skip(p + 1)) && lo <= usize::MAX && hi
                    <= usize::MAX && lo <= hi && !(lo == 0 && hi == usize::MAX) ==> r is Ok)
            } else {
                match r {
                    Ok(v) => digit_run(s) && v@.len() == 1 && v@[0] == dec_value(s),
                    Err(e) => !digit_run(s) || dec_value(s) > usize::MAX,
                }
            }
        }),
{
    let n = run_numbers.unicode_len();
    let comma = crate::codec::check_has(run_numbers, ',');
    if comma {
        let mut out: Vec<usize> = Vec::new();
        let mut rest: &str = run_numbers;
        let ghost s = run_numbers@;
        loop
            invariant_except_break
                s == run_numbers@,
                first_of2(s, ',', ',') < s.len(),
                comma_segments(s) =~= segments_done(s, rest@) + comma_segments(rest@),
                out@.len() == segments_done(s, rest@).len(),
                forall|k: int|
                    0 <= k < out@.len() ==> digit_run(
                        #[trigger] segments_done(s, rest@)[k],
                    ) && out@[k] == dec_value(segments_done(s, rest@)[k]),
            ensures
                out@.len() == comma_segments(s).len(),
                forall|k: int|
                    0 <= k < out@.len() ==> digit_run(#[trigger] comma_segments(s)[k]) && out@[k]
                        == dec_value(comma_segments(s)[k]),
            decreases rest@.len(),
        {
            let p = crate::codec::find_first(rest, ',');
            proof {
                lemma_first_of2_props(rest@, ',', ',');
            }
            let rn = rest.unicode_len();
            if p == rn {
                let last_value = match parse_usize(rest) {
                    Ok(v) => v,
                    Err(e) => {
                        proof {
                            let idx = out@.len() as int;
                            assert(comma_segments(rest@) =~= seq![rest@]);
                            assert(comma_segments(s)[idx] == rest@);
                        }
                        return Err(e);
                    },
                };
                out.push(last_value);
                proof {
                    assert(comma_segments(rest@) =~= seq![rest@]);
                    assert(comma_segments(s) =~= segments_done(s, rest@).push(rest@));
                }
                break;
            } else {
                let seg = rest.substring_char(0, p);
                let value = match parse_usize(seg) {
                    Ok(v) => v,
                    Err(e) => {
                        proof {
                            let idx = out@.len() as int;
                            assert(seg@ =~= rest@.take(p as int));
                            assert(comma_segments(rest@)[0] == rest@.take(p as int));
                            assert(comma_segments(s)[idx] == rest@.take(p as int));
                        }
                        return Err(e);
                    },
                };
                out.push(value);
                let next = rest.substring_char(p + 1, rn);
                proof {
                    assert(seg@ =~= rest@.take(p as int));
                    assert(next@ =~= rest@.skip(p + 1));
                    assert(comma_segments(rest@) =~= seq![rest@.take(p as int)]
                        + comma_segments(rest@.skip(p + 1)));
                    assert(segments_done(s, next@) =~= segments_done(s, rest@).push(
                        rest@.take(p as int),
                    ));
                }
                rest = next;
            }
        }
        Ok(out)
    } else if crate::codec::check_has(run_numbers, '-') {
        let p = crate::codec::find_first(run_numbers, '-');
        proof {
            lemma_first_of2_props(run_numbers@, '-', '-');
        }
        let first_text = run_numbers.substring_char(0, p);
        let last_text = run_numbers.substring_char(p + 1, n);
        proof {
            assert(first_text@ =~= run_numbers@.take(p as int));
            assert(last_text@ =~= run_numbers@.skip(p + 1));
        }
        let first = match parse_usize(first_text) {
            Ok(v) => v,
            Err(e) => {
                return Err(e);
            },
        };
        let last_inclusive = match parse_usize(last_text) {
            Ok(v) => v,
            Err(e) => {
                return Err(e);
            },
        };
        if last_inclusive < first {
            return Err(Error::InvalidRunNumbers);
        }
        if first == 0 && last_inclusive == usize::MAX {
            return Err(Error::Unsupported);
        }
        let count = last_inclusive - first + 1;
        let mut out: Vec<usize> = Vec::new();
        let mut m: usize = 0;
        while m < count
            invariant
                m <= count,
                count == last_inclusive - first + 1,
                first + count - 1 == last_inclusive,
                out@.len() == m,
                forall|w: int| 0 <= w < out@.len() ==> #[trigger] out@[w] == first + w,
            decreases count - m,
        {
            out.push(first + m);
            m += 1;
        }
        Ok(out)
    } else {
        let single = match parse_usize(run_numbers) {
            Ok(v) => v,
            Err(e) => {
                return Err(e);
            },
        };
        let mut out: Vec<usize> = Vec::new();
        out.push(single);
        Ok(out)
    }
}

/// The segments of `s` already consumed when `rest` remains: all segments
/// but those of `rest`.
pub open spec fn segments_done(s: Seq<char>, rest: Seq<char>) -> Seq<Seq<char>> {
    comma_segments(s).take(comma_segments(s).len() - comma_segments(rest).len())
}

} // verus!
