use vstd::prelude::*;

use crate::experiment::{ExperimentInstance, ExperimentVersion};
use crate::store::{
    meas_of, pairs_cover, row_ids, row_of, run_row_ids, value_pairs, version_row_ids, meas_pairs,
    InstanceRow, InValueRow, MeasurementRow, RunRow, Store,
};
use crate::variable::str_views;

verus! {

use vstd::seq_lib::*;

// The Cascade Deleter: removing an experiment, a version or an instance
// removes every dependent row with it, bottom-up (measurements, runs,
// values, instances, versions, experiment), leaving no row that references
// a deleted id. The variable catalog is never touched: variables are
// shared between experiments.
/// The complement of a predicate.
pub open spec fn keep_not<T>(p: spec_fn(T) -> bool) -> spec_fn(T) -> bool {
    |x: T| !p(x)
}

/// The predicate keeping the strings that differ from `name`.
pub open spec fn str_not(name: Seq<char>) -> spec_fn(String) -> bool {
    |s: String| s@ != name
}

/// The predicate keeping the versions not called `name`.
pub open spec fn version_not_named(name: Seq<char>) -> spec_fn(ExperimentVersion) -> bool {
    |v: ExperimentVersion| v.name@ != name
}

/// The predicate keeping the versions whose id differs from `vid`.
pub open spec fn version_not_id(vid: Seq<char>) -> spec_fn(ExperimentVersion) -> bool {
    |v: ExperimentVersion| v.id@ != vid
}

/// The predicate keeping the instances of experiments other than `name`.
pub open spec fn instance_not_named(name: Seq<char>) -> spec_fn(InstanceRow) -> bool {
    |r: InstanceRow| r.ex_name@ != name
}

/// The predicate keeping the instances of versions other than `vid`.
pub open spec fn instance_not_of_version(vid: Seq<char>) -> spec_fn(InstanceRow) -> bool {
    |r: InstanceRow| r.version_id@ != vid
}

/// The predicate keeping the instances whose id differs from `iid`.
pub open spec fn instance_not_id(iid: Seq<char>) -> spec_fn(InstanceRow) -> bool {
    |r: InstanceRow| r.id@ != iid
}

/// The predicate keeping the value rows whose instance is not in `ids`.
pub open spec fn value_row_kept(ids: Seq<Seq<char>>) -> spec_fn(InValueRow) -> bool {
    |r: InValueRow| !ids.contains(r.instance_id@)
}

/// The predicate keeping the run rows whose instance is not in `ids`.
pub open spec fn run_row_kept(ids: Seq<Seq<char>>) -> spec_fn(RunRow) -> bool {
    |r: RunRow| !ids.contains(r.instance_id@)
}

/// The predicate keeping the measurement rows whose run is not in `ids`.
pub open spec fn meas_row_kept(ids: Seq<Seq<char>>) -> spec_fn(MeasurementRow) -> bool {
    |r: MeasurementRow| !ids.contains(r.run_id@)
}

/// The predicate selecting the value rows whose instance is in `ids`.
pub open spec fn value_row_of(ids: Seq<Seq<char>>) -> spec_fn(InValueRow) -> bool {
    |r: InValueRow| ids.contains(r.instance_id@)
}

/// The predicate selecting the run rows whose instance is in `ids`.
pub open spec fn run_row_of(ids: Seq<Seq<char>>) -> spec_fn(RunRow) -> bool {
    |r: RunRow| ids.contains(r.instance_id@)
}

/// The predicate selecting the measurement rows whose run is in `ids`.
pub open spec fn meas_row_of(ids: Seq<Seq<char>>) -> spec_fn(MeasurementRow) -> bool {
    |r: MeasurementRow| ids.contains(r.run_id@)
}

/// Filtering preserves pairwise distinctness of any projection.
pub proof fn lemma_filter_preserves_map_no_dup<T, B>(
    s: Seq<T>,
    pred: spec_fn(T) -> bool,
    f: spec_fn(T) -> B,
)
    requires
        s.map_values(f).no_duplicates(),
    ensures
        s.filter(pred).map_values(f).no_duplicates(),
    decreases s.len(),
{
    reveal(Seq::filter);
    if s.len() > 0 {
        let d = s.drop_last();
        assert(d.map_values(f).no_duplicates()) by {
            assert forall|i: int, j: int|
                0 <= i < d.len() && 0 <= j < d.len() && i != j implies d.map_values(f)[i]
                != d.map_values(f)[j] by {
                assert(s.map_values(f)[i] == f(s[i]));
                assert(s.map_values(f)[j] == f(s[j]));
                assert(d.map_values(f)[i] == f(d[i]));
                assert(d.map_values(f)[j] == f(d[j]));
            }
        }
        lemma_filter_preserves_map_no_dup(d, pred, f);
        if pred(s.last()) {
            let fd = d.filter(pred);
            assert(s.filter(pred) == fd.push(s.last()));
            assert forall|i: int|
                0 <= i < fd.len() implies fd.map_values(f)[i] != f(s.last()) by {
                assert(fd.map_values(f)[i] == f(fd[i]));
                assert(fd.contains(fd[i]));
                crate::sets::lemma_filter_membership(d, pred, fd[i]);
                let w = choose|w: int| 0 <= w < d.len() && d[w] == fd[i];
                assert(s.map_values(f)[w] == f(s[w]));
                assert(s.map_values(f)[s.len() - 1] == f(s.last()));
            }
            assert forall|i: int, j: int|
                0 <= i < s.filter(pred).map_values(f).len() && 0 <= j < s.filter(pred).map_values(
                    f,
                ).len() && i != j implies s.filter(pred).map_values(f)[i] != s.filter(
                pred,
            ).map_values(f)[j] by {
                assert(s.filter(pred).map_values(f)[i] == f(s.filter(pred)[i]));
                assert(s.filter(pred).map_values(f)[j] == f(s.filter(pred)[j]));
                if i < fd.len() {
                    assert(fd.map_values(f)[i] == f(fd[i]));
                }
                if j < fd.len() {
                    assert(fd.map_values(f)[j] == f(fd[j]));
                }
            }
        }
    }
}

/// Filtering by a finer predicate subsumes filtering by a coarser one.
pub proof fn lemma_filter_subsumed<T>(s: Seq<T>, p: spec_fn(T) -> bool, q: spec_fn(T) -> bool)
    requires
        forall|i: int| 0 <= i < s.len() && q(#[trigger] s[i]) ==> p(s[i]),
    ensures
        s.filter(p).filter(q) == s.filter(q),
    decreases s.len(),
{
    reveal(Seq::filter);
    if s.len() > 0 {
        let d = s.drop_last();
        assert forall|i: int| 0 <= i < d.len() && q(#[trigger] d[i]) implies p(d[i]) by {
            assert(d[i] == s[i]);
        }
        lemma_filter_subsumed(d, p, q);
        if p(s.last()) {
            assert(s.filter(p) == d.filter(p).push(s.last()));
            if q(s.last()) {
                assert(d.filter(p).push(s.last()).drop_last() =~= d.filter(p));
                assert(s.filter(p).filter(q) == d.filter(p).filter(q).push(s.last()));
            } else {
                assert(d.filter(p).push(s.last()).drop_last() =~= d.filter(p));
                assert(s.filter(p).filter(q) == d.filter(p).filter(q));
            }
        } else {
            assert(s.filter(p) == d.filter(p));
            assert(!q(s.last()));
            assert(s.filter(q) == d.filter(q));
        }
    }
}

/// Predicates that agree on a sequence's elements filter it identically.
pub proof fn lemma_filter_equiv<T>(s: Seq<T>, p: spec_fn(T) -> bool, q: spec_fn(T) -> bool)
    requires
        forall|i: int| 0 <= i < s.len() ==> (p(#[trigger] s[i]) <==> q(s[i])),
    ensures
        s.filter(p) == s.filter(q),
    decreases s.len(),
{
    reveal(Seq::filter);
    if s.len() > 0 {
        let d = s.drop_last();
        assert forall|i: int| 0 <= i < d.len() implies (p(#[trigger] d[i]) <==> q(d[i])) by {
            assert(d[i] == s[i]);
        }
        lemma_filter_equiv(d, p, q);
        assert(p(s.last()) <==> q(s.last())) by {
            assert(s[s.len() - 1] == s.last());
        }
    }
}

/// When a projection is injective over a sequence, an image value lands in
/// the kept part exactly when it does not land in the removed part.
pub proof fn lemma_filter_ids_partition<T>(
    s: Seq<T>,
    pred: spec_fn(T) -> bool,
    f: spec_fn(T) -> Seq<char>,
    x: Seq<char>,
)
    requires
        s.map_values(f).no_duplicates(),
        s.map_values(f).contains(x),
    ensures
        s.filter(pred).map_values(f).contains(x) <==> !s.filter(keep_not(pred)).map_values(
            f,
        ).contains(x),
{
    let i = choose|i: int| 0 <= i < s.map_values(f).len() && s.map_values(f)[i] == x;
    assert(s.map_values(f)[i] == f(s[i]));
    if pred(s[i]) {
        crate::sets::lemma_filter_membership(s, pred, s[i]);
        assert(s.contains(s[i]));
        assert(s.filter(pred).contains(s[i]));
        let k = choose|k: int| 0 <= k < s.filter(pred).len() && s.filter(pred)[k] == s[i];
        assert(s.filter(pred).map_values(f)[k] == x);
        if s.filter(keep_not(pred)).map_values(f).contains(x) {
            let k2 = choose|k2: int|
                0 <= k2 < s.filter(keep_not(pred)).map_values(f).len() && s.filter(
                    keep_not(pred),
                ).map_values(f)[k2] == x;
            let r2 = s.filter(keep_not(pred))[k2];
            assert(s.filter(keep_not(pred)).map_values(f)[k2] == f(r2));
            assert(s.filter(keep_not(pred)).contains(r2));
            crate::sets::lemma_filter_membership(s, keep_not(pred), r2);
            let w = choose|w: int| 0 <= w < s.len() && s[w] == r2;
            assert(s.map_values(f)[w] == f(s[w]));
            assert(!pred(r2));
            assert(w != i);
            assert(s.map_values(f)[w] != s.map_values(f)[i]);
            assert(false);
        }
    } else {
        crate::sets::lemma_filter_membership(s, keep_not(pred), s[i]);
        assert(s.contains(s[i]));
        assert(s.filter(keep_not(pred)).contains(s[i]));
        let k = choose|k: int|
            0 <= k < s.filter(keep_not(pred)).len() && s.filter(keep_not(pred))[k] == s[i];
        assert(s.filter(keep_not(pred)).map_values(f)[k] == x);
        if s.filter(pred).map_values(f).contains(x) {
            let k2 = choose|k2: int|
                0 <= k2 < s.filter(pred).map_values(f).len() && s.filter(pred).map_values(f)[k2]
                    == x;
            let r2 = s.filter(pred)[k2];
            assert(s.filter(pred).map_values(f)[k2] == f(r2));
            assert(s.filter(pred).contains(r2));
            crate::sets::lemma_filter_membership(s, pred, r2);
            let w = choose|w: int| 0 <= w < s.len() && s[w] == r2;
            assert(s.map_values(f)[w] == f(s[w]));
            assert(pred(r2));
            assert(w != i);
            assert(s.map_values(f)[w] != s.map_values(f)[i]);
            assert(false);
        }
    }
}

/// Keeps the rows that the comparer accepts against `key`, in order, and
/// returns the removed rows, in order.
pub(crate) fn retain_rows<T, K>(
    v: &mut Vec<T>,
    key: &K,
    keep: impl Fn(&T, &K) -> bool,
    Ghost(pred): Ghost<spec_fn(T) -> bool>,
) -> (removed: Vec<T>)
    requires
        forall|x: T| #[trigger] call_requires(keep, (&x, key)),
        forall|x: T, b: bool| #[trigger] call_ensures(keep, (&x, key), b) ==> b == pred(x),
    ensures
        final(v)@ == old(v)@.filter(pred),
        removed@ == old(v)@.filter(keep_not(pred)),
{
    let mut removed: Vec<T> = Vec::new();
    let mut i: usize = 0;
    while i < v.len()
        invariant
            forall|x: T| #[trigger] call_requires(keep, (&x, key)),
            forall|x: T, b: bool| #[trigger] call_ensures(keep, (&x, key), b) ==> b == pred(x),
            i + removed@.len() <= old(v)@.len(),
            i <= v@.len(),
            v@ =~= old(v)@.take(i + removed@.len() as int).filter(pred) + old(v)@.skip(
                i + removed@.len() as int,
            ),
            i == old(v)@.take(i + removed@.len() as int).filter(pred).len(),
            removed@ =~= old(v)@.take(i + removed@.len() as int).filter(keep_not(pred)),
        decreases v@.len() - i,
    {
        let ghost j = i + removed@.len() as int;
        proof {
            crate::sets::lemma_filter_take_step(old(v)@, pred, j);
            crate::sets::lemma_filter_take_step(old(v)@, keep_not(pred), j);
            assert(v@[i as int] == old(v)@[j]);
        }
        let keep_it = keep(&v[i], key);
        if keep_it {
            proof {
                assert(old(v)@.take(j + 1).filter(pred) == old(v)@.take(j).filter(pred).push(
                    old(v)@[j],
                ));
                assert(v@ =~= old(v)@.take(j + 1).filter(pred) + old(v)@.skip(j + 1));
            }
            i += 1;
        } else {
            let row = v.remove(i);
            removed.push(row);
            proof {
                assert(v@ =~= old(v)@.take(j + 1).filter(pred) + old(v)@.skip(j + 1));
                assert(removed@ =~= old(v)@.take(j + 1).filter(keep_not(pred)));
            }
        }
    }
    proof {
        let j = i + removed@.len() as int;
        assert(j == old(v)@.len()) by {
            assert(old(v)@.skip(j).len() == v@.len() - i);
        }
        assert(old(v)@.take(j) =~= old(v)@);
        assert(v@ =~= old(v)@.filter(pred));
        assert(removed@ =~= old(v)@.filter(keep_not(pred)));
    }
    removed
}

/// Does the instance row belong to an experiment other than `name`?
fn instance_keeps_name(r: &InstanceRow, name: &String) -> (b: bool)
    ensures
        b == (r.ex_name@ != name@),
{
    !crate::text::str_eq(r.ex_name.as_str(), name.as_str())
}

/// Does the instance row belong to a version other than `vid`?
fn instance_keeps_version(r: &InstanceRow, vid: &String) -> (b: bool)
    ensures
        b == (r.version_id@ != vid@),
{
    !crate::text::str_eq(r.version_id.as_str(), vid.as_str())
}

/// Does the instance row have an id other than `iid`?
fn instance_keeps_id(r: &InstanceRow, iid: &String) -> (b: bool)
    ensures
        b == (r.id@ != iid@),
{
    !crate::text::str_eq(r.id.as_str(), iid.as_str())
}

/// Does the value row belong to an instance outside `ids`?
fn value_row_not_in(r: &InValueRow, ids: &Vec<String>) -> (b: bool)
    ensures
        b == !str_views(ids@).contains(r.instance_id@),
{
    !crate::experiment::contains_string(ids, &r.instance_id)
}

/// Does the run row belong to an instance outside `ids`?
fn run_row_not_in(r: &RunRow, ids: &Vec<String>) -> (b: bool)
    ensures
        b == !str_views(ids@).contains(r.instance_id@),
{
    !crate::experiment::contains_string(ids, &r.instance_id)
}

/// Does the measurement row belong to a run outside `ids`?
fn meas_row_not_in(r: &MeasurementRow, ids: &Vec<String>) -> (b: bool)
    ensures
        b == !str_views(ids@).contains(r.run_id@),
{
    !crate::experiment::contains_string(ids, &r.run_id)
}

/// Is the version called something other than `name`?
fn version_keeps_name(v: &ExperimentVersion, name: &String) -> (b: bool)
    ensures
        b == (v.name@ != name@),
{
    !crate::text::str_eq(v.name.as_str(), name.as_str())
}

/// Does the version have an id other than `vid`?
fn version_keeps_id(v: &ExperimentVersion, vid: &String) -> (b: bool)
    ensures
        b == (v.id@ != vid@),
{
    !crate::text::str_eq(v.id.as_str(), vid.as_str())
}

/// Do the two strings differ?
fn string_differs(x: &String, name: &String) -> (b: bool)
    ensures
        b == (x@ != name@),
{
    !crate::text::str_eq(x.as_str(), name.as_str())
}

/// The ids of the given instance rows.
fn instance_rows_ids(rows: &Vec<InstanceRow>) -> (r: Vec<String>)
    ensures
        str_views(r@) == row_ids(rows@),
{
    let mut out: Vec<String> = Vec::new();
    let mut i: usize = 0;
    while i < rows.len()
        invariant
            i <= rows@.len(),
            out@.len() == i,
            forall|k: int| 0 <= k < i ==> (#[trigger] out@[k])@ == rows@[k].id@,
        decreases rows@.len() - i,
    {
        out.push(rows[i].id.clone());
        i += 1;
    }
    proof {
        assert forall|k: int|
            0 <= k < out@.len() implies str_views(out@)[k] == row_ids(rows@)[k] by {
            assert(str_views(out@)[k] == out@[k]@);
            assert(row_ids(rows@)[k] == rows@[k].id@);
        }
        assert(str_views(out@) =~= row_ids(rows@));
    }
    out
}

/// The ids of the given run rows.
fn run_rows_ids(rows: &Vec<RunRow>) -> (r: Vec<String>)
    ensures
        str_views(r@) == run_row_ids(rows@),
{
    let mut out: Vec<String> = Vec::new();
    let mut i: usize = 0;
    while i < rows.len()
        invariant
            i <= rows@.len(),
            out@.len() == i,
            forall|k: int| 0 <= k < i ==> (#[trigger] out@[k])@ == rows@[k].id@,
        decreases rows@.len() - i,
    {
        out.push(rows[i].id.clone());
        i += 1;
    }
    proof {
        assert forall|k: int|
            0 <= k < out@.len() implies str_views(out@)[k] == run_row_ids(rows@)[k] by {
            assert(str_views(out@)[k] == out@[k]@);
            assert(run_row_ids(rows@)[k] == rows@[k].id@);
        }
        assert(str_views(out@) =~= run_row_ids(rows@));
    }
    out
}

/// A cascade that keeps a consistent store consistent: versions and
/// instances are filtered so that every kept instance's version is kept,
/// value and run rows follow their instance, measurement rows follow
/// their run, and every kept version's experiment name stays registered.
pub proof fn lemma_cascade_wf(
    pre: Store,
    post: Store,
    keep_v: spec_fn(ExperimentVersion) -> bool,
    keep_i: spec_fn(InstanceRow) -> bool,
)
    requires
        pre.wf(),
        post.variables == pre.variables,
        post.versions@ == pre.versions@.filter(keep_v),
        post.instances@ == pre.instances@.filter(keep_i),
        forall|r: InstanceRow, j: int|
            #![trigger keep_i(r), pre.versions@[j]]
            0 <= j < pre.versions@.len() && pre.instances@.contains(r) && keep_i(r)
                && pre.versions@[j].id@ == r.version_id@ ==> keep_v(pre.versions@[j]),
        post.in_values@ == pre.in_values@.filter(value_row_of(row_ids(post.instances@))),
        post.runs@ == pre.runs@.filter(run_row_of(row_ids(post.instances@))),
        post.measurements@ == pre.measurements@.filter(meas_row_of(run_row_ids(post.runs@))),
        str_views(post.experiments@).no_duplicates(),
        forall|j: int|
            0 <= j < post.versions@.len() ==> str_views(post.experiments@).contains(
                (#[trigger] post.versions@[j]).name@,
            ),
    ensures
        post.wf(),
{
    lemma_filter_preserves_map_no_dup(
        pre.versions@,
        keep_v,
        |v: ExperimentVersion| v.id@,
    );
    lemma_filter_preserves_map_no_dup(pre.instances@, keep_i, |r: InstanceRow| r.id@);
    lemma_filter_preserves_map_no_dup(
        pre.runs@,
        run_row_of(row_ids(post.instances@)),
        |r: RunRow| r.id@,
    );
    // kept versions stay consistent
    assert forall|i: int|
        0 <= i < post.versions@.len() implies post.version_ok(#[trigger] post.versions@[i]) by {
        crate::sets::lemma_filter_membership(pre.versions@, keep_v, post.versions@[i]);
        assert(post.versions@.contains(post.versions@[i]));
        let w = choose|w: int| 0 <= w < pre.versions@.len() && pre.versions@[w] == post.versions@[i];
        assert(pre.version_ok(pre.versions@[w]));
    }
    // kept instances keep their version and their value rows
    assert forall|i: int|
        0 <= i < post.instances@.len() implies post.instance_ok(#[trigger] post.instances@[i]) by {
        let r = post.instances@[i];
        assert(post.instances@.contains(r));
        crate::sets::lemma_filter_membership(pre.instances@, keep_i, r);
        assert(pre.instances@.contains(r));
        let wi = choose|wi: int| 0 <= wi < pre.instances@.len() && pre.instances@[wi] == r;
        assert(pre.instance_ok(r));
        let j = choose|j: int|
            0 <= j < pre.versions@.len() && (#[trigger] pre.versions@[j]).id@ == r.version_id@
                && pre.versions@[j].name@ == r.ex_name@ && pairs_cover(
                value_pairs(pre.rows_of_instance(r.id@)),
                pre.versions@[j].input_variables@,
            );
        assert(keep_v(pre.versions@[j]));
        crate::sets::lemma_filter_membership(pre.versions@, keep_v, pre.versions@[j]);
        assert(post.versions@.contains(pre.versions@[j]));
        let j2 = choose|j2: int|
            0 <= j2 < post.versions@.len() && post.versions@[j2] == pre.versions@[j];
        assert(row_ids(post.instances@)[i] == r.id@);
        assert(row_ids(post.instances@).contains(r.id@));
        assert(post.rows_of_instance(r.id@) == pre.rows_of_instance(r.id@)) by {
            lemma_filter_subsumed(
                pre.in_values@,
                value_row_of(row_ids(post.instances@)),
                row_of(r.id@),
            );
        }
        assert(0 <= j2 < post.versions@.len() && post.versions@[j2].id@ == r.version_id@
            && post.versions@[j2].name@ == r.ex_name@ && pairs_cover(
            value_pairs(post.rows_of_instance(r.id@)),
            post.versions@[j2].input_variables@,
        ));
    }
    // kept runs keep their instance and their measurement rows
    assert forall|i: int|
        0 <= i < post.runs@.len() implies post.run_ok(#[trigger] post.runs@[i]) by {
        let r = post.runs@[i];
        assert(post.runs@.contains(r));
        crate::sets::lemma_filter_membership(
            pre.runs@,
            run_row_of(row_ids(post.instances@)),
            r,
        );
        assert(pre.runs@.contains(r));
        assert(row_ids(post.instances@).contains(r.instance_id@));
        let wi = choose|wi: int|
            0 <= wi < row_ids(post.instances@).len() && row_ids(post.instances@)[wi]
                == r.instance_id@;
        assert(row_ids(post.instances@)[wi] == post.instances@[wi].id@);
        assert(pre.run_ok(r));
        let (a, b) = choose|a: int, b: int|
            0 <= a < pre.instances@.len() && 0 <= b < pre.versions@.len()
                && (#[trigger] pre.instances@[a]).id@ == r.instance_id@
                && (#[trigger] pre.versions@[b]).id@ == pre.instances@[a].version_id@
                && pairs_cover(
                meas_pairs(pre.meas_of_run(r.id@)),
                pre.versions@[b].output_variables@,
            );
        // the instance with that id survives; by uniqueness it is the same row
        crate::sets::lemma_filter_membership(
            pre.instances@,
            keep_i,
            post.instances@[wi],
        );
        assert(pre.instances@.contains(post.instances@[wi]));
        let a2 = choose|a2: int|
            0 <= a2 < pre.instances@.len() && pre.instances@[a2] == post.instances@[wi];
        assert(pre.instance_ids()[a] == pre.instances@[a].id@);
        assert(pre.instance_ids()[a2] == pre.instances@[a2].id@);
        if a != a2 {
            assert(pre.instance_ids()[a] != pre.instance_ids()[a2]);
        }
        assert(pre.instances@[a] == post.instances@[wi]);
        // its version survives as well
        assert(keep_i(pre.instances@[a]));
        assert(keep_v(pre.versions@[b]));
        crate::sets::lemma_filter_membership(pre.versions@, keep_v, pre.versions@[b]);
        assert(post.versions@.contains(pre.versions@[b]));
        let b2 = choose|b2: int|
            0 <= b2 < post.versions@.len() && post.versions@[b2] == pre.versions@[b];
        assert(run_row_ids(post.runs@)[i] == r.id@);
        assert(run_row_ids(post.runs@).contains(r.id@));
        assert(post.meas_of_run(r.id@) == pre.meas_of_run(r.id@)) by {
            lemma_filter_subsumed(
                pre.measurements@,
                meas_row_of(run_row_ids(post.runs@)),
                meas_of(r.id@),
            );
        }
        assert(0 <= wi < post.instances@.len() && 0 <= b2 < post.versions@.len()
            && post.instances@[wi].id@ == r.instance_id@ && post.versions@[b2].id@
            == post.instances@[wi].version_id@ && pairs_cover(
            meas_pairs(post.meas_of_run(r.id@)),
            post.versions@[b2].output_variables@,
        ));
    }
    // value rows name kept instances, measurement rows name kept runs
    assert forall|i: int|
        0 <= i < post.in_values@.len() implies post.instance_ids().contains(
        (#[trigger] post.in_values@[i]).instance_id@,
    ) by {
        assert(post.in_values@.contains(post.in_values@[i]));
        crate::sets::lemma_filter_membership(
            pre.in_values@,
            value_row_of(row_ids(post.instances@)),
            post.in_values@[i],
        );
    }
    assert forall|i: int|
        0 <= i < post.measurements@.len() implies post.run_ids().contains(
        (#[trigger] post.measurements@[i]).run_id@,
    ) by {
        assert(post.measurements@.contains(post.measurements@[i]));
        crate::sets::lemma_filter_membership(
            pre.measurements@,
            meas_row_of(run_row_ids(post.runs@)),
            post.measurements@[i],
        );
    }
}

/// The predicate keeping every version.
pub open spec fn version_any() -> spec_fn(ExperimentVersion) -> bool {
    |v: ExperimentVersion| true
}

/// In a consistent store, keeping the value and run rows whose instance
/// was not removed is the same as keeping those whose instance survives.
proof fn lemma_children_filters(pre: Store, keep_i: spec_fn(InstanceRow) -> bool)
    requires
        pre.wf(),
    ensures
        pre.in_values@.filter(
            value_row_kept(row_ids(pre.instances@.filter(keep_not(keep_i)))),
        ) == pre.in_values@.filter(value_row_of(row_ids(pre.instances@.filter(keep_i)))),
        pre.runs@.filter(run_row_kept(row_ids(pre.instances@.filter(keep_not(keep_i)))))
            == pre.runs@.filter(run_row_of(row_ids(pre.instances@.filter(keep_i)))),
        forall|i: int|
            0 <= i < pre.runs@.len() ==> (run_row_kept(
                row_ids(pre.instances@.filter(keep_not(keep_i))),
            )(#[trigger] pre.runs@[i]) <==> run_row_of(
                row_ids(pre.instances@.filter(keep_i)),
            )(pre.runs@[i])),
{
    let f0 = |r: InstanceRow| r.id@;
    let kept = pre.instances@.filter(keep_i);
    let gone = pre.instances@.filter(keep_not(keep_i));
    assert(row_ids(pre.instances@) =~= pre.instances@.map_values(f0));
    assert(row_ids(kept) =~= kept.map_values(f0));
    assert(row_ids(gone) =~= gone.map_values(f0));
    assert(pre.instances@.map_values(f0).no_duplicates());
    assert forall|i: int|
        0 <= i < pre.in_values@.len() implies (value_row_kept(row_ids(gone))(
        #[trigger] pre.in_values@[i],
    ) <==> value_row_of(row_ids(kept))(pre.in_values@[i])) by {
        let x = pre.in_values@[i].instance_id@;
        assert(pre.instance_ids().contains(x));
        assert(pre.instances@.map_values(f0).contains(x));
        lemma_filter_ids_partition(pre.instances@, keep_i, f0, x);
    }
    lemma_filter_equiv(pre.in_values@, value_row_kept(row_ids(gone)), value_row_of(row_ids(kept)));
    assert forall|i: int|
        0 <= i < pre.runs@.len() implies (run_row_kept(row_ids(gone))(#[trigger] pre.runs@[i])
        <==> run_row_of(row_ids(kept))(pre.runs@[i])) by {
        let r = pre.runs@[i];
        let x = r.instance_id@;
        assert(pre.run_ok(r));
        let (a, b) = choose|a: int, b: int|
            0 <= a < pre.instances@.len() && 0 <= b < pre.versions@.len()
                && (#[trigger] pre.instances@[a]).id@ == r.instance_id@
                && (#[trigger] pre.versions@[b]).id@ == pre.instances@[a].version_id@
                && pairs_cover(
                meas_pairs(pre.meas_of_run(r.id@)),
                pre.versions@[b].output_variables@,
            );
        assert(pre.instances@.map_values(f0)[a] == x);
        assert(pre.instances@.map_values(f0).contains(x));
        lemma_filter_ids_partition(pre.instances@, keep_i, f0, x);
    }
    lemma_filter_equiv(pre.runs@, run_row_kept(row_ids(gone)), run_row_of(row_ids(kept)));
}

/// In a consistent store, keeping the measurement rows whose run was not
/// removed is the same as keeping those whose run survives.
proof fn lemma_meas_filter(pre: Store, keep_r: spec_fn(RunRow) -> bool)
    requires
        pre.wf(),
    ensures
        pre.measurements@.filter(
            meas_row_kept(run_row_ids(pre.runs@.filter(keep_not(keep_r)))),
        ) == pre.measurements@.filter(meas_row_of(run_row_ids(pre.runs@.filter(keep_r)))),
{
    let f1 = |r: RunRow| r.id@;
    let kept = pre.runs@.filter(keep_r);
    let gone = pre.runs@.filter(keep_not(keep_r));
    assert(run_row_ids(pre.runs@) =~= pre.runs@.map_values(f1));
    assert(run_row_ids(kept) =~= kept.map_values(f1));
    assert(run_row_ids(gone) =~= gone.map_values(f1));
    assert(pre.runs@.map_values(f1).no_duplicates());
    assert forall|i: int|
        0 <= i < pre.measurements@.len() implies (meas_row_kept(run_row_ids(gone))(
        #[trigger] pre.measurements@[i],
    ) <==> meas_row_of(run_row_ids(kept))(pre.measurements@[i])) by {
        let x = pre.measurements@[i].run_id@;
        assert(pre.run_ids().contains(x));
        assert(pre.runs@.map_values(f1).contains(x));
        lemma_filter_ids_partition(pre.runs@, keep_r, f1, x);
    }
    lemma_filter_equiv(
        pre.measurements@,
        meas_row_kept(run_row_ids(gone)),
        meas_row_of(run_row_ids(kept)),
    );
}

impl Store {
    /// Removes the value rows, run rows and measurement rows of the given
    /// removed instances, bottom-up; the other tables stay as they are.
    fn purge_instance_children(&mut self, removed_instances: &Vec<InstanceRow>)
        ensures
            final(self).in_values@ == old(self).in_values@.filter(
                value_row_kept(row_ids(removed_instances@)),
            ),
            final(self).runs@ == old(self).runs@.filter(
                run_row_kept(row_ids(removed_instances@)),
            ),
            final(self).measurements@ == old(self).measurements@.filter(
                meas_row_kept(
                    run_row_ids(
                        old(self).runs@.filter(
                            keep_not(run_row_kept(row_ids(removed_instances@))),
                        ),
                    ),
                ),
            ),
            final(self).experiments == old(self).experiments,
            final(self).versions == old(self).versions,
            final(self).variables == old(self).variables,
            final(self).instances == old(self).instances,
    {
        let gone_ids = instance_rows_ids(removed_instances);
        let _removed_values = retain_rows(
            &mut self.in_values,
            &gone_ids,
            value_row_not_in,
            Ghost(value_row_kept(str_views(gone_ids@))),
        );
        let removed_runs = retain_rows(
            &mut self.runs,
            &gone_ids,
            run_row_not_in,
            Ghost(run_row_kept(str_views(gone_ids@))),
        );
        let gone_runs = run_rows_ids(&removed_runs);
        let _removed_meas = retain_rows(
            &mut self.measurements,
            &gone_runs,
            meas_row_not_in,
            Ghost(meas_row_kept(str_views(gone_runs@))),
        );
    }

    /// Removes the experiment called `name` together with every version,
    /// instance, run, value row and measurement that belongs to it, in
    /// one pass and bottom-up; the variable catalog is never touched. On
    /// return no row anywhere references a removed id.
    pub fn delete_experiment(&mut self, name: &String)
        requires
            old(self).wf(),
        ensures
            final(self).wf(),
            final(self).experiments@ == old(self).experiments@.filter(str_not(name@)),
            final(self).versions@ == old(self).versions@.filter(version_not_named(name@)),
            final(self).instances@ == old(self).instances@.filter(instance_not_named(name@)),
            final(self).in_values@ == old(self).in_values@.filter(
                value_row_of(row_ids(final(self).instances@)),
            ),
            final(self).runs@ == old(self).runs@.filter(
                run_row_of(row_ids(final(self).instances@)),
            ),
            final(self).measurements@ == old(self).measurements@.filter(
                meas_row_of(run_row_ids(final(self).runs@)),
            ),
            final(self).variables == old(self).variables,
    {
        let ghost pre = *old(self);
        let removed_instances = retain_rows(
            &mut self.instances,
            name,
            instance_keeps_name,
            Ghost(instance_not_named(name@)),
        );
        self.purge_instance_children(&removed_instances);
        let _removed_versions = retain_rows(
            &mut self.versions,
            name,
            version_keeps_name,
            Ghost(version_not_named(name@)),
        );
        let _removed_experiments = retain_rows(
            &mut self.experiments,
            name,
            string_differs,
            Ghost(str_not(name@)),
        );
        proof {
            let post = *self;
            lemma_children_filters(pre, instance_not_named(name@));
            lemma_meas_filter(pre, run_row_kept(row_ids(removed_instances@)));
            assert(post.in_values@ == pre.in_values@.filter(
                value_row_of(row_ids(post.instances@)),
            ));
            assert(post.runs@ == pre.runs@.filter(run_row_of(row_ids(post.instances@))));
            assert(post.measurements@ == pre.measurements@.filter(
                meas_row_of(run_row_ids(post.runs@)),
            )) by {
                lemma_meas_filter(pre, run_row_of(row_ids(post.instances@)));
                assert(pre.runs@.filter(run_row_of(row_ids(post.instances@))) == post.runs@);
                lemma_filter_equiv(
                    pre.runs@,
                    keep_not(run_row_kept(row_ids(removed_instances@))),
                    keep_not(run_row_of(row_ids(post.instances@))),
                );
            }
            // a kept instance's version survives: it bears the instance's
            // experiment name, which is not the deleted one
            assert forall|r: InstanceRow, j: int|
                #![trigger instance_not_named(name@)(r), pre.versions@[j]]
                0 <= j < pre.versions@.len() && pre.instances@.contains(r)
                    && instance_not_named(name@)(r) && pre.versions@[j].id@
                    == r.version_id@ implies version_not_named(name@)(pre.versions@[j]) by {
                let w = choose|w: int| 0 <= w < pre.instances@.len() && pre.instances@[w] == r;
                assert(pre.instance_ok(r));
                let j0 = choose|j0: int|
                    0 <= j0 < pre.versions@.len() && (#[trigger] pre.versions@[j0]).id@
                        == r.version_id@ && pre.versions@[j0].name@ == r.ex_name@ && pairs_cover(
                        value_pairs(pre.rows_of_instance(r.id@)),
                        pre.versions@[j0].input_variables@,
                    );
                assert(pre.version_ids()[j] == pre.versions@[j].id@);
                assert(pre.version_ids()[j0] == pre.versions@[j0].id@);
                if j != j0 {
                    assert(pre.version_ids()[j] != pre.version_ids()[j0]);
                }
            }
            // registered names survive for the kept versions
            crate::delete::lemma_names_survive(pre, post, name@);
            lemma_cascade_wf(pre, post, version_not_named(name@), instance_not_named(name@));
        }
    }
}

impl Store {
    /// Removes one version of an experiment together with every instance,
    /// run, value row and measurement scoped to that version id; sibling
    /// versions, the experiment row and the variable catalog stay.
    pub fn delete_experiment_version(&mut self, experiment_version: &ExperimentVersion)
        requires
            old(self).wf(),
        ensures
            final(self).wf(),
            final(self).experiments == old(self).experiments,
            final(self).versions@ == old(self).versions@.filter(
                version_not_id(experiment_version.id@),
            ),
            final(self).instances@ == old(self).instances@.filter(
                instance_not_of_version(experiment_version.id@),
            ),
            final(self).in_values@ == old(self).in_values@.filter(
                value_row_of(row_ids(final(self).instances@)),
            ),
            final(self).runs@ == old(self).runs@.filter(
                run_row_of(row_ids(final(self).instances@)),
            ),
            final(self).measurements@ == old(self).measurements@.filter(
                meas_row_of(run_row_ids(final(self).runs@)),
            ),
            final(self).variables == old(self).variables,
    {
        let ghost pre = *old(self);
        let vid = &experiment_version.id;
        let removed_instances = retain_rows(
            &mut self.instances,
            vid,
            instance_keeps_version,
            Ghost(instance_not_of_version(experiment_version.id@)),
        );
        self.purge_instance_children(&removed_instances);
        let _removed_versions = retain_rows(
            &mut self.versions,
            vid,
            version_keeps_id,
            Ghost(version_not_id(experiment_version.id@)),
        );
        proof {
            let post = *self;
            lemma_children_filters(pre, instance_not_of_version(experiment_version.id@));
            assert(post.in_values@ == pre.in_values@.filter(
                value_row_of(row_ids(post.instances@)),
            ));
            assert(post.runs@ == pre.runs@.filter(run_row_of(row_ids(post.instances@))));
            assert(post.measurements@ == pre.measurements@.filter(
                meas_row_of(run_row_ids(post.runs@)),
            )) by {
                lemma_meas_filter(pre, run_row_of(row_ids(post.instances@)));
                assert(pre.runs@.filter(run_row_of(row_ids(post.instances@))) == post.runs@);
                lemma_filter_equiv(
                    pre.runs@,
                    keep_not(run_row_kept(row_ids(removed_instances@))),
                    keep_not(run_row_of(row_ids(post.instances@))),
                );
                lemma_meas_filter(pre, run_row_kept(row_ids(removed_instances@)));
            }
            assert forall|j: int|
                0 <= j < post.versions@.len() implies str_views(post.experiments@).contains(
                (#[trigger] post.versions@[j]).name@,
            ) by {
                crate::sets::lemma_filter_membership(
                    pre.versions@,
                    version_not_id(experiment_version.id@),
                    post.versions@[j],
                );
                assert(pre.versions@.contains(post.versions@[j]));
                let w = choose|w: int|
                    0 <= w < pre.versions@.len() && pre.versions@[w] == post.versions@[j];
                assert(pre.version_ok(pre.versions@[w]));
            }
            lemma_cascade_wf(
                pre,
                post,
                version_not_id(experiment_version.id@),
                instance_not_of_version(experiment_version.id@),
            );
        }
    }

    /// Removes one instance together with every run, value row and
    /// measurement that belongs to it; the version and the experiment stay.
    pub fn delete_experiment_instance(&mut self, experiment_instance: &ExperimentInstance)
        requires
            old(self).wf(),
        ensures
            final(self).wf(),
            final(self).experiments == old(self).experiments,
            final(self).versions == old(self).versions,
            final(self).instances@ == old(self).instances@.filter(
                instance_not_id(experiment_instance.id@),
            ),
            final(self).in_values@ == old(self).in_values@.filter(
                value_row_of(row_ids(final(self).instances@)),
            ),
            final(self).runs@ == old(self).runs@.filter(
                run_row_of(row_ids(final(self).instances@)),
            ),
            final(self).measurements@ == old(self).measurements@.filter(
                meas_row_of(run_row_ids(final(self).runs@)),
            ),
            final(self).variables == old(self).variables,
    {
        let ghost pre = *old(self);
        let removed_instances = retain_rows(
            &mut self.instances,
            &experiment_instance.id,
            instance_keeps_id,
            Ghost(instance_not_id(experiment_instance.id@)),
        );
        self.purge_instance_children(&removed_instances);
        proof {
            let post = *self;
            lemma_children_filters(pre, instance_not_id(experiment_instance.id@));
            assert(post.in_values@ == pre.in_values@.filter(
                value_row_of(row_ids(post.instances@)),
            ));
            assert(post.runs@ == pre.runs@.filter(run_row_of(row_ids(post.instances@))));
            assert(post.measurements@ == pre.measurements@.filter(
                meas_row_of(run_row_ids(post.runs@)),
            )) by {
                lemma_meas_filter(pre, run_row_of(row_ids(post.instances@)));
                assert(pre.runs@.filter(run_row_of(row_ids(post.instances@))) == post.runs@);
                lemma_filter_equiv(
                    pre.runs@,
                    keep_not(run_row_kept(row_ids(removed_instances@))),
                    keep_not(run_row_of(row_ids(post.instances@))),
                );
                lemma_meas_filter(pre, run_row_kept(row_ids(removed_instances@)));
            }
            crate::sets::lemma_filter_all(pre.versions@, version_any());
            assert(post.versions@ == pre.versions@.filter(version_any()));
            assert forall|j: int|
                0 <= j < post.versions@.len() implies str_views(post.experiments@).contains(
                (#[trigger] post.versions@[j]).name@,
            ) by {
                assert(pre.version_ok(pre.versions@[j]));
            }
            lemma_cascade_wf(
                pre,
                post,
                version_any(),
                instance_not_id(experiment_instance.id@),
            );
        }
    }
}

/// The experiment names of versions other than the deleted one stay
/// registered after the experiment row is removed.
proof fn lemma_names_survive(pre: Store, post: Store, name: Seq<char>)
    requires
        pre.wf(),
        post.experiments@ == pre.experiments@.filter(str_not(name)),
        post.versions@ == pre.versions@.filter(version_not_named(name)),
    ensures
        str_views(post.experiments@).no_duplicates(),
        forall|j: int|
            0 <= j < post.versions@.len() ==> str_views(post.experiments@).contains(
                (#[trigger] post.versions@[j]).name@,
            ),
{
    lemma_filter_preserves_map_no_dup(pre.experiments@, str_not(name), |s: String| s@);
    assert(str_views(pre.experiments@) =~= pre.experiments@.map_values(|s: String| s@));
    assert(str_views(post.experiments@) =~= post.experiments@.map_values(|s: String| s@));
    assert(str_views(post.experiments@).no_duplicates()) by {
        assert forall|i: int, j: int|
            0 <= i < str_views(post.experiments@).len() && 0 <= j < str_views(
                post.experiments@,
            ).len() && i != j implies str_views(post.experiments@)[i] != str_views(
            post.experiments@,
        )[j] by {
            assert(post.experiments@.map_values(|s: String| s@)[i] == post.experiments@[i]@);
            assert(post.experiments@.map_values(|s: String| s@)[j] == post.experiments@[j]@);
        }
    }
    assert forall|j: int|
        0 <= j < post.versions@.len() implies str_views(post.experiments@).contains(
        (#[trigger] post.versions@[j]).name@,
    ) by {
        crate::sets::lemma_filter_membership(
            pre.versions@,
            version_not_named(name),
            post.versions@[j],
        );
        assert(pre.versions@.contains(post.versions@[j]));
        let w = choose|w: int|
            0 <= w < pre.versions@.len() && pre.versions@[w] == post.versions@[j];
        assert(pre.version_ok(pre.versions@[w]));
        assert(pre.experiment_names().contains(post.versions@[j].name@));
        let e = choose|e: int|
            0 <= e < pre.experiment_names().len() && pre.experiment_names()[e]
                == post.versions@[j].name@;
        assert(pre.experiment_names()[e] == pre.experiments@[e]@);
        assert(str_not(name)(pre.experiments@[e]));
        crate::sets::lemma_filter_membership(
            pre.experiments@,
            str_not(name),
            pre.experiments@[e],
        );
        assert(post.experiments@.contains(pre.experiments@[e]));
        let e2 = choose|e2: int|
            0 <= e2 < post.experiments@.len() && post.experiments@[e2] == pre.experiments@[e];
        assert(str_views(post.experiments@)[e2] == post.experiments@[e2]@);
    }
}

} // verus!
