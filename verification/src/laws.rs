use vstd::prelude::*;

use crate::delete::{
    instance_not_named, keep_not, meas_row_of, run_row_of, str_not, value_row_of,
    version_not_named,
};
use crate::experiment::{assignment_ok, value_fits, ExperimentVersion};
use crate::store::{
    latest_version_in, lemma_latest_props, row_ids, run_row_ids, value_pairs, version_row_ids,
    InstanceRow, Store,
};
use crate::store::{var_has_pair, vv_pairs};
use crate::variable::{str_views, var_names, var_views, Variable, VariableValue};

verus! {

use vstd::seq_lib::*;

/// Version resolution is idempotent. After a resolution that appended a
/// new version for `name` (which happens exactly when no most recent
/// version matched), under a timestamp no older than any existing version
/// of that name, the appended version is the most recent one of `name`
/// and matches the submitted description exactly. By the contract of
/// `resolve_version`, a second call with byte-identical arguments
/// therefore returns that version's id again and performs no write.
pub proof fn lemma_version_resolution_idempotent(
    pre: Store,
    post: Store,
    nv: ExperimentVersion,
    name: Seq<char>,
    version_tag: Seq<char>,
    description: Seq<char>,
    researchers: Seq<String>,
    input_variables: Seq<Variable>,
    output_variables: Seq<Variable>,
)
    requires
        post.versions@ == pre.versions@.push(nv),
        nv.name@ == name,
        nv.version@ == version_tag,
        nv.description@ == description,
        nv.researchers@ == researchers,
        nv.input_variables@ == input_variables,
        nv.output_variables@ == output_variables,
        forall|i: int|
            0 <= i < pre.versions@.len() && (#[trigger] pre.versions@[i]).name@ == name
                ==> pre.versions@[i].date <= nv.date,
    ensures
        post.latest_version_of(name) == Some(nv),
        post.reuses_latest(
            name,
            version_tag,
            description,
            researchers,
            input_variables,
            output_variables,
        ),
{
    assert(post.versions@.drop_last() =~= pre.versions@);
    assert(post.versions@.last() == nv);
    lemma_latest_props(pre.versions@, name);
    match latest_version_in(pre.versions@, name) {
        Some(p) => {
            let i = choose|i: int| 0 <= i < pre.versions@.len() && pre.versions@[i] == p;
            assert(p.date <= nv.date);
        },
        None => {},
    }
    assert(post.latest_version_of(name) == Some(nv));
    assert(nv.same_build(
        version_tag,
        description,
        researchers,
        input_variables,
        output_variables,
    ));
}

/// Version forking. When the most recent version of `name` does not match
/// the submitted description (a changed description, researcher set,
/// input variable or output variable), the resolver appends a new version
/// under a fresh id: the new id differs from the old version's id, and
/// the old version remains in the store unchanged, still fetchable.
pub proof fn lemma_version_forking(
    pre: Store,
    post: Store,
    nv: ExperimentVersion,
    old_version: ExperimentVersion,
    name: Seq<char>,
)
    requires
        pre.latest_version_of(name) == Some(old_version),
        !pre.version_ids().contains(nv.id@),
        post.versions@ == pre.versions@.push(nv),
    ensures
        nv.id@ != old_version.id@,
        post.versions@.contains(old_version),
{
    lemma_latest_props(pre.versions@, name);
    let i = choose|i: int| 0 <= i < pre.versions@.len() && pre.versions@[i] == old_version;
    assert(pre.version_ids()[i] == old_version.id@);
    assert(post.versions@[i] == old_version);
}

/// Instance deduplication. After a resolution created an instance row for
/// a version and a value assignment that no instance of the version had,
/// the first matching instance for that assignment is the created row.
/// By the contract of `from_experiment_version`, a second resolution with
/// the same version and the same value assignment (in any order: the
/// assignment is compared as a set of (variable, value) pairs) therefore
/// returns the same instance id and writes nothing.
pub proof fn lemma_instance_dedup(
    pre: Store,
    post: Store,
    row: InstanceRow,
    vid: Seq<char>,
    pairs: Set<(Seq<char>, Seq<char>)>,
)
    requires
        pre.matching_instance(vid, pairs) is None,
        post.instances@ == pre.instances@.push(row),
        row.version_id@ == vid,
        value_pairs(post.rows_of_instance(row.id@)).to_set() == pairs,
        !row_ids(pre.instances@).contains(row.id@),
        forall|iid: Seq<char>|
            iid != row.id@ ==> post.rows_of_instance(iid) == pre.rows_of_instance(iid),
    ensures
        post.matching_instance(vid, pairs) == Some(row),
{
    pre.lemma_matching_instance_props(0, vid, pairs);
    assert forall|i: int|
        0 <= i < pre.instances@.len() implies !((#[trigger] post.instances@[i]).version_id@ == vid
        && value_pairs(post.rows_of_instance(post.instances@[i].id@)).to_set() == pairs) by {
        assert(post.instances@[i] == pre.instances@[i]);
        assert(row_ids(pre.instances@)[i] == pre.instances@[i].id@);
        assert(pre.instances@[i].id@ != row.id@);
        assert(post.rows_of_instance(pre.instances@[i].id@) == pre.rows_of_instance(
            pre.instances@[i].id@,
        ));
    }
    assert(post.instances@[post.instances@.len() - 1] == row);
    lemma_matching_reaches(post, 0, pre.instances@.len() as int, vid, pairs);
    assert(post.matching_instance_from(pre.instances@.len() as int, vid, pairs) == Some(row));
}

/// The first-match scan skips every non-matching prefix entry.
proof fn lemma_matching_reaches(
    post: Store,
    k: int,
    upto: int,
    vid: Seq<char>,
    pairs: Set<(Seq<char>, Seq<char>)>,
)
    requires
        0 <= k <= upto <= post.instances@.len(),
        forall|i: int|
            k <= i < upto ==> !((#[trigger] post.instances@[i]).version_id@ == vid && value_pairs(
                post.rows_of_instance(post.instances@[i].id@),
            ).to_set() == pairs),
    ensures
        post.matching_instance_from(k, vid, pairs) == post.matching_instance_from(
            upto,
            vid,
            pairs,
        ),
    decreases upto - k,
{
    if k < upto {
        lemma_matching_reaches(post, k + 1, upto, vid, pairs);
    }
}

/// Cascade completeness. After an experiment is deleted, querying for any
/// version, instance, run, value row or measurement that belonged to it
/// finds nothing: no surviving row carries the deleted name, and every
/// surviving value row, run and measurement still references a surviving
/// instance or run, so no foreign-key-orphaned row remains. Versions of
/// other experiments survive unchanged.
pub proof fn lemma_cascade_completeness(pre: Store, post: Store, name: Seq<char>)
    requires
        pre.wf(),
        post.experiments@ == pre.experiments@.filter(str_not(name)),
        post.versions@ == pre.versions@.filter(version_not_named(name)),
        post.instances@ == pre.instances@.filter(instance_not_named(name)),
        post.in_values@ == pre.in_values@.filter(value_row_of(row_ids(post.instances@))),
        post.runs@ == pre.runs@.filter(run_row_of(row_ids(post.instances@))),
        post.measurements@ == pre.measurements@.filter(meas_row_of(run_row_ids(post.runs@))),
    ensures
        !str_views(post.experiments@).contains(name),
        forall|j: int| 0 <= j < post.versions@.len() ==> (#[trigger] post.versions@[j]).name@ != name,
        forall|j: int|
            0 <= j < post.instances@.len() ==> (#[trigger] post.instances@[j]).ex_name@ != name,
        forall|j: int|
            0 <= j < post.in_values@.len() ==> row_ids(post.instances@).contains(
                (#[trigger] post.in_values@[j]).instance_id@,
            ),
        forall|j: int|
            0 <= j < post.runs@.len() ==> row_ids(post.instances@).contains(
                (#[trigger] post.runs@[j]).instance_id@,
            ),
        forall|j: int|
            0 <= j < post.measurements@.len() ==> run_row_ids(post.runs@).contains(
                (#[trigger] post.measurements@[j]).run_id@,
            ),
        forall|j: int|
            0 <= j < pre.versions@.len() && (#[trigger] pre.versions@[j]).name@ != name
                ==> post.versions@.contains(pre.versions@[j]),
{
    assert(!str_views(post.experiments@).contains(name)) by {
        if str_views(post.experiments@).contains(name) {
            let e = choose|e: int|
                0 <= e < str_views(post.experiments@).len() && str_views(post.experiments@)[e]
                    == name;
            assert(str_views(post.experiments@)[e] == post.experiments@[e]@);
            assert(post.experiments@.contains(post.experiments@[e]));
            crate::sets::lemma_filter_membership(
                pre.experiments@,
                str_not(name),
                post.experiments@[e],
            );
        }
    }
    assert forall|j: int|
        0 <= j < post.versions@.len() implies (#[trigger] post.versions@[j]).name@ != name by {
        assert(post.versions@.contains(post.versions@[j]));
        crate::sets::lemma_filter_membership(
            pre.versions@,
            version_not_named(name),
            post.versions@[j],
        );
    }
    assert forall|j: int|
        0 <= j < post.instances@.len() implies (#[trigger] post.instances@[j]).ex_name@ != name by {
        assert(post.instances@.contains(post.instances@[j]));
        crate::sets::lemma_filter_membership(
            pre.instances@,
            instance_not_named(name),
            post.instances@[j],
        );
    }
    assert forall|j: int|
        0 <= j < post.in_values@.len() implies row_ids(post.instances@).contains(
        (#[trigger] post.in_values@[j]).instance_id@,
    ) by {
        assert(post.in_values@.contains(post.in_values@[j]));
        crate::sets::lemma_filter_membership(
            pre.in_values@,
            value_row_of(row_ids(post.instances@)),
            post.in_values@[j],
        );
    }
    assert forall|j: int|
        0 <= j < post.runs@.len() implies row_ids(post.instances@).contains(
        (#[trigger] post.runs@[j]).instance_id@,
    ) by {
        assert(post.runs@.contains(post.runs@[j]));
        crate::sets::lemma_filter_membership(
            pre.runs@,
            run_row_of(row_ids(post.instances@)),
            post.runs@[j],
        );
    }
    assert forall|j: int|
        0 <= j < post.measurements@.len() implies run_row_ids(post.runs@).contains(
        (#[trigger] post.measurements@[j]).run_id@,
    ) by {
        assert(post.measurements@.contains(post.measurements@[j]));
        crate::sets::lemma_filter_membership(
            pre.measurements@,
            meas_row_of(run_row_ids(post.runs@)),
            post.measurements@[j],
        );
    }
    assert forall|j: int|
        0 <= j < pre.versions@.len() && (#[trigger] pre.versions@[j]).name@
            != name implies post.versions@.contains(pre.versions@[j]) by {
        assert(pre.versions@.contains(pre.versions@[j]));
        crate::sets::lemma_filter_membership(
            pre.versions@,
            version_not_named(name),
            pre.versions@[j],
        );
    }
}

/// Run completeness. A measurement set that leaves some output variable
/// unreported, or reports a value that fits no output variable (an
/// unexpected extra variable among them), is not a valid assignment. By
/// the contract of `record`, such a run is rejected with a validation
/// error and no run row or measurement row is written.
pub proof fn lemma_run_completeness(
    output_variables: Seq<Variable>,
    measurements: Seq<VariableValue>,
)
    requires
        (exists|j: int|
            0 <= j < output_variables.len() && !var_has_pair(
                #[trigger] output_variables[j],
                vv_pairs(measurements),
            )) || (exists|k: int|
            0 <= k < measurements.len() && !value_fits(
                #[trigger] measurements[k],
                output_variables,
            )),
    ensures
        !assignment_ok(output_variables, measurements),
{
}

} // verus!
