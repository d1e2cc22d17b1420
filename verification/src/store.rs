use vstd::prelude::*;

use crate::codec::valid_text;
use crate::errors::Error;
use crate::experiment::{lemma_concat_names_distinct, ExperimentInstance, ExperimentVersion};
use crate::variable::{str_views, var_names, var_views, Variable, VariableValue};

verus! {

use vstd::seq_lib::*;

// The relational store behind the resolvers, kept in memory: one vector per
// table. Writes go through the operations below, which keep the store
// referentially consistent: every id is unique in its table, every foreign
// key names an existing row, every instance carries exactly one value per
// input variable of its version, every run exactly one measurement per
// output variable, and every stored text parses back under the declared
// data type. A variable, once in the catalog, is never changed or removed.
/// A row of the instance table: an instance `id` under experiment `ex_name`
/// and version `version_id`.
#[derive(Debug)]
pub struct InstanceRow {
    pub id: String,
    pub ex_name: String,
    pub version_id: String,
}

impl Clone for InstanceRow {
    fn clone(&self) -> (r: InstanceRow)
        ensures
            r == *self,
    {
        InstanceRow {
            id: self.id.clone(),
            ex_name: self.ex_name.clone(),
            version_id: self.version_id.clone(),
        }
    }
}

/// A fixed input value of an instance, stored as text.
#[derive(Debug)]
pub struct InValueRow {
    pub instance_id: String,
    pub var_name: String,
    pub value: String,
}

impl Clone for InValueRow {
    fn clone(&self) -> (r: InValueRow)
        ensures
            r == *self,
    {
        InValueRow {
            instance_id: self.instance_id.clone(),
            var_name: self.var_name.clone(),
            value: self.value.clone(),
        }
    }
}

/// A row of the run table: a run `id` of instance `instance_id`, recorded at
/// timestamp `date` (milliseconds).
#[derive(Debug)]
pub struct RunRow {
    pub id: String,
    pub instance_id: String,
    pub date: i64,
}

impl Clone for RunRow {
    fn clone(&self) -> (r: RunRow)
        ensures
            r == *self,
    {
        RunRow { id: self.id.clone(), instance_id: self.instance_id.clone(), date: self.date }
    }
}

/// A measurement of a run, stored as text.
#[derive(Debug)]
pub struct MeasurementRow {
    pub run_id: String,
    pub var_name: String,
    pub value: String,
}

impl Clone for MeasurementRow {
    fn clone(&self) -> (r: MeasurementRow)
        ensures
            r == *self,
    {
        MeasurementRow {
            run_id: self.run_id.clone(),
            var_name: self.var_name.clone(),
            value: self.value.clone(),
        }
    }
}

/// The in-memory relational store.
#[derive(Debug)]
pub struct Store {
    pub experiments: Vec<String>,
    pub versions: Vec<ExperimentVersion>,
    pub variables: Vec<Variable>,
    pub instances: Vec<InstanceRow>,
    pub in_values: Vec<InValueRow>,
    pub runs: Vec<RunRow>,
    pub measurements: Vec<MeasurementRow>,
}

/// The predicate selecting the value rows of instance `iid`.
pub open spec fn row_of(iid: Seq<char>) -> spec_fn(InValueRow) -> bool {
    |r: InValueRow| r.instance_id@ == iid
}

/// The predicate selecting the measurement rows of run `rid`.
pub open spec fn meas_of(rid: Seq<char>) -> spec_fn(MeasurementRow) -> bool {
    |r: MeasurementRow| r.run_id@ == rid
}

/// The predicate selecting the run rows of instance `iid`.
pub open spec fn run_of(iid: Seq<char>) -> spec_fn(RunRow) -> bool {
    |r: RunRow| r.instance_id@ == iid
}

/// The predicate selecting the run rows of instance `iid` recorded in
/// `[start, end)`.
pub open spec fn run_in_range(iid: Seq<char>, start: i64, end: i64) -> spec_fn(RunRow) -> bool {
    |r: RunRow| r.instance_id@ == iid && start <= r.date < end
}

/// The predicate selecting versions called `name`.
pub open spec fn version_named(name: Seq<char>) -> spec_fn(ExperimentVersion) -> bool {
    |v: ExperimentVersion| v.name@ == name
}

/// The predicate selecting instance rows of version `vid`.
pub open spec fn instance_of_version(vid: Seq<char>) -> spec_fn(InstanceRow) -> bool {
    |r: InstanceRow| r.version_id@ == vid
}

/// The ids of a sequence of version rows.
pub open spec fn version_row_ids(s: Seq<ExperimentVersion>) -> Seq<Seq<char>> {
    s.map_values(|v: ExperimentVersion| v.id@)
}

/// The ids of a sequence of instance rows.
pub open spec fn row_ids(s: Seq<InstanceRow>) -> Seq<Seq<char>> {
    s.map_values(|r: InstanceRow| r.id@)
}

/// The ids of a sequence of run rows.
pub open spec fn run_row_ids(s: Seq<RunRow>) -> Seq<Seq<char>> {
    s.map_values(|r: RunRow| r.id@)
}

/// The names of a sequence of (name, text) pairs.
pub open spec fn pair_names(pairs: Seq<(Seq<char>, Seq<char>)>) -> Seq<Seq<char>> {
    pairs.map_values(|p: (Seq<char>, Seq<char>)| p.0)
}

/// Pairs with pairwise distinct names are pairwise distinct.
pub proof fn lemma_pair_names_no_dup(s: Seq<(Seq<char>, Seq<char>)>)
    requires
        pair_names(s).no_duplicates(),
    ensures
        s.no_duplicates(),
{
    assert forall|i: int, j: int|
        0 <= i < s.len() && 0 <= j < s.len() && i != j implies s[i] != s[j] by {
        assert(pair_names(s)[i] == s[i].0);
        assert(pair_names(s)[j] == s[j].0);
    }
}

/// The (name, text) pairs of a sequence of input-value rows.
pub open spec fn value_pairs(rows: Seq<InValueRow>) -> Seq<(Seq<char>, Seq<char>)> {
    rows.map_values(|r: InValueRow| (r.var_name@, r.value@))
}

/// The (name, text) pairs of a sequence of measurement rows.
pub open spec fn meas_pairs(rows: Seq<MeasurementRow>) -> Seq<(Seq<char>, Seq<char>)> {
    rows.map_values(|r: MeasurementRow| (r.var_name@, r.value@))
}

/// Does the variable match the pair: same name, and the pair's text is a
/// valid encoding for the variable's data type?
pub open spec fn var_accepts_pair(v: Variable, p: (Seq<char>, Seq<char>)) -> bool {
    v.name@ == p.0 && valid_text(v.data_type, p.1)
}

/// Some variable of `vars` accepts the pair.
pub open spec fn pair_has_var(p: (Seq<char>, Seq<char>), vars: Seq<Variable>) -> bool {
    exists|j: int| 0 <= j < vars.len() && var_accepts_pair(#[trigger] vars[j], p)
}

/// Some pair of `pairs` names the variable.
pub open spec fn var_has_pair(v: Variable, pairs: Seq<(Seq<char>, Seq<char>)>) -> bool {
    exists|k: int| 0 <= k < pairs.len() && (#[trigger] pairs[k]).0 == v.name@
}

/// The pairs assign exactly one valid text to each of the variables:
/// pairwise distinct names, one pair per variable, every pair accepted by a
/// variable and every variable named by a pair.
pub open spec fn pairs_cover(pairs: Seq<(Seq<char>, Seq<char>)>, vars: Seq<Variable>) -> bool {
    &&& pair_names(pairs).no_duplicates()
    &&& pairs.len() == vars.len()
    &&& forall|k: int| 0 <= k < pairs.len() ==> pair_has_var(#[trigger] pairs[k], vars)
    &&& forall|j: int| 0 <= j < vars.len() ==> var_has_pair(#[trigger] vars[j], pairs)
}

/// The (name, text) pairs of a sequence of variable values, the text being
/// the serialized form under which the store keeps the value.
pub open spec fn vv_pairs(values: Seq<VariableValue>) -> Seq<(Seq<char>, Seq<char>)> {
    values.map_values(|v: VariableValue| (v.variable.name@, v.value@.1))
}

/// The most recent version called `name` in `s`: the latest date, and among
/// equal dates the one inserted last.
pub open spec fn latest_version_in(s: Seq<ExperimentVersion>, name: Seq<char>) -> Option<
    ExperimentVersion,
>
    decreases s.len(),
{
    if s.len() == 0 {
        None
    } else {
        let prefix = latest_version_in(s.drop_last(), name);
        if s.last().name@ == name {
            match prefix {
                None => Some(s.last()),
                Some(p) => if p.date <= s.last().date {
                    Some(s.last())
                } else {
                    Some(p)
                },
            }
        } else {
            prefix
        }
    }
}

/// The latest version is a version of that name, and no version of the name
/// is more recent; if there is none, no version bears the name.
pub proof fn lemma_latest_props(s: Seq<ExperimentVersion>, name: Seq<char>)
    ensures
        match latest_version_in(s, name) {
            Some(v) => s.contains(v) && v.name@ == name && forall|i: int|
                0 <= i < s.len() && (#[trigger] s[i]).name@ == name ==> s[i].date <= v.date,
            None => forall|i: int| 0 <= i < s.len() ==> (#[trigger] s[i]).name@ != name,
        },
    decreases s.len(),
{
    if s.len() > 0 {
        lemma_latest_props(s.drop_last(), name);
        assert(forall|i: int|
            0 <= i < s.len() - 1 ==> #[trigger] s[i] == s.drop_last()[i]);
        match latest_version_in(s, name) {
            Some(v) => {
                if v != s.last() {
                    assert(s.drop_last().contains(v));
                    let i = choose|i: int|
                        0 <= i < s.drop_last().len() && s.drop_last()[i] == v;
                    assert(s[i] == v);
                }
            },
            None => {},
        }
    }
}

/// Instance and run consistency carry over when the version table is
/// extended and the other tables are unchanged.
pub proof fn lemma_children_ok_versions_push(pre: Store, post: Store, v: ExperimentVersion)
    requires
        post.versions@ == pre.versions@.push(v),
        post.instances@ == pre.instances@,
        post.in_values@ == pre.in_values@,
        post.runs@ == pre.runs@,
        post.measurements@ == pre.measurements@,
    ensures
        forall|r: InstanceRow| pre.instance_ok(r) ==> post.instance_ok(r),
        forall|r: RunRow| pre.run_ok(r) ==> post.run_ok(r),
{
    assert forall|r: InstanceRow| pre.instance_ok(r) implies post.instance_ok(r) by {
        let j = choose|j: int|
            0 <= j < pre.versions@.len() && (#[trigger] pre.versions@[j]).id@ == r.version_id@
                && pre.versions@[j].name@ == r.ex_name@ && pairs_cover(
                value_pairs(pre.rows_of_instance(r.id@)),
                pre.versions@[j].input_variables@,
            );
        assert(post.rows_of_instance(r.id@) == pre.rows_of_instance(r.id@));
        assert(post.versions@[j] == pre.versions@[j]);
        assert(0 <= j < post.versions@.len() && post.versions@[j].id@ == r.version_id@
            && post.versions@[j].name@ == r.ex_name@ && pairs_cover(
            value_pairs(post.rows_of_instance(r.id@)),
            post.versions@[j].input_variables@,
        ));
    }
    assert forall|r: RunRow| pre.run_ok(r) implies post.run_ok(r) by {
        let (i, j) = choose|i: int, j: int|
            0 <= i < pre.instances@.len() && 0 <= j < pre.versions@.len()
                && (#[trigger] pre.instances@[i]).id@ == r.instance_id@
                && (#[trigger] pre.versions@[j]).id@ == pre.instances@[i].version_id@
                && pairs_cover(
                meas_pairs(pre.meas_of_run(r.id@)),
                pre.versions@[j].output_variables@,
            );
        assert(post.meas_of_run(r.id@) == pre.meas_of_run(r.id@));
        assert(post.versions@[j] == pre.versions@[j]);
        assert(0 <= i < post.instances@.len() && 0 <= j < post.versions@.len()
            && post.instances@[i].id@ == r.instance_id@ && post.versions@[j].id@
            == post.instances@[i].version_id@ && pairs_cover(
            meas_pairs(post.meas_of_run(r.id@)),
            post.versions@[j].output_variables@,
        ));
    }
}

/// Version consistency only grows with the experiment and variable tables.
pub proof fn lemma_version_ok_monotone(pre: Store, post: Store, v: ExperimentVersion)
    requires
        pre.version_ok(v),
        pre.experiment_names().is_prefix_of(post.experiment_names()),
        pre.catalog_names().is_prefix_of(post.catalog_names()),
    ensures
        post.version_ok(v),
{
    crate::sets::lemma_contains_prefix(
        pre.experiment_names(),
        post.experiment_names(),
        v.name@,
    );
    assert forall|k: int|
        0 <= k < (v.input_variables@ + v.output_variables@).len() implies post.catalog_names()
        .contains((#[trigger] (v.input_variables@ + v.output_variables@)[k]).name@) by {
        crate::sets::lemma_contains_prefix(
            pre.catalog_names(),
            post.catalog_names(),
            (v.input_variables@ + v.output_variables@)[k].name@,
        );
    }
}

/// Instance and run consistency only read the version, instance, value,
/// run and measurement tables; they carry over between stores that agree
/// on those tables.
pub proof fn lemma_same_children_ok(pre: Store, post: Store)
    requires
        post.versions@ == pre.versions@,
        post.instances@ == pre.instances@,
        post.in_values@ == pre.in_values@,
        post.runs@ == pre.runs@,
        post.measurements@ == pre.measurements@,
    ensures
        forall|r: InstanceRow| pre.instance_ok(r) ==> post.instance_ok(r),
        forall|r: RunRow| pre.run_ok(r) ==> post.run_ok(r),
{
    assert forall|r: InstanceRow| pre.instance_ok(r) implies post.instance_ok(r) by {
        let j = choose|j: int|
            0 <= j < pre.versions@.len() && (#[trigger] pre.versions@[j]).id@ == r.version_id@
                && pre.versions@[j].name@ == r.ex_name@ && pairs_cover(
                value_pairs(pre.rows_of_instance(r.id@)),
                pre.versions@[j].input_variables@,
            );
        assert(post.rows_of_instance(r.id@) == pre.rows_of_instance(r.id@));
        assert(0 <= j < post.versions@.len() && post.versions@[j].id@ == r.version_id@
            && post.versions@[j].name@ == r.ex_name@ && pairs_cover(
            value_pairs(post.rows_of_instance(r.id@)),
            post.versions@[j].input_variables@,
        ));
    }
    assert forall|r: RunRow| pre.run_ok(r) implies post.run_ok(r) by {
        let (i, j) = choose|i: int, j: int|
            0 <= i < pre.instances@.len() && 0 <= j < pre.versions@.len()
                && (#[trigger] pre.instances@[i]).id@ == r.instance_id@
                && (#[trigger] pre.versions@[j]).id@ == pre.instances@[i].version_id@
                && pairs_cover(
                meas_pairs(pre.meas_of_run(r.id@)),
                pre.versions@[j].output_variables@,
            );
        assert(post.meas_of_run(r.id@) == pre.meas_of_run(r.id@));
        assert(0 <= i < post.instances@.len() && 0 <= j < post.versions@.len()
            && post.instances@[i].id@ == r.instance_id@ && post.versions@[j].id@
            == post.instances@[i].version_id@ && pairs_cover(
            meas_pairs(post.meas_of_run(r.id@)),
            post.versions@[j].output_variables@,
        ));
    }
}

impl Store {
    pub open spec fn experiment_names(self) -> Seq<Seq<char>> {
        str_views(self.experiments@)
    }

    pub open spec fn version_ids(self) -> Seq<Seq<char>> {
        version_row_ids(self.versions@)
    }

    pub open spec fn catalog_names(self) -> Seq<Seq<char>> {
        var_names(self.variables@)
    }

    pub open spec fn instance_ids(self) -> Seq<Seq<char>> {
        row_ids(self.instances@)
    }

    pub open spec fn run_ids(self) -> Seq<Seq<char>> {
        run_row_ids(self.runs@)
    }

    /// All versions called `name`, in insertion order.
    pub open spec fn versions_of(self, name: Seq<char>) -> Seq<ExperimentVersion> {
        self.versions@.filter(version_named(name))
    }

    /// The most recent version called `name`, if any.
    pub open spec fn latest_version_of(self, name: Seq<char>) -> Option<ExperimentVersion> {
        latest_version_in(self.versions@, name)
    }

    /// The input-value rows of the instance with id `iid`.
    pub open spec fn rows_of_instance(self, iid: Seq<char>) -> Seq<InValueRow> {
        self.in_values@.filter(row_of(iid))
    }

    /// The measurement rows of the run with id `rid`.
    pub open spec fn meas_of_run(self, rid: Seq<char>) -> Seq<MeasurementRow> {
        self.measurements@.filter(meas_of(rid))
    }

    /// A version row is consistent: well-formed sets, a registered
    /// experiment name, and every variable present in the catalog by name.
    pub open spec fn version_ok(self, v: ExperimentVersion) -> bool {
        &&& v.sets_wf()
        &&& self.experiment_names().contains(v.name@)
        &&& forall|k: int|
            0 <= k < (v.input_variables@ + v.output_variables@).len()
                ==> self.catalog_names().contains(
                (#[trigger] (v.input_variables@ + v.output_variables@)[k]).name@,
            )
    }

    /// An instance row is consistent: its version exists, bears the
    /// instance's experiment name, and the instance's value rows cover the
    /// version's input variables exactly.
    pub open spec fn instance_ok(self, r: InstanceRow) -> bool {
        exists|j: int|
            0 <= j < self.versions@.len() && (#[trigger] self.versions@[j]).id@ == r.version_id@
                && self.versions@[j].name@ == r.ex_name@ && pairs_cover(
                value_pairs(self.rows_of_instance(r.id@)),
                self.versions@[j].input_variables@,
            )
    }

    /// A run row is consistent: its instance exists, and the run's
    /// measurement rows cover the output variables of the instance's
    /// version exactly.
    pub open spec fn run_ok(self, r: RunRow) -> bool {
        exists|i: int, j: int|
            0 <= i < self.instances@.len() && 0 <= j < self.versions@.len()
                && (#[trigger] self.instances@[i]).id@ == r.instance_id@
                && (#[trigger] self.versions@[j]).id@ == self.instances@[i].version_id@
                && pairs_cover(
                meas_pairs(self.meas_of_run(r.id@)),
                self.versions@[j].output_variables@,
            )
    }

    /// The store invariant.
    pub open spec fn wf(self) -> bool {
        &&& self.experiment_names().no_duplicates()
        &&& self.version_ids().no_duplicates()
        &&& self.catalog_names().no_duplicates()
        &&& self.instance_ids().no_duplicates()
        &&& self.run_ids().no_duplicates()
        &&& forall|i: int|
            0 <= i < self.versions@.len() ==> self.version_ok(#[trigger] self.versions@[i])
        &&& forall|i: int|
            0 <= i < self.instances@.len() ==> self.instance_ok(#[trigger] self.instances@[i])
        &&& forall|i: int|
            0 <= i < self.in_values@.len() ==> self.instance_ids().contains(
                (#[trigger] self.in_values@[i]).instance_id@,
            )
        &&& forall|i: int| 0 <= i < self.runs@.len() ==> self.run_ok(#[trigger] self.runs@[i])
        &&& forall|i: int|
            0 <= i < self.measurements@.len() ==> self.run_ids().contains(
                (#[trigger] self.measurements@[i]).run_id@,
            )
    }

    /// An empty store.
    pub fn new() -> (r: Store)
        ensures
            r.wf(),
            r.experiments@.len() == 0,
            r.versions@.len() == 0,
            r.variables@.len() == 0,
            r.instances@.len() == 0,
            r.in_values@.len() == 0,
            r.runs@.len() == 0,
            r.measurements@.len() == 0,
    {
        Store {
            experiments: Vec::new(),
            versions: Vec::new(),
            variables: Vec::new(),
            instances: Vec::new(),
            in_values: Vec::new(),
            runs: Vec::new(),
            measurements: Vec::new(),
        }
    }

    /// All experiment names, in registration order.
    pub fn fetch_experiments(&self) -> (r: Vec<String>)
        ensures
            str_views(r@) == self.experiment_names(),
    {
        let mut out: Vec<String> = Vec::new();
        let mut i: usize = 0;
        while i < self.experiments.len()
            invariant
                i <= self.experiments@.len(),
                out@.len() == i,
                forall|j: int| 0 <= j < i ==> (#[trigger] out@[j])@ == self.experiments@[j]@,
            decreases self.experiments@.len() - i,
        {
            out.push(self.experiments[i].clone());
            i += 1;
        }
        proof {
            assert forall|j: int|
                0 <= j < out@.len() implies str_views(out@)[j] == self.experiment_names()[j] by {
                assert(str_views(out@)[j] == out@[j]@);
                assert(self.experiment_names()[j] == self.experiments@[j]@);
            }
            assert(str_views(out@) =~= self.experiment_names());
        }
        out
    }

    /// The index of the most recent version called `name`, if any.
    fn latest_version_index(&self, name: &String) -> (r: Option<usize>)
        ensures
            match r {
                Some(i) => i < self.versions@.len() && self.latest_version_of(name@) == Some(
                    self.versions@[i as int],
                ),
                None => self.latest_version_of(name@) is None,
            },
    {
        let mut best: Option<usize> = None;
        let mut i: usize = 0;
        while i < self.versions.len()
            invariant
                i <= self.versions@.len(),
                match best {
                    Some(b) => b < i && latest_version_in(self.versions@.take(i as int), name@)
                        == Some(self.versions@[b as int]),
                    None => latest_version_in(self.versions@.take(i as int), name@) is None,
                },
            decreases self.versions@.len() - i,
        {
            proof {
                let t1 = self.versions@.take(i + 1);
                assert(t1.drop_last() =~= self.versions@.take(i as int));
                assert(t1.last() == self.versions@[i as int]);
            }
            if crate::text::str_eq(self.versions[i].name.as_str(), name.as_str()) {
                let replace = match best {
                    None => true,
                    Some(b) => self.versions[b].date <= self.versions[i].date,
                };
                if replace {
                    best = Some(i);
                }
            }
            i += 1;
        }
        proof {
            assert(self.versions@.take(self.versions@.len() as int) =~= self.versions@);
        }
        best
    }

    /// The most recent version called `name`, if any.
    pub fn fetch_latest_experiment_version_by_name(&self, name: &String) -> (r: Option<
        ExperimentVersion,
    >)
        ensures
            match r {
                Some(v) => self.latest_version_of(name@) matches Some(l) && v.veq(l),
                None => self.latest_version_of(name@) is None,
            },
    {
        match self.latest_version_index(name) {
            Some(i) => Some(self.versions[i].clone()),
            None => None,
        }
    }

    /// All versions called `name`, in insertion order.
    pub fn fetch_all_experiment_versions_by_name(&self, name: &String) -> (r: Vec<
        ExperimentVersion,
    >)
        ensures
            r@.len() == self.versions_of(name@).len(),
            forall|k: int|
                0 <= k < r@.len() ==> (#[trigger] r@[k]).veq(self.versions_of(name@)[k]),
    {
        broadcast use vstd::seq_lib::group_filter_ensures;

        let mut out: Vec<ExperimentVersion> = Vec::new();
        let mut i: usize = 0;
        while i < self.versions.len()
            invariant
                i <= self.versions@.len(),
                out@.len() == self.versions@.take(i as int).filter(version_named(name@)).len(),
                forall|k: int|
                    0 <= k < out@.len() ==> (#[trigger] out@[k]).veq(
                        self.versions@.take(i as int).filter(version_named(name@))[k],
                    ),
            decreases self.versions@.len() - i,
        {
            proof {
                let t1 = self.versions@.take(i + 1);
                assert(t1.drop_last() =~= self.versions@.take(i as int));
                assert(t1.last() == self.versions@[i as int]);
                reveal(Seq::filter);
            }
            if crate::text::str_eq(self.versions[i].name.as_str(), name.as_str()) {
                out.push(self.versions[i].clone());
            }
            i += 1;
        }
        proof {
            assert(self.versions@.take(self.versions@.len() as int) =~= self.versions@);
        }
        out
    }

    /// The version called `name` carrying the given version tag, if any;
    /// the first match in insertion order.
    pub fn fetch_specific_experiment_version(&self, name: &String, version: &String) -> (r: Option<
        ExperimentVersion,
    >)
        ensures
            match r {
                Some(v) => exists|k: int|
                    0 <= k < self.versions@.len() && v.veq(#[trigger] self.versions@[k])
                        && self.versions@[k].name@ == name@ && self.versions@[k].version@
                        == version@,
                None => forall|k: int|
                    0 <= k < self.versions@.len() ==> !((#[trigger] self.versions@[k]).name@
                        == name@ && self.versions@[k].version@ == version@),
            },
    {
        let mut i: usize = 0;
        while i < self.versions.len()
            invariant
                i <= self.versions@.len(),
                forall|k: int|
                    0 <= k < i ==> !((#[trigger] self.versions@[k]).name@ == name@
                        && self.versions@[k].version@ == version@),
            decreases self.versions@.len() - i,
        {
            let name_matches = crate::text::str_eq(self.versions[i].name.as_str(), name.as_str());
            if name_matches {
                if crate::text::str_eq(self.versions[i].version.as_str(), version.as_str()) {
                    return Some(self.versions[i].clone());
                }
            }
            i += 1;
        }
        None
    }

    /// The version with the given id, if any.
    pub fn fetch_experiment_version_by_id(&self, version_id: &String) -> (r: Option<
        ExperimentVersion,
    >)
        ensures
            match r {
                Some(v) => exists|k: int|
                    0 <= k < self.versions@.len() && v.veq(#[trigger] self.versions@[k])
                        && self.versions@[k].id@ == version_id@,
                None => !self.version_ids().contains(version_id@),
            },
    {
        let mut i: usize = 0;
        while i < self.versions.len()
            invariant
                i <= self.versions@.len(),
                forall|k: int| 0 <= k < i ==> (#[trigger] self.versions@[k]).id@ != version_id@,
            decreases self.versions@.len() - i,
        {
            if crate::text::str_eq(self.versions[i].id.as_str(), version_id.as_str()) {
                return Some(self.versions[i].clone());
            }
            i += 1;
        }
        proof {
            assert forall|k: int|
                0 <= k < self.version_ids().len() implies self.version_ids()[k]
                != version_id@ by {
                assert(self.version_ids()[k] == self.versions@[k].id@);
            }
        }
        None
    }

    /// Is `name` a registered experiment?
    fn has_experiment(&self, name: &String) -> (r: bool)
        ensures
            r == self.experiment_names().contains(name@),
    {
        crate::experiment::contains_string(&self.experiments, name)
    }

    /// Is a version with this id in the store?
    fn has_version_id(&self, id: &String) -> (r: bool)
        ensures
            r == self.version_ids().contains(id@),
    {
        let mut i: usize = 0;
        while i < self.versions.len()
            invariant
                i <= self.versions@.len(),
                forall|k: int| 0 <= k < i ==> (#[trigger] self.versions@[k]).id@ != id@,
            decreases self.versions@.len() - i,
        {
            if crate::text::str_eq(self.versions[i].id.as_str(), id.as_str()) {
                assert(self.version_ids()[i as int] == id@);
                return true;
            }
            i += 1;
        }
        proof {
            assert forall|k: int| 0 <= k < self.version_ids().len() implies self.version_ids()[k]
                != id@ by {
                assert(self.version_ids()[k] == self.versions@[k].id@);
            }
        }
        false
    }

    /// Is an instance with this id in the store?
    pub(crate) fn has_instance_id(&self, id: &String) -> (r: bool)
        ensures
            r == self.instance_ids().contains(id@),
    {
        let mut i: usize = 0;
        while i < self.instances.len()
            invariant
                i <= self.instances@.len(),
                forall|k: int| 0 <= k < i ==> (#[trigger] self.instances@[k]).id@ != id@,
            decreases self.instances@.len() - i,
        {
            if crate::text::str_eq(self.instances[i].id.as_str(), id.as_str()) {
                assert(self.instance_ids()[i as int] == id@);
                return true;
            }
            i += 1;
        }
        proof {
            assert forall|k: int| 0 <= k < self.instance_ids().len() implies self.instance_ids()[k]
                != id@ by {
                assert(self.instance_ids()[k] == self.instances@[k].id@);
            }
        }
        false
    }

    /// Is a variable with this name in the catalog?
    fn catalog_has(&self, name: &str) -> (r: bool)
        ensures
            r == self.catalog_names().contains(name@),
    {
        match crate::experiment::find_variable_by_name(&self.variables, name) {
            Some(v) => {
                proof {
                    let i = choose|i: int|
                        0 <= i < self.variables@.len() && self.variables@[i] == *v;
                    assert(self.catalog_names()[i] == name@);
                }
                true
            },
            None => false,
        }
    }

    /// Does the most recent version of `name` match the submitted
    /// description exactly? If so, the resolver reuses it without a write.
    pub open spec fn reuses_latest(
        self,
        name: Seq<char>,
        version_tag: Seq<char>,
        description: Seq<char>,
        researchers: Seq<String>,
        input_variables: Seq<Variable>,
        output_variables: Seq<Variable>,
    ) -> bool {
        match self.latest_version_of(name) {
            Some(v) => v.same_build(
                version_tag,
                description,
                researchers,
                input_variables,
                output_variables,
            ),
            None => false,
        }
    }

    /// Does the store hold a version that agrees with `v` field by field?
    pub open spec fn has_version(self, v: ExperimentVersion) -> bool {
        exists|j: int| 0 <= j < self.versions@.len() && (#[trigger] self.versions@[j]).veq(v)
    }

    /// Does the store hold an instance row with this instance's id, under
    /// this instance's version?
    pub open spec fn has_instance(self, inst: ExperimentInstance) -> bool {
        exists|i: int|
            0 <= i < self.instances@.len() && (#[trigger] self.instances@[i]).id@ == inst.id@
                && self.instances@[i].version_id@ == inst.experiment_version.id@
    }

    /// Inserts every variable whose name is not yet in the catalog;
    /// existing variables are left untouched even if their definition
    /// differs.
    fn register_variables(&mut self, vars: &Vec<Variable>)
        requires
            old(self).wf(),
        ensures
            final(self).wf(),
            old(self).variables@.is_prefix_of(final(self).variables@),
            forall|k: int|
                0 <= k < vars@.len() ==> final(self).catalog_names().contains(
                    (#[trigger] vars@[k]).name@,
                ),
            forall|j: int|
                old(self).variables@.len() <= j < final(self).variables@.len() ==> var_views(
                    vars@,
                ).contains((#[trigger] final(self).variables@[j])@) && !old(
                    self,
                ).catalog_names().contains(final(self).variables@[j].name@),
            final(self).experiments == old(self).experiments,
            final(self).versions == old(self).versions,
            final(self).instances == old(self).instances,
            final(self).in_values == old(self).in_values,
            final(self).runs == old(self).runs,
            final(self).measurements == old(self).measurements,
    {
        let mut k: usize = 0;
        while k < vars.len()
            invariant
                k <= vars@.len(),
                self.wf(),
                old(self).variables@.is_prefix_of(self.variables@),
                forall|m: int|
                    0 <= m < k ==> self.catalog_names().contains((#[trigger] vars@[m]).name@),
                forall|j: int|
                    old(self).variables@.len() <= j < self.variables@.len() ==> var_views(
                        vars@,
                    ).contains((#[trigger] self.variables@[j])@) && !old(
                        self,
                    ).catalog_names().contains(self.variables@[j].name@),
                self.experiments == old(self).experiments,
                self.versions == old(self).versions,
                self.instances == old(self).instances,
                self.in_values == old(self).in_values,
                self.runs == old(self).runs,
                self.measurements == old(self).measurements,
            decreases vars@.len() - k,
        {
            let ghost pre_loop = *self;
            let present = self.catalog_has(vars[k].name.as_str());
            if !present {
                let ghost pre = *self;
                self.variables.push(vars[k].clone());
                proof {
                    assert(var_views(vars@)[k as int] == vars@[k as int]@);
                    assert(pre.catalog_names().is_prefix_of(self.catalog_names())) by {
                        assert(self.catalog_names() =~= pre.catalog_names().push(
                            vars@[k as int].name@,
                        ));
                    }
                    assert(self.catalog_names().no_duplicates()) by {
                        assert(self.catalog_names() =~= pre.catalog_names().push(
                            vars@[k as int].name@,
                        ));
                    }
                    lemma_same_children_ok(pre, *self);
                    assert forall|i: int|
                        0 <= i < self.versions@.len() implies self.version_ok(
                        #[trigger] self.versions@[i],
                    ) by {
                        assert(pre.version_ok(pre.versions@[i]));
                        assert forall|m: int|
                            0 <= m < (self.versions@[i].input_variables@
                                + self.versions@[i].output_variables@).len() implies self
                            .catalog_names().contains(
                            (#[trigger] (self.versions@[i].input_variables@
                                + self.versions@[i].output_variables@)[m]).name@,
                        ) by {
                            let nm = (self.versions@[i].input_variables@
                                + self.versions@[i].output_variables@)[m].name@;
                            assert(pre.catalog_names().contains(nm));
                            crate::sets::lemma_contains_prefix(
                                pre.catalog_names(),
                                self.catalog_names(),
                                nm,
                            );
                        }
                    }
                }
            }
            proof {
                assert(pre_loop.catalog_names().is_prefix_of(self.catalog_names()));
                assert forall|m: int|
                    0 <= m < k + 1 implies self.catalog_names().contains(
                    (#[trigger] vars@[m]).name@,
                ) by {
                    if m < k {
                        assert(pre_loop.catalog_names().contains(vars@[m].name@));
                        crate::sets::lemma_contains_prefix(
                            pre_loop.catalog_names(),
                            self.catalog_names(),
                            vars@[m].name@,
                        );
                    } else {
                        if !present {
                            assert(self.catalog_names()[self.catalog_names().len() - 1] == vars@[
                                m].name@);
                        }
                    }
                }
                assert forall|j: int|
                    old(self).variables@.len() <= j < self.variables@.len() implies var_views(
                    vars@,
                ).contains((#[trigger] self.variables@[j])@) && !old(
                    self,
                ).catalog_names().contains(self.variables@[j].name@) by {
                    if j < pre_loop.variables@.len() {
                        assert(self.variables@[j] == pre_loop.variables@[j]);
                    } else {
                        assert(!present);
                        assert(self.variables@[j] == vars@[k as int]);
                        assert(var_views(vars@)[k as int] == vars@[k as int]@);
                        if old(self).catalog_names().contains(vars@[k as int].name@) {
                            crate::experiment::lemma_var_names_prefix(
                                old(self).variables@,
                                pre_loop.variables@,
                            );
                            crate::sets::lemma_contains_prefix(
                                old(self).catalog_names(),
                                pre_loop.catalog_names(),
                                vars@[k as int].name@,
                            );
                        }
                    }
                }
            }
            k += 1;
        }
    }

    /// The Version Resolver. If the most recent version of `name` matches
    /// the submitted description exactly (same version tag, description,
    /// researcher set and variable sets), it is returned and nothing is
    /// written. Otherwise a new version is created under the fresh
    /// `new_id`: the experiment name is registered if it is new, missing
    /// variables are added to the catalog (existing ones are never
    /// altered), and the version row is appended; prior versions remain
    /// untouched. Fails only when `new_id` is already taken, and then
    /// leaves the store exactly as it was.
    pub fn resolve_version(
        &mut self,
        name: String,
        description: String,
        researchers: Vec<String>,
        input_variables: Vec<Variable>,
        output_variables: Vec<Variable>,
        version_tag: String,
        date: i64,
        new_id: String,
    ) -> (r: Result<ExperimentVersion, Error>)
        requires
            old(self).wf(),
            str_views(researchers@).no_duplicates(),
            var_names(input_variables@ + output_variables@).no_duplicates(),
        ensures
            final(self).wf(),
            old(self).reuses_latest(
                name@,
                version_tag@,
                description@,
                researchers@,
                input_variables@,
                output_variables@,
            ) ==> *final(self) == *old(self) && (r matches Ok(v) && v.veq(
                old(self).latest_version_of(name@).unwrap(),
            )),
            !old(self).reuses_latest(
                name@,
                version_tag@,
                description@,
                researchers@,
                input_variables@,
                output_variables@,
            ) && old(self).version_ids().contains(new_id@) ==> r == Err::<
                ExperimentVersion,
                Error,
            >(Error::DuplicateId) && *final(self) == *old(self),
            !old(self).reuses_latest(
                name@,
                version_tag@,
                description@,
                researchers@,
                input_variables@,
                output_variables@,
            ) && !old(self).version_ids().contains(new_id@) ==> {
                &&& (r matches Ok(v) && v.veq(
                    (ExperimentVersion {
                        id: new_id,
                        name,
                        version: version_tag,
                        date,
                        description,
                        researchers,
                        input_variables,
                        output_variables,
                    }),
                ))
                &&& final(self).versions@ == old(self).versions@.push(
                    (ExperimentVersion {
                        id: new_id,
                        name,
                        version: version_tag,
                        date,
                        description,
                        researchers,
                        input_variables,
                        output_variables,
                    }),
                )
                &&& final(self).experiments@ == if old(self).experiment_names().contains(name@) {
                    old(self).experiments@
                } else {
                    old(self).experiments@.push(name)
                }
                &&& old(self).variables@.is_prefix_of(final(self).variables@)
                &&& forall|j: int|
                    old(self).variables@.len() <= j < final(self).variables@.len() ==> (var_views(
                        input_variables@ + output_variables@,
                    ).contains((#[trigger] final(self).variables@[j])@) && !old(
                        self,
                    ).catalog_names().contains(final(self).variables@[j].name@))
                &&& final(self).instances == old(self).instances
                &&& final(self).in_values == old(self).in_values
                &&& final(self).runs == old(self).runs
                &&& final(self).measurements == old(self).measurements
            },
            r matches Ok(v) ==> final(self).has_version(v),
    {
        proof {
            crate::experiment::lemma_concat_names_distinct(input_variables@, output_variables@);
        }
        let latest = self.latest_version_index(&name);
        match latest {
            Some(i) => {
                let matches_latest = self.versions[i].same_build_exec(
                    &version_tag,
                    &description,
                    &researchers,
                    &input_variables,
                    &output_variables,
                );
                if matches_latest {
                    let ret = self.versions[i].clone();
                    proof {
                        assert(self.has_version(ret)) by {
                            assert(self.versions@[i as int].veq(ret));
                        }
                    }
                    return Ok(ret);
                }
            },
            None => {},
        }
        if self.has_version_id(&new_id) {
            return Err(Error::DuplicateId);
        }
        let ghost pre = *old(self);
        if !self.has_experiment(&name) {
            let ghost before = *self;
            self.experiments.push(name.clone());
            proof {
                assert(self.experiment_names() =~= before.experiment_names().push(name@));
                assert(before.experiment_names().is_prefix_of(self.experiment_names()));
                assert(self.experiment_names().no_duplicates());
                lemma_same_children_ok(before, *self);
                assert forall|i: int|
                    0 <= i < self.versions@.len() implies self.version_ok(
                    #[trigger] self.versions@[i],
                ) by {
                    lemma_version_ok_monotone(before, *self, before.versions@[i]);
                }
            }
        }
        let ghost with_experiment = *self;
        self.register_variables(&input_variables);
        let ghost after_ins = *self;
        self.register_variables(&output_variables);
        let ghost registered = *self;
        let nv = ExperimentVersion {
            id: new_id,
            name,
            version: version_tag,
            date,
            description,
            researchers,
            input_variables,
            output_variables,
        };
        let ghost gnv = nv;
        let ret = nv.clone();
        self.versions.push(nv);
        proof {
            let post = *self;
            let combined = gnv.input_variables@ + gnv.output_variables@;
            crate::experiment::lemma_var_names_prefix(
                with_experiment.variables@,
                after_ins.variables@,
            );
            crate::experiment::lemma_var_names_prefix(
                after_ins.variables@,
                registered.variables@,
            );
            crate::experiment::lemma_var_names_prefix(pre.variables@, registered.variables@);
            // unique version ids: the new id was absent
            assert(post.version_ids() =~= registered.version_ids().push(gnv.id@));
            assert forall|k: int|
                0 <= k < registered.version_ids().len() implies registered.version_ids()[k]
                != gnv.id@ by {
                assert(registered.version_ids()[k] == pre.version_ids()[k]);
            }
            assert(post.version_ids().no_duplicates());
            // the new version row is consistent
            assert(post.experiment_names().contains(gnv.name@)) by {
                if pre.experiment_names().contains(gnv.name@) {
                    crate::sets::lemma_contains_prefix(
                        pre.experiment_names(),
                        post.experiment_names(),
                        gnv.name@,
                    );
                } else {
                    assert(with_experiment.experiment_names().last() == gnv.name@);
                    crate::sets::lemma_contains_prefix(
                        with_experiment.experiment_names(),
                        post.experiment_names(),
                        gnv.name@,
                    );
                }
            }
            assert forall|k: int|
                0 <= k < combined.len() implies post.catalog_names().contains(
                (#[trigger] combined[k]).name@,
            ) by {
                if k < gnv.input_variables@.len() {
                    assert(combined[k] == gnv.input_variables@[k]);
                    assert(after_ins.catalog_names().contains(combined[k].name@));
                    crate::sets::lemma_contains_prefix(
                        after_ins.catalog_names(),
                        registered.catalog_names(),
                        combined[k].name@,
                    );
                } else {
                    assert(combined[k] == gnv.output_variables@[k - gnv.input_variables@.len()]);
                    assert(registered.catalog_names().contains(combined[k].name@));
                }
            }
            assert(post.version_ok(gnv));
            // old versions stay consistent
            assert forall|i: int|
                0 <= i < post.versions@.len() implies post.version_ok(
                #[trigger] post.versions@[i],
            ) by {
                if i < registered.versions@.len() {
                    assert(post.versions@[i] == registered.versions@[i]);
                    assert(registered.version_ok(registered.versions@[i]));
                    lemma_version_ok_monotone(registered, post, registered.versions@[i]);
                } else {
                    assert(post.versions@[i] == gnv);
                }
            }
            lemma_children_ok_versions_push(registered, post, gnv);
            assert forall|i: int|
                0 <= i < post.instances@.len() implies post.instance_ok(
                #[trigger] post.instances@[i],
            ) by {
                assert(registered.instance_ok(registered.instances@[i]));
            }
            assert forall|i: int|
                0 <= i < post.runs@.len() implies post.run_ok(#[trigger] post.runs@[i]) by {
                assert(registered.run_ok(registered.runs@[i]));
            }
            assert(post.has_version(ret)) by {
                assert(post.versions@[post.versions@.len() - 1].veq(ret));
            }
            assert(post.versions@ =~= pre.versions@.push(gnv));
            if !pre.experiment_names().contains(name@) {
                assert(post.experiments@ =~= pre.experiments@.push(gnv.name));
            }
            // the catalog grew only by submitted variables that were absent
            crate::experiment::lemma_var_views_concat(
                gnv.input_variables@,
                gnv.output_variables@,
            );
            assert forall|j: int|
                pre.variables@.len() <= j < post.variables@.len() implies (var_views(
                combined,
            ).contains((#[trigger] post.variables@[j])@) && !pre.catalog_names().contains(
                post.variables@[j].name@,
            )) by {
                assert(post.variables@[j] == registered.variables@[j]);
                if j < after_ins.variables@.len() {
                    assert(registered.variables@[j] == after_ins.variables@[j]);
                    assert(var_views(gnv.input_variables@).contains(after_ins.variables@[j]@));
                    let w = choose|w: int|
                        0 <= w < var_views(gnv.input_variables@).len() && var_views(
                            gnv.input_variables@,
                        )[w] == after_ins.variables@[j]@;
                    assert(var_views(combined)[w] == after_ins.variables@[j]@);
                } else {
                    assert(var_views(gnv.output_variables@).contains(registered.variables@[j]@)
                        && !after_ins.catalog_names().contains(registered.variables@[j].name@));
                    let w = choose|w: int|
                        0 <= w < var_views(gnv.output_variables@).len() && var_views(
                            gnv.output_variables@,
                        )[w] == registered.variables@[j]@;
                    assert(var_views(combined)[gnv.input_variables@.len() + w]
                        == registered.variables@[j]@);
                    if pre.catalog_names().contains(registered.variables@[j].name@) {
                        crate::sets::lemma_contains_prefix(
                            pre.catalog_names(),
                            after_ins.catalog_names(),
                            registered.variables@[j].name@,
                        );
                    }
                }
            }
        }
        Ok(ret)
    }
}

impl Store {
    /// All instance rows of the version with id `vid`, in insertion order.
    pub open spec fn instances_of(self, vid: Seq<char>) -> Seq<InstanceRow> {
        self.instances@.filter(instance_of_version(vid))
    }

    /// The first instance of version `vid` whose stored value assignment
    /// equals `pairs`, scanning from index `k` on.
    pub open spec fn matching_instance_from(
        self,
        k: int,
        vid: Seq<char>,
        pairs: Set<(Seq<char>, Seq<char>)>,
    ) -> Option<InstanceRow>
        decreases self.instances@.len() - k,
        when 0 <= k <= self.instances@.len()
    {
        if k >= self.instances@.len() {
            None
        } else if self.instances@[k].version_id@ == vid && value_pairs(
            self.rows_of_instance(self.instances@[k].id@),
        ).to_set() == pairs {
            Some(self.instances@[k])
        } else {
            self.matching_instance_from(k + 1, vid, pairs)
        }
    }

    /// The first instance of version `vid` whose stored value assignment
    /// equals `pairs`, if any: the deduplication target.
    pub open spec fn matching_instance(
        self,
        vid: Seq<char>,
        pairs: Set<(Seq<char>, Seq<char>)>,
    ) -> Option<InstanceRow> {
        self.matching_instance_from(0, vid, pairs)
    }

    /// The found instance is an instance of the version with exactly that
    /// assignment; if none is found, no instance matches.
    pub proof fn lemma_matching_instance_props(
        self,
        k: int,
        vid: Seq<char>,
        pairs: Set<(Seq<char>, Seq<char>)>,
    )
        requires
            0 <= k <= self.instances@.len(),
        ensures
            match self.matching_instance_from(k, vid, pairs) {
                Some(row) => self.instances@.contains(row) && row.version_id@ == vid
                    && value_pairs(self.rows_of_instance(row.id@)).to_set() == pairs,
                None => forall|i: int|
                    k <= i < self.instances@.len() ==> !((#[trigger] self.instances@[i]).version_id@
                        == vid && value_pairs(self.rows_of_instance(self.instances@[i].id@)).to_set()
                        == pairs),
            },
        decreases self.instances@.len() - k,
    {
        if k < self.instances@.len() {
            if self.instances@[k].version_id@ == vid && value_pairs(
                self.rows_of_instance(self.instances@[k].id@),
            ).to_set() == pairs {
                assert(self.instances@.contains(self.instances@[k]));
            } else {
                self.lemma_matching_instance_props(k + 1, vid, pairs);
            }
        }
    }

    /// Versions with the same id agree field by field: version ids are
    /// unique in a well-formed store.
    pub proof fn lemma_version_lookup(self, v: ExperimentVersion)
        requires
            self.wf(),
            self.has_version(v),
        ensures
            forall|j: int|
                0 <= j < self.versions@.len() && (#[trigger] self.versions@[j]).id@ == v.id@
                    ==> self.versions@[j].veq(v),
    {
        let j2 = choose|j2: int|
            0 <= j2 < self.versions@.len() && (#[trigger] self.versions@[j2]).veq(v);
        assert forall|j: int|
            0 <= j < self.versions@.len() && (#[trigger] self.versions@[j]).id@
                == v.id@ implies self.versions@[j].veq(v) by {
            assert(self.version_ids()[j] == self.versions@[j].id@);
            assert(self.version_ids()[j2] == self.versions@[j2].id@);
            if j != j2 {
                assert(self.version_ids()[j] != self.version_ids()[j2]);
            }
        }
    }

    /// A (name, text) pair belongs to an instance's stored assignment
    /// exactly when some value row of that instance carries it.
    pub proof fn lemma_pair_in_rows(self, iid: Seq<char>, p: (Seq<char>, Seq<char>))
        ensures
            value_pairs(self.rows_of_instance(iid)).to_set().contains(p) <==> exists|j: int|
                0 <= j < self.in_values@.len() && (#[trigger] self.in_values@[j]).instance_id@
                    == iid && self.in_values@[j].var_name@ == p.0 && self.in_values@[j].value@
                    == p.1,
    {
        let rows = self.rows_of_instance(iid);
        if value_pairs(rows).to_set().contains(p) {
            let k = choose|k: int| 0 <= k < value_pairs(rows).len() && value_pairs(rows)[k] == p;
            assert(value_pairs(rows)[k] == (rows[k].var_name@, rows[k].value@));
            assert(rows.contains(rows[k]));
            crate::sets::lemma_filter_membership(self.in_values@, row_of(iid), rows[k]);
            let j = choose|j: int| 0 <= j < self.in_values@.len() && self.in_values@[j] == rows[k];
            assert(self.in_values@[j].instance_id@ == iid && self.in_values@[j].var_name@ == p.0
                && self.in_values@[j].value@ == p.1);
        }
        if exists|j: int|
            0 <= j < self.in_values@.len() && (#[trigger] self.in_values@[j]).instance_id@ == iid
                && self.in_values@[j].var_name@ == p.0 && self.in_values@[j].value@ == p.1 {
            let j = choose|j: int|
                0 <= j < self.in_values@.len() && (#[trigger] self.in_values@[j]).instance_id@
                    == iid && self.in_values@[j].var_name@ == p.0 && self.in_values@[j].value@
                    == p.1;
            crate::sets::lemma_filter_membership(self.in_values@, row_of(iid), self.in_values@[j]);
            assert(self.in_values@.contains(self.in_values@[j]));
            assert(rows.contains(self.in_values@[j]));
            let k = choose|k: int| 0 <= k < rows.len() && rows[k] == self.in_values@[j];
            assert(value_pairs(rows)[k] == p);
        }
    }

    /// The number of value rows of the instance with id `iid`.
    fn count_rows_of_instance(&self, iid: &String) -> (r: usize)
        ensures
            r == self.rows_of_instance(iid@).len(),
    {
        let ghost pred = row_of(iid@);
        let mut count: usize = 0;
        let mut i: usize = 0;
        while i < self.in_values.len()
            invariant
                i <= self.in_values@.len(),
                count == self.in_values@.take(i as int).filter(pred).len(),
                count <= i,
                pred == row_of(iid@),
            decreases self.in_values@.len() - i,
        {
            proof {
                crate::sets::lemma_filter_take_step(self.in_values@, pred, i as int);
            }
            if crate::text::str_eq(self.in_values[i].instance_id.as_str(), iid.as_str()) {
                count += 1;
            }
            i += 1;
        }
        proof {
            crate::sets::lemma_filter_take_all(self.in_values@, pred);
        }
        count
    }

    /// The index of a value row of instance `iid` for variable `name`.
    fn find_row(&self, iid: &String, name: &str) -> (r: Option<usize>)
        ensures
            match r {
                Some(j) => j < self.in_values@.len() && self.in_values@[j as int].instance_id@
                    == iid@ && self.in_values@[j as int].var_name@ == name@,
                None => forall|j: int|
                    0 <= j < self.in_values@.len() ==> !((#[trigger] self.in_values@[j]).instance_id@
                        == iid@ && self.in_values@[j].var_name@ == name@),
            },
    {
        let mut i: usize = 0;
        while i < self.in_values.len()
            invariant
                i <= self.in_values@.len(),
                forall|j: int|
                    0 <= j < i ==> !((#[trigger] self.in_values@[j]).instance_id@ == iid@
                        && self.in_values@[j].var_name@ == name@),
            decreases self.in_values@.len() - i,
        {
            let id_matches = crate::text::str_eq(self.in_values[i].instance_id.as_str(), iid.as_str());
            if id_matches {
                if crate::text::str_eq(self.in_values[i].var_name.as_str(), name) {
                    return Some(i);
                }
            }
            i += 1;
        }
        None
    }

    /// Does the stored assignment of instance `iid` equal the submitted
    /// values, as sets of (name, text) pairs?
    fn assignment_matches(&self, iid: &String, values: &Vec<VariableValue>) -> (r: bool)
        requires
            pair_names(value_pairs(self.rows_of_instance(iid@))).no_duplicates(),
            pair_names(vv_pairs(values@)).no_duplicates(),
        ensures
            r == (value_pairs(self.rows_of_instance(iid@)).to_set() == vv_pairs(values@).to_set()),
    {
        broadcast use vstd::seq_lib::seq_to_set_is_finite;

        let ghost row_pairs = value_pairs(self.rows_of_instance(iid@));
        let ghost req_pairs = vv_pairs(values@);
        proof {
            lemma_pair_names_no_dup(row_pairs);
            lemma_pair_names_no_dup(req_pairs);
            row_pairs.unique_seq_to_set();
            req_pairs.unique_seq_to_set();
        }
        let count = self.count_rows_of_instance(iid);
        if count != values.len() {
            return false;
        }
        let mut k: usize = 0;
        while k < values.len()
            invariant
                k <= values@.len(),
                row_pairs == value_pairs(self.rows_of_instance(iid@)),
                req_pairs == vv_pairs(values@),
                pair_names(row_pairs).no_duplicates(),
                pair_names(req_pairs).no_duplicates(),
                forall|m: int| 0 <= m < k ==> row_pairs.to_set().contains(#[trigger] req_pairs[m]),
            decreases values@.len() - k,
        {
            let ghost p = req_pairs[k as int];
            proof {
                assert(p == (values@[k as int].variable.name@, values@[k as int].value@.1));
            }
            match self.find_row(iid, values[k].variable.name.as_str()) {
                None => {
                    proof {
                        assert(req_pairs.to_set().contains(p));
                        self.lemma_pair_in_rows(iid@, p);
                        assert(!row_pairs.to_set().contains(p));
                    }
                    return false;
                },
                Some(j) => {
                    let text = values[k].value.to_text();
                    if !crate::text::str_eq(self.in_values[j].value.as_str(), text.as_str()) {
                        proof {
                            assert(req_pairs.to_set().contains(p));
                            if row_pairs.to_set().contains(p) {
                                self.lemma_pair_in_rows(iid@, p);
                                let j2 = choose|j2: int|
                                    0 <= j2 < self.in_values@.len() && (#[trigger] self.in_values@[
                                    j2]).instance_id@ == iid@ && self.in_values@[j2].var_name@
                                        == p.0 && self.in_values@[j2].value@ == p.1;
                                crate::sets::lemma_filter_membership(
                                    self.in_values@,
                                    row_of(iid@),
                                    self.in_values@[j2],
                                );
                                crate::sets::lemma_filter_membership(
                                    self.in_values@,
                                    row_of(iid@),
                                    self.in_values@[j as int],
                                );
                                let rows = self.rows_of_instance(iid@);
                                assert(self.in_values@.contains(self.in_values@[j2]));
                                assert(self.in_values@.contains(self.in_values@[j as int]));
                                assert(rows.contains(self.in_values@[j2]));
                                assert(rows.contains(self.in_values@[j as int]));
                                let a = choose|a: int|
                                    0 <= a < rows.len() && rows[a] == self.in_values@[j2];
                                let b = choose|b: int|
                                    0 <= b < rows.len() && rows[b] == self.in_values@[j as int];
                                assert(value_pairs(rows)[a] == (rows[a].var_name@, rows[
                                    a].value@));
                                assert(value_pairs(rows)[b] == (rows[b].var_name@, rows[
                                    b].value@));
                                assert(rows[a].value@ == p.1);
                                assert(rows[b].value@ != p.1);
                                assert(a != b);
                                assert(pair_names(row_pairs)[a] == row_pairs[a].0);
                                assert(pair_names(row_pairs)[b] == row_pairs[b].0);
                                assert(pair_names(row_pairs)[a] == p.0);
                                assert(pair_names(row_pairs)[b] == p.0);
                                assert(false);
                            }
                        }
                        return false;
                    }
                    proof {
                        self.lemma_pair_in_rows(iid@, p);
                        assert(self.in_values@[j as int].instance_id@ == iid@
                            && self.in_values@[j as int].var_name@ == p.0
                            && self.in_values@[j as int].value@ == p.1);
                        assert(row_pairs.to_set().contains(p));
                    }
                },
            }
            k += 1;
        }
        proof {
            assert forall|e: (Seq<char>, Seq<char>)|
                req_pairs.to_set().contains(e) implies row_pairs.to_set().contains(e) by {
                let m = choose|m: int| 0 <= m < req_pairs.len() && req_pairs[m] == e;
            }
            crate::sets::lemma_subset_same_card_eq(req_pairs.to_set(), row_pairs.to_set());
        }
        true
    }

    /// Rebuilds the variable values of instance `iid` from its stored rows,
    /// parsing each text under its variable's declared data type.
    fn build_instance_values(&self, version: &ExperimentVersion, iid: &String) -> (r: Vec<
        VariableValue,
    >)
        requires
            version.sets_wf(),
            pairs_cover(value_pairs(self.rows_of_instance(iid@)), version.input_variables@),
        ensures
            vv_pairs(r@) == value_pairs(self.rows_of_instance(iid@)),
            forall|k: int|
                0 <= k < r@.len() ==> version.input_variables@.contains(
                    (#[trigger] r@[k]).variable,
                ) && crate::variable::accepts_spec(r@[k].variable.data_type, r@[k].value)
                    && r@[k].value.wf(),
    {
        let ghost pred = row_of(iid@);
        let ghost rows = self.rows_of_instance(iid@);
        let mut out: Vec<VariableValue> = Vec::new();
        let mut i: usize = 0;
        while i < self.in_values.len()
            invariant
                i <= self.in_values@.len(),
                pred == row_of(iid@),
                rows == self.rows_of_instance(iid@),
                version.sets_wf(),
                pairs_cover(value_pairs(rows), version.input_variables@),
                vv_pairs(out@) =~= value_pairs(self.in_values@.take(i as int).filter(pred)),
                forall|k: int|
                    0 <= k < out@.len() ==> version.input_variables@.contains(
                        (#[trigger] out@[k]).variable,
                    ) && crate::variable::accepts_spec(out@[k].variable.data_type, out@[k].value)
                        && out@[k].value.wf(),
            decreases self.in_values@.len() - i,
        {
            proof {
                crate::sets::lemma_filter_take_step(self.in_values@, pred, i as int);
            }
            let id_matches = crate::text::str_eq(
                self.in_values[i].instance_id.as_str(),
                iid.as_str(),
            );
            if id_matches {
                let ghost p = (self.in_values@[i as int].var_name@, self.in_values@[i as int].value@);
                proof {
                    crate::sets::lemma_filter_membership(
                        self.in_values@,
                        pred,
                        self.in_values@[i as int],
                    );
                    assert(self.in_values@.contains(self.in_values@[i as int]));
                    assert(rows.contains(self.in_values@[i as int]));
                    let k0 = choose|k0: int|
                        0 <= k0 < rows.len() && rows[k0] == self.in_values@[i as int];
                    assert(value_pairs(rows)[k0] == p);
                    assert(pair_has_var(value_pairs(rows)[k0], version.input_variables@));
                }
                let ghost jc = choose|j: int|
                    0 <= j < version.input_variables@.len() && var_accepts_pair(
                        #[trigger] version.input_variables@[j],
                        p,
                    );
                let var = match crate::experiment::find_variable_by_name(
                    &version.input_variables,
                    self.in_values[i].var_name.as_str(),
                ) {
                    Some(v) => v,
                    None => {
                        proof {
                            assert(var_names(version.input_variables@)[jc]
                                == version.input_variables@[jc].name@);
                            assert(false);
                        }
                        vstd::pervasive::unreached()
                    },
                };
                proof {
                    crate::experiment::lemma_concat_names_distinct(
                        version.input_variables@,
                        version.output_variables@,
                    );
                    let jv = choose|jv: int|
                        0 <= jv < version.input_variables@.len() && version.input_variables@[jv]
                            == *var;
                    if jv != jc {
                        assert(var_names(version.input_variables@)[jv]
                            == version.input_variables@[jv].name@);
                        assert(var_names(version.input_variables@)[jc]
                            == version.input_variables@[jc].name@);
                    }
                    assert(*var == version.input_variables@[jc]);
                    assert(valid_text(var.data_type, self.in_values@[i as int].value@));
                }
                let parsed = match var.data_type.parse_str_as_generic_value(
                    self.in_values[i].value.as_str(),
                ) {
                    Ok(v) => v,
                    Err(_) => {
                        proof {
                            assert(false);
                        }
                        vstd::pervasive::unreached()
                    },
                };
                let ghost old_out = out@;
                out.push(VariableValue { variable: var.clone(), value: parsed });
                proof {
                    assert(version.input_variables@.contains(out@[out@.len() - 1].variable)) by {
                        assert(out@[out@.len() - 1].variable == version.input_variables@[jc]);
                    }
                    assert(vv_pairs(out@) =~= value_pairs(
                        self.in_values@.take(i + 1).filter(pred),
                    )) by {
                        assert(vv_pairs(out@)[out@.len() - 1] == p);
                        assert(value_pairs(self.in_values@.take(i + 1).filter(pred))
                            =~= value_pairs(self.in_values@.take(i as int).filter(pred)).push(p));
                    }
                }
            }
            i += 1;
        }
        proof {
            crate::sets::lemma_filter_take_all(self.in_values@, pred);
        }
        out
    }

    /// All instances of the given version, rebuilt from their stored rows,
    /// in insertion order.
    pub fn fetch_all_instances_of_experiment_version(
        &self,
        experiment_version: &ExperimentVersion,
    ) -> (r: Vec<ExperimentInstance>)
        requires
            self.wf(),
            self.has_version(*experiment_version),
            experiment_version.sets_wf(),
        ensures
            r@.len() == self.instances_of(experiment_version.id@).len(),
            forall|k: int|
                0 <= k < r@.len() ==> (#[trigger] r@[k]).id@ == self.instances_of(
                    experiment_version.id@,
                )[k].id@ && r@[k].experiment_version.veq(*experiment_version) && vv_pairs(
                    r@[k].input_variable_values@,
                ) == value_pairs(
                    self.rows_of_instance(self.instances_of(experiment_version.id@)[k].id@),
                ),
    {
        let ghost pred = instance_of_version(experiment_version.id@);
        let mut out: Vec<ExperimentInstance> = Vec::new();
        let mut i: usize = 0;
        while i < self.instances.len()
            invariant
                i <= self.instances@.len(),
                self.wf(),
                self.has_version(*experiment_version),
                experiment_version.sets_wf(),
                pred == instance_of_version(experiment_version.id@),
                out@.len() == self.instances@.take(i as int).filter(pred).len(),
                forall|k: int|
                    0 <= k < out@.len() ==> (#[trigger] out@[k]).id@ == self.instances@.take(
                        i as int,
                    ).filter(pred)[k].id@ && out@[k].experiment_version.veq(*experiment_version)
                        && vv_pairs(out@[k].input_variable_values@) == value_pairs(
                        self.rows_of_instance(self.instances@.take(i as int).filter(pred)[k].id@),
                    ),
            decreases self.instances@.len() - i,
        {
            proof {
                crate::sets::lemma_filter_take_step(self.instances@, pred, i as int);
            }
            if crate::text::str_eq(
                self.instances[i].version_id.as_str(),
                experiment_version.id.as_str(),
            ) {
                proof {
                    assert(self.instances@.contains(self.instances@[i as int]));
                    self.lemma_instance_covered(self.instances@[i as int], *experiment_version);
                }
                let values = self.build_instance_values(experiment_version, &self.instances[i].id);
                let inst = ExperimentInstance {
                    experiment_version: experiment_version.clone(),
                    input_variable_values: values,
                    id: self.instances[i].id.clone(),
                };
                out.push(inst);
            }
            i += 1;
        }
        proof {
            crate::sets::lemma_filter_take_all(self.instances@, pred);
        }
        out
    }

    /// The instance with the given id, rebuilt from its stored rows, if it
    /// is an instance of the given version.
    pub fn fetch_instance_from_id(
        &self,
        instance_id: &String,
        experiment_version: &ExperimentVersion,
    ) -> (r: Option<ExperimentInstance>)
        requires
            self.wf(),
            self.has_version(*experiment_version),
            experiment_version.sets_wf(),
        ensures
            match r {
                Some(inst) => {
                    &&& inst.id@ == instance_id@
                    &&& inst.experiment_version.veq(*experiment_version)
                    &&& vv_pairs(inst.input_variable_values@) == value_pairs(
                        self.rows_of_instance(instance_id@),
                    )
                    &&& exists|k: int|
                        0 <= k < self.instances@.len() && (#[trigger] self.instances@[k]).id@
                            == instance_id@ && self.instances@[k].version_id@
                            == experiment_version.id@
                },
                None => forall|k: int|
                    0 <= k < self.instances@.len() ==> !((#[trigger] self.instances@[k]).id@
                        == instance_id@ && self.instances@[k].version_id@
                        == experiment_version.id@),
            },
    {
        let mut i: usize = 0;
        while i < self.instances.len()
            invariant
                i <= self.instances@.len(),
                self.wf(),
                self.has_version(*experiment_version),
                experiment_version.sets_wf(),
                forall|k: int|
                    0 <= k < i ==> !((#[trigger] self.instances@[k]).id@ == instance_id@
                        && self.instances@[k].version_id@ == experiment_version.id@),
            decreases self.instances@.len() - i,
        {
            let id_matches = crate::text::str_eq(
                self.instances[i].id.as_str(),
                instance_id.as_str(),
            );
            if id_matches {
                if crate::text::str_eq(
                    self.instances[i].version_id.as_str(),
                    experiment_version.id.as_str(),
                ) {
                    proof {
                        assert(self.instances@.contains(self.instances@[i as int]));
                        self.lemma_instance_covered(
                            self.instances@[i as int],
                            *experiment_version,
                        );
                    }
                    let values = self.build_instance_values(experiment_version, instance_id);
                    return Some(
                        ExperimentInstance {
                            experiment_version: experiment_version.clone(),
                            input_variable_values: values,
                            id: self.instances[i].id.clone(),
                        },
                    );
                }
            }
            i += 1;
        }
        None
    }

    /// The version that the instance with the given id belongs to, if any.
    pub fn fetch_experiment_version_from_instance_id(&self, instance_id: &String) -> (r: Option<
        ExperimentVersion,
    >)
        requires
            self.wf(),
        ensures
            match r {
                Some(v) => exists|k: int, j: int|
                    0 <= k < self.instances@.len() && 0 <= j < self.versions@.len()
                        && (#[trigger] self.instances@[k]).id@ == instance_id@
                        && (#[trigger] self.versions@[j]).id@ == self.instances@[k].version_id@
                        && v.veq(self.versions@[j]),
                None => !self.instance_ids().contains(instance_id@),
            },
    {
        let mut i: usize = 0;
        while i < self.instances.len()
            invariant
                i <= self.instances@.len(),
                self.wf(),
                forall|k: int| 0 <= k < i ==> (#[trigger] self.instances@[k]).id@ != instance_id@,
            decreases self.instances@.len() - i,
        {
            if crate::text::str_eq(self.instances[i].id.as_str(), instance_id.as_str()) {
                proof {
                    assert(self.instance_ok(self.instances@[i as int]));
                }
                let r = self.fetch_experiment_version_by_id(&self.instances[i].version_id);
                proof {
                    if r is None {
                        let j = choose|j: int|
                            0 <= j < self.versions@.len() && (#[trigger] self.versions@[j]).id@
                                == self.instances@[i as int].version_id@
                                && self.versions@[j].name@ == self.instances@[i as int].ex_name@
                                && pairs_cover(
                                value_pairs(
                                    self.rows_of_instance(self.instances@[i as int].id@),
                                ),
                                self.versions@[j].input_variables@,
                            );
                        assert(self.version_ids()[j] == self.versions@[j].id@);
                        assert(false);
                    }
                }
                return r;
            }
            i += 1;
        }
        proof {
            assert forall|k: int|
                0 <= k < self.instance_ids().len() implies self.instance_ids()[k]
                != instance_id@ by {
                assert(self.instance_ids()[k] == self.instances@[k].id@);
            }
        }
        None
    }

    /// The instance of the given version whose value assignment equals the
    /// submitted values, if one exists: the deduplication lookup.
    pub fn fetch_specific_instance(
        &self,
        experiment_version: &ExperimentVersion,
        input_variable_values: &Vec<VariableValue>,
    ) -> (r: Option<ExperimentInstance>)
        requires
            self.wf(),
            self.has_version(*experiment_version),
            experiment_version.sets_wf(),
            pair_names(vv_pairs(input_variable_values@)).no_duplicates(),
        ensures
            match r {
                Some(inst) => {
                    &&& (self.matching_instance(
                        experiment_version.id@,
                        vv_pairs(input_variable_values@).to_set(),
                    ) matches Some(row) && inst.id@ == row.id@)
                    &&& inst.experiment_version.veq(*experiment_version)
                    &&& vv_pairs(inst.input_variable_values@) == value_pairs(
                        self.rows_of_instance(inst.id@),
                    )
                },
                None => self.matching_instance(
                    experiment_version.id@,
                    vv_pairs(input_variable_values@).to_set(),
                ) is None,
            },
    {
        let ghost vid = experiment_version.id@;
        let ghost pairs = vv_pairs(input_variable_values@).to_set();
        let mut i: usize = 0;
        while i < self.instances.len()
            invariant
                i <= self.instances@.len(),
                self.wf(),
                self.has_version(*experiment_version),
                experiment_version.sets_wf(),
                pair_names(vv_pairs(input_variable_values@)).no_duplicates(),
                vid == experiment_version.id@,
                pairs == vv_pairs(input_variable_values@).to_set(),
                self.matching_instance(vid, pairs) == self.matching_instance_from(
                    i as int,
                    vid,
                    pairs,
                ),
            decreases self.instances@.len() - i,
        {
            let vid_matches = crate::text::str_eq(
                self.instances[i].version_id.as_str(),
                experiment_version.id.as_str(),
            );
            if vid_matches {
                proof {
                    assert(self.instances@.contains(self.instances@[i as int]));
                    self.lemma_instance_covered(self.instances@[i as int], *experiment_version);
                }
                let found = self.assignment_matches(&self.instances[i].id, input_variable_values);
                if found {
                    proof {
                        assert(self.matching_instance_from(i as int, vid, pairs) == Some(
                            self.instances@[i as int],
                        ));
                    }
                    let values = self.build_instance_values(
                        experiment_version,
                        &self.instances[i].id,
                    );
                    return Some(
                        ExperimentInstance {
                            experiment_version: experiment_version.clone(),
                            input_variable_values: values,
                            id: self.instances[i].id.clone(),
                        },
                    );
                }
            }
            proof {
                assert(self.matching_instance_from(i as int, vid, pairs)
                    == self.matching_instance_from(i + 1, vid, pairs));
            }
            i += 1;
        }
        None
    }

    /// Persists a new instance under the given version: the instance row
    /// and one value row per assignment.
    pub(crate) fn insert_instance_rows(
        &mut self,
        experiment_version: &ExperimentVersion,
        input_variable_values: &Vec<VariableValue>,
        new_id: &String,
    )
        requires
            old(self).wf(),
            old(self).has_version(*experiment_version),
            experiment_version.sets_wf(),
            pairs_cover(vv_pairs(input_variable_values@), experiment_version.input_variables@),
            !old(self).instance_ids().contains(new_id@),
        ensures
            final(self).wf(),
            final(self).instances@ == old(self).instances@.push(
                (InstanceRow {
                    id: *new_id,
                    ex_name: experiment_version.name,
                    version_id: experiment_version.id,
                }),
            ),
            final(self).in_values@.len() == old(self).in_values@.len()
                + input_variable_values@.len(),
            old(self).in_values@.is_prefix_of(final(self).in_values@),
            forall|m: int|
                0 <= m < input_variable_values@.len() ==> (#[trigger] final(self).in_values@[old(
                    self,
                ).in_values@.len() + m]).instance_id@ == new_id@ && (final(self).in_values@[old(
                    self,
                ).in_values@.len() + m].var_name@, final(self).in_values@[old(self).in_values@.len()
                    + m].value@) == vv_pairs(input_variable_values@)[m],
            final(self).experiments == old(self).experiments,
            final(self).versions == old(self).versions,
            final(self).variables == old(self).variables,
            final(self).runs == old(self).runs,
            final(self).measurements == old(self).measurements,
            value_pairs(final(self).rows_of_instance(new_id@)) == vv_pairs(
                input_variable_values@,
            ),
            forall|iid: Seq<char>|
                iid != new_id@ ==> final(self).rows_of_instance(iid) == old(self).rows_of_instance(
                    iid,
                ),
    {
        let ghost pre = *old(self);
        self.instances.push(
            InstanceRow {
                id: new_id.clone(),
                ex_name: experiment_version.name.clone(),
                version_id: experiment_version.id.clone(),
            },
        );
        let mut m: usize = 0;
        while m < input_variable_values.len()
            invariant
                m <= input_variable_values@.len(),
                self.instances@ == pre.instances@.push(
                    (InstanceRow {
                        id: *new_id,
                        ex_name: experiment_version.name,
                        version_id: experiment_version.id,
                    }),
                ),
                self.in_values@.len() == pre.in_values@.len() + m,
                pre.in_values@.is_prefix_of(self.in_values@),
                forall|w: int|
                    0 <= w < m ==> (#[trigger] self.in_values@[pre.in_values@.len() + w]).instance_id@
                        == new_id@ && (self.in_values@[pre.in_values@.len() + w].var_name@,
                    self.in_values@[pre.in_values@.len() + w].value@) == vv_pairs(
                        input_variable_values@,
                    )[w],
                self.experiments == pre.experiments,
                self.versions == pre.versions,
                self.variables == pre.variables,
                self.runs == pre.runs,
                self.measurements == pre.measurements,
            decreases input_variable_values@.len() - m,
        {
            let text = input_variable_values[m].value.to_text();
            self.in_values.push(
                InValueRow {
                    instance_id: new_id.clone(),
                    var_name: input_variable_values[m].variable.name.clone(),
                    value: text,
                },
            );
            m += 1;
        }
        proof {
            let post = *self;
            let nrow = InstanceRow {
                id: *new_id,
                ex_name: experiment_version.name,
                version_id: experiment_version.id,
            };
            let added = post.in_values@.skip(pre.in_values@.len() as int);
            assert(post.in_values@ =~= pre.in_values@ + added);
            assert forall|w: int|
                0 <= w < added.len() implies #[trigger] value_pairs(added)[w] == vv_pairs(
                input_variable_values@,
            )[w] by {
                assert(added[w] == post.in_values@[pre.in_values@.len() + w]);
            }
            assert(value_pairs(added) =~= vv_pairs(input_variable_values@));
            // unique instance ids
            assert(post.instance_ids() =~= pre.instance_ids().push(new_id@));
            assert(post.instance_ids().no_duplicates());
            // the new instance's rows are exactly the added rows
            assert forall|w: int| 0 <= w < added.len() implies #[trigger] row_of(new_id@)(
                added[w],
            ) by {
                assert(added[w] == post.in_values@[pre.in_values@.len() + w]);
            }
            assert forall|w: int| 0 <= w < pre.in_values@.len() implies !(#[trigger] row_of(
                new_id@,
            )(pre.in_values@[w])) by {
                assert(pre.instance_ids().contains(pre.in_values@[w].instance_id@));
            }
            Seq::filter_distributes_over_add(pre.in_values@, added, row_of(new_id@));
            crate::sets::lemma_filter_none(pre.in_values@, row_of(new_id@));
            crate::sets::lemma_filter_all(added, row_of(new_id@));
            assert(post.rows_of_instance(new_id@) =~= added);
            assert(value_pairs(post.rows_of_instance(new_id@)) == vv_pairs(
                input_variable_values@,
            ));
            // rows of other instances are untouched
            assert forall|iid: Seq<char>|
                iid != new_id@ implies post.rows_of_instance(iid) == pre.rows_of_instance(
                iid,
            ) by {
                Seq::filter_distributes_over_add(pre.in_values@, added, row_of(iid));
                assert forall|w: int| 0 <= w < added.len() implies !(#[trigger] row_of(iid)(
                    added[w],
                )) by {
                    assert(added[w] == post.in_values@[pre.in_values@.len() + w]);
                }
                crate::sets::lemma_filter_none(added, row_of(iid));
                assert(post.rows_of_instance(iid) =~= pre.rows_of_instance(iid));
            }
            // the new instance row is consistent
            let jv = choose|jv: int|
                0 <= jv < pre.versions@.len() && (#[trigger] pre.versions@[jv]).veq(
                    *experiment_version,
                );
            assert(post.instance_ok(nrow)) by {
                assert(post.versions@[jv].id@ == nrow.version_id@ && post.versions@[jv].name@
                    == nrow.ex_name@ && pairs_cover(
                    value_pairs(post.rows_of_instance(nrow.id@)),
                    post.versions@[jv].input_variables@,
                ));
            }
            // old instance rows stay consistent
            assert forall|i: int|
                0 <= i < post.instances@.len() implies post.instance_ok(
                #[trigger] post.instances@[i],
            ) by {
                if i < pre.instances@.len() {
                    assert(pre.instance_ok(pre.instances@[i]));
                    let j = choose|j: int|
                        0 <= j < pre.versions@.len() && (#[trigger] pre.versions@[j]).id@
                            == pre.instances@[i].version_id@ && pre.versions@[j].name@
                            == pre.instances@[i].ex_name@ && pairs_cover(
                            value_pairs(pre.rows_of_instance(pre.instances@[i].id@)),
                            pre.versions@[j].input_variables@,
                        );
                    assert(pre.instance_ids()[i] == pre.instances@[i].id@);
                    assert(pre.instances@[i].id@ != new_id@);
                    assert(post.rows_of_instance(pre.instances@[i].id@) == pre.rows_of_instance(
                        pre.instances@[i].id@,
                    ));
                    assert(post.instances@[i] == pre.instances@[i]);
                } else {
                    assert(post.instances@[i] == nrow);
                }
            }
            // runs stay consistent
            assert forall|i: int|
                0 <= i < post.runs@.len() implies post.run_ok(#[trigger] post.runs@[i]) by {
                assert(pre.run_ok(pre.runs@[i]));
                let (a, b) = choose|a: int, b: int|
                    0 <= a < pre.instances@.len() && 0 <= b < pre.versions@.len()
                        && (#[trigger] pre.instances@[a]).id@ == pre.runs@[i].instance_id@
                        && (#[trigger] pre.versions@[b]).id@ == pre.instances@[a].version_id@
                        && pairs_cover(
                        meas_pairs(pre.meas_of_run(pre.runs@[i].id@)),
                        pre.versions@[b].output_variables@,
                    );
                assert(post.instances@[a] == pre.instances@[a]);
                assert(post.meas_of_run(post.runs@[i].id@) == pre.meas_of_run(pre.runs@[i].id@));
            }
            // value rows still name existing instances
            assert forall|i: int|
                0 <= i < post.in_values@.len() implies post.instance_ids().contains(
                (#[trigger] post.in_values@[i]).instance_id@,
            ) by {
                if i < pre.in_values@.len() {
                    assert(post.in_values@[i] == pre.in_values@[i]);
                    assert(pre.instance_ids().contains(pre.in_values@[i].instance_id@));
                    let w = choose|w: int|
                        0 <= w < pre.instance_ids().len() && pre.instance_ids()[w]
                            == pre.in_values@[i].instance_id@;
                    assert(post.instance_ids()[w] == pre.instance_ids()[w]);
                } else {
                    assert(post.in_values@[i].instance_id@ == new_id@);
                    assert(post.instance_ids()[post.instance_ids().len() - 1] == new_id@);
                }
            }
        }
    }

    /// All run rows of the instance with id `iid`, in insertion order.
    pub open spec fn runs_of_instance(self, iid: Seq<char>) -> Seq<RunRow> {
        self.runs@.filter(run_of(iid))
    }

    /// Is a run with this id in the store?
    pub(crate) fn has_run_id(&self, id: &String) -> (r: bool)
        ensures
            r == self.run_ids().contains(id@),
    {
        let mut i: usize = 0;
        while i < self.runs.len()
            invariant
                i <= self.runs@.len(),
                forall|k: int| 0 <= k < i ==> (#[trigger] self.runs@[k]).id@ != id@,
            decreases self.runs@.len() - i,
        {
            if crate::text::str_eq(self.runs[i].id.as_str(), id.as_str()) {
                assert(self.run_ids()[i as int] == id@);
                return true;
            }
            i += 1;
        }
        proof {
            assert forall|k: int| 0 <= k < self.run_ids().len() implies self.run_ids()[k]
                != id@ by {
                assert(self.run_ids()[k] == self.runs@[k].id@);
            }
        }
        false
    }

    /// Instance rows with the same id agree on their version: instance ids
    /// are unique in a well-formed store.
    pub proof fn lemma_instance_lookup(self, inst: ExperimentInstance)
        requires
            self.wf(),
            self.has_instance(inst),
        ensures
            forall|i: int|
                0 <= i < self.instances@.len() && (#[trigger] self.instances@[i]).id@ == inst.id@
                    ==> self.instances@[i].version_id@ == inst.experiment_version.id@,
    {
        let i2 = choose|i2: int|
            0 <= i2 < self.instances@.len() && (#[trigger] self.instances@[i2]).id@ == inst.id@
                && self.instances@[i2].version_id@ == inst.experiment_version.id@;
        assert forall|i: int|
            0 <= i < self.instances@.len() && (#[trigger] self.instances@[i]).id@
                == inst.id@ implies self.instances@[i].version_id@
            == inst.experiment_version.id@ by {
            assert(self.instance_ids()[i] == self.instances@[i].id@);
            assert(self.instance_ids()[i2] == self.instances@[i2].id@);
            if i != i2 {
                assert(self.instance_ids()[i] != self.instance_ids()[i2]);
            }
        }
    }

    /// The measurement rows of a run of this instance cover the output
    /// variables of the instance's version.
    pub proof fn lemma_run_covered(self, row: RunRow, inst: ExperimentInstance)
        requires
            self.wf(),
            self.has_version(inst.experiment_version),
            self.has_instance(inst),
            self.runs@.contains(row),
            row.instance_id@ == inst.id@,
        ensures
            pairs_cover(
                meas_pairs(self.meas_of_run(row.id@)),
                inst.experiment_version.output_variables@,
            ),
    {
        let w = choose|w: int| 0 <= w < self.runs@.len() && self.runs@[w] == row;
        assert(self.run_ok(row));
        let (a, b) = choose|a: int, b: int|
            0 <= a < self.instances@.len() && 0 <= b < self.versions@.len()
                && (#[trigger] self.instances@[a]).id@ == row.instance_id@
                && (#[trigger] self.versions@[b]).id@ == self.instances@[a].version_id@
                && pairs_cover(
                meas_pairs(self.meas_of_run(row.id@)),
                self.versions@[b].output_variables@,
            );
        self.lemma_instance_lookup(inst);
        assert(self.instances@[a].version_id@ == inst.experiment_version.id@);
        self.lemma_version_lookup(inst.experiment_version);
        assert(self.versions@[b].veq(inst.experiment_version));
    }

    /// Rebuilds the measurements of run `rid` from its stored rows,
    /// parsing each text under its variable's declared data type.
    pub(crate) fn build_run_measurements(&self, version: &ExperimentVersion, rid: &String) -> (r:
        Vec<VariableValue>)
        requires
            version.sets_wf(),
            pairs_cover(meas_pairs(self.meas_of_run(rid@)), version.output_variables@),
        ensures
            vv_pairs(r@) == meas_pairs(self.meas_of_run(rid@)),
            forall|k: int|
                0 <= k < r@.len() ==> version.output_variables@.contains(
                    (#[trigger] r@[k]).variable,
                ) && crate::variable::accepts_spec(r@[k].variable.data_type, r@[k].value)
                    && r@[k].value.wf(),
    {
        let ghost pred = meas_of(rid@);
        let ghost rows = self.meas_of_run(rid@);
        let mut out: Vec<VariableValue> = Vec::new();
        let mut i: usize = 0;
        while i < self.measurements.len()
            invariant
                i <= self.measurements@.len(),
                pred == meas_of(rid@),
                rows == self.meas_of_run(rid@),
                version.sets_wf(),
                pairs_cover(meas_pairs(rows), version.output_variables@),
                vv_pairs(out@) =~= meas_pairs(self.measurements@.take(i as int).filter(pred)),
                forall|k: int|
                    0 <= k < out@.len() ==> version.output_variables@.contains(
                        (#[trigger] out@[k]).variable,
                    ) && crate::variable::accepts_spec(out@[k].variable.data_type, out@[k].value)
                        && out@[k].value.wf(),
            decreases self.measurements@.len() - i,
        {
            proof {
                crate::sets::lemma_filter_take_step(self.measurements@, pred, i as int);
            }
            let id_matches = crate::text::str_eq(
                self.measurements[i].run_id.as_str(),
                rid.as_str(),
            );
            if id_matches {
                let ghost p = (self.measurements@[i as int].var_name@, self.measurements@[
                    i as int].value@);
                proof {
                    crate::sets::lemma_filter_membership(
                        self.measurements@,
                        pred,
                        self.measurements@[i as int],
                    );
                    assert(self.measurements@.contains(self.measurements@[i as int]));
                    assert(rows.contains(self.measurements@[i as int]));
                    let k0 = choose|k0: int|
                        0 <= k0 < rows.len() && rows[k0] == self.measurements@[i as int];
                    assert(meas_pairs(rows)[k0] == p);
                    assert(pair_has_var(meas_pairs(rows)[k0], version.output_variables@));
                }
                let ghost jc = choose|j: int|
                    0 <= j < version.output_variables@.len() && var_accepts_pair(
                        #[trigger] version.output_variables@[j],
                        p,
                    );
                let var = match crate::experiment::find_variable_by_name(
                    &version.output_variables,
                    self.measurements[i].var_name.as_str(),
                ) {
                    Some(v) => v,
                    None => {
                        proof {
                            assert(var_names(version.output_variables@)[jc]
                                == version.output_variables@[jc].name@);
                            assert(false);
                        }
                        vstd::pervasive::unreached()
                    },
                };
                proof {
                    crate::experiment::lemma_concat_names_distinct(
                        version.input_variables@,
                        version.output_variables@,
                    );
                    let jv = choose|jv: int|
                        0 <= jv < version.output_variables@.len() && version.output_variables@[jv]
                            == *var;
                    if jv != jc {
                        assert(var_names(version.output_variables@)[jv]
                            == version.output_variables@[jv].name@);
                        assert(var_names(version.output_variables@)[jc]
                            == version.output_variables@[jc].name@);
                    }
                    assert(*var == version.output_variables@[jc]);
                    assert(valid_text(var.data_type, self.measurements@[i as int].value@));
                }
                let parsed = match var.data_type.parse_str_as_generic_value(
                    self.measurements[i].value.as_str(),
                ) {
                    Ok(v) => v,
                    Err(_) => {
                        proof {
                            assert(false);
                        }
                        vstd::pervasive::unreached()
                    },
                };
                out.push(VariableValue { variable: var.clone(), value: parsed });
                proof {
                    assert(version.output_variables@.contains(out@[out@.len() - 1].variable)) by {
                        assert(out@[out@.len() - 1].variable == version.output_variables@[jc]);
                    }
                    assert(vv_pairs(out@) =~= meas_pairs(
                        self.measurements@.take(i + 1).filter(pred),
                    )) by {
                        assert(vv_pairs(out@)[out@.len() - 1] == p);
                        assert(meas_pairs(self.measurements@.take(i + 1).filter(pred))
                            =~= meas_pairs(self.measurements@.take(i as int).filter(pred)).push(
                            p,
                        ));
                    }
                }
            }
            i += 1;
        }
        proof {
            crate::sets::lemma_filter_take_all(self.measurements@, pred);
        }
        out
    }

    /// Persists a completed, validated run: the run row and one
    /// measurement row per output variable. Fails only when the run's id
    /// is already taken, leaving the store unchanged.
    pub fn insert_new_run(&mut self, run: &crate::run::ExperimentRun) -> (r: Result<(), Error>)
        requires
            old(self).wf(),
            old(self).has_version(run.experiment_instance.experiment_version),
            old(self).has_instance(run.experiment_instance),
            run.experiment_instance.experiment_version.sets_wf(),
            crate::experiment::assignment_ok(
                run.experiment_instance.experiment_version.output_variables@,
                run.measurements@,
            ),
        ensures
            final(self).wf(),
            old(self).run_ids().contains(run.id@) ==> r == Err::<(), Error>(Error::DuplicateId)
                && *final(self) == *old(self),
            !old(self).run_ids().contains(run.id@) ==> {
                &&& r == Ok::<(), Error>(())
                &&& final(self).runs@ == old(self).runs@.push(
                    (RunRow {
                        id: run.id,
                        instance_id: run.experiment_instance.id,
                        date: run.date,
                    }),
                )
                &&& meas_pairs(final(self).meas_of_run(run.id@)) == vv_pairs(run.measurements@)
                &&& forall|rid: Seq<char>|
                    rid != run.id@ ==> final(self).meas_of_run(rid) == old(self).meas_of_run(rid)
            },
            final(self).experiments == old(self).experiments,
            final(self).versions == old(self).versions,
            final(self).variables == old(self).variables,
            final(self).instances == old(self).instances,
            final(self).in_values == old(self).in_values,
    {
        if self.has_run_id(&run.id) {
            return Err(Error::DuplicateId);
        }
        let ghost pre = *old(self);
        self.runs.push(
            RunRow {
                id: run.id.clone(),
                instance_id: run.experiment_instance.id.clone(),
                date: run.date,
            },
        );
        let mut m: usize = 0;
        while m < run.measurements.len()
            invariant
                m <= run.measurements@.len(),
                self.runs@ == pre.runs@.push(
                    (RunRow {
                        id: run.id,
                        instance_id: run.experiment_instance.id,
                        date: run.date,
                    }),
                ),
                self.measurements@.len() == pre.measurements@.len() + m,
                pre.measurements@.is_prefix_of(self.measurements@),
                forall|w: int|
                    0 <= w < m ==> (#[trigger] self.measurements@[pre.measurements@.len()
                        + w]).run_id@ == run.id@ && (self.measurements@[pre.measurements@.len()
                        + w].var_name@, self.measurements@[pre.measurements@.len() + w].value@)
                        == vv_pairs(run.measurements@)[w],
                self.experiments == pre.experiments,
                self.versions == pre.versions,
                self.variables == pre.variables,
                self.instances == pre.instances,
                self.in_values == pre.in_values,
            decreases run.measurements@.len() - m,
        {
            let text = run.measurements[m].value.to_text();
            self.measurements.push(
                MeasurementRow {
                    run_id: run.id.clone(),
                    var_name: run.measurements[m].variable.name.clone(),
                    value: text,
                },
            );
            m += 1;
        }
        proof {
            let post = *self;
            let nrow = RunRow { id: run.id, instance_id: run.experiment_instance.id, date: run.date };
            let added = post.measurements@.skip(pre.measurements@.len() as int);
            assert(post.measurements@ =~= pre.measurements@ + added);
            assert forall|w: int|
                0 <= w < added.len() implies #[trigger] meas_pairs(added)[w] == vv_pairs(
                run.measurements@,
            )[w] by {
                assert(added[w] == post.measurements@[pre.measurements@.len() + w]);
            }
            assert(meas_pairs(added) =~= vv_pairs(run.measurements@));
            // unique run ids
            assert(post.run_ids() =~= pre.run_ids().push(run.id@));
            assert(post.run_ids().no_duplicates());
            // the new run's measurement rows are exactly the added rows
            assert forall|w: int| 0 <= w < added.len() implies #[trigger] meas_of(run.id@)(
                added[w],
            ) by {
                assert(added[w] == post.measurements@[pre.measurements@.len() + w]);
            }
            assert forall|w: int| 0 <= w < pre.measurements@.len() implies !(#[trigger] meas_of(
                run.id@,
            )(pre.measurements@[w])) by {
                assert(pre.run_ids().contains(pre.measurements@[w].run_id@));
            }
            Seq::filter_distributes_over_add(pre.measurements@, added, meas_of(run.id@));
            crate::sets::lemma_filter_none(pre.measurements@, meas_of(run.id@));
            crate::sets::lemma_filter_all(added, meas_of(run.id@));
            assert(post.meas_of_run(run.id@) =~= added);
            assert(meas_pairs(post.meas_of_run(run.id@)) == vv_pairs(run.measurements@));
            // measurement rows of other runs are untouched
            assert forall|rid: Seq<char>|
                rid != run.id@ implies post.meas_of_run(rid) == pre.meas_of_run(rid) by {
                Seq::filter_distributes_over_add(pre.measurements@, added, meas_of(rid));
                assert forall|w: int| 0 <= w < added.len() implies !(#[trigger] meas_of(rid)(
                    added[w],
                )) by {
                    assert(added[w] == post.measurements@[pre.measurements@.len() + w]);
                }
                crate::sets::lemma_filter_none(added, meas_of(rid));
                assert(post.meas_of_run(rid) =~= pre.meas_of_run(rid));
            }
            // the new run row is consistent
            let ia = choose|ia: int|
                0 <= ia < pre.instances@.len() && (#[trigger] pre.instances@[ia]).id@
                    == run.experiment_instance.id@ && pre.instances@[ia].version_id@
                    == run.experiment_instance.experiment_version.id@;
            let jv = choose|jv: int|
                0 <= jv < pre.versions@.len() && (#[trigger] pre.versions@[jv]).veq(
                    run.experiment_instance.experiment_version,
                );
            crate::experiment::lemma_assignment_covers(
                run.experiment_instance.experiment_version.output_variables@,
                run.measurements@,
            );
            assert(post.run_ok(nrow)) by {
                assert(0 <= ia < post.instances@.len() && 0 <= jv < post.versions@.len()
                    && post.instances@[ia].id@ == nrow.instance_id@ && post.versions@[jv].id@
                    == post.instances@[ia].version_id@ && pairs_cover(
                    meas_pairs(post.meas_of_run(nrow.id@)),
                    post.versions@[jv].output_variables@,
                ));
            }
            // old run rows stay consistent
            assert forall|i: int|
                0 <= i < post.runs@.len() implies post.run_ok(#[trigger] post.runs@[i]) by {
                if i < pre.runs@.len() {
                    assert(pre.run_ok(pre.runs@[i]));
                    let (a, b) = choose|a: int, b: int|
                        0 <= a < pre.instances@.len() && 0 <= b < pre.versions@.len()
                            && (#[trigger] pre.instances@[a]).id@ == pre.runs@[i].instance_id@
                            && (#[trigger] pre.versions@[b]).id@ == pre.instances@[a].version_id@
                            && pairs_cover(
                            meas_pairs(pre.meas_of_run(pre.runs@[i].id@)),
                            pre.versions@[b].output_variables@,
                        );
                    assert(pre.run_ids()[i] == pre.runs@[i].id@);
                    assert(pre.runs@[i].id@ != run.id@);
                    assert(post.meas_of_run(pre.runs@[i].id@) == pre.meas_of_run(
                        pre.runs@[i].id@,
                    ));
                    assert(post.runs@[i] == pre.runs@[i]);
                } else {
                    assert(post.runs@[i] == nrow);
                }
            }
            // instances stay consistent
            assert forall|i: int|
                0 <= i < post.instances@.len() implies post.instance_ok(
                #[trigger] post.instances@[i],
            ) by {
                assert(pre.instance_ok(pre.instances@[i]));
                let j = choose|j: int|
                    0 <= j < pre.versions@.len() && (#[trigger] pre.versions@[j]).id@
                        == pre.instances@[i].version_id@ && pre.versions@[j].name@
                        == pre.instances@[i].ex_name@ && pairs_cover(
                        value_pairs(pre.rows_of_instance(pre.instances@[i].id@)),
                        pre.versions@[j].input_variables@,
                    );
                assert(post.rows_of_instance(pre.instances@[i].id@) == pre.rows_of_instance(
                    pre.instances@[i].id@,
                ));
            }
            // measurement rows still name existing runs
            assert forall|i: int|
                0 <= i < post.measurements@.len() implies post.run_ids().contains(
                (#[trigger] post.measurements@[i]).run_id@,
            ) by {
                if i < pre.measurements@.len() {
                    assert(post.measurements@[i] == pre.measurements@[i]);
                    assert(pre.run_ids().contains(pre.measurements@[i].run_id@));
                    let w = choose|w: int|
                        0 <= w < pre.run_ids().len() && pre.run_ids()[w] == pre.measurements@[
                        i].run_id@;
                    assert(post.run_ids()[w] == pre.run_ids()[w]);
                } else {
                    assert(post.measurements@[i].run_id@ == run.id@);
                    assert(post.run_ids()[post.run_ids().len() - 1] == run.id@);
                }
            }
        }
        Ok(())
    }

    /// All runs of the instance, rebuilt from their stored rows, in
    /// insertion order; empty when the instance (for example, a deleted
    /// one) is no longer in the store.
    pub fn fetch_all_runs_of_instance(&self, experiment_instance: &ExperimentInstance) -> (r: Vec<
        crate::run::ExperimentRun,
    >)
        requires
            self.wf(),
            experiment_instance.experiment_version.sets_wf(),
            self.instance_ids().contains(experiment_instance.id@) ==> self.has_instance(
                *experiment_instance,
            ) && self.has_version(experiment_instance.experiment_version),
        ensures
            r@.len() == self.runs_of_instance(experiment_instance.id@).len(),
            forall|k: int|
                0 <= k < r@.len() ==> (#[trigger] r@[k]).id@ == self.runs_of_instance(
                    experiment_instance.id@,
                )[k].id@ && r@[k].date == self.runs_of_instance(experiment_instance.id@)[k].date
                    && r@[k].experiment_instance.iveq(*experiment_instance) && vv_pairs(
                    r@[k].measurements@,
                ) == meas_pairs(
                    self.meas_of_run(self.runs_of_instance(experiment_instance.id@)[k].id@),
                ),
    {
        let ghost pred = run_of(experiment_instance.id@);
        if !self.has_instance_id(&experiment_instance.id) {
            proof {
                self.lemma_gone_instance_has_no_runs(experiment_instance.id@);
            }
            return Vec::new();
        }
        let mut out: Vec<crate::run::ExperimentRun> = Vec::new();
        let mut i: usize = 0;
        while i < self.runs.len()
            invariant
                i <= self.runs@.len(),
                self.wf(),
                self.has_version(experiment_instance.experiment_version),
                self.has_instance(*experiment_instance),
                experiment_instance.experiment_version.sets_wf(),
                pred == run_of(experiment_instance.id@),
                out@.len() == self.runs@.take(i as int).filter(pred).len(),
                forall|k: int|
                    0 <= k < out@.len() ==> (#[trigger] out@[k]).id@ == self.runs@.take(
                        i as int,
                    ).filter(pred)[k].id@ && out@[k].date == self.runs@.take(i as int).filter(
                        pred,
                    )[k].date && out@[k].experiment_instance.iveq(*experiment_instance)
                        && vv_pairs(out@[k].measurements@) == meas_pairs(
                        self.meas_of_run(self.runs@.take(i as int).filter(pred)[k].id@),
                    ),
            decreases self.runs@.len() - i,
        {
            proof {
                crate::sets::lemma_filter_take_step(self.runs@, pred, i as int);
            }
            if crate::text::str_eq(
                self.runs[i].instance_id.as_str(),
                experiment_instance.id.as_str(),
            ) {
                proof {
                    assert(self.runs@.contains(self.runs@[i as int]));
                    self.lemma_run_covered(self.runs@[i as int], *experiment_instance);
                }
                let measurements = self.build_run_measurements(
                    &experiment_instance.experiment_version,
                    &self.runs[i].id,
                );
                out.push(
                    crate::run::ExperimentRun {
                        experiment_instance: experiment_instance.clone(),
                        date: self.runs[i].date,
                        id: self.runs[i].id.clone(),
                        measurements,
                    },
                );
            }
            i += 1;
        }
        proof {
            crate::sets::lemma_filter_take_all(self.runs@, pred);
        }
        out
    }

    /// The runs of the instance recorded in `[start, end)`, rebuilt from
    /// their stored rows, in insertion order; empty when the instance is
    /// no longer in the store.
    pub fn fetch_runs_in_date_range(
        &self,
        experiment_instance: &ExperimentInstance,
        start: i64,
        end: i64,
    ) -> (r: Vec<crate::run::ExperimentRun>)
        requires
            self.wf(),
            experiment_instance.experiment_version.sets_wf(),
            self.instance_ids().contains(experiment_instance.id@) ==> self.has_instance(
                *experiment_instance,
            ) && self.has_version(experiment_instance.experiment_version),
        ensures
            r@.len() == self.runs@.filter(run_in_range(experiment_instance.id@, start, end)).len(),
            forall|k: int|
                0 <= k < r@.len() ==> (#[trigger] r@[k]).id@ == self.runs@.filter(
                    run_in_range(experiment_instance.id@, start, end),
                )[k].id@ && r@[k].date == self.runs@.filter(
                    run_in_range(experiment_instance.id@, start, end),
                )[k].date && r@[k].experiment_instance.iveq(*experiment_instance) && vv_pairs(
                    r@[k].measurements@,
                ) == meas_pairs(
                    self.meas_of_run(
                        self.runs@.filter(run_in_range(experiment_instance.id@, start, end))[k].id@,
                    ),
                ),
    {
        let ghost pred = run_in_range(experiment_instance.id@, start, end);
        if !self.has_instance_id(&experiment_instance.id) {
            proof {
                self.lemma_gone_instance_has_no_runs(experiment_instance.id@);
                assert forall|i: int| 0 <= i < self.runs@.len() implies !(#[trigger] pred(
                    self.runs@[i],
                )) by {}
                crate::sets::lemma_filter_none(self.runs@, pred);
            }
            return Vec::new();
        }
        let mut out: Vec<crate::run::ExperimentRun> = Vec::new();
        let mut i: usize = 0;
        while i < self.runs.len()
            invariant
                i <= self.runs@.len(),
                self.wf(),
                self.has_version(experiment_instance.experiment_version),
                self.has_instance(*experiment_instance),
                experiment_instance.experiment_version.sets_wf(),
                pred == run_in_range(experiment_instance.id@, start, end),
                out@.len() == self.runs@.take(i as int).filter(pred).len(),
                forall|k: int|
                    0 <= k < out@.len() ==> (#[trigger] out@[k]).id@ == self.runs@.take(
                        i as int,
                    ).filter(pred)[k].id@ && out@[k].date == self.runs@.take(i as int).filter(
                        pred,
                    )[k].date && out@[k].experiment_instance.iveq(*experiment_instance)
                        && vv_pairs(out@[k].measurements@) == meas_pairs(
                        self.meas_of_run(self.runs@.take(i as int).filter(pred)[k].id@),
                    ),
            decreases self.runs@.len() - i,
        {
            proof {
                crate::sets::lemma_filter_take_step(self.runs@, pred, i as int);
            }
            let id_matches = crate::text::str_eq(
                self.runs[i].instance_id.as_str(),
                experiment_instance.id.as_str(),
            );
            if id_matches && start <= self.runs[i].date && self.runs[i].date < end {
                proof {
                    assert(self.runs@.contains(self.runs@[i as int]));
                    self.lemma_run_covered(self.runs@[i as int], *experiment_instance);
                }
                let measurements = self.build_run_measurements(
                    &experiment_instance.experiment_version,
                    &self.runs[i].id,
                );
                out.push(
                    crate::run::ExperimentRun {
                        experiment_instance: experiment_instance.clone(),
                        date: self.runs[i].date,
                        id: self.runs[i].id.clone(),
                        measurements,
                    },
                );
            }
            i += 1;
        }
        proof {
            crate::sets::lemma_filter_take_all(self.runs@, pred);
        }
        out
    }

    /// An instance id absent from the store has no runs: every run's
    /// instance exists.
    pub proof fn lemma_gone_instance_has_no_runs(self, iid: Seq<char>)
        requires
            self.wf(),
            !self.instance_ids().contains(iid),
        ensures
            self.runs_of_instance(iid) == Seq::<RunRow>::empty(),
            self.runs@.filter(run_of(iid)) == Seq::<RunRow>::empty(),
            forall|i: int| 0 <= i < self.runs@.len() ==> (#[trigger] self.runs@[i]).instance_id@
                != iid,
    {
        assert forall|i: int|
            0 <= i < self.runs@.len() implies (#[trigger] self.runs@[i]).instance_id@ != iid by {
            assert(self.run_ok(self.runs@[i]));
            if self.runs@[i].instance_id@ == iid {
                let (a, b) = choose|a: int, b: int|
                    0 <= a < self.instances@.len() && 0 <= b < self.versions@.len()
                        && (#[trigger] self.instances@[a]).id@ == self.runs@[i].instance_id@
                        && (#[trigger] self.versions@[b]).id@ == self.instances@[a].version_id@
                        && pairs_cover(
                        meas_pairs(self.meas_of_run(self.runs@[i].id@)),
                        self.versions@[b].output_variables@,
                    );
                assert(self.instance_ids()[a] == self.instances@[a].id@);
                assert(false);
            }
        }
        assert forall|i: int| 0 <= i < self.runs@.len() implies !(#[trigger] run_of(iid)(
            self.runs@[i],
        )) by {}
        crate::sets::lemma_filter_none(self.runs@, run_of(iid));
    }

    /// The value rows of an instance of this version cover the version's
    /// input variables: the store-level invariant specialized to a version
    /// known to agree with a stored one.
    pub proof fn lemma_instance_covered(self, row: InstanceRow, v: ExperimentVersion)
        requires
            self.wf(),
            self.has_version(v),
            self.instances@.contains(row),
            row.version_id@ == v.id@,
        ensures
            pairs_cover(value_pairs(self.rows_of_instance(row.id@)), v.input_variables@),
    {
        let i = choose|i: int| 0 <= i < self.instances@.len() && self.instances@[i] == row;
        assert(self.instance_ok(row));
        let j = choose|j: int|
            0 <= j < self.versions@.len() && (#[trigger] self.versions@[j]).id@ == row.version_id@
                && self.versions@[j].name@ == row.ex_name@ && pairs_cover(
                value_pairs(self.rows_of_instance(row.id@)),
                self.versions@[j].input_variables@,
            );
        self.lemma_version_lookup(v);
        assert(self.versions@[j].veq(v));
    }
}

} // verus!
