use vstd::prelude::*;

use crate::errors::Error;
use crate::variable::str_views;
use crate::variables::{
    find_by_template_name, first_named_at, variable_ids, variable_names, Variable,
    VariableTemplate,
};

verus! {

use vstd::seq_lib::*;

// The older, unversioned generation of the archive: an experiment is
// identified solely by its name and keeps one description, one researcher
// entry and one fixed variable set; runs are numbered consecutively per
// experiment. Its store keeps the experiment, variable, run and
// measurement tables in memory, with unique ids, consecutive run numbers
// and no dangling references.
/// A stored experiment: name, description, researcher and variable set.
#[derive(Debug)]
pub struct ExperimentRecord {
    pub id: String,
    pub name: String,
    pub description: String,
    pub researcher: String,
    pub variables: Vec<Variable>,
}

/// A stored run row: the run's id, its number within its experiment, and
/// its timestamp in milliseconds.
#[derive(Debug)]
pub struct RawRun {
    pub run_id: String,
    pub run_number: usize,
    pub experiment_id: String,
    pub timestamp: i64,
}

impl Clone for RawRun {
    fn clone(&self) -> (r: RawRun)
        ensures
            r == *self,
    {
        RawRun {
            run_id: self.run_id.clone(),
            run_number: self.run_number,
            experiment_id: self.experiment_id.clone(),
            timestamp: self.timestamp,
        }
    }
}

/// A stored measurement: one value of one variable in one run.
#[derive(Debug)]
pub struct MeasurementRow {
    pub experiment_id: String,
    pub variable_id: String,
    pub run_id: String,
    pub value: String,
    pub timestamp: i64,
}

impl Clone for MeasurementRow {
    fn clone(&self) -> (r: MeasurementRow)
        ensures
            r == *self,
    {
        MeasurementRow {
            experiment_id: self.experiment_id.clone(),
            variable_id: self.variable_id.clone(),
            run_id: self.run_id.clone(),
            value: self.value.clone(),
            timestamp: self.timestamp,
        }
    }
}

/// The in-memory store of the older generation.
#[derive(Debug)]
pub struct ArchiveStore {
    pub experiments: Vec<ExperimentRecord>,
    pub variables: Vec<Variable>,
    pub runs: Vec<RawRun>,
    pub measurements: Vec<MeasurementRow>,
}

/// The ids of a sequence of experiment records.
pub open spec fn record_ids(s: Seq<ExperimentRecord>) -> Seq<Seq<char>> {
    s.map_values(|r: ExperimentRecord| r.id@)
}

/// The names of a sequence of experiment records.
pub open spec fn record_names(s: Seq<ExperimentRecord>) -> Seq<Seq<char>> {
    s.map_values(|r: ExperimentRecord| r.name@)
}

/// The ids of a sequence of run rows.
pub open spec fn raw_run_ids(s: Seq<RawRun>) -> Seq<Seq<char>> {
    s.map_values(|r: RawRun| r.run_id@)
}

impl ArchiveStore {
    /// The store invariant: unique ids and names, every run under an
    /// existing experiment with strictly increasing run numbers, and
    /// every measurement under an existing run of its own experiment.
    pub open spec fn wf(self) -> bool {
        &&& record_ids(self.experiments@).no_duplicates()
        &&& record_names(self.experiments@).no_duplicates()
        &&& variable_ids(self.variables@).no_duplicates()
        &&& raw_run_ids(self.runs@).no_duplicates()
        &&& forall|i: int|
            0 <= i < self.runs@.len() ==> record_ids(self.experiments@).contains(
                (#[trigger] self.runs@[i]).experiment_id@,
            )
        &&& forall|i: int, j: int|
            0 <= i < j < self.runs@.len() && (#[trigger] self.runs@[i]).experiment_id@
                == (#[trigger] self.runs@[j]).experiment_id@ ==> self.runs@[i].run_number
                < self.runs@[j].run_number
        &&& forall|i: int|
            0 <= i < self.measurements@.len() ==> self.meas_linked(
                #[trigger] self.measurements@[i],
            )
    }

    /// The measurement belongs to a stored run of its own experiment.
    pub open spec fn meas_linked(self, m: MeasurementRow) -> bool {
        exists|j: int|
            0 <= j < self.runs@.len() && (#[trigger] self.runs@[j]).run_id@ == m.run_id@
                && self.runs@[j].experiment_id@ == m.experiment_id@
    }

    /// An empty store.
    pub fn new() -> (r: ArchiveStore)
        ensures
            r.wf(),
            r.experiments@.len() == 0,
            r.variables@.len() == 0,
            r.runs@.len() == 0,
            r.measurements@.len() == 0,
    {
        ArchiveStore {
            experiments: Vec::new(),
            variables: Vec::new(),
            runs: Vec::new(),
            measurements: Vec::new(),
        }
    }

    /// The index of the record called `name`, if any.
    pub(crate) fn record_index_by_name(&self, name: &str) -> (r: Option<usize>)
        ensures
            match r {
                Some(i) => i < self.experiments@.len() && self.experiments@[i as int].name@
                    == name@,
                None => !record_names(self.experiments@).contains(name@),
            },
    {
        let mut i: usize = 0;
        while i < self.experiments.len()
            invariant
                i <= self.experiments@.len(),
                forall|j: int| 0 <= j < i ==> (#[trigger] record_names(self.experiments@)[j])
                    != name@,
            decreases self.experiments@.len() - i,
        {
            if crate::text::str_eq(self.experiments[i].name.as_str(), name) {
                return Some(i);
            }
            assert(record_names(self.experiments@)[i as int]
                == self.experiments@[i as int].name@);
            i += 1;
        }
        None
    }

    /// The index of the record with the given id, if any.
    pub(crate) fn record_index_by_id(&self, id: &str) -> (r: Option<usize>)
        ensures
            match r {
                Some(i) => i < self.experiments@.len() && self.experiments@[i as int].id@ == id@,
                None => !record_ids(self.experiments@).contains(id@),
            },
    {
        let mut i: usize = 0;
        while i < self.experiments.len()
            invariant
                i <= self.experiments@.len(),
                forall|j: int| 0 <= j < i ==> (#[trigger] record_ids(self.experiments@)[j]) != id@,
            decreases self.experiments@.len() - i,
        {
            if crate::text::str_eq(self.experiments[i].id.as_str(), id) {
                return Some(i);
            }
            assert(record_ids(self.experiments@)[i as int] == self.experiments@[i as int].id@);
            i += 1;
        }
        None
    }

    /// Is a variable with this id in the catalog?
    pub(crate) fn has_variable_id(&self, id: &String) -> (r: bool)
        ensures
            r == variable_ids(self.variables@).contains(id@),
    {
        match crate::variables::find_by_id(&self.variables, id.as_str()) {
            Some(v) => {
                proof {
                    let i = choose|i: int|
                        0 <= i < self.variables@.len() && self.variables@[i] == *v;
                    assert(variable_ids(self.variables@)[i] == id@);
                }
                true
            },
            None => false,
        }
    }

    /// Is a run with this id in the store?
    pub(crate) fn has_run_id(&self, id: &String) -> (r: bool)
        ensures
            r == raw_run_ids(self.runs@).contains(id@),
    {
        let mut i: usize = 0;
        while i < self.runs.len()
            invariant
                i <= self.runs@.len(),
                forall|j: int| 0 <= j < i ==> (#[trigger] raw_run_ids(self.runs@)[j]) != id@,
            decreases self.runs@.len() - i,
        {
            if crate::text::str_eq(self.runs[i].run_id.as_str(), id.as_str()) {
                assert(raw_run_ids(self.runs@)[i as int] == id@);
                return true;
            }
            assert(raw_run_ids(self.runs@)[i as int] == self.runs@[i as int].run_id@);
            i += 1;
        }
        false
    }
}

/// Experiment definition as seen by a client of the older generation.
#[derive(Debug)]
pub struct Experiment {
    pub id: String,
    pub name: String,
    pub description: String,
    pub researcher: String,
    pub required_variables: Vec<Variable>,
    pub autolog_runs: bool,
}

impl Experiment {
    /// Field-wise agreement with a stored record, at the level of views.
    pub open spec fn matches_record(self, rec: ExperimentRecord) -> bool {
        &&& self.id@ == rec.id@
        &&& self.name@ == rec.name@
        &&& self.description@ == rec.description@
        &&& self.researcher@ == rec.researcher@
        &&& self.required_variables@ == rec.variables@
    }

    /// Returns the name of this experiment.
    pub fn name(&self) -> (r: &str)
        ensures
            r@ == self.name@,
    {
        self.name.as_str()
    }

    /// Returns the unique id of this experiment.
    pub fn id(&self) -> (r: &str)
        ensures
            r@ == self.id@,
    {
        self.id.as_str()
    }

    /// Returns the description of this experiment.
    pub fn description(&self) -> (r: &str)
        ensures
            r@ == self.description@,
    {
        self.description.as_str()
    }

    /// Returns the associated researcher for this experiment.
    pub fn researcher(&self) -> (r: &str)
        ensures
            r@ == self.researcher@,
    {
        self.researcher.as_str()
    }

    /// Returns the variables that this experiment requires.
    pub fn variables(&self) -> (r: &Vec<Variable>)
        ensures
            r == &self.required_variables,
    {
        &self.required_variables
    }

    /// Switches automatic logging of runs on or off.
    pub fn set_autolog_runs(&mut self, autolog_runs: bool)
        ensures
            *final(self) == (Experiment { autolog_runs, ..*old(self) }),
    {
        self.autolog_runs = autolog_runs;
    }

    /// Builds the client view of a stored record.
    pub(crate) fn from_record(rec: &ExperimentRecord) -> (r: Experiment)
        ensures
            r.matches_record(*rec),
            r.autolog_runs == false,
    {
        let required_variables = rec.variables.clone();
        proof {
            assert(required_variables@ =~= rec.variables@);
        }
        Experiment {
            id: rec.id.clone(),
            name: rec.name.clone(),
            description: rec.description.clone(),
            researcher: rec.researcher.clone(),
            required_variables,
            autolog_runs: false,
        }
    }

    /// Tries to fetch the experiment with the given name from the store.
    pub fn from_name(store: &ArchiveStore, name: &str) -> (r: Option<Experiment>)
        ensures
            match r {
                Some(e) => exists|i: int|
                    0 <= i < store.experiments@.len() && e.matches_record(
                        #[trigger] store.experiments@[i],
                    ) && store.experiments@[i].name@ == name@,
                None => !record_names(store.experiments@).contains(name@),
            },
    {
        match store.record_index_by_name(name) {
            Some(i) => Some(Experiment::from_record(&store.experiments[i])),
            None => None,
        }
    }

    /// Fetches all experiments from the store, in registration order.
    pub fn all(store: &ArchiveStore) -> (r: Vec<Experiment>)
        ensures
            r@.len() == store.experiments@.len(),
            forall|i: int|
                0 <= i < r@.len() ==> (#[trigger] r@[i]).matches_record(store.experiments@[i]),
    {
        let mut out: Vec<Experiment> = Vec::new();
        let mut i: usize = 0;
        while i < store.experiments.len()
            invariant
                i <= store.experiments@.len(),
                out@.len() == i,
                forall|j: int|
                    0 <= j < i ==> (#[trigger] out@[j]).matches_record(store.experiments@[j]),
            decreases store.experiments@.len() - i,
        {
            out.push(Experiment::from_record(&store.experiments[i]));
            i += 1;
        }
        out
    }

    /// Registering an existing experiment anew under changed data is not
    /// offered: a change must either use a new unique name, or go through
    /// the versioned generation of the archive.
    pub fn override_existing(
        _name: String,
        _description: String,
        _researcher: String,
        _required_variables: Vec<VariableTemplate>,
    ) -> (r: Result<(), Error>)
        ensures
            r == Err::<(), Error>(Error::Unsupported),
    {
        Err(Error::Unsupported)
    }

    /// Creates a new experiment with the given parameters, or returns the
    /// stored one of the same name. A known name succeeds exactly when the
    /// stored description, researcher and variable names match the
    /// submitted data, and each difference is reported as its own mismatch
    /// error; in either case nothing is written. A new name registers the
    /// experiment together with any variables whose names are not yet in
    /// the catalog, atomically, under freshly generated ids: variables
    /// already in the catalog are reused as stored, the others are created
    /// from the submitted templates. An id collision leaves the store
    /// unchanged, and can only happen when ids were drawn against existing
    /// rows or against each other.
    pub fn new(
        store: &mut ArchiveStore,
        name: String,
        description: String,
        researcher: String,
        required_variables: Vec<VariableTemplate>,
    ) -> (r: Result<Experiment, Error>)
        requires
            old(store).wf(),
        ensures
            final(store).wf(),
            final(store).runs == old(store).runs,
            final(store).measurements == old(store).measurements,
            old(store).variables@.is_prefix_of(final(store).variables@),
            old(store).experiments@.is_prefix_of(final(store).experiments@),
            final(store).experiments@.len() <= old(store).experiments@.len() + 1,
            record_names(old(store).experiments@).contains(name@) ==> *final(store) == *old(
                store,
            ),
            r matches Ok(e) ==> e.name@ == name@ && record_names(
                final(store).experiments@,
            ).contains(name@) && exists|i: int|
                0 <= i < final(store).experiments@.len() && e.matches_record(
                    #[trigger] final(store).experiments@[i],
                ),
            !record_names(old(store).experiments@).contains(name@) ==> (r matches Ok(e)
                ==> e.description@ == description@ && e.researcher@ == researcher@
                && final(store).experiments@.len() == old(store).experiments@.len() + 1),
            r is Err && !record_names(old(store).experiments@).contains(name@) ==> r == Err::<
                Experiment,
                Error,
            >(Error::DuplicateId) && *final(store) == *old(store),
            r is Err && record_names(old(store).experiments@).contains(name@) ==> (r == Err::<
                Experiment,
                Error,
            >(Error::DescriptionMismatch) || r == Err::<Experiment, Error>(
                Error::ResearcherMismatch,
            ) || r == Err::<Experiment, Error>(Error::VariableSetMismatch)),
            forall|i: int|
                0 <= i < old(store).experiments@.len() && (#[trigger] old(
                    store,
                ).experiments@[i]).name@ == name@ ==> {
                    let rec = old(store).experiments@[i];
                    &&& (rec.description@ != description@ ==> r == Err::<Experiment, Error>(
                        Error::DescriptionMismatch,
                    ))
                    &&& (rec.description@ == description@ && rec.researcher@ != researcher@
                        ==> r == Err::<Experiment, Error>(Error::ResearcherMismatch))
                    &&& (rec.description@ == description@ && rec.researcher@ == researcher@
                        && !variable_names_cover(rec.variables@, required_variables@) ==> r
                        == Err::<Experiment, Error>(Error::VariableSetMismatch))
                    &&& (rec.description@ == description@ && rec.researcher@ == researcher@
                        && variable_names_cover(rec.variables@, required_variables@) ==> r is Ok)
                },
            record_names(old(store).experiments@).contains(name@) ==> (r matches Ok(e)
                ==> forall|i: int|
                    0 <= i < old(store).experiments@.len() && (#[trigger] old(
                        store,
                    ).experiments@[i]).name@ == name@ ==> e.matches_record(
                        old(store).experiments@[i],
                    )),
            !record_names(old(store).experiments@).contains(name@) ==> (r matches Ok(e) ==> {
                &&& e.required_variables@.len() == required_variables@.len()
                &&& forall|k: int|
                    0 <= k < required_variables@.len() ==> (#[trigger] e.required_variables@[
                    k]).template.name@ == required_variables@[k].name@
                &&& forall|k: int|
                    0 <= k < required_variables@.len() && variable_names(
                        old(store).variables@,
                    ).contains((#[trigger] required_variables@[k]).name@) ==> old(
                        store,
                    ).variables@.contains(e.required_variables@[k])
                &&& forall|k: int|
                    0 <= k < required_variables@.len() && !variable_names(
                        old(store).variables@,
                    ).contains((#[trigger] required_variables@[k]).name@) && (forall|m: int|
                        0 <= m < k ==> required_variables@[m].name@ != required_variables@[
                        k].name@) ==> e.required_variables@[k].template == required_variables@[k]
            }),
            !record_names(old(store).experiments@).contains(name@) && r is Err ==> old(
                store,
            ).variables@.len() > 0 || old(store).experiments@.len() > 0
                || required_variables@.len() > 1,
    {
        let existing = store.record_index_by_name(name.as_str());
        match existing {
            Some(i) => {
                proof {
                    assert(record_names(store.experiments@)[i as int]
                        == store.experiments@[i as int].name@);
                    assert(*store == *old(store));
                    assert forall|i2: int|
                        0 <= i2 < old(store).experiments@.len() && (#[trigger] old(
                        store,
                    ).experiments@[i2]).name@ == name@ implies old(store).experiments@[i2]
                        == store.experiments@[i as int] by {
                        assert(record_names(store.experiments@)[i2]
                            == store.experiments@[i2].name@);
                        assert(record_names(store.experiments@)[i as int]
                            == store.experiments@[i as int].name@);
                        if i2 != i as int {
                            assert(record_names(store.experiments@)[i2] != record_names(
                                store.experiments@,
                            )[i as int]);
                        }
                    }
                }
                if !(store.experiments[i].description == description) {
                    return Err(Error::DescriptionMismatch);
                }
                if !(store.experiments[i].researcher == researcher) {
                    return Err(Error::ResearcherMismatch);
                }
                if !variable_names_match(&store.experiments[i].variables, &required_variables) {
                    return Err(Error::VariableSetMismatch);
                }
                let e = Experiment::from_record(&store.experiments[i]);
                proof {
                    crate::sets::lemma_prefix_self(store.experiments@);
                    crate::sets::lemma_prefix_self(store.variables@);
                    assert forall|i2: int|
                        0 <= i2 < old(store).experiments@.len() && (#[trigger] old(
                        store,
                    ).experiments@[i2]).name@ == name@ implies e.matches_record(
                        old(store).experiments@[i2],
                    ) && old(store).experiments@[i2].description@ == description@ && old(
                        store,
                    ).experiments@[i2].researcher@ == researcher@ && variable_names_cover(
                        old(store).experiments@[i2].variables@,
                        required_variables@,
                    ) by {
                        assert(old(store).experiments@[i2] == store.experiments@[i as int]);
                    }
                }
                Ok(e)
            },
            None => {
                proof {
                    assert forall|i2: int|
                        0 <= i2 < store.experiments@.len() implies (#[trigger] store.experiments@[
                        i2]).name@ != name@ by {
                        assert(record_names(store.experiments@)[i2]
                            == store.experiments@[i2].name@);
                    }
                }
                Self::insert_new(store, name, description, researcher, required_variables)
            },
        }
    }

    /// Registers a new experiment and its missing variables, atomically.
    #[verifier::rlimit(40)]
    fn insert_new(
        store: &mut ArchiveStore,
        name: String,
        description: String,
        researcher: String,
        required_variables: Vec<VariableTemplate>,
    ) -> (r: Result<Experiment, Error>)
        requires
            old(store).wf(),
            !record_names(old(store).experiments@).contains(name@),
        ensures
            final(store).wf(),
            final(store).runs == old(store).runs,
            final(store).measurements == old(store).measurements,
            old(store).variables@.is_prefix_of(final(store).variables@),
            old(store).experiments@.is_prefix_of(final(store).experiments@),
            final(store).experiments@.len() <= old(store).experiments@.len() + 1,
            r matches Ok(e) ==> e.name@ == name@ && e.description@ == description@
                && e.researcher@ == researcher@ && record_names(
                final(store).experiments@,
            ).contains(name@) && final(store).experiments@.len() == old(
                store,
            ).experiments@.len() + 1 && exists|i: int|
                0 <= i < final(store).experiments@.len() && e.matches_record(
                    #[trigger] final(store).experiments@[i],
                ),
            r is Err ==> r == Err::<Experiment, Error>(Error::DuplicateId) && *final(store)
                == *old(store),
            r matches Ok(e) ==> {
                &&& e.required_variables@.len() == required_variables@.len()
                &&& forall|k: int|
                    0 <= k < required_variables@.len() ==> (#[trigger] e.required_variables@[
                    k]).template.name@ == required_variables@[k].name@
                &&& forall|k: int|
                    0 <= k < required_variables@.len() && variable_names(
                        old(store).variables@,
                    ).contains((#[trigger] required_variables@[k]).name@) ==> old(
                        store,
                    ).variables@.contains(e.required_variables@[k])
                &&& forall|k: int|
                    0 <= k < required_variables@.len() && !variable_names(
                        old(store).variables@,
                    ).contains((#[trigger] required_variables@[k]).name@) && (forall|m: int|
                        0 <= m < k ==> required_variables@[m].name@ != required_variables@[
                        k].name@) ==> e.required_variables@[k].template == required_variables@[k]
            },
            r is Err ==> old(store).variables@.len() > 0 || old(store).experiments@.len() > 0
                || required_variables@.len() > 1,
    {
        // resolve each template against the catalog, collecting new ones
        let mut resolved: Vec<Variable> = Vec::new();
        let mut to_add: Vec<Variable> = Vec::new();
        let mut k: usize = 0;
        while k < required_variables.len()
            invariant
                k <= required_variables@.len(),
                *store == *old(store),
                old(store).wf(),
                variable_ids(store.variables@ + to_add@).no_duplicates(),
                resolved@.len() == k,
                to_add@.len() <= k,
                forall|m: int|
                    0 <= m < k ==> (#[trigger] resolved@[m]).template.name@
                        == required_variables@[m].name@,
                forall|m: int|
                    0 <= m < k && variable_names(store.variables@).contains(
                        (#[trigger] required_variables@[m]).name@,
                    ) ==> store.variables@.contains(resolved@[m]),
                forall|m: int|
                    0 <= m < k && !variable_names(store.variables@).contains(
                        (#[trigger] required_variables@[m]).name@,
                    ) && (forall|w: int|
                        0 <= w < m ==> required_variables@[w].name@ != required_variables@[
                        m].name@) ==> resolved@[m].template == required_variables@[m],
                forall|w: int|
                    0 <= w < to_add@.len() ==> name_from_earlier(
                        #[trigger] to_add@[w],
                        required_variables@,
                        k as int,
                    ),
            decreases required_variables@.len() - k,
        {
            let known = find_by_template_name(
                &store.variables,
                required_variables[k].name.as_str(),
            );
            match known {
                Some(v) => {
                    proof {
                        assert(store.variables@.contains(*v));
                        let j = choose|j: int|
                            0 <= j < store.variables@.len() && store.variables@[j] == *v;
                        assert(variable_names(store.variables@)[j] == store.variables@[
                        j].template.name@);
                    }
                    let c = v.clone();
                    resolved.push(c);
                },
                None => {
                    match find_by_template_name(&to_add, required_variables[k].name.as_str()) {
                        Some(v) => {
                            proof {
                                // an earlier template already created this
                                // name, so it is not a first occurrence
                                assert(to_add@.contains(*v));
                                let w = choose|w: int|
                                    0 <= w < to_add@.len() && to_add@[w] == *v;
                                assert(name_from_earlier(
                                    to_add@[w],
                                    required_variables@,
                                    k as int,
                                ));
                                let m = choose|m: int|
                                    0 <= m < k && (#[trigger] required_variables@[m]).name@
                                        == to_add@[w].template.name@;
                                assert(required_variables@[m].name@ == required_variables@[
                                    k as int].name@);
                            }
                            let c = v.clone();
                            resolved.push(c);
                        },
                        None => {
                            let new_id = crate::util::gen_unique_id();
                            let id_known = store.has_variable_id(&new_id);
                            let mut id_pending = false;
                            let mut w: usize = 0;
                            while w < to_add.len()
                                invariant
                                    w <= to_add@.len(),
                                    id_pending == exists|m: int|
                                        0 <= m < w && (#[trigger] to_add@[m]).id@ == new_id@,
                                decreases to_add@.len() - w,
                            {
                                if crate::text::str_eq(to_add[w].id.as_str(), new_id.as_str()) {
                                    id_pending = true;
                                }
                                w += 1;
                            }
                            if id_known || id_pending {
                                proof {
                                    if id_known {
                                        assert(variable_ids(store.variables@).len()
                                            == store.variables@.len());
                                    }
                                }
                                return Err(Error::DuplicateId);
                            }
                            let ghost prev_combined = store.variables@ + to_add@;
                            let nv = Variable {
                                id: new_id,
                                template: required_variables[k].clone(),
                            };
                            let c = nv.clone();
                            to_add.push(nv);
                            resolved.push(c);
                            proof {
                                let combined = store.variables@ + to_add@;
                                assert(combined =~= prev_combined.push(nv));
                                assert(variable_ids(combined) =~= variable_ids(
                                    prev_combined,
                                ).push(new_id@));
                                assert forall|j: int|
                                    0 <= j < variable_ids(prev_combined).len() implies variable_ids(
                                    prev_combined,
                                )[j] != new_id@ by {
                                    assert(variable_ids(prev_combined)[j]
                                        == prev_combined[j].id@);
                                    if j < store.variables@.len() {
                                        assert(prev_combined[j] == store.variables@[j]);
                                        assert(variable_ids(store.variables@)[j]
                                            == store.variables@[j].id@);
                                    } else {
                                        assert(prev_combined[j] == to_add@.drop_last()[j
                                            - store.variables@.len()]);
                                    }
                                }
                                assert(variable_ids(combined).no_duplicates());
                            }
                        },
                    }
                },
            }
            k += 1;
        }
        let experiment_id = crate::util::gen_unique_id();
        match store.record_index_by_id(experiment_id.as_str()) {
            Some(_) => {
                return Err(Error::DuplicateId);
            },
            None => {},
        }
        let ghost pre = *store;
        let mut to_add = to_add;
        self_append_variables(store, &mut to_add);
        let required = resolved;
        let rec = ExperimentRecord {
            id: experiment_id,
            name,
            description,
            researcher,
            variables: required,
        };
        let e = Experiment::from_record(&rec);
        store.experiments.push(rec);
        proof {
            let post = *store;
            assert(record_ids(post.experiments@) =~= record_ids(pre.experiments@).push(
                e.id@,
            ));
            assert(record_names(post.experiments@) =~= record_names(pre.experiments@).push(
                name@,
            ));
            assert forall|j: int|
                0 <= j < record_ids(pre.experiments@).len() implies record_ids(
                pre.experiments@,
            )[j] != e.id@ by {
                assert(record_ids(pre.experiments@)[j] == pre.experiments@[j].id@);
            }
            assert(record_ids(post.experiments@).no_duplicates());
            assert(record_names(post.experiments@).no_duplicates());
            assert forall|i: int|
                0 <= i < post.runs@.len() implies record_ids(post.experiments@).contains(
                (#[trigger] post.runs@[i]).experiment_id@,
            ) by {
                assert(record_ids(pre.experiments@).contains(pre.runs@[i].experiment_id@));
                let w = choose|w: int|
                    0 <= w < record_ids(pre.experiments@).len() && record_ids(pre.experiments@)[w]
                        == pre.runs@[i].experiment_id@;
                assert(record_ids(post.experiments@)[w] == record_ids(pre.experiments@)[w]);
            }
            assert(pre.experiments@.is_prefix_of(post.experiments@)) by {
                assert(pre.experiments@ =~= post.experiments@.subrange(
                    0,
                    pre.experiments@.len() as int,
                ));
            }
            assert(old(store).experiments@.is_prefix_of(post.experiments@));
            assert(record_names(post.experiments@)[post.experiments@.len() - 1] == name@);
            assert(e.matches_record(post.experiments@[post.experiments@.len() - 1]));
            lemma_measurement_links_stable(pre, post);
        }
        Ok(e)
    }
}

/// Appends the new variables to the catalog.
fn self_append_variables(store: &mut ArchiveStore, to_add: &mut Vec<Variable>)
    requires
        variable_ids(old(store).variables@ + old(to_add)@).no_duplicates(),
        old(store).wf(),
    ensures
        final(store).wf(),
        final(store).variables@ == old(store).variables@ + old(to_add)@,
        old(store).variables@.is_prefix_of(final(store).variables@),
        final(store).experiments == old(store).experiments,
        final(store).runs == old(store).runs,
        final(store).measurements == old(store).measurements,
{
    self_append_inner(&mut store.variables, to_add);
    proof {
        assert(old(store).variables@.is_prefix_of(store.variables@)) by {
            assert(old(store).variables@ =~= store.variables@.subrange(
                0,
                old(store).variables@.len() as int,
            ));
        }
        lemma_measurement_links_stable(*old(store), *store);
    }
}

/// The link between measurements and runs only reads the run and
/// measurement tables; it carries over when both are unchanged.
proof fn lemma_measurement_links_stable(pre: ArchiveStore, post: ArchiveStore)
    requires
        pre.wf(),
        post.runs@ == pre.runs@,
        post.measurements@ == pre.measurements@,
    ensures
        forall|i: int|
            0 <= i < post.measurements@.len() ==> post.meas_linked(
                #[trigger] post.measurements@[i],
            ),
{
    assert forall|i: int|
        0 <= i < post.measurements@.len() implies post.meas_linked(
        #[trigger] post.measurements@[i],
    ) by {
        assert(pre.meas_linked(pre.measurements@[i]));
        let j = choose|j: int|
            0 <= j < pre.runs@.len() && (#[trigger] pre.runs@[j]).run_id@ == pre.measurements@[
            i].run_id@ && pre.runs@[j].experiment_id@ == pre.measurements@[i].experiment_id@;
        assert(post.runs@[j].run_id@ == post.measurements@[i].run_id@
            && post.runs@[j].experiment_id@ == post.measurements@[i].experiment_id@);
    }
}

/// Appends `extra` to `base`.
fn self_append_inner(base: &mut Vec<Variable>, extra: &mut Vec<Variable>)
    ensures
        final(base)@ == old(base)@ + old(extra)@,
{
    base.append(extra);
}

/// The number of the last (and hence highest-numbered) run of experiment
/// `eid` in `s`, if any.
pub open spec fn last_run_number_in(s: Seq<RawRun>, eid: Seq<char>) -> Option<usize>
    decreases s.len(),
{
    if s.len() == 0 {
        None
    } else if s.last().experiment_id@ == eid {
        Some(s.last().run_number)
    } else {
        last_run_number_in(s.drop_last(), eid)
    }
}

/// Under the per-experiment ordering invariant, the last run's number is
/// the maximum; without a last run there is no run of the experiment.
pub proof fn lemma_last_number_max(s: Seq<RawRun>, eid: Seq<char>)
    requires
        forall|i: int, j: int|
            0 <= i < j < s.len() && (#[trigger] s[i]).experiment_id@ == (#[trigger] s[j]).experiment_id@
                ==> s[i].run_number < s[j].run_number,
    ensures
        match last_run_number_in(s, eid) {
            Some(n) => (exists|j: int|
                0 <= j < s.len() && (#[trigger] s[j]).experiment_id@ == eid && s[j].run_number
                    == n) && forall|i: int|
                0 <= i < s.len() && (#[trigger] s[i]).experiment_id@ == eid ==> s[i].run_number
                    <= n,
            None => forall|i: int| 0 <= i < s.len() ==> (#[trigger] s[i]).experiment_id@ != eid,
        },
    decreases s.len(),
{
    if s.len() > 0 {
        let d = s.drop_last();
        assert(forall|i: int| 0 <= i < d.len() ==> #[trigger] d[i] == s[i]);
        lemma_last_number_max(d, eid);
        if s.last().experiment_id@ == eid {
            let n = s.last().run_number;
            assert(s[s.len() - 1].experiment_id@ == eid && s[s.len() - 1].run_number == n);
            assert forall|i: int|
                0 <= i < s.len() && (#[trigger] s[i]).experiment_id@ == eid implies s[
                i].run_number <= n by {
                if i < s.len() - 1 {
                    assert(s[i].run_number < s[s.len() - 1].run_number);
                }
            }
        } else {
            match last_run_number_in(d, eid) {
                Some(n0) => {
                    let j = choose|j: int|
                        0 <= j < d.len() && (#[trigger] d[j]).experiment_id@ == eid
                            && d[j].run_number == n0;
                    assert(s[j].experiment_id@ == eid && s[j].run_number == n0);
                    assert forall|i: int|
                        0 <= i < s.len() && (#[trigger] s[i]).experiment_id@ == eid implies s[
                        i].run_number <= n0 by {
                        assert(i < s.len() - 1);
                        assert(d[i].experiment_id@ == eid);
                    }
                },
                None => {
                    assert forall|i: int|
                        0 <= i < s.len() implies (#[trigger] s[i]).experiment_id@ != eid by {
                        if i < s.len() - 1 {
                            assert(d[i].experiment_id@ != eid);
                        }
                    }
                },
            }
        }
    }
}

/// A single measurement from an experiment run.
#[derive(Debug)]
pub struct Measurement {
    pub variable: Variable,
    pub value: String,
    pub timestamp: i64,
    pub run_number: usize,
}

impl Measurement {
    pub fn new(variable: Variable, value: String, timestamp: i64, run_number: usize) -> (r:
        Measurement)
        ensures
            r == (Measurement { variable, value, timestamp, run_number }),
    {
        Measurement { variable, value, timestamp, run_number }
    }

    /// Access the value of this measurement.
    pub fn value(&self) -> (r: &str)
        ensures
            r@ == self.value@,
    {
        self.value.as_str()
    }

    /// Access the timestamp of this measurement.
    pub fn timestamp(&self) -> (r: i64)
        ensures
            r == self.timestamp,
    {
        self.timestamp
    }

    /// Access the run number of this measurement.
    pub fn run_number(&self) -> (r: usize)
        ensures
            r == self.run_number,
    {
        self.run_number
    }

    /// Access the variable of this measurement.
    pub fn variable(&self) -> (r: &Variable)
        ensures
            r == &self.variable,
    {
        &self.variable
    }

    /// Fetch the measurement of one variable in one run. There must be
    /// exactly one matching row; any other count is a store-shape error.
    pub fn fetch_by_run_and_variable(
        store: &ArchiveStore,
        run_id: &str,
        run_number: usize,
        variable: &Variable,
    ) -> (r: Result<Measurement, Error>)
        ensures
            ({
                let rows = store.measurements@.filter(meas_match(run_id@, variable.id@));
                match r {
                    Ok(m) => rows.len() == 1 && m.variable == *variable && m.value@
                        == rows[0].value@ && m.timestamp == rows[0].timestamp && m.run_number
                        == run_number,
                    Err(e) => rows.len() != 1 && e == Error::MeasurementMismatch,
                }
            }),
    {
        let ghost pred = meas_match(run_id@, variable.id@);
        let mut found: Option<usize> = None;
        let mut count: usize = 0;
        let mut i: usize = 0;
        while i < store.measurements.len()
            invariant
                i <= store.measurements@.len(),
                pred == meas_match(run_id@, variable.id@),
                count == store.measurements@.take(i as int).filter(pred).len(),
                count <= i,
                match found {
                    Some(w) => w < i && count >= 1 && store.measurements@[w as int]
                        == store.measurements@.take(i as int).filter(pred)[0],
                    None => count == 0,
                },
            decreases store.measurements@.len() - i,
        {
            proof {
                crate::sets::lemma_filter_take_step(store.measurements@, pred, i as int);
            }
            let rid_matches = crate::text::str_eq(store.measurements[i].run_id.as_str(), run_id);
            if rid_matches {
                if crate::text::str_eq(store.measurements[i].variable_id.as_str(), variable.id.as_str()) {
                    if found.is_none() {
                        found = Some(i);
                    }
                    count += 1;
                }
            }
            i += 1;
        }
        proof {
            crate::sets::lemma_filter_take_all(store.measurements@, pred);
        }
        if count != 1 {
            return Err(Error::MeasurementMismatch);
        }
        match found {
            Some(w) => Ok(
                Measurement {
                    variable: variable.clone(),
                    value: store.measurements[w].value.clone(),
                    timestamp: store.measurements[w].timestamp,
                    run_number,
                },
            ),
            None => vstd::pervasive::unreached(),
        }
    }
}

/// The predicate selecting the measurement rows of run `rid` for variable
/// `vid`.
pub open spec fn meas_match(rid: Seq<char>, vid: Seq<char>) -> spec_fn(MeasurementRow) -> bool {
    |m: MeasurementRow| m.run_id@ == rid && m.variable_id@ == vid
}

/// The measurement is the variable's unique stored row of run `rid`,
/// carrying its value and timestamp and the run's number.
pub open spec fn measurement_matches(
    store: ArchiveStore,
    v: Variable,
    rid: Seq<char>,
    number: usize,
    m: Measurement,
) -> bool {
    let rows = store.measurements@.filter(meas_match(rid, v.id@));
    &&& m.variable == v
    &&& rows.len() == 1
    &&& m.value@ == rows[0].value@
    &&& m.timestamp == rows[0].timestamp
    &&& m.run_number == number
}

/// One measurement per variable, in variable order, each matching its
/// unique stored row of run `rid`.
pub open spec fn measurements_match(
    store: ArchiveStore,
    vars: Seq<Variable>,
    rid: Seq<char>,
    number: usize,
    ms: Seq<Measurement>,
) -> bool {
    ms.len() == vars.len() && forall|k: int|
        0 <= k < ms.len() ==> measurement_matches(store, vars[k], rid, number, #[trigger] ms[k])
}

impl RawRun {
    /// Try to fetch the run with the given id from the store.
    pub fn from_id(store: &ArchiveStore, run_id: &str) -> (r: Option<RawRun>)
        ensures
            match r {
                Some(run) => store.runs@.contains(run) && run.run_id@ == run_id@,
                None => !raw_run_ids(store.runs@).contains(run_id@),
            },
    {
        let mut i: usize = 0;
        while i < store.runs.len()
            invariant
                i <= store.runs@.len(),
                forall|j: int| 0 <= j < i ==> (#[trigger] raw_run_ids(store.runs@)[j]) != run_id@,
            decreases store.runs@.len() - i,
        {
            if crate::text::str_eq(store.runs[i].run_id.as_str(), run_id) {
                let run = store.runs[i].clone();
                proof {
                    assert(store.runs@.contains(store.runs@[i as int]));
                }
                return Some(run);
            }
            assert(raw_run_ids(store.runs@)[i as int] == store.runs@[i as int].run_id@);
            i += 1;
        }
        None
    }
}

impl Clone for Experiment {
    fn clone(&self) -> (r: Experiment)
        ensures
            r.id@ == self.id@,
            r.name@ == self.name@,
            r.description@ == self.description@,
            r.researcher@ == self.researcher@,
            r.required_variables@ == self.required_variables@,
            r.autolog_runs == self.autolog_runs,
    {
        let required_variables = self.required_variables.clone();
        proof {
            assert(required_variables@ =~= self.required_variables@);
        }
        Experiment {
            id: self.id.clone(),
            name: self.name.clone(),
            description: self.description.clone(),
            researcher: self.researcher.clone(),
            required_variables,
            autolog_runs: self.autolog_runs,
        }
    }
}

/// Does some submitted value belong to the variable with this id?
pub open spec fn var_id_in_values(v: Variable, values: Seq<(Variable, String)>) -> bool {
    exists|k: int| 0 <= k < values.len() && (#[trigger] values[k]).0.id@ == v.id@
}

/// The submitted values assign exactly one value to each variable: same
/// count, every variable assigned, no variable assigned twice.
pub open spec fn values_cover(vars: Seq<Variable>, values: Seq<(Variable, String)>) -> bool {
    &&& values.len() == vars.len()
    &&& forall|i: int| 0 <= i < vars.len() ==> var_id_in_values(#[trigger] vars[i], values)
    &&& forall|i: int, j: int|
        0 <= i < j < values.len() ==> (#[trigger] values[i]).0.id@ != (#[trigger] values[j]).0.id@
}

/// Context for memorizing variable values while running an experiment.
/// Values are keyed by the variable: reporting a variable twice replaces
/// its earlier value.
#[derive(Debug)]
pub struct RunContext {
    pub experiment: Experiment,
    pub variable_values: Vec<(Variable, String)>,
}

impl RunContext {
    /// An empty context bound to the experiment.
    pub fn from_experiment(experiment: &Experiment) -> (r: RunContext)
        ensures
            r.experiment.required_variables@ == experiment.required_variables@,
            r.experiment.id@ == experiment.id@,
            r.variable_values@.len() == 0,
    {
        RunContext { experiment: experiment.clone(), variable_values: Vec::new() }
    }

    /// Adds a value for the first required variable with the given name:
    /// values reported for that variable before are dropped, and the new
    /// value is appended. Fails, changing nothing, exactly when the
    /// experiment has no variable of that name.
    pub fn add_value_by_name(&mut self, variable_name: &str, value: String) -> (r: Result<
        (),
        Error,
    >)
        ensures
            final(self).experiment == old(self).experiment,
            r is Ok <==> variable_names(old(self).experiment.required_variables@).contains(
                variable_name@,
            ),
            r is Err ==> *final(self) == *old(self) && r == Err::<(), Error>(
                Error::UnknownVariable,
            ),
            r is Ok ==> exists|i: int|
                first_named_at(
                    old(self).experiment.required_variables@,
                    variable_name@,
                    i,
                ) && final(self).variable_values@ == old(self).variable_values@.filter(
                    entry_not_for(old(self).experiment.required_variables@[i].id@),
                ).push((old(self).experiment.required_variables@[i], value)),
    {
        let var = match find_by_template_name(
            &self.experiment.required_variables,
            variable_name,
        ) {
            Some(v) => v.clone(),
            None => {
                return Err(Error::UnknownVariable);
            },
        };
        let ghost fi = choose|i: int|
            first_named_at(self.experiment.required_variables@, variable_name@, i)
                && self.experiment.required_variables@[i] == var;
        proof {
            assert(variable_names(self.experiment.required_variables@)[fi] == variable_name@);
        }
        let var_id = var.id.clone();
        let _dropped = crate::delete::retain_rows(
            &mut self.variable_values,
            &var_id,
            entry_keeps_variable,
            Ghost(entry_not_for(var.id@)),
        );
        self.variable_values.push((var, value));
        proof {
            assert(entry_not_for(old(self).experiment.required_variables@[fi].id@)
                == entry_not_for(var_id@));
        }
        Ok(())
    }
}

impl Experiment {
    /// Runs this experiment: the values accumulated in the context are
    /// validated against the required variables (exactly one value per
    /// variable) and persisted as the next numbered run of the
    /// experiment, atomically, under a fresh run id whose text is
    /// returned. A value set that misses or duplicates a variable is
    /// rejected with nothing written; an id collision or an exhausted
    /// run-number range also leaves the store unchanged.
    pub fn run(&self, store: &mut ArchiveStore, context: &RunContext) -> (r: Result<String, Error>)
        requires
            old(store).wf(),
            record_ids(old(store).experiments@).contains(self.id@),
        ensures
            final(store).wf(),
            final(store).experiments == old(store).experiments,
            final(store).variables == old(store).variables,
            old(store).runs@.is_prefix_of(final(store).runs@),
            final(store).runs@.len() <= old(store).runs@.len() + 1,
            r == Err::<String, Error>(Error::MeasurementMismatch) <==> !values_cover(
                self.required_variables@,
                context.variable_values@,
            ),
            !values_cover(self.required_variables@, context.variable_values@) ==> *final(store)
                == *old(store),
            r == Err::<String, Error>(Error::Unsupported) <==> values_cover(
                self.required_variables@,
                context.variable_values@,
            ) && last_run_number_in(old(store).runs@, self.id@) == Some(usize::MAX),
            values_cover(self.required_variables@, context.variable_values@)
                && last_run_number_in(old(store).runs@, self.id@) != Some(usize::MAX) ==> (
            r is Ok || r == Err::<String, Error>(Error::DuplicateId)),
            r == Err::<String, Error>(Error::DuplicateId) ==> old(store).runs@.len() > 0,
            r is Err ==> *final(store) == *old(store) && (r == Err::<String, Error>(
                Error::MeasurementMismatch,
            ) || r == Err::<String, Error>(Error::DuplicateId) || r == Err::<String, Error>(
                Error::Unsupported,
            )),
            r matches Ok(rid) ==> {
                &&& final(store).runs@.len() == old(store).runs@.len() + 1
                &&& final(store).runs@.last().experiment_id@ == self.id@
                &&& final(store).runs@.last().run_number == (match last_run_number_in(
                    old(store).runs@,
                    self.id@,
                ) {
                    Some(n) => n + 1,
                    None => 1,
                })
                &&& rid@ == final(store).runs@.last().run_id@
                &&& !raw_run_ids(old(store).runs@).contains(rid@)
                &&& final(store).measurements@.len() == old(store).measurements@.len()
                    + context.variable_values@.len()
                &&& forall|m: int|
                    0 <= m < context.variable_values@.len()
                        ==> ((#[trigger] final(store).measurements@[old(store).measurements@.len()
                        + m]).run_id@ == rid@
                        && final(store).measurements@[old(store).measurements@.len()
                        + m].variable_id@ == context.variable_values@[m].0.id@
                        && final(store).measurements@[old(store).measurements@.len()
                        + m].value@ == context.variable_values@[m].1@)
            },
    {
        // exactly one value per required variable
        if context.variable_values.len() != self.required_variables.len() {
            return Err(Error::MeasurementMismatch);
        }
        let n = context.variable_values.len();
        let mut k: usize = 0;
        while k < n
            invariant
                k <= n,
                n == context.variable_values@.len(),
                *store == *old(store),
                old(store).wf(),
                forall|i: int, j: int|
                    0 <= i < j < k ==> (#[trigger] context.variable_values@[i]).0.id@
                        != (#[trigger] context.variable_values@[j]).0.id@,
            decreases n - k,
        {
            let mut j: usize = 0;
            while j < k
                invariant
                    j <= k < n,
                    n == context.variable_values@.len(),
                    *store == *old(store),
                    old(store).wf(),
                    forall|i: int|
                        0 <= i < j ==> (#[trigger] context.variable_values@[i]).0.id@
                            != context.variable_values@[k as int].0.id@,
                decreases k - j,
            {
                if crate::text::str_eq(
                    context.variable_values[j].0.id.as_str(),
                    context.variable_values[k].0.id.as_str(),
                ) {
                    return Err(Error::MeasurementMismatch);
                }
                j += 1;
            }
            k += 1;
        }
        let mut v: usize = 0;
        while v < self.required_variables.len()
            invariant
                v <= self.required_variables@.len(),
                n == context.variable_values@.len(),
                *store == *old(store),
                old(store).wf(),
                forall|i: int|
                    0 <= i < v ==> var_id_in_values(
                        #[trigger] self.required_variables@[i],
                        context.variable_values@,
                    ),
            decreases self.required_variables@.len() - v,
        {
            let mut found = false;
            let mut m: usize = 0;
            while m < context.variable_values.len()
                invariant
                    m <= context.variable_values@.len(),
                    v < self.required_variables@.len(),
                    *store == *old(store),
                    old(store).wf(),
                    found ==> var_id_in_values(
                        self.required_variables@[v as int],
                        context.variable_values@,
                    ),
                    !found ==> forall|w: int|
                        0 <= w < m ==> (#[trigger] context.variable_values@[w]).0.id@
                            != self.required_variables@[v as int].id@,
                decreases context.variable_values@.len() - m,
            {
                if crate::text::str_eq(
                    context.variable_values[m].0.id.as_str(),
                    self.required_variables[v].id.as_str(),
                ) {
                    found = true;
                }
                m += 1;
            }
            if !found {
                proof {
                    assert(!var_id_in_values(
                        self.required_variables@[v as int],
                        context.variable_values@,
                    ));
                }
                return Err(Error::MeasurementMismatch);
            }
            v += 1;
        }
        // the next run number of this experiment
        let mut last: Option<usize> = None;
        let mut i: usize = 0;
        while i < store.runs.len()
            invariant
                i <= store.runs@.len(),
                *store == *old(store),
                old(store).wf(),
                last == last_run_number_in(store.runs@.take(i as int), self.id@),
            decreases store.runs@.len() - i,
        {
            proof {
                let t1 = store.runs@.take(i + 1);
                assert(t1.drop_last() =~= store.runs@.take(i as int));
                assert(t1.last() == store.runs@[i as int]);
            }
            if crate::text::str_eq(store.runs[i].experiment_id.as_str(), self.id.as_str()) {
                last = Some(store.runs[i].run_number);
            }
            i += 1;
        }
        proof {
            assert(store.runs@.take(store.runs@.len() as int) =~= store.runs@);
        }
        let number = match last {
            Some(x) => {
                if x == usize::MAX {
                    return Err(Error::Unsupported);
                }
                x + 1
            },
            None => 1,
        };
        let run_id = crate::util::gen_unique_id();
        if store.has_run_id(&run_id) {
            return Err(Error::DuplicateId);
        }
        let timestamp = crate::util::now_timestamp();
        let ghost pre = *store;
        store.runs.push(
            RawRun {
                run_id: run_id.clone(),
                run_number: number,
                experiment_id: self.id.clone(),
                timestamp,
            },
        );
        let mut m: usize = 0;
        while m < context.variable_values.len()
            invariant
                m <= context.variable_values@.len(),
                store.runs@ == pre.runs@.push(
                    (RawRun {
                        run_id,
                        run_number: number,
                        experiment_id: self.id,
                        timestamp,
                    }),
                ),
                store.measurements@.len() == pre.measurements@.len() + m,
                pre.measurements@.is_prefix_of(store.measurements@),
                forall|w: int|
                    0 <= w < m ==> (#[trigger] store.measurements@[pre.measurements@.len()
                        + w]).run_id@ == run_id@ && store.measurements@[pre.measurements@.len()
                        + w].variable_id@ == context.variable_values@[w].0.id@
                        && store.measurements@[pre.measurements@.len() + w].value@
                        == context.variable_values@[w].1@ && store.measurements@[
                    pre.measurements@.len() + w].experiment_id@ == self.id@,
                store.experiments == pre.experiments,
                store.variables == pre.variables,
            decreases context.variable_values@.len() - m,
        {
            store.measurements.push(
                MeasurementRow {
                    experiment_id: self.id.clone(),
                    variable_id: context.variable_values[m].0.id.clone(),
                    run_id: run_id.clone(),
                    value: context.variable_values[m].1.clone(),
                    timestamp,
                },
            );
            m += 1;
        }
        proof {
            let post = *store;
            let nrow = RawRun { run_id, run_number: number, experiment_id: self.id, timestamp };
            // unique run ids
            assert(raw_run_ids(post.runs@) =~= raw_run_ids(pre.runs@).push(run_id@));
            assert(raw_run_ids(post.runs@).no_duplicates());
            // runs reference existing experiments
            assert forall|i2: int|
                0 <= i2 < post.runs@.len() implies record_ids(post.experiments@).contains(
                (#[trigger] post.runs@[i2]).experiment_id@,
            ) by {
                if i2 < pre.runs@.len() {
                    assert(post.runs@[i2] == pre.runs@[i2]);
                } else {
                    assert(post.runs@[i2] == nrow);
                }
            }
            // run numbers stay strictly increasing per experiment
            lemma_last_number_max(pre.runs@, self.id@);
            assert forall|a: int, b: int|
                0 <= a < b < post.runs@.len() && (#[trigger] post.runs@[a]).experiment_id@
                    == (#[trigger] post.runs@[b]).experiment_id@ implies post.runs@[a].run_number
                < post.runs@[b].run_number by {
                if b < pre.runs@.len() {
                    assert(post.runs@[a] == pre.runs@[a]);
                    assert(post.runs@[b] == pre.runs@[b]);
                } else {
                    assert(post.runs@[b] == nrow);
                    assert(post.runs@[a] == pre.runs@[a]);
                }
            }
            // measurements stay linked to a run of their own experiment
            assert forall|i2: int|
                0 <= i2 < post.measurements@.len() implies post.meas_linked(
                #[trigger] post.measurements@[i2],
            ) by {
                if i2 < pre.measurements@.len() {
                    assert(post.measurements@[i2] == pre.measurements@[i2]);
                    assert(pre.meas_linked(pre.measurements@[i2]));
                    let j = choose|j: int|
                        0 <= j < pre.runs@.len() && (#[trigger] pre.runs@[j]).run_id@
                            == pre.measurements@[i2].run_id@ && pre.runs@[j].experiment_id@
                            == pre.measurements@[i2].experiment_id@;
                    assert(post.runs@[j] == pre.runs@[j]);
                } else {
                    let w = i2 - pre.measurements@.len();
                    assert(post.measurements@[pre.measurements@.len() + w].run_id@ == run_id@
                        && post.measurements@[pre.measurements@.len() + w].experiment_id@
                        == self.id@);
                    assert(post.runs@[post.runs@.len() - 1] == nrow);
                }
            }
            assert(pre.runs@.is_prefix_of(post.runs@)) by {
                assert(pre.runs@ =~= post.runs@.subrange(0, pre.runs@.len() as int));
            }
        }
        Ok(run_id)
    }
}

/// One run of an experiment together with its measurements.
#[derive(Debug)]
pub struct Run {
    pub run_id: String,
    pub run_number: usize,
    pub measurements: Vec<Measurement>,
}

impl Run {
    pub fn new(run_id: String, run_number: usize, measurements: Vec<Measurement>) -> (r: Run)
        ensures
            r == (Run { run_id, run_number, measurements }),
    {
        Run { run_id, run_number, measurements }
    }

    pub fn id(&self) -> (r: &str)
        ensures
            r@ == self.run_id@,
    {
        self.run_id.as_str()
    }

    pub fn run_number(&self) -> (r: usize)
        ensures
            r == self.run_number,
    {
        self.run_number
    }

    pub fn measurements(&self) -> (r: &Vec<Measurement>)
        ensures
            r == &self.measurements,
    {
        &self.measurements
    }

    /// Builds the run with its measurements from a stored run row: one
    /// measurement per required variable, from the variable's unique
    /// stored row. Fails exactly when some variable's matching-row count
    /// differs from one.
    pub fn from_raw_run(store: &ArchiveStore, raw_run: &RawRun, experiment: &Experiment) -> (r:
        Result<Run, Error>)
        requires
            store.wf(),
            store.runs@.contains(*raw_run),
        ensures
            r matches Ok(run) ==> run.run_id@ == raw_run.run_id@ && run.run_number
                == raw_run.run_number && measurements_match(
                *store,
                experiment.required_variables@,
                raw_run.run_id@,
                raw_run.run_number,
                run.measurements@,
            ),
            r is Err <==> exists|k: int|
                0 <= k < experiment.required_variables@.len() && store.measurements@.filter(
                    meas_match(
                        raw_run.run_id@,
                        (#[trigger] experiment.required_variables@[k]).id@,
                    ),
                ).len() != 1,
            r is Err ==> r == Err::<Run, Error>(Error::MeasurementMismatch),
    {
        proof {
            let w = choose|w: int| 0 <= w < store.runs@.len() && store.runs@[w] == *raw_run;
            assert(raw_run_ids(store.runs@)[w] == raw_run.run_id@);
        }
        let measurements = match experiment.measurements_for_run(store, raw_run.run_id.as_str()) {
            Ok(ms) => ms,
            Err(e) => {
                return Err(e);
            },
        };
        proof {
            let w = choose|w: int| 0 <= w < store.runs@.len() && store.runs@[w] == *raw_run;
            assert(store.runs@[w].run_id@ == raw_run.run_id@);
            assert(measurements_match(
                *store,
                experiment.required_variables@,
                raw_run.run_id@,
                store.runs@[w].run_number,
                measurements@,
            ));
        }
        Ok(Run {
            run_id: raw_run.run_id.clone(),
            run_number: raw_run.run_number,
            measurements,
        })
    }
}

impl Experiment {
    /// Fetches all measurements for the given run of this experiment: one
    /// per required variable, in the order of the variables, each carrying
    /// the unique stored row's value and timestamp and the run's number.
    /// Fails with `UnknownRun` exactly when no run has the id, and with
    /// `MeasurementMismatch` exactly when some variable's matching-row
    /// count differs from one.
    pub fn measurements_for_run(&self, store: &ArchiveStore, run_id: &str) -> (r: Result<
        Vec<Measurement>,
        Error,
    >)
        requires
            store.wf(),
        ensures
            r == Err::<Vec<Measurement>, Error>(Error::UnknownRun) <==> !raw_run_ids(
                store.runs@,
            ).contains(run_id@),
            r == Err::<Vec<Measurement>, Error>(Error::MeasurementMismatch) <==> raw_run_ids(
                store.runs@,
            ).contains(run_id@) && exists|k: int|
                0 <= k < self.required_variables@.len() && store.measurements@.filter(
                    meas_match(run_id@, (#[trigger] self.required_variables@[k]).id@),
                ).len() != 1,
            r is Err ==> r == Err::<Vec<Measurement>, Error>(Error::UnknownRun) || r == Err::<
                Vec<Measurement>,
                Error,
            >(Error::MeasurementMismatch),
            r matches Ok(ms) ==> forall|j: int|
                0 <= j < store.runs@.len() && (#[trigger] store.runs@[j]).run_id@ == run_id@
                    ==> measurements_match(
                    *store,
                    self.required_variables@,
                    run_id@,
                    store.runs@[j].run_number,
                    ms@,
                ),
    {
        let raw = match RawRun::from_id(store, run_id) {
            Some(raw) => raw,
            None => {
                return Err(Error::UnknownRun);
            },
        };
        proof {
            let w = choose|w: int| 0 <= w < store.runs@.len() && store.runs@[w] == raw;
            assert(raw_run_ids(store.runs@)[w] == run_id@);
        }
        let mut out: Vec<Measurement> = Vec::new();
        let mut k: usize = 0;
        while k < self.required_variables.len()
            invariant
                k <= self.required_variables@.len(),
                out@.len() == k,
                store.wf(),
                raw_run_ids(store.runs@).contains(run_id@),
                store.runs@.contains(raw),
                raw.run_id@ == run_id@,
                forall|m: int|
                    0 <= m < k ==> measurement_matches(
                        *store,
                        self.required_variables@[m],
                        run_id@,
                        raw.run_number,
                        #[trigger] out@[m],
                    ),
            decreases self.required_variables@.len() - k,
        {
            let m = match Measurement::fetch_by_run_and_variable(
                store,
                run_id,
                raw.run_number,
                &self.required_variables[k],
            ) {
                Ok(m) => m,
                Err(e) => {
                    proof {
                        assert(store.measurements@.filter(
                            meas_match(run_id@, self.required_variables@[k as int].id@),
                        ).len() != 1);
                    }
                    return Err(e);
                },
            };
            let ghost pre_out = out@;
            out.push(m);
            proof {
                assert forall|w: int|
                    0 <= w < k + 1 implies measurement_matches(
                    *store,
                    self.required_variables@[w],
                    run_id@,
                    raw.run_number,
                    #[trigger] out@[w],
                ) by {
                    if w < k {
                        assert(out@[w] == pre_out[w]);
                        assert(measurement_matches(
                            *store,
                            self.required_variables@[w],
                            run_id@,
                            raw.run_number,
                            pre_out[w],
                        ));
                    } else {
                        assert(out@[w] == m);
                    }
                }
            }
            k += 1;
        }
        proof {
            assert forall|k2: int|
                0 <= k2 < self.required_variables@.len() implies store.measurements@.filter(
                meas_match(run_id@, (#[trigger] self.required_variables@[k2]).id@),
            ).len() == 1 by {
                assert(measurement_matches(
                    *store,
                    self.required_variables@[k2],
                    run_id@,
                    raw.run_number,
                    out@[k2],
                ));
            }
            // the run with this id is unique, so the numbers agree
            let wr = choose|wr: int| 0 <= wr < store.runs@.len() && store.runs@[wr] == raw;
            assert forall|j: int|
                0 <= j < store.runs@.len() && (#[trigger] store.runs@[j]).run_id@
                    == run_id@ implies measurements_match(
                *store,
                self.required_variables@,
                run_id@,
                store.runs@[j].run_number,
                out@,
            ) by {
                assert(raw_run_ids(store.runs@)[j] == store.runs@[j].run_id@);
                assert(raw_run_ids(store.runs@)[wr] == store.runs@[wr].run_id@);
                if j != wr {
                    assert(raw_run_ids(store.runs@)[j] != raw_run_ids(store.runs@)[wr]);
                }
                assert(store.runs@[j].run_number == raw.run_number);
            }
        }
        Ok(out)
    }

    /// Fetches all runs of this experiment, in ascending run-number order,
    /// each with one measurement per required variable from its unique
    /// stored row. Fails exactly when some run of the experiment has a
    /// variable whose matching-row count differs from one.
    pub fn all_runs(&self, store: &ArchiveStore) -> (r: Result<Vec<Run>, Error>)
        requires
            store.wf(),
        ensures
            r is Err <==> run_rows_broken(*store, self.id@, self.required_variables@),
            r is Err ==> r == Err::<Vec<Run>, Error>(Error::MeasurementMismatch),
            r matches Ok(rs) ==> {
                &&& rs@.len() == store.runs@.filter(araw_of_experiment(self.id@)).len()
                &&& forall|k: int|
                    0 <= k < rs@.len() ==> (#[trigger] rs@[k]).run_id@ == store.runs@.filter(
                        araw_of_experiment(self.id@),
                    )[k].run_id@ && rs@[k].run_number == store.runs@.filter(
                        araw_of_experiment(self.id@),
                    )[k].run_number
                &&& forall|k: int|
                    0 <= k < rs@.len() ==> measurements_match(
                        *store,
                        self.required_variables@,
                        store.runs@.filter(araw_of_experiment(self.id@))[k].run_id@,
                        store.runs@.filter(araw_of_experiment(self.id@))[k].run_number,
                        (#[trigger] rs@[k]).measurements@,
                    )
                &&& forall|i: int, j: int|
                    0 <= i < j < rs@.len() ==> (#[trigger] rs@[i]).run_number
                        < (#[trigger] rs@[j]).run_number
            },
    {
        let ghost pred = araw_of_experiment(self.id@);
        let mut out: Vec<Run> = Vec::new();
        let mut i: usize = 0;
        while i < store.runs.len()
            invariant
                i <= store.runs@.len(),
                store.wf(),
                pred == araw_of_experiment(self.id@),
                out@.len() == store.runs@.take(i as int).filter(pred).len(),
                forall|k: int|
                    0 <= k < out@.len() ==> (#[trigger] out@[k]).run_id@ == store.runs@.take(
                        i as int,
                    ).filter(pred)[k].run_id@ && out@[k].run_number == store.runs@.take(
                        i as int,
                    ).filter(pred)[k].run_number,
                forall|k: int|
                    0 <= k < out@.len() ==> measurements_match(
                        *store,
                        self.required_variables@,
                        store.runs@.take(i as int).filter(pred)[k].run_id@,
                        store.runs@.take(i as int).filter(pred)[k].run_number,
                        (#[trigger] out@[k]).measurements@,
                    ),
            decreases store.runs@.len() - i,
        {
            proof {
                crate::sets::lemma_filter_take_step(store.runs@, pred, i as int);
            }
            if crate::text::str_eq(store.runs[i].experiment_id.as_str(), self.id.as_str()) {
                let raw = store.runs[i].clone();
                proof {
                    assert(store.runs@.contains(store.runs@[i as int]));
                }
                let run = match Run::from_raw_run(store, &raw, self) {
                    Ok(run) => run,
                    Err(e) => {
                        proof {
                            // this run cannot be rebuilt: a broken row set
                            let k = choose|k: int|
                                0 <= k < self.required_variables@.len()
                                    && store.measurements@.filter(
                                    meas_match(
                                        raw.run_id@,
                                        (#[trigger] self.required_variables@[k]).id@,
                                    ),
                                ).len() != 1;
                            assert(store.runs@[i as int].experiment_id@ == self.id@
                                && store.measurements@.filter(
                                meas_match(
                                    store.runs@[i as int].run_id@,
                                    self.required_variables@[k].id@,
                                ),
                            ).len() != 1);
                        }
                        return Err(e);
                    },
                };
                let ghost pre_out = out@;
                out.push(run);
                proof {
                    let fr = store.runs@.take(i + 1).filter(pred);
                    assert forall|k: int|
                        0 <= k < out@.len() implies measurements_match(
                        *store,
                        self.required_variables@,
                        fr[k].run_id@,
                        fr[k].run_number,
                        (#[trigger] out@[k]).measurements@,
                    ) by {
                        if k < pre_out.len() {
                            assert(out@[k] == pre_out[k]);
                            assert(fr[k] == store.runs@.take(i as int).filter(pred)[k]);
                            assert(measurements_match(
                                *store,
                                self.required_variables@,
                                store.runs@.take(i as int).filter(pred)[k].run_id@,
                                store.runs@.take(i as int).filter(pred)[k].run_number,
                                pre_out[k].measurements@,
                            ));
                        } else {
                            assert(out@[k] == run);
                            assert(fr[k] == store.runs@[i as int]);
                        }
                    }
                }
            }
            i += 1;
        }
        proof {
            crate::sets::lemma_filter_take_all(store.runs@, pred);
            crate::sets::lemma_filter_pairwise(
                store.runs@,
                pred,
                |a: RawRun, b: RawRun|
                    a.experiment_id@ == b.experiment_id@ ==> a.run_number < b.run_number,
            );
            assert forall|a: int, b: int|
                0 <= a < b < out@.len() implies (#[trigger] out@[a]).run_number < (
            #[trigger] out@[b]).run_number by {
                let fr = store.runs@.filter(pred);
                assert(fr[a].experiment_id@ == self.id@ && fr[b].experiment_id@ == self.id@);
            }
            // nothing of this experiment is broken: every run of it was
            // rebuilt successfully
            if run_rows_broken(*store, self.id@, self.required_variables@) {
                let (j, k) = choose|j: int, k: int|
                    0 <= j < store.runs@.len() && 0 <= k < self.required_variables@.len()
                        && (#[trigger] store.runs@[j]).experiment_id@ == self.id@
                        && store.measurements@.filter(
                        meas_match(
                            store.runs@[j].run_id@,
                            (#[trigger] self.required_variables@[k]).id@,
                        ),
                    ).len() != 1;
                assert(pred(store.runs@[j]));
                assert(store.runs@.contains(store.runs@[j]));
                crate::sets::lemma_filter_membership(store.runs@, pred, store.runs@[j]);
                let fr = store.runs@.filter(pred);
                assert(fr.contains(store.runs@[j]));
                let k2 = choose|k2: int| 0 <= k2 < fr.len() && fr[k2] == store.runs@[j];
                assert(measurements_match(
                    *store,
                    self.required_variables@,
                    fr[k2].run_id@,
                    fr[k2].run_number,
                    out@[k2].measurements@,
                ));
                assert(measurement_matches(
                    *store,
                    self.required_variables@[k],
                    fr[k2].run_id@,
                    fr[k2].run_number,
                    out@[k2].measurements@[k],
                ));
                assert(false);
            }
        }
        Ok(out)
    }

    /// Fetches the run with the given id: `Ok(None)` exactly when no run
    /// has the id, otherwise the run with its number and one measurement
    /// per required variable from its unique stored row.
    pub fn run_from_id(&self, store: &ArchiveStore, run_id: &str) -> (r: Result<
        Option<Run>,
        Error,
    >)
        requires
            store.wf(),
        ensures
            r matches Ok(opt) ==> (opt is None <==> !raw_run_ids(store.runs@).contains(run_id@)),
            r matches Ok(opt) ==> (opt matches Some(run) ==> run.run_id@ == run_id@ && forall|
                j: int,
            |
                0 <= j < store.runs@.len() && (#[trigger] store.runs@[j]).run_id@ == run_id@
                    ==> run.run_number == store.runs@[j].run_number && measurements_match(
                    *store,
                    self.required_variables@,
                    run_id@,
                    store.runs@[j].run_number,
                    run.measurements@,
                )),
            r is Err ==> r == Err::<Option<Run>, Error>(Error::MeasurementMismatch),
    {
        match RawRun::from_id(store, run_id) {
            None => Ok(None),
            Some(raw) => {
                proof {
                    let w = choose|w: int| 0 <= w < store.runs@.len() && store.runs@[w] == raw;
                    assert(raw_run_ids(store.runs@)[w] == run_id@);
                }
                match Run::from_raw_run(store, &raw, self) {
                    Ok(run) => {
                        proof {
                            let w = choose|w: int|
                                0 <= w < store.runs@.len() && store.runs@[w] == raw;
                            assert forall|j: int|
                                0 <= j < store.runs@.len() && (#[trigger] store.runs@[j]).run_id@
                                    == run_id@ implies run.run_number == store.runs@[j].run_number
                                && measurements_match(
                                *store,
                                self.required_variables@,
                                run_id@,
                                store.runs@[j].run_number,
                                run.measurements@,
                            ) by {
                                assert(raw_run_ids(store.runs@)[j] == store.runs@[j].run_id@);
                                assert(raw_run_ids(store.runs@)[w] == store.runs@[w].run_id@);
                                if j != w {
                                    assert(raw_run_ids(store.runs@)[j] != raw_run_ids(
                                        store.runs@,
                                    )[w]);
                                }
                            }
                        }
                        Ok(Some(run))
                    },
                    Err(e) => Err(e),
                }
            },
        }
    }

    /// Tries to fetch the experiment that the run with the given id
    /// belongs to: the stored experiment owning that run, or nothing when
    /// no run has the id.
    pub fn from_run_id(store: &ArchiveStore, run_id: &str) -> (r: Option<Experiment>)
        requires
            store.wf(),
        ensures
            r is None <==> !raw_run_ids(store.runs@).contains(run_id@),
            r matches Some(e) ==> exists|j: int, i: int|
                0 <= j < store.runs@.len() && 0 <= i < store.experiments@.len()
                    && (#[trigger] store.runs@[j]).run_id@ == run_id@
                    && (#[trigger] store.experiments@[i]).id@ == store.runs@[j].experiment_id@
                    && e.matches_record(store.experiments@[i]),
    {
        let raw = match RawRun::from_id(store, run_id) {
            Some(raw) => raw,
            None => {
                return None;
            },
        };
        proof {
            let w = choose|w: int| 0 <= w < store.runs@.len() && store.runs@[w] == raw;
            assert(raw_run_ids(store.runs@)[w] == run_id@);
        }
        match store.record_index_by_id(raw.experiment_id.as_str()) {
            Some(i) => {
                let e = Experiment::from_record(&store.experiments[i]);
                proof {
                    let j = choose|j: int| 0 <= j < store.runs@.len() && store.runs@[j] == raw;
                    assert(store.runs@[j].run_id@ == run_id@ && store.experiments@[i as int].id@
                        == store.runs@[j].experiment_id@ && e.matches_record(
                        store.experiments@[i as int],
                    ));
                }
                Some(e)
            },
            None => {
                proof {
                    let w = choose|w: int| 0 <= w < store.runs@.len() && store.runs@[w] == raw;
                    assert(record_ids(store.experiments@).contains(
                        store.runs@[w].experiment_id@,
                    ));
                    assert(false);
                }
                vstd::pervasive::unreached()
            },
        }
    }
}

/// Some run of experiment `eid` has a variable whose matching-row count
/// differs from one: its measurements cannot be rebuilt.
pub open spec fn run_rows_broken(store: ArchiveStore, eid: Seq<char>, vars: Seq<Variable>) -> bool {
    exists|j: int, k: int|
        0 <= j < store.runs@.len() && 0 <= k < vars.len() && (#[trigger] store.runs@[j]).experiment_id@
            == eid && store.measurements@.filter(
            meas_match(store.runs@[j].run_id@, (#[trigger] vars[k]).id@),
        ).len() != 1
}

/// The predicate selecting the run rows of experiment `eid`.
pub open spec fn araw_of_experiment(eid: Seq<char>) -> spec_fn(RawRun) -> bool {
    |r: RawRun| r.experiment_id@ == eid
}

/// The predicate keeping the reported values of other variables than the
/// one with id `vid`.
pub open spec fn entry_not_for(vid: Seq<char>) -> spec_fn((Variable, String)) -> bool {
    |p: (Variable, String)| p.0.id@ != vid
}

/// Does the reported value belong to a variable other than `vid`?
fn entry_keeps_variable(p: &(Variable, String), vid: &String) -> (b: bool)
    ensures
        b == (p.0.id@ != vid@),
{
    !crate::text::str_eq(p.0.id.as_str(), vid.as_str())
}

/// The predicate keeping the records whose id differs from `eid`.
pub open spec fn record_not_id(eid: Seq<char>) -> spec_fn(ExperimentRecord) -> bool {
    |r: ExperimentRecord| r.id@ != eid
}

/// The predicate keeping the run rows of other experiments.
pub open spec fn araw_not_of_experiment(eid: Seq<char>) -> spec_fn(RawRun) -> bool {
    |r: RawRun| r.experiment_id@ != eid
}

/// The predicate keeping the measurement rows of other experiments.
pub open spec fn ameas_not_of_experiment(eid: Seq<char>) -> spec_fn(MeasurementRow) -> bool {
    |m: MeasurementRow| m.experiment_id@ != eid
}

/// The predicate keeping the run rows whose id is outside `ids`.
pub open spec fn araw_kept(ids: Seq<Seq<char>>) -> spec_fn(RawRun) -> bool {
    |r: RawRun| !ids.contains(r.run_id@)
}

/// The predicate keeping the measurement rows whose run is outside `ids`.
pub open spec fn ameas_kept(ids: Seq<Seq<char>>) -> spec_fn(MeasurementRow) -> bool {
    |m: MeasurementRow| !ids.contains(m.run_id@)
}

/// The predicate selecting the runs of experiment `eid` whose number is in
/// `nums`.
pub open spec fn araw_numbered(eid: Seq<char>, nums: Seq<usize>) -> spec_fn(RawRun) -> bool {
    |r: RawRun| r.experiment_id@ == eid && nums.contains(r.run_number)
}

/// Does the record have an id other than `eid`?
fn record_keeps_id(r: &ExperimentRecord, eid: &String) -> (b: bool)
    ensures
        b == (r.id@ != eid@),
{
    !crate::text::str_eq(r.id.as_str(), eid.as_str())
}

/// Does the run row belong to an experiment other than `eid`?
fn araw_keeps_experiment(r: &RawRun, eid: &String) -> (b: bool)
    ensures
        b == (r.experiment_id@ != eid@),
{
    !crate::text::str_eq(r.experiment_id.as_str(), eid.as_str())
}

/// Does the measurement row belong to an experiment other than `eid`?
fn ameas_keeps_experiment(m: &MeasurementRow, eid: &String) -> (b: bool)
    ensures
        b == (m.experiment_id@ != eid@),
{
    !crate::text::str_eq(m.experiment_id.as_str(), eid.as_str())
}

/// Is the run row's id outside `ids`?
fn araw_keeps_ids(r: &RawRun, ids: &Vec<String>) -> (b: bool)
    ensures
        b == !str_views(ids@).contains(r.run_id@),
{
    !crate::experiment::contains_string(ids, &r.run_id)
}

/// Is the measurement row's run id outside `ids`?
fn ameas_keeps_ids(m: &MeasurementRow, ids: &Vec<String>) -> (b: bool)
    ensures
        b == !str_views(ids@).contains(m.run_id@),
{
    !crate::experiment::contains_string(ids, &m.run_id)
}

/// The pairwise run-number ordering, as a relation.
pub open spec fn run_order() -> spec_fn(RawRun, RawRun) -> bool {
    |a: RawRun, b: RawRun| a.experiment_id@ == b.experiment_id@ ==> a.run_number < b.run_number
}

impl Experiment {
    /// Deletes this experiment and every run and measurement that belongs
    /// to it, in one pass and bottom-up. The variable catalog is never
    /// touched: variables are shared between experiments. On return no
    /// row references the deleted experiment.
    pub fn delete_from_database(self, store: &mut ArchiveStore)
        requires
            old(store).wf(),
        ensures
            final(store).wf(),
            final(store).experiments@ == old(store).experiments@.filter(record_not_id(self.id@)),
            final(store).runs@ == old(store).runs@.filter(araw_not_of_experiment(self.id@)),
            final(store).measurements@ == old(store).measurements@.filter(
                ameas_not_of_experiment(self.id@),
            ),
            final(store).variables == old(store).variables,
    {
        let ghost pre = *old(store);
        let _meas = crate::delete::retain_rows(
            &mut store.measurements,
            &self.id,
            ameas_keeps_experiment,
            Ghost(ameas_not_of_experiment(self.id@)),
        );
        let _runs = crate::delete::retain_rows(
            &mut store.runs,
            &self.id,
            araw_keeps_experiment,
            Ghost(araw_not_of_experiment(self.id@)),
        );
        let _records = crate::delete::retain_rows(
            &mut store.experiments,
            &self.id,
            record_keeps_id,
            Ghost(record_not_id(self.id@)),
        );
        proof {
            let post = *store;
            crate::delete::lemma_filter_preserves_map_no_dup(
                pre.experiments@,
                record_not_id(self.id@),
                |r: ExperimentRecord| r.id@,
            );
            crate::delete::lemma_filter_preserves_map_no_dup(
                pre.experiments@,
                record_not_id(self.id@),
                |r: ExperimentRecord| r.name@,
            );
            crate::delete::lemma_filter_preserves_map_no_dup(
                pre.runs@,
                araw_not_of_experiment(self.id@),
                |r: RawRun| r.run_id@,
            );
            assert(record_ids(post.experiments@) =~= post.experiments@.map_values(
                |r: ExperimentRecord| r.id@,
            ));
            assert(record_names(post.experiments@) =~= post.experiments@.map_values(
                |r: ExperimentRecord| r.name@,
            ));
            assert(raw_run_ids(post.runs@) =~= post.runs@.map_values(|r: RawRun| r.run_id@));
            assert(record_ids(pre.experiments@) =~= pre.experiments@.map_values(
                |r: ExperimentRecord| r.id@,
            ));
            assert(record_names(pre.experiments@) =~= pre.experiments@.map_values(
                |r: ExperimentRecord| r.name@,
            ));
            assert(raw_run_ids(pre.runs@) =~= pre.runs@.map_values(|r: RawRun| r.run_id@));
            assert forall|i: int|
                0 <= i < post.runs@.len() implies record_ids(post.experiments@).contains(
                (#[trigger] post.runs@[i]).experiment_id@,
            ) by {
                assert(post.runs@.contains(post.runs@[i]));
                crate::sets::lemma_filter_membership(
                    pre.runs@,
                    araw_not_of_experiment(self.id@),
                    post.runs@[i],
                );
                assert(record_ids(pre.experiments@).contains(post.runs@[i].experiment_id@));
                let w = choose|w: int|
                    0 <= w < record_ids(pre.experiments@).len() && record_ids(pre.experiments@)[w]
                        == post.runs@[i].experiment_id@;
                assert(record_not_id(self.id@)(pre.experiments@[w]));
                crate::sets::lemma_filter_membership(
                    pre.experiments@,
                    record_not_id(self.id@),
                    pre.experiments@[w],
                );
                assert(post.experiments@.contains(pre.experiments@[w]));
                let w2 = choose|w2: int|
                    0 <= w2 < post.experiments@.len() && post.experiments@[w2]
                        == pre.experiments@[w];
                assert(record_ids(post.experiments@)[w2] == post.runs@[i].experiment_id@);
            }
            crate::sets::lemma_filter_pairwise(
                pre.runs@,
                araw_not_of_experiment(self.id@),
                run_order(),
            );
            assert forall|a: int, b: int|
                0 <= a < b < post.runs@.len() && (#[trigger] post.runs@[a]).experiment_id@
                    == (#[trigger] post.runs@[b]).experiment_id@ implies post.runs@[a].run_number
                < post.runs@[b].run_number by {
                assert(run_order()(post.runs@[a], post.runs@[b]));
            }
            assert forall|i: int|
                0 <= i < post.measurements@.len() implies post.meas_linked(
                #[trigger] post.measurements@[i],
            ) by {
                assert(post.measurements@.contains(post.measurements@[i]));
                crate::sets::lemma_filter_membership(
                    pre.measurements@,
                    ameas_not_of_experiment(self.id@),
                    post.measurements@[i],
                );
                assert(pre.meas_linked(post.measurements@[i]));
                let j = choose|j: int|
                    0 <= j < pre.runs@.len() && (#[trigger] pre.runs@[j]).run_id@
                        == post.measurements@[i].run_id@ && pre.runs@[j].experiment_id@
                        == post.measurements@[i].experiment_id@;
                assert(araw_not_of_experiment(self.id@)(pre.runs@[j]));
                crate::sets::lemma_filter_membership(
                    pre.runs@,
                    araw_not_of_experiment(self.id@),
                    pre.runs@[j],
                );
                assert(post.runs@.contains(pre.runs@[j]));
                let j2 = choose|j2: int|
                    0 <= j2 < post.runs@.len() && post.runs@[j2] == pre.runs@[j];
            }
        }
    }

    /// Deletes exactly the runs of this experiment whose numbers are
    /// listed, together with their measurements, leaving the experiment
    /// and its other runs intact. If any listed number has no run, the
    /// whole call fails and nothing is deleted.
    pub fn delete_runs_from_database(
        &self,
        store: &mut ArchiveStore,
        run_numbers: &Vec<usize>,
    ) -> (r: Result<(), Error>)
        requires
            old(store).wf(),
        ensures
            final(store).wf(),
            final(store).experiments == old(store).experiments,
            final(store).variables == old(store).variables,
            r is Err ==> r == Err::<(), Error>(Error::UnknownRunNumber) && *final(store) == *old(
                store,
            ),
            r is Err <==> exists|k: int|
                0 <= k < run_numbers@.len() && !run_has_number(
                    old(store).runs@,
                    self.id@,
                    #[trigger] run_numbers@[k],
                ),
            r is Ok ==> final(store).runs@ == old(store).runs@.filter(
                crate::delete::keep_not(araw_numbered(self.id@, run_numbers@)),
            ) && final(store).measurements@ == old(store).measurements@.filter(
                ameas_kept(
                    raw_run_ids(old(store).runs@.filter(araw_numbered(self.id@, run_numbers@))),
                ),
            ),
    {
        // every listed number must name a run of this experiment
        let mut k: usize = 0;
        while k < run_numbers.len()
            invariant
                k <= run_numbers@.len(),
                *store == *old(store),
                old(store).wf(),
                forall|m: int|
                    0 <= m < k ==> run_has_number(
                        store.runs@,
                        self.id@,
                        #[trigger] run_numbers@[m],
                    ),
            decreases run_numbers@.len() - k,
        {
            let mut found = false;
            let mut i: usize = 0;
            while i < store.runs.len()
                invariant
                    i <= store.runs@.len(),
                    k < run_numbers@.len(),
                    *store == *old(store),
                    old(store).wf(),
                    found ==> run_has_number(
                        store.runs@,
                        self.id@,
                        run_numbers@[k as int],
                    ),
                    !found ==> forall|w: int|
                        0 <= w < i ==> !((#[trigger] store.runs@[w]).experiment_id@ == self.id@
                            && store.runs@[w].run_number == run_numbers@[k as int]),
                decreases store.runs@.len() - i,
            {
                let exp_matches = crate::text::str_eq(
                    store.runs[i].experiment_id.as_str(),
                    self.id.as_str(),
                );
                if exp_matches && store.runs[i].run_number == run_numbers[k] {
                    found = true;
                }
                i += 1;
            }
            if !found {
                proof {
                    assert(!run_has_number(store.runs@, self.id@, run_numbers@[k as int]));
                }
                return Err(Error::UnknownRunNumber);
            }
            k += 1;
        }
        // collect the victims' run ids, then drop their rows bottom-up
        let ghost pre = *store;
        let mut victims: Vec<String> = Vec::new();
        let mut i: usize = 0;
        while i < store.runs.len()
            invariant
                i <= store.runs@.len(),
                *store == *old(store),
                old(store).wf(),
                str_views(victims@) =~= raw_run_ids(
                    store.runs@.take(i as int).filter(araw_numbered(self.id@, run_numbers@)),
                ),
            decreases store.runs@.len() - i,
        {
            proof {
                crate::sets::lemma_filter_take_step(
                    store.runs@,
                    araw_numbered(self.id@, run_numbers@),
                    i as int,
                );
            }
            let exp_matches = crate::text::str_eq(
                store.runs[i].experiment_id.as_str(),
                self.id.as_str(),
            );
            let mut number_listed = false;
            let mut w: usize = 0;
            while w < run_numbers.len()
                invariant
                    w <= run_numbers@.len(),
                    i < store.runs@.len(),
                    number_listed == exists|m: int|
                        0 <= m < w && (#[trigger] run_numbers@[m]) == store.runs@[
                        i as int].run_number,
                decreases run_numbers@.len() - w,
            {
                if run_numbers[w] == store.runs[i].run_number {
                    number_listed = true;
                }
                w += 1;
            }
            let ghost pre_victims = victims@;
            if exp_matches && number_listed {
                victims.push(store.runs[i].run_id.clone());
            }
            proof {
                assert(number_listed == run_numbers@.contains(store.runs@[i as int].run_number));
                let fo = store.runs@.take(i as int).filter(araw_numbered(self.id@, run_numbers@));
                let fn1 = store.runs@.take(i + 1).filter(araw_numbered(self.id@, run_numbers@));
                if araw_numbered(self.id@, run_numbers@)(store.runs@[i as int]) {
                    assert(fn1 == fo.push(store.runs@[i as int]));
                    assert(victims@ == pre_victims.push(victims@.last()));
                    assert(victims@.last()@ == store.runs@[i as int].run_id@);
                    assert(pre_victims.len() == fo.len()) by {
                        assert(str_views(pre_victims).len() == raw_run_ids(fo).len());
                    }
                    assert(victims@.len() == fn1.len());
                    assert forall|w: int|
                        0 <= w < victims@.len() implies #[trigger] str_views(victims@)[w] == raw_run_ids(
                        fn1,
                    )[w] by {
                        if w < pre_victims.len() {
                            assert(victims@[w] == pre_victims[w]);
                            assert(str_views(pre_victims)[w] == pre_victims[w]@);
                            assert(raw_run_ids(fo)[w] == fo[w].run_id@);
                            assert(raw_run_ids(fn1)[w] == fn1[w].run_id@);
                            assert(fn1[w] == fo[w]);
                        } else {
                            assert(raw_run_ids(fn1)[w] == fn1[w].run_id@);
                        }
                    }
                    assert(str_views(victims@) =~= raw_run_ids(fn1));
                } else {
                    assert(fn1 == fo);
                    assert(str_views(victims@) =~= raw_run_ids(fn1));
                }
            }
            i += 1;
        }
        proof {
            assert(store.runs@.take(store.runs@.len() as int) =~= store.runs@);
        }
        let _meas = crate::delete::retain_rows(
            &mut store.measurements,
            &victims,
            ameas_keeps_ids,
            Ghost(ameas_kept(str_views(victims@))),
        );
        let _runs = crate::delete::retain_rows(
            &mut store.runs,
            &victims,
            araw_keeps_ids,
            Ghost(araw_kept(str_views(victims@))),
        );
        proof {
            let post = *store;
            let gone = pre.runs@.filter(araw_numbered(self.id@, run_numbers@));
            // keeping the rows outside the victim ids is keeping the rows
            // whose own run is not numbered for deletion
            assert(raw_run_ids(pre.runs@) =~= pre.runs@.map_values(|r: RawRun| r.run_id@));
            crate::delete::lemma_filter_preserves_map_no_dup(
                pre.runs@,
                araw_kept(str_views(victims@)),
                |r: RawRun| r.run_id@,
            );
            assert(raw_run_ids(post.runs@) =~= post.runs@.map_values(|r: RawRun| r.run_id@));
            assert(str_views(victims@) == raw_run_ids(gone));
            assert forall|i2: int|
                0 <= i2 < pre.runs@.len() implies (araw_kept(str_views(victims@))(
                #[trigger] pre.runs@[i2],
            ) <==> crate::delete::keep_not(araw_numbered(self.id@, run_numbers@))(
                pre.runs@[i2],
            )) by {
                let row = pre.runs@[i2];
                let x = row.run_id@;
                assert(raw_run_ids(gone) =~= gone.map_values(|r: RawRun| r.run_id@));
                if crate::delete::keep_not(araw_numbered(self.id@, run_numbers@))(row) {
                    // a kept run's id is not among the victims
                    if raw_run_ids(gone).contains(x) {
                        let g = choose|g: int|
                            0 <= g < raw_run_ids(gone).len() && raw_run_ids(gone)[g] == x;
                        assert(raw_run_ids(gone)[g] == gone[g].run_id@);
                        assert(gone.contains(gone[g]));
                        crate::sets::lemma_filter_membership(
                            pre.runs@,
                            araw_numbered(self.id@, run_numbers@),
                            gone[g],
                        );
                        let w = choose|w: int| 0 <= w < pre.runs@.len() && pre.runs@[w] == gone[g];
                        assert(raw_run_ids(pre.runs@)[w] == x);
                        assert(raw_run_ids(pre.runs@)[i2] == x);
                        if w != i2 {
                            assert(raw_run_ids(pre.runs@)[w] != raw_run_ids(pre.runs@)[i2]);
                        }
                        assert(false);
                    }
                } else {
                    // a victim's id is among the victims
                    crate::sets::lemma_filter_membership(
                        pre.runs@,
                        araw_numbered(self.id@, run_numbers@),
                        row,
                    );
                    assert(pre.runs@.contains(row)) by {
                        assert(pre.runs@[i2] == row);
                    }
                    assert(gone.contains(row));
                    let g = choose|g: int| 0 <= g < gone.len() && gone[g] == row;
                    assert(raw_run_ids(gone)[g] == x);
                }
            }
            crate::delete::lemma_filter_equiv(
                pre.runs@,
                araw_kept(str_views(victims@)),
                crate::delete::keep_not(araw_numbered(self.id@, run_numbers@)),
            );
            // the store stays consistent
            assert forall|a: int, b: int|
                0 <= a < b < post.runs@.len() && (#[trigger] post.runs@[a]).experiment_id@
                    == (#[trigger] post.runs@[b]).experiment_id@ implies post.runs@[a].run_number
                < post.runs@[b].run_number by {
                crate::sets::lemma_filter_pairwise(
                    pre.runs@,
                    araw_kept(str_views(victims@)),
                    run_order(),
                );
                assert(run_order()(post.runs@[a], post.runs@[b]));
            }
            assert forall|i2: int|
                0 <= i2 < post.runs@.len() implies record_ids(post.experiments@).contains(
                (#[trigger] post.runs@[i2]).experiment_id@,
            ) by {
                assert(post.runs@.contains(post.runs@[i2]));
                crate::sets::lemma_filter_membership(
                    pre.runs@,
                    araw_kept(str_views(victims@)),
                    post.runs@[i2],
                );
            }
            assert forall|i2: int|
                0 <= i2 < post.measurements@.len() implies post.meas_linked(
                #[trigger] post.measurements@[i2],
            ) by {
                assert(post.measurements@.contains(post.measurements@[i2]));
                crate::sets::lemma_filter_membership(
                    pre.measurements@,
                    ameas_kept(str_views(victims@)),
                    post.measurements@[i2],
                );
                assert(pre.meas_linked(post.measurements@[i2]));
                let j = choose|j: int|
                    0 <= j < pre.runs@.len() && (#[trigger] pre.runs@[j]).run_id@
                        == post.measurements@[i2].run_id@ && pre.runs@[j].experiment_id@
                        == post.measurements@[i2].experiment_id@;
                assert(araw_kept(str_views(victims@))(pre.runs@[j]));
                crate::sets::lemma_filter_membership(
                    pre.runs@,
                    araw_kept(str_views(victims@)),
                    pre.runs@[j],
                );
                assert(post.runs@.contains(pre.runs@[j]));
                let j2 = choose|j2: int|
                    0 <= j2 < post.runs@.len() && post.runs@[j2] == pre.runs@[j];
            }
        }
        Ok(())
    }
}

/// Does some run of experiment `eid` in `s` carry the number `n`?
pub open spec fn run_has_number(s: Seq<RawRun>, eid: Seq<char>, n: usize) -> bool {
    exists|i: int|
        0 <= i < s.len() && (#[trigger] s[i]).experiment_id@ == eid && s[i].run_number == n
}

/// Is the variable named after one of the first `k` templates?
pub open spec fn name_from_earlier(
    v: Variable,
    templates: Seq<VariableTemplate>,
    k: int,
) -> bool {
    exists|m: int| 0 <= m < k && (#[trigger] templates[m]).name@ == v.template.name@
}

/// Is some template called like the stored variable?
pub open spec fn name_in_templates(v: Variable, templates: Seq<VariableTemplate>) -> bool {
    exists|j: int|
        0 <= j < templates.len() && (#[trigger] templates[j]).name@ == v.template.name@
}

/// Do the stored variables and the submitted templates carry the same set
/// of names: the same count, and every stored name among the templates?
pub open spec fn variable_names_cover(
    vars: Seq<Variable>,
    templates: Seq<VariableTemplate>,
) -> bool {
    vars.len() == templates.len() && (forall|i: int|
        0 <= i < vars.len() ==> name_in_templates(#[trigger] vars[i], templates))
}

fn variable_names_match(vars: &Vec<Variable>, templates: &Vec<VariableTemplate>) -> (r: bool)
    ensures
        r == variable_names_cover(vars@, templates@),
{
    if vars.len() != templates.len() {
        return false;
    }
    let mut i: usize = 0;
    while i < vars.len()
        invariant
            i <= vars@.len(),
            vars@.len() == templates@.len(),
            forall|m: int| 0 <= m < i ==> name_in_templates(#[trigger] vars@[m], templates@),
        decreases vars@.len() - i,
    {
        let mut found = false;
        let mut j: usize = 0;
        while j < templates.len()
            invariant
                j <= templates@.len(),
                i < vars@.len(),
                found ==> name_in_templates(vars@[i as int], templates@),
                !found ==> forall|w: int|
                    0 <= w < j ==> (#[trigger] templates@[w]).name@ != vars@[
                        i as int].template.name@,
            decreases templates@.len() - j,
        {
            if crate::text::str_eq(
                templates[j].name.as_str(),
                vars[i].template.name.as_str(),
            ) {
                found = true;
            }
            j += 1;
        }
        if !found {
            proof {
                assert(!name_in_templates(vars@[i as int], templates@));
            }
            return false;
        }
        i += 1;
    }
    true
}

} // verus!
