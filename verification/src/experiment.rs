use vstd::prelude::*;

use crate::codec::lemma_value_round_trip;
use crate::errors::Error;
use crate::sets::{lemma_distinct_seqs_same_set, lemma_subset_same_card_eq};
use crate::store::{
    pair_names, pairs_cover, value_pairs, var_accepts_pair, var_has_pair, vv_pairs, InstanceRow,
    Store,
};
use crate::variable::{
    accepts_spec, str_views, var_names, var_views, GenericValue, Variable, VariableValue,
};

verus! {

use vstd::seq_lib::*;

/// The (name, text) pairs of a sequence of named values, the text being the
/// serialized form of each value.
pub open spec fn named_value_pairs(ps: Seq<(String, GenericValue)>) -> Seq<(Seq<char>, Seq<char>)> {
    ps.map_values(|p: (String, GenericValue)| (p.0@, p.1@.1))
}

/// Some variable bears the named value's name, admits its variant, and
/// the value is well-formed.
pub open spec fn named_pair_fits(p: (String, GenericValue), vars: Seq<Variable>) -> bool {
    exists|j: int|
        0 <= j < vars.len() && (#[trigger] vars[j]).name@ == p.0@ && accepts_spec(
            vars[j].data_type,
            p.1,
        ) && p.1.wf()
}

/// The named values are a valid instance request for the version: one
/// well-formed, type-correct value per input variable, no variable
/// missing, duplicated or unexpected.
pub open spec fn named_request_ok(
    version: ExperimentVersion,
    ps: Seq<(String, GenericValue)>,
) -> bool {
    &&& pair_names(named_value_pairs(ps)).no_duplicates()
    &&& ps.len() == version.input_variables@.len()
    &&& forall|k: int|
        0 <= k < ps.len() ==> named_pair_fits(#[trigger] ps[k], version.input_variables@)
    &&& forall|j: int|
        0 <= j < version.input_variables@.len() ==> var_has_pair(
            #[trigger] version.input_variables@[j],
            named_value_pairs(ps),
        )
}

/// The value is a well-formed assignment for one of the variables: some
/// variable bears its name, admits its variant, and the value's text is
/// well-formed.
pub open spec fn value_fits(v: VariableValue, vars: Seq<Variable>) -> bool {
    exists|j: int|
        0 <= j < vars.len() && (#[trigger] vars[j]).name@ == v.variable.name@ && accepts_spec(
            vars[j].data_type,
            v.value,
        ) && v.value.wf()
}

/// The values assign exactly one well-formed, type-correct value to each
/// of the variables: no variable missing, duplicated or unexpected.
pub open spec fn assignment_ok(vars: Seq<Variable>, values: Seq<VariableValue>) -> bool {
    &&& pair_names(vv_pairs(values)).no_duplicates()
    &&& values.len() == vars.len()
    &&& forall|k: int| 0 <= k < values.len() ==> value_fits(#[trigger] values[k], vars)
    &&& forall|j: int| 0 <= j < vars.len() ==> var_has_pair(#[trigger] vars[j], vv_pairs(values))
}

/// The submitted values are a valid instance request for the version.
pub open spec fn instance_request_ok(version: ExperimentVersion, values: Seq<VariableValue>) -> bool {
    assignment_ok(version.input_variables@, values)
}

/// A valid assignment covers the variables pair-wise.
pub proof fn lemma_assignment_covers(vars: Seq<Variable>, values: Seq<VariableValue>)
    requires
        assignment_ok(vars, values),
    ensures
        pairs_cover(vv_pairs(values), vars),
{
    assert forall|k: int|
        0 <= k < vv_pairs(values).len() implies crate::store::pair_has_var(
        #[trigger] vv_pairs(values)[k],
        vars,
    ) by {
        assert(value_fits(values[k], vars));
        let j = choose|j: int|
            0 <= j < vars.len() && (#[trigger] vars[j]).name@ == values[k].variable.name@
                && accepts_spec(vars[j].data_type, values[k].value) && values[k].value.wf();
        lemma_value_round_trip(vars[j].data_type, values[k].value);
        assert(var_accepts_pair(vars[j], vv_pairs(values)[k]));
    }
}

/// An immutable snapshot of an experiment's description, researchers and
/// variable schema. `name` groups all versions of one experiment; `id` is
/// globally unique; `version` is the build tag the snapshot was made under;
/// `date` is a timestamp in milliseconds.
#[derive(Debug)]
pub struct ExperimentVersion {
    pub id: String,
    pub name: String,
    pub version: String,
    pub date: i64,
    pub description: String,
    pub researchers: Vec<String>,
    pub input_variables: Vec<Variable>,
    pub output_variables: Vec<Variable>,
}

impl Clone for ExperimentVersion {
    fn clone(&self) -> (r: ExperimentVersion)
        ensures
            r.veq(*self),
    {
        let researchers = self.researchers.clone();
        let input_variables = self.input_variables.clone();
        let output_variables = self.output_variables.clone();
        proof {
            assert(researchers@ =~= self.researchers@);
            assert(input_variables@ =~= self.input_variables@);
            assert(output_variables@ =~= self.output_variables@);
        }
        ExperimentVersion {
            id: self.id.clone(),
            name: self.name.clone(),
            version: self.version.clone(),
            date: self.date,
            description: self.description.clone(),
            researchers,
            input_variables,
            output_variables,
        }
    }
}

impl ExperimentVersion {
    /// Field-wise equality of two versions, at the level of their views:
    /// the same id, name, tag, date, description, researchers and variables.
    pub open spec fn veq(self, other: ExperimentVersion) -> bool {
        &&& self.id@ == other.id@
        &&& self.name@ == other.name@
        &&& self.version@ == other.version@
        &&& self.date == other.date
        &&& self.description@ == other.description@
        &&& self.researchers@ == other.researchers@
        &&& self.input_variables@ == other.input_variables@
        &&& self.output_variables@ == other.output_variables@
    }

    /// The researcher list and the variable lists encode sets: no duplicate
    /// researchers, and no two variables of the version share a name.
    pub open spec fn sets_wf(self) -> bool {
        &&& str_views(self.researchers@).no_duplicates()
        &&& var_names(self.input_variables@ + self.output_variables@).no_duplicates()
    }

    /// Build equality: a submitted description matches this version when the
    /// version tag, the description and the three sets all agree.
    pub open spec fn same_build(
        self,
        version_tag: Seq<char>,
        description: Seq<char>,
        researchers: Seq<String>,
        input_variables: Seq<Variable>,
        output_variables: Seq<Variable>,
    ) -> bool {
        &&& self.version@ == version_tag
        &&& self.description@ == description
        &&& str_views(self.researchers@).to_set() == str_views(researchers).to_set()
        &&& var_views(self.input_variables@).to_set() == var_views(input_variables).to_set()
        &&& var_views(self.output_variables@).to_set() == var_views(output_variables).to_set()
    }

    pub fn from_experiment(
        id: String,
        name: String,
        version: String,
        date: i64,
        description: String,
        researchers: Vec<String>,
        input_variables: Vec<Variable>,
        output_variables: Vec<Variable>,
    ) -> (r: ExperimentVersion)
        ensures
            r == (ExperimentVersion {
                id,
                name,
                version,
                date,
                description,
                researchers,
                input_variables,
                output_variables,
            }),
    {
        ExperimentVersion { id, name, version, date, description, researchers, input_variables, output_variables }
    }

    pub fn id(&self) -> (r: &str)
        ensures
            r@ == self.id@,
    {
        self.id.as_str()
    }

    pub fn name(&self) -> (r: &str)
        ensures
            r@ == self.name@,
    {
        self.name.as_str()
    }

    pub fn version(&self) -> (r: &str)
        ensures
            r@ == self.version@,
    {
        self.version.as_str()
    }

    pub fn date(&self) -> (r: i64)
        ensures
            r == self.date,
    {
        self.date
    }

    pub fn description(&self) -> (r: &str)
        ensures
            r@ == self.description@,
    {
        self.description.as_str()
    }

    pub fn researchers(&self) -> (r: &Vec<String>)
        ensures
            r == &self.researchers,
    {
        &self.researchers
    }

    pub fn input_variables(&self) -> (r: &Vec<Variable>)
        ensures
            r == &self.input_variables,
    {
        &self.input_variables
    }

    pub fn output_variables(&self) -> (r: &Vec<Variable>)
        ensures
            r == &self.output_variables,
    {
        &self.output_variables
    }

    /// The input variable called `name`, if the version has one.
    pub fn input_variable_by_name(&self, name: &str) -> (r: Option<&Variable>)
        ensures
            match r {
                Some(v) => self.input_variables@.contains(*v) && v.name@ == name@,
                None => !var_names(self.input_variables@).contains(name@),
            },
    {
        find_variable_by_name(&self.input_variables, name)
    }

    /// The output variable called `name`, if the version has one.
    pub fn output_variable_by_name(&self, name: &str) -> (r: Option<&Variable>)
        ensures
            match r {
                Some(v) => self.output_variables@.contains(*v) && v.name@ == name@,
                None => !var_names(self.output_variables@).contains(name@),
            },
    {
        find_variable_by_name(&self.output_variables, name)
    }

    /// Does the submitted description match this version exactly?
    pub(crate) fn same_build_exec(
        &self,
        version_tag: &String,
        description: &String,
        researchers: &Vec<String>,
        input_variables: &Vec<Variable>,
        output_variables: &Vec<Variable>,
    ) -> (r: bool)
        requires
            self.sets_wf(),
            str_views(researchers@).no_duplicates(),
            var_names(input_variables@ + output_variables@).no_duplicates(),
        ensures
            r == self.same_build(
                version_tag@,
                description@,
                researchers@,
                input_variables@,
                output_variables@,
            ),
    {
        proof {
            lemma_concat_names_distinct(self.input_variables@, self.output_variables@);
            lemma_concat_names_distinct(input_variables@, output_variables@);
        }
        if !(self.version == *version_tag) {
            return false;
        }
        if !(self.description == *description) {
            return false;
        }
        let researchers_equal = string_set_eq(&self.researchers, researchers);
        if !researchers_equal {
            return false;
        }
        let inputs_equal = variable_set_eq(&self.input_variables, input_variables);
        if !inputs_equal {
            return false;
        }
        variable_set_eq(&self.output_variables, output_variables)
    }
}

/// A name-wise duplicate-free concatenation has name-wise duplicate-free
/// parts, and the parts' views are duplicate-free as well.
pub proof fn lemma_concat_names_distinct(a: Seq<Variable>, b: Seq<Variable>)
    requires
        var_names(a + b).no_duplicates(),
    ensures
        var_names(a).no_duplicates(),
        var_names(b).no_duplicates(),
        var_views(a).no_duplicates(),
        var_views(b).no_duplicates(),
{
    assert forall|i: int, j: int|
        0 <= i < a.len() && 0 <= j < a.len() && i != j implies var_names(a)[i] != var_names(
        a,
    )[j] by {
        assert(var_names(a + b)[i] == (a + b)[i].name@);
        assert(var_names(a + b)[j] == (a + b)[j].name@);
    }
    assert forall|i: int, j: int|
        0 <= i < b.len() && 0 <= j < b.len() && i != j implies var_names(b)[i] != var_names(
        b,
    )[j] by {
        assert(var_names(a + b)[a.len() + i] == (a + b)[a.len() + i].name@);
        assert(var_names(a + b)[a.len() + j] == (a + b)[a.len() + j].name@);
    }
    lemma_names_distinct_views(a);
    lemma_names_distinct_views(b);
}

/// Views distribute over concatenation of variable lists.
pub proof fn lemma_var_views_concat(a: Seq<Variable>, b: Seq<Variable>)
    ensures
        var_views(a + b) =~= var_views(a) + var_views(b),
{
    assert forall|i: int|
        0 <= i < (a + b).len() implies var_views(a + b)[i] == (var_views(a) + var_views(
        b,
    ))[i] by {
        if i < a.len() {
            assert((a + b)[i] == a[i]);
        } else {
            assert((a + b)[i] == b[i - a.len()]);
        }
    }
}

/// The names of a prefix are a prefix of the names.
pub proof fn lemma_var_names_prefix(a: Seq<Variable>, b: Seq<Variable>)
    requires
        a.is_prefix_of(b),
    ensures
        var_names(a).is_prefix_of(var_names(b)),
{
    assert forall|i: int| 0 <= i < a.len() implies var_names(a)[i] == var_names(b)[i] by {
        assert(a[i] == b.subrange(0, a.len() as int)[i]);
    }
    assert(var_names(a) =~= var_names(b).subrange(0, var_names(a).len() as int));
}

/// Variables with pairwise distinct names have pairwise distinct views.
pub proof fn lemma_names_distinct_views(s: Seq<Variable>)
    requires
        var_names(s).no_duplicates(),
    ensures
        var_views(s).no_duplicates(),
{
    assert forall|i: int, j: int|
        0 <= i < s.len() && 0 <= j < s.len() && i != j implies var_views(s)[i] != var_views(
        s,
    )[j] by {
        assert(var_names(s)[i] == s[i].name@);
        assert(var_names(s)[j] == s[j].name@);
    }
}

/// Finds the first variable called `name` in `vars`.
pub(crate) fn find_variable_by_name<'a>(vars: &'a Vec<Variable>, name: &str) -> (r: Option<
    &'a Variable,
>)
    ensures
        match r {
            Some(v) => vars@.contains(*v) && v.name@ == name@,
            None => !var_names(vars@).contains(name@),
        },
{
    let mut i: usize = 0;
    while i < vars.len()
        invariant
            i <= vars@.len(),
            forall|j: int| 0 <= j < i ==> var_names(vars@)[j] != name@,
        decreases vars@.len() - i,
    {
        if crate::text::str_eq(vars[i].name.as_str(), name) {
            assert(vars@.contains(vars@[i as int]));
            return Some(&vars[i]);
        }
        assert(var_names(vars@)[i as int] == vars@[i as int].name@);
        i += 1;
    }
    assert forall|j: int| 0 <= j < var_names(vars@).len() implies var_names(vars@)[j]
        != name@ by {}
    None
}

/// Does some string of `v` have the view of `x`?
pub(crate) fn contains_string(v: &Vec<String>, x: &String) -> (r: bool)
    ensures
        r == str_views(v@).contains(x@),
{
    let mut i: usize = 0;
    while i < v.len()
        invariant
            i <= v@.len(),
            forall|j: int| 0 <= j < i ==> str_views(v@)[j] != x@,
        decreases v@.len() - i,
    {
        if v[i] == *x {
            assert(str_views(v@)[i as int] == x@);
            return true;
        }
        assert(str_views(v@)[i as int] == v@[i as int]@);
        i += 1;
    }
    false
}

/// Do two duplicate-free string lists hold the same set of strings?
pub(crate) fn string_set_eq(a: &Vec<String>, b: &Vec<String>) -> (r: bool)
    requires
        str_views(a@).no_duplicates(),
        str_views(b@).no_duplicates(),
    ensures
        r == (str_views(a@).to_set() == str_views(b@).to_set()),
{
    broadcast use seq_to_set_is_finite;

    if a.len() != b.len() {
        proof {
            str_views(a@).unique_seq_to_set();
            str_views(b@).unique_seq_to_set();
        }
        return false;
    }
    let mut i: usize = 0;
    while i < a.len()
        invariant
            i <= a@.len(),
            a@.len() == b@.len(),
            str_views(a@).no_duplicates(),
            str_views(b@).no_duplicates(),
            forall|j: int| 0 <= j < i ==> str_views(b@).contains(#[trigger] str_views(a@)[j]),
        decreases a@.len() - i,
    {
        let found = contains_string(b, &a[i]);
        if !found {
            proof {
                assert(str_views(a@)[i as int] == a@[i as int]@);
                assert(str_views(a@).to_set().contains(str_views(a@)[i as int]));
                assert(!str_views(b@).to_set().contains(str_views(a@)[i as int]));
            }
            return false;
        }
        assert(str_views(a@)[i as int] == a@[i as int]@);
        i += 1;
    }
    proof {
        lemma_distinct_seqs_same_set(str_views(a@), str_views(b@));
    }
    true
}

/// Does some variable of `v` have the view of `x`?
pub(crate) fn contains_variable(v: &Vec<Variable>, x: &Variable) -> (r: bool)
    ensures
        r == var_views(v@).contains(x@),
{
    let mut i: usize = 0;
    while i < v.len()
        invariant
            i <= v@.len(),
            forall|j: int| 0 <= j < i ==> var_views(v@)[j] != x@,
        decreases v@.len() - i,
    {
        if v[i] == *x {
            assert(var_views(v@)[i as int] == x@);
            return true;
        }
        assert(var_views(v@)[i as int] == v@[i as int]@);
        i += 1;
    }
    false
}

/// Do two view-wise duplicate-free variable lists hold the same set of
/// variables?
pub(crate) fn variable_set_eq(a: &Vec<Variable>, b: &Vec<Variable>) -> (r: bool)
    requires
        var_views(a@).no_duplicates(),
        var_views(b@).no_duplicates(),
    ensures
        r == (var_views(a@).to_set() == var_views(b@).to_set()),
{
    broadcast use seq_to_set_is_finite;

    if a.len() != b.len() {
        proof {
            var_views(a@).unique_seq_to_set();
            var_views(b@).unique_seq_to_set();
        }
        return false;
    }
    let mut i: usize = 0;
    while i < a.len()
        invariant
            i <= a@.len(),
            a@.len() == b@.len(),
            var_views(a@).no_duplicates(),
            var_views(b@).no_duplicates(),
            forall|j: int| 0 <= j < i ==> var_views(b@).contains(#[trigger] var_views(a@)[j]),
        decreases a@.len() - i,
    {
        let found = contains_variable(b, &a[i]);
        if !found {
            proof {
                assert(var_views(a@)[i as int] == a@[i as int]@);
                assert(var_views(a@).to_set().contains(var_views(a@)[i as int]));
                assert(!var_views(b@).to_set().contains(var_views(a@)[i as int]));
            }
            return false;
        }
        assert(var_views(a@)[i as int] == a@[i as int]@);
        i += 1;
    }
    proof {
        lemma_distinct_seqs_same_set(var_views(a@), var_views(b@));
    }
    true
}

/// A version with its input variables fixed to concrete values.
#[derive(Debug)]
pub struct ExperimentInstance {
    pub experiment_version: ExperimentVersion,
    pub input_variable_values: Vec<VariableValue>,
    pub id: String,
}

impl ExperimentVersion {
    /// Resolves the submitted experiment description against the store:
    /// either the unchanged most recent version of `name` is returned, or
    /// a new version is registered, tagged with the current build identity
    /// and wall clock, under a freshly generated id. Whatever the id
    /// generator, the clock and the build tag return: no existing version
    /// is altered or removed, at most one version is appended, the result
    /// is a version of `name` held by the store, and a failure (possible
    /// only when the generated id collides) leaves the store unchanged.
    pub fn get_current_version(
        store: &mut Store,
        name: String,
        description: String,
        researchers: Vec<String>,
        input_variables: Vec<Variable>,
        output_variables: Vec<Variable>,
    ) -> (r: Result<ExperimentVersion, Error>)
        requires
            old(store).wf(),
            str_views(researchers@).no_duplicates(),
            var_names(input_variables@ + output_variables@).no_duplicates(),
        ensures
            final(store).wf(),
            old(store).versions@.is_prefix_of(final(store).versions@),
            final(store).versions@.len() <= old(store).versions@.len() + 1,
            final(store).instances == old(store).instances,
            final(store).in_values == old(store).in_values,
            final(store).runs == old(store).runs,
            final(store).measurements == old(store).measurements,
            r matches Ok(v) ==> final(store).has_version(v) && v.name@ == name@,
            r is Err ==> r == Err::<ExperimentVersion, Error>(Error::DuplicateId) && *final(store)
                == *old(store) && old(store).versions@.len() > 0,
            r matches Ok(v) ==> ((*final(store) == *old(store) && (old(store).latest_version_of(
                name@,
            ) matches Some(l) && v.veq(l))) || (final(store).versions@.len() == old(
                store,
            ).versions@.len() + 1 && v.veq(final(store).versions@.last()) && !old(
                store,
            ).version_ids().contains(v.id@) && v.description@ == description@ && v.researchers@
                == researchers@ && v.input_variables@ == input_variables@ && v.output_variables@
                == output_variables@)),
    {
        let version_tag = crate::version::current_version();
        let date = crate::util::now_timestamp();
        let new_id = crate::util::gen_unique_id();
        let ghost pre = *store;
        let r = store.resolve_version(
            name,
            description,
            researchers,
            input_variables,
            output_variables,
            version_tag,
            date,
            new_id,
        );
        proof {
            assert(pre.versions@.is_prefix_of(store.versions@)) by {
                assert(pre.versions@ =~= store.versions@.subrange(
                    0,
                    pre.versions@.len() as int,
                ));
            }
            crate::store::lemma_latest_props(pre.versions@, name@);
        }
        r
    }

    /// Resolves an instance of this version from named values: each value
    /// is checked against the input variable of that name and the
    /// assignment is deduplicated against the store, under a freshly
    /// generated id. Whatever id the generator returns: at most one
    /// instance is created, existing rows are never altered, a returned
    /// instance belongs to this version, and a valid request whose exact
    /// assignment is already stored returns that instance's id without a
    /// write. An unknown variable name is reported exactly as such; an id
    /// collision is possible only on a store that already holds an
    /// instance.
    pub fn make_instance(
        &self,
        store: &mut Store,
        input_variable_values: Vec<(String, GenericValue)>,
    ) -> (r: Result<ExperimentInstance, Error>)
        requires
            old(store).wf(),
            old(store).has_version(*self),
            self.sets_wf(),
        ensures
            final(store).wf(),
            final(store).versions == old(store).versions,
            final(store).experiments == old(store).experiments,
            final(store).variables == old(store).variables,
            final(store).runs == old(store).runs,
            final(store).measurements == old(store).measurements,
            old(store).instances@.is_prefix_of(final(store).instances@),
            final(store).instances@.len() <= old(store).instances@.len() + 1,
            r matches Ok(inst) ==> inst.experiment_version.veq(*self) && final(store).has_instance(
                inst,
            ),
            old(store).matching_instance(
                self.id@,
                named_value_pairs(input_variable_values@).to_set(),
            ) matches Some(row) ==> (r matches Ok(inst) ==> inst.id@ == row.id@ && *final(store)
                == *old(store)),
            r is Err ==> *final(store) == *old(store),
            r == Err::<ExperimentInstance, Error>(Error::UnknownVariable) <==> exists|k: int|
                0 <= k < input_variable_values@.len() && !var_names(self.input_variables@).contains(
                    (#[trigger] input_variable_values@[k]).0@,
                ),
            r == Err::<ExperimentInstance, Error>(Error::DuplicateId) ==> old(
                store,
            ).instances@.len() > 0,
            named_request_ok(*self, input_variable_values@) ==> match old(store).matching_instance(
                self.id@,
                named_value_pairs(input_variable_values@).to_set(),
            ) {
                Some(row) => r matches Ok(inst) && inst.id@ == row.id@ && *final(store) == *old(
                    store,
                ),
                None => r is Ok || r == Err::<ExperimentInstance, Error>(Error::DuplicateId),
            },
    {
        let mut values: Vec<VariableValue> = Vec::new();
        let mut k: usize = 0;
        while k < input_variable_values.len()
            invariant
                k <= input_variable_values@.len(),
                self.sets_wf(),
                values@.len() == k,
                forall|m: int|
                    0 <= m < k ==> (#[trigger] values@[m]).variable.name@
                        == input_variable_values@[m].0@ && values@[m].value
                        == input_variable_values@[m].1,
                forall|m: int|
                    0 <= m < k ==> var_names(self.input_variables@).contains(
                        (#[trigger] input_variable_values@[m]).0@,
                    ),
                *store == *old(store),
                old(store).wf(),
            decreases input_variable_values@.len() - k,
        {
            let var = match find_variable_by_name(
                &self.input_variables,
                input_variable_values[k].0.as_str(),
            ) {
                Some(v) => v,
                None => {
                    proof {
                        if named_pair_fits(
                            input_variable_values@[k as int],
                            self.input_variables@,
                        ) {
                            let j = choose|j: int|
                                0 <= j < self.input_variables@.len()
                                    && (#[trigger] self.input_variables@[j]).name@
                                    == input_variable_values@[k as int].0@ && accepts_spec(
                                    self.input_variables@[j].data_type,
                                    input_variable_values@[k as int].1,
                                ) && input_variable_values@[k as int].1.wf();
                            assert(var_names(self.input_variables@)[j]
                                == self.input_variables@[j].name@);
                            assert(false);
                        }
                    }
                    return Err(Error::UnknownVariable);
                },
            };
            proof {
                assert(self.input_variables@.contains(*var));
                let jv = choose|jv: int|
                    0 <= jv < self.input_variables@.len() && self.input_variables@[jv] == *var;
                assert(var_names(self.input_variables@)[jv] == self.input_variables@[jv].name@);
            }
            values.push(
                VariableValue { variable: var.clone(), value: input_variable_values[k].1.clone() },
            );
            k += 1;
        }
        proof {
            assert(vv_pairs(values@) =~= named_value_pairs(input_variable_values@));
            // a valid request builds a valid assignment
            if named_request_ok(*self, input_variable_values@) {
                assert forall|m: int|
                    0 <= m < values@.len() implies value_fits(
                    #[trigger] values@[m],
                    self.input_variables@,
                ) by {
                    assert(named_pair_fits(
                        input_variable_values@[m],
                        self.input_variables@,
                    ));
                    let j = choose|j: int|
                        0 <= j < self.input_variables@.len()
                            && (#[trigger] self.input_variables@[j]).name@
                            == input_variable_values@[m].0@ && accepts_spec(
                            self.input_variables@[j].data_type,
                            input_variable_values@[m].1,
                        ) && input_variable_values@[m].1.wf();
                    assert(self.input_variables@[j].name@ == values@[m].variable.name@);
                }
                assert(pair_names(vv_pairs(values@)) == pair_names(
                    named_value_pairs(input_variable_values@),
                ));
                assert(instance_request_ok(*self, values@));
            }
        }
        let new_id = crate::util::gen_unique_id();
        let r = ExperimentInstance::from_experiment_version(self, values, store, new_id);
        proof {
            // the builder found every submitted name, and the resolver
            // never reports an unknown variable
            assert(r != Err::<ExperimentInstance, Error>(Error::UnknownVariable));
        }
        r
    }
}

impl Clone for ExperimentInstance {
    fn clone(&self) -> (r: ExperimentInstance)
        ensures
            r.iveq(*self),
    {
        let input_variable_values = self.input_variable_values.clone();
        proof {
            assert(input_variable_values@ =~= self.input_variable_values@);
        }
        ExperimentInstance {
            experiment_version: self.experiment_version.clone(),
            input_variable_values,
            id: self.id.clone(),
        }
    }
}

impl ExperimentInstance {
    /// Field-wise equality of two instances, at the level of their views.
    pub open spec fn iveq(self, other: ExperimentInstance) -> bool {
        &&& self.experiment_version.veq(other.experiment_version)
        &&& self.input_variable_values@ == other.input_variable_values@
        &&& self.id@ == other.id@
    }

    pub fn new(
        experiment_version: ExperimentVersion,
        input_variable_values: Vec<VariableValue>,
        id: String,
    ) -> (r: ExperimentInstance)
        ensures
            r == (ExperimentInstance { experiment_version, input_variable_values, id }),
    {
        ExperimentInstance { experiment_version, input_variable_values, id }
    }

    pub fn id(&self) -> (r: &str)
        ensures
            r@ == self.id@,
    {
        self.id.as_str()
    }

    pub fn experiment_version(&self) -> (r: &ExperimentVersion)
        ensures
            r == &self.experiment_version,
    {
        &self.experiment_version
    }

    pub fn input_variable_values(&self) -> (r: &Vec<VariableValue>)
        ensures
            r == &self.input_variable_values,
    {
        &self.input_variable_values
    }

    /// The Instance Resolver: finds or creates the unique instance of the
    /// version for this exact value assignment. The request is validated
    /// against the version's input variables (exactly one well-formed,
    /// type-correct value per variable). If an instance of the version
    /// with the same (variable, value) assignment exists, the first such
    /// instance is returned and nothing is written; otherwise the instance
    /// is persisted under the fresh `new_id`. Fails with `DuplicateId`
    /// only when `new_id` is already taken, leaving the store unchanged.
    pub fn from_experiment_version(
        experiment_version: &ExperimentVersion,
        input_variable_values: Vec<VariableValue>,
        store: &mut Store,
        new_id: String,
    ) -> (r: Result<ExperimentInstance, Error>)
        requires
            old(store).wf(),
            old(store).has_version(*experiment_version),
            experiment_version.sets_wf(),
        ensures
            final(store).wf(),
            final(store).versions == old(store).versions,
            final(store).experiments == old(store).experiments,
            final(store).variables == old(store).variables,
            final(store).runs == old(store).runs,
            final(store).measurements == old(store).measurements,
            old(store).instances@.is_prefix_of(final(store).instances@),
            old(store).in_values@.is_prefix_of(final(store).in_values@),
            r matches Ok(inst) ==> final(store).has_instance(inst),
            r != Err::<ExperimentInstance, Error>(Error::UnknownVariable),
            r == Err::<ExperimentInstance, Error>(Error::DuplicateId) ==> old(
                store,
            ).instance_ids().contains(new_id@),
            !instance_request_ok(*experiment_version, input_variable_values@) ==> *final(store)
                == *old(store) && r is Err && r != Err::<ExperimentInstance, Error>(
                Error::DuplicateId,
            ),
            instance_request_ok(*experiment_version, input_variable_values@) ==> match old(
                store,
            ).matching_instance(
                experiment_version.id@,
                vv_pairs(input_variable_values@).to_set(),
            ) {
                Some(row) => *final(store) == *old(store) && (r matches Ok(inst) && inst.id@
                    == row.id@ && inst.experiment_version.veq(*experiment_version) && vv_pairs(
                    inst.input_variable_values@,
                ) == value_pairs(old(store).rows_of_instance(row.id@))),
                None => if old(store).instance_ids().contains(new_id@) {
                    r == Err::<ExperimentInstance, Error>(Error::DuplicateId) && *final(store)
                        == *old(store)
                } else {
                    &&& (r matches Ok(inst) && inst.id@ == new_id@
                        && inst.experiment_version.veq(*experiment_version)
                        && inst.input_variable_values@ == input_variable_values@)
                    &&& final(store).instances@ == old(store).instances@.push(
                        (InstanceRow {
                            id: new_id,
                            ex_name: experiment_version.name,
                            version_id: experiment_version.id,
                        }),
                    )
                    &&& value_pairs(final(store).rows_of_instance(new_id@)) == vv_pairs(
                        input_variable_values@,
                    )
                    &&& forall|iid: Seq<char>|
                        iid != new_id@ ==> final(store).rows_of_instance(iid) == old(
                            store,
                        ).rows_of_instance(iid)
                },
            },
    {
        proof {
            lemma_concat_names_distinct(
                experiment_version.input_variables@,
                experiment_version.output_variables@,
            );
        }
        match check_assignment(
            &experiment_version.input_variables,
            &input_variable_values,
            Error::InputVariableMismatch,
        ) {
            Ok(_) => {},
            Err(e) => {
                return Err(e);
            },
        }
        proof {
            lemma_assignment_covers(
                experiment_version.input_variables@,
                input_variable_values@,
            );
        }
        // deduplication: reuse the first instance with this exact assignment
        match store.fetch_specific_instance(experiment_version, &input_variable_values) {
            Some(existing) => {
                proof {
                    store.lemma_matching_instance_props(
                        0,
                        experiment_version.id@,
                        vv_pairs(input_variable_values@).to_set(),
                    );
                    let row = store.matching_instance(
                        experiment_version.id@,
                        vv_pairs(input_variable_values@).to_set(),
                    ).unwrap();
                    let i = choose|i: int|
                        0 <= i < store.instances@.len() && store.instances@[i] == row;
                    assert(store.instances@[i].id@ == existing.id@ && store.instances@[i].version_id@
                        == existing.experiment_version.id@);
                }
                Ok(existing)
            },
            None => {
                if store.has_instance_id(&new_id) {
                    return Err(Error::DuplicateId);
                }
                store.insert_instance_rows(experiment_version, &input_variable_values, &new_id);
                let inst = ExperimentInstance {
                    experiment_version: experiment_version.clone(),
                    input_variable_values,
                    id: new_id,
                };
                proof {
                    let last = store.instances@.len() - 1;
                    assert(store.instances@[last].id@ == inst.id@ && store.instances@[last].version_id@
                        == inst.experiment_version.id@);
                }
                Ok(inst)
            },
        }
    }
}

/// A value whose name matches exactly one variable, and whose variant that
/// variable rejects, fits no variable of a name-distinct list.
pub(crate) proof fn lemma_unique_named_misfit(vars: Seq<Variable>, v: VariableValue, named: Variable)
    requires
        var_names(vars).no_duplicates(),
        vars.contains(named),
        named.name@ == v.variable.name@,
        !accepts_spec(named.data_type, v.value),
    ensures
        !value_fits(v, vars),
{
    if value_fits(v, vars) {
        let j = choose|j: int|
            0 <= j < vars.len() && (#[trigger] vars[j]).name@ == v.variable.name@ && accepts_spec(
                vars[j].data_type,
                v.value,
            ) && v.value.wf();
        let jn = choose|jn: int| 0 <= jn < vars.len() && vars[jn] == named;
        if j != jn {
            assert(var_names(vars)[j] == vars[j].name@);
            assert(var_names(vars)[jn] == vars[jn].name@);
        }
    }
}


/// Checks that the values assign exactly one well-formed, type-correct
/// value to each variable; `mismatch` is reported for a missing,
/// duplicated or unexpected variable.
pub(crate) fn check_assignment(vars: &Vec<Variable>, values: &Vec<VariableValue>, mismatch: Error) -> (r:
    Result<(), Error>)
    requires
        var_names(vars@).no_duplicates(),
        mismatch != Error::DuplicateId,
    ensures
        match r {
            Ok(_) => assignment_ok(vars@, values@),
            Err(e) => !assignment_ok(vars@, values@) && (e == mismatch || e == Error::TypeMismatch
                || e == Error::InvalidValue),
        },
{
    let n = values.len();
    // validate each value and reject duplicated variable names
    let mut k: usize = 0;
    while k < n
        invariant
            k <= n,
            n == values@.len(),
            var_names(vars@).no_duplicates(),
            forall|m: int| 0 <= m < k ==> value_fits(#[trigger] values@[m], vars@),
            forall|m1: int, m2: int|
                0 <= m1 < m2 < k ==> pair_names(vv_pairs(values@))[m1] != pair_names(
                    vv_pairs(values@),
                )[m2],
        decreases n - k,
    {
        let mut j: usize = 0;
        while j < k
            invariant
                j <= k < n,
                n == values@.len(),
                forall|m: int|
                    0 <= m < j ==> pair_names(vv_pairs(values@))[m] != pair_names(
                        vv_pairs(values@),
                    )[k as int],
            decreases k - j,
        {
            if crate::text::str_eq(
                values[j].variable.name.as_str(),
                values[k].variable.name.as_str(),
            ) {
                proof {
                    assert(pair_names(vv_pairs(values@))[j as int]
                        == values@[j as int].variable.name@);
                    assert(pair_names(vv_pairs(values@))[k as int]
                        == values@[k as int].variable.name@);
                    assert(!pair_names(vv_pairs(values@)).no_duplicates());
                }
                return Err(mismatch);
            }
            proof {
                assert(pair_names(vv_pairs(values@))[j as int]
                    == values@[j as int].variable.name@);
                assert(pair_names(vv_pairs(values@))[k as int]
                    == values@[k as int].variable.name@);
            }
            j += 1;
        }
        let var = match find_variable_by_name(vars, values[k].variable.name.as_str()) {
            Some(v) => v,
            None => {
                proof {
                    assert forall|j2: int|
                        0 <= j2 < vars@.len() implies (#[trigger] vars@[j2]).name@
                        != values@[k as int].variable.name@ by {
                        assert(var_names(vars@)[j2] == vars@[j2].name@);
                    }
                    assert(!value_fits(values@[k as int], vars@));
                }
                return Err(mismatch);
            },
        };
        if !var.accepts(&values[k].value) {
            proof {
                assert(vars@.contains(*var));
                lemma_unique_named_misfit(vars@, values@[k as int], *var);
            }
            return Err(Error::TypeMismatch);
        }
        if !values[k].value.is_wf() {
            proof {
                assert(!value_fits(values@[k as int], vars@));
            }
            return Err(Error::InvalidValue);
        }
        proof {
            assert(vars@.contains(*var));
            let jv = choose|jv: int| 0 <= jv < vars@.len() && vars@[jv] == *var;
            assert(vars@[jv].name@ == values@[k as int].variable.name@);
            assert(value_fits(values@[k as int], vars@));
        }
        k += 1;
    }
    // every variable must be assigned a value
    if values.len() != vars.len() {
        return Err(mismatch);
    }
    let mut j: usize = 0;
    while j < vars.len()
        invariant
            j <= vars@.len(),
            n == values@.len(),
            forall|m: int|
                0 <= m < j ==> var_has_pair(#[trigger] vars@[m], vv_pairs(values@)),
        decreases vars@.len() - j,
    {
        let mut found = false;
        let mut m: usize = 0;
        while m < values.len()
            invariant
                m <= values@.len(),
                n == values@.len(),
                j < vars@.len(),
                found ==> var_has_pair(vars@[j as int], vv_pairs(values@)),
                !found ==> forall|w: int|
                    0 <= w < m ==> (#[trigger] vv_pairs(values@)[w]).0 != vars@[j as int].name@,
            decreases values@.len() - m,
        {
            if crate::text::str_eq(values[m].variable.name.as_str(), vars[j].name.as_str()) {
                proof {
                    assert(vv_pairs(values@)[m as int].0 == values@[m as int].variable.name@);
                }
                found = true;
            }
            proof {
                assert(vv_pairs(values@)[m as int].0 == values@[m as int].variable.name@);
            }
            m += 1;
        }
        if !found {
            proof {
                assert(!var_has_pair(vars@[j as int], vv_pairs(values@)));
            }
            return Err(mismatch);
        }
        j += 1;
    }
    Ok(())
}

} // verus!
