use vstd::prelude::*;

verus! {

// The variable model of the older, unversioned generation of the archive:
// a variable is a template (name, description, unit) that received an
// opaque id when it was first stored.
/// Template for a variable definition that is part of an experiment.
#[derive(Debug)]
pub struct VariableTemplate {
    pub name: String,
    pub description: String,
    pub unit: String,
}

impl Clone for VariableTemplate {
    fn clone(&self) -> (r: VariableTemplate)
        ensures
            r == *self,
    {
        VariableTemplate {
            name: self.name.clone(),
            description: self.description.clone(),
            unit: self.unit.clone(),
        }
    }
}

impl VariableTemplate {
    /// Creates a new template for a variable with the given name,
    /// description and unit.
    pub fn new(name: String, description: String, unit: String) -> (r: VariableTemplate)
        ensures
            r == (VariableTemplate { name, description, unit }),
    {
        VariableTemplate { name, description, unit }
    }

    /// The name of this variable template.
    pub fn name(&self) -> (r: &str)
        ensures
            r@ == self.name@,
    {
        self.name.as_str()
    }

    /// The description of this variable template.
    pub fn description(&self) -> (r: &str)
        ensures
            r@ == self.description@,
    {
        self.description.as_str()
    }

    /// The unit of this variable template.
    pub fn unit(&self) -> (r: &str)
        ensures
            r@ == self.unit@,
    {
        self.unit.as_str()
    }
}

/// Variable definition as stored: the template under its unique id.
#[derive(Debug)]
pub struct Variable {
    pub id: String,
    pub template: VariableTemplate,
}

impl Clone for Variable {
    fn clone(&self) -> (r: Variable)
        ensures
            r == *self,
    {
        Variable { id: self.id.clone(), template: self.template.clone() }
    }
}

impl Variable {
    /// Access the `VariableTemplate` for this variable, which defines the
    /// name, description and unit.
    pub fn template(&self) -> (r: &VariableTemplate)
        ensures
            r == &self.template,
    {
        &self.template
    }

    /// Access the id of this variable.
    pub fn id(&self) -> (r: &str)
        ensures
            r@ == self.id@,
    {
        self.id.as_str()
    }
}

/// The ids of a sequence of stored variables.
pub open spec fn variable_ids(s: Seq<Variable>) -> Seq<Seq<char>> {
    s.map_values(|v: Variable| v.id@)
}

/// The template names of a sequence of stored variables.
pub open spec fn variable_names(s: Seq<Variable>) -> Seq<Seq<char>> {
    s.map_values(|v: Variable| v.template.name@)
}

/// Index `i` holds the first variable whose template is called `name`.
pub open spec fn first_named_at(vars: Seq<Variable>, name: Seq<char>, i: int) -> bool {
    &&& 0 <= i < vars.len()
    &&& vars[i].template.name@ == name
    &&& forall|j: int| 0 <= j < i ==> (#[trigger] vars[j]).template.name@ != name
}

/// Finds the first stored variable whose template is called `name`.
pub(crate) fn find_by_template_name<'a>(vars: &'a Vec<Variable>, name: &str) -> (r: Option<
    &'a Variable,
>)
    ensures
        match r {
            Some(v) => vars@.contains(*v) && v.template.name@ == name@ && exists|i: int|
                first_named_at(vars@, name@, i) && vars@[i] == *v,
            None => !variable_names(vars@).contains(name@),
        },
{
    let mut i: usize = 0;
    while i < vars.len()
        invariant
            i <= vars@.len(),
            forall|j: int| 0 <= j < i ==> (#[trigger] variable_names(vars@)[j]) != name@,
        decreases vars@.len() - i,
    {
        if crate::text::str_eq(vars[i].template.name.as_str(), name) {
            assert(vars@.contains(vars@[i as int]));
            proof {
                assert forall|j: int|
                    0 <= j < i implies (#[trigger] vars@[j]).template.name@ != name@ by {
                    assert(variable_names(vars@)[j] == vars@[j].template.name@);
                }
                assert(first_named_at(vars@, name@, i as int));
            }
            return Some(&vars[i]);
        }
        assert(variable_names(vars@)[i as int] == vars@[i as int].template.name@);
        i += 1;
    }
    None
}

/// Finds the first stored variable with the given id.
pub(crate) fn find_by_id<'a>(vars: &'a Vec<Variable>, id: &str) -> (r: Option<&'a Variable>)
    ensures
        match r {
            Some(v) => vars@.contains(*v) && v.id@ == id@,
            None => !variable_ids(vars@).contains(id@),
        },
{
    let mut i: usize = 0;
    while i < vars.len()
        invariant
            i <= vars@.len(),
            forall|j: int| 0 <= j < i ==> (#[trigger] variable_ids(vars@)[j]) != id@,
        decreases vars@.len() - i,
    {
        if crate::text::str_eq(vars[i].id.as_str(), id) {
            assert(vars@.contains(vars@[i as int]));
            return Some(&vars[i]);
        }
        assert(variable_ids(vars@)[i as int] == vars@[i as int].id@);
        i += 1;
    }
    None
}

} // verus!
