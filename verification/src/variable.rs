use vstd::prelude::*;

use crate::errors::Error;

verus! {

/// Is a variable an input or output variable?
#[derive(Debug, Copy, Clone, PartialEq, Eq, Structural)]
pub enum VariableType {
    Input,
    Output,
}

/// The data type of a variable.
#[derive(Debug)]
pub enum DataType {
    /// A numeric variable with a given unit
    Unit(String),
    /// A generic numeric variable
    Number,
    /// A label
    Label,
    /// A generic textual variable
    Text,
    /// A boolean variable
    Bool,
}

/// A data type is abstracted as a tag together with the unit text (empty for
/// every variant but `Unit`).
impl View for DataType {
    type V = (int, Seq<char>);

    open spec fn view(&self) -> (int, Seq<char>) {
        match self {
            DataType::Unit(u) => (0int, u@),
            DataType::Number => (1int, Seq::empty()),
            DataType::Label => (2int, Seq::empty()),
            DataType::Text => (3int, Seq::empty()),
            DataType::Bool => (4int, Seq::empty()),
        }
    }
}

impl Clone for DataType {
    fn clone(&self) -> (r: DataType)
        ensures
            r == *self,
    {
        match self {
            DataType::Unit(u) => DataType::Unit(u.clone()),
            DataType::Number => DataType::Number,
            DataType::Label => DataType::Label,
            DataType::Text => DataType::Text,
            DataType::Bool => DataType::Bool,
        }
    }
}

impl PartialEq for DataType {
    fn eq(&self, other: &DataType) -> (r: bool) {
        match (self, other) {
            (DataType::Unit(a), DataType::Unit(b)) => *a == *b,
            (DataType::Number, DataType::Number) => true,
            (DataType::Label, DataType::Label) => true,
            (DataType::Text, DataType::Text) => true,
            (DataType::Bool, DataType::Bool) => true,
            _ => false,
        }
    }
}

impl vstd::std_specs::cmp::PartialEqSpecImpl for DataType {
    open spec fn obeys_eq_spec() -> bool {
        true
    }

    open spec fn eq_spec(&self, other: &DataType) -> bool {
        self@ == other@
    }
}

impl DataType {
    /// Parses one of the unit-less data type names; `Unit` has no textual
    /// name and is never returned here.
    pub fn from_str(name: &str) -> (r: Result<DataType, Error>)
        ensures
            r == if name@ == "Number"@ {
                Ok::<DataType, Error>(DataType::Number)
            } else if name@ == "Label"@ {
                Ok::<DataType, Error>(DataType::Label)
            } else if name@ == "Text"@ {
                Ok::<DataType, Error>(DataType::Text)
            } else if name@ == "Bool"@ {
                Ok::<DataType, Error>(DataType::Bool)
            } else {
                Err::<DataType, Error>(Error::UnknownDataTypeName)
            },
    {
        if crate::text::str_eq(name, "Number") {
            Ok(DataType::Number)
        } else if crate::text::str_eq(name, "Label") {
            Ok(DataType::Label)
        } else if crate::text::str_eq(name, "Text") {
            Ok(DataType::Text)
        } else if crate::text::str_eq(name, "Bool") {
            Ok(DataType::Bool)
        } else {
            Err(Error::UnknownDataTypeName)
        }
    }
}

/// Description of a variable in an experiment.
#[derive(Debug)]
pub struct Variable {
    pub name: String,
    pub description: String,
    pub data_type: DataType,
}

impl View for Variable {
    type V = (Seq<char>, Seq<char>, (int, Seq<char>));

    open spec fn view(&self) -> (Seq<char>, Seq<char>, (int, Seq<char>)) {
        (self.name@, self.description@, self.data_type@)
    }
}

impl Clone for Variable {
    fn clone(&self) -> (r: Variable)
        ensures
            r == *self,
    {
        Variable {
            name: self.name.clone(),
            description: self.description.clone(),
            data_type: self.data_type.clone(),
        }
    }
}

impl PartialEq for Variable {
    fn eq(&self, other: &Variable) -> (r: bool) {
        self.name == other.name && self.description == other.description && self.data_type
            == other.data_type
    }
}

impl vstd::std_specs::cmp::PartialEqSpecImpl for Variable {
    open spec fn obeys_eq_spec() -> bool {
        true
    }

    open spec fn eq_spec(&self, other: &Variable) -> bool {
        self@ == other@
    }
}

impl Variable {
    pub fn new(name: String, description: String, data_type: DataType) -> (r: Variable)
        ensures
            r.name@ == name@,
            r.description@ == description@,
            r.data_type@ == data_type@,
    {
        Variable { name, description, data_type }
    }

    pub fn name(&self) -> (r: &str)
        ensures
            r@ == self.name@,
    {
        self.name.as_str()
    }

    pub fn description(&self) -> (r: &str)
        ensures
            r@ == self.description@,
    {
        self.description.as_str()
    }

    pub fn data_type(&self) -> (r: &DataType)
        ensures
            r@ == self.data_type@,
    {
        &self.data_type
    }
}

/// Generic value of a variable. A numeric value carries its decimal text,
/// which is the form in which the store keeps every value.
#[derive(Debug)]
pub enum GenericValue {
    Numeric(String),
    String(String),
    Bool(bool),
}

/// A value is abstracted as a variant tag together with its stored text.
impl View for GenericValue {
    type V = (int, Seq<char>);

    open spec fn view(&self) -> (int, Seq<char>) {
        match self {
            GenericValue::Numeric(s) => (0int, s@),
            GenericValue::String(s) => (1int, s@),
            GenericValue::Bool(b) => (2int, if *b { "true"@ } else { "false"@ }),
        }
    }
}

impl Clone for GenericValue {
    fn clone(&self) -> (r: GenericValue)
        ensures
            r == *self,
    {
        match self {
            GenericValue::Numeric(s) => GenericValue::Numeric(s.clone()),
            GenericValue::String(s) => GenericValue::String(s.clone()),
            GenericValue::Bool(b) => GenericValue::Bool(*b),
        }
    }
}

impl PartialEq for GenericValue {
    fn eq(&self, other: &GenericValue) -> (r: bool) {
        proof {
            crate::text::lemma_bool_texts_differ();
        }
        match (self, other) {
            (GenericValue::Numeric(a), GenericValue::Numeric(b)) => *a == *b,
            (GenericValue::String(a), GenericValue::String(b)) => *a == *b,
            (GenericValue::Bool(a), GenericValue::Bool(b)) => *a == *b,
            _ => false,
        }
    }
}

impl vstd::std_specs::cmp::PartialEqSpecImpl for GenericValue {
    open spec fn obeys_eq_spec() -> bool {
        true
    }

    open spec fn eq_spec(&self, other: &GenericValue) -> bool {
        self@ == other@
    }
}

impl GenericValue {
    /// The textual content of a `String` value.
    pub fn as_str(&self) -> (r: &str)
        requires
            self@.0 == 1,
        ensures
            r@ == self@.1,
    {
        match self {
            GenericValue::String(s) => s.as_str(),
            _ => vstd::pervasive::unreached(),
        }
    }

    /// The content of a `Bool` value.
    pub fn as_bool(&self) -> (r: bool)
        requires
            self is Bool,
        ensures
            self@ == (2int, if r { "true"@ } else { "false"@ }),
    {
        match self {
            GenericValue::Bool(b) => *b,
            _ => vstd::pervasive::unreached(),
        }
    }
}

/// Which variants of `GenericValue` a data type admits.
pub open spec fn accepts_spec(dt: DataType, v: GenericValue) -> bool {
    match dt {
        DataType::Unit(_) => v@.0 == 0,
        DataType::Number => v@.0 == 0,
        DataType::Label => v@.0 == 1,
        DataType::Text => v@.0 == 1,
        DataType::Bool => v@.0 == 2,
    }
}

impl Variable {
    /// Does the value's variant match this variable's declared data type?
    pub fn accepts(&self, generic_value: &GenericValue) -> (r: bool)
        ensures
            r == accepts_spec(self.data_type, *generic_value),
    {
        match self.data_type {
            DataType::Unit(_) | DataType::Number => matches!(generic_value, GenericValue::Numeric(_)),
            DataType::Label | DataType::Text => matches!(generic_value, GenericValue::String(_)),
            DataType::Bool => matches!(generic_value, GenericValue::Bool(_)),
        }
    }
}

/// Specific value of a given variable.
#[derive(Debug)]
pub struct VariableValue {
    pub variable: Variable,
    pub value: GenericValue,
}

impl View for VariableValue {
    type V = ((Seq<char>, Seq<char>, (int, Seq<char>)), (int, Seq<char>));

    open spec fn view(&self) -> Self::V {
        (self.variable@, self.value@)
    }
}

impl Clone for VariableValue {
    fn clone(&self) -> (r: VariableValue)
        ensures
            r == *self,
    {
        VariableValue { variable: self.variable.clone(), value: self.value.clone() }
    }
}

impl PartialEq for VariableValue {
    fn eq(&self, other: &VariableValue) -> (r: bool) {
        self.variable == other.variable && self.value == other.value
    }
}

impl vstd::std_specs::cmp::PartialEqSpecImpl for VariableValue {
    open spec fn obeys_eq_spec() -> bool {
        true
    }

    open spec fn eq_spec(&self, other: &VariableValue) -> bool {
        self@ == other@
    }
}

impl VariableValue {
    pub fn variable(&self) -> (r: &Variable)
        ensures
            r == &self.variable,
    {
        &self.variable
    }

    pub fn value(&self) -> (r: &GenericValue)
        ensures
            r == &self.value,
    {
        &self.value
    }
}

/// The views of a sequence of strings.
pub open spec fn str_views(s: Seq<String>) -> Seq<Seq<char>> {
    s.map_values(|x: String| x@)
}

/// The views of a sequence of variables.
pub open spec fn var_views(s: Seq<Variable>) -> Seq<(Seq<char>, Seq<char>, (int, Seq<char>))> {
    s.map_values(|v: Variable| v@)
}

/// The names of a sequence of variables.
pub open spec fn var_names(s: Seq<Variable>) -> Seq<Seq<char>> {
    s.map_values(|v: Variable| v.name@)
}

} // verus!
