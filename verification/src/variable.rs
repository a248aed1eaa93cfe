//! Variables and sets of variables.

use crate::sorted_map::SortedMap;
use vstd::prelude::*;

verus! {

/// What a variable is: a name and a value, both text.
pub struct Variable {
    pub name: Seq<char>,
    pub value: Seq<char>,
}

/// An environment variable. The value is always text, whatever the document
/// it was read from wrote it as.
#[derive(Debug, PartialEq)]
pub struct EnvVariable {
    pub key: String,
    pub value: String,
}

impl View for EnvVariable {
    type V = Variable;

    open spec fn view(&self) -> Variable {
        Variable { name: self.key@, value: self.value@ }
    }
}

impl Clone for EnvVariable {
    fn clone(&self) -> (r: Self)
        ensures
            r@ == self@,
    {
        EnvVariable { key: self.key.clone(), value: self.value.clone() }
    }
}

impl EnvVariable {
    /// The variable `key` with the value `value`.
    pub fn new(key: &str, value: String) -> (r: Self)
        ensures
            r@ == (Variable { name: key@, value: value@ }),
    {
        EnvVariable { key: key.to_owned(), value }
    }
}

/// A set of variables, each stored under a name.
pub type EnvVariableMap = SortedMap<EnvVariable>;

/// Every variable of the set is stored under its own name.
pub open spec fn keyed_by_name(variables: Map<Seq<char>, Variable>) -> bool {
    forall|name: Seq<char>| #[trigger] variables.contains_key(name) ==> variables[name].name == name
}

} // verus!
