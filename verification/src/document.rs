//! Documents, and what a configuration takes from one.
//!
//! A document is a tree of values, whatever format it was written in. Its
//! root is read as a table: an entry whose value is a scalar is a variable
//! of every environment, and an entry whose value is a table is an
//! environment, whose scalar entries are its variables. Everything else is
//! passed over.

use crate::sorted_map::SortedMap;
use crate::variable::{keyed_by_name, EnvVariable, EnvVariableMap, Variable};
use vstd::prelude::*;

verus! {

/// A value of a document.
#[derive(Debug, PartialEq)]
pub enum DocValue {
    /// The absence of a value.
    Null,
    /// A boolean.
    Bool(bool),
    /// A number, as the text that its format prints it with.
    Number(String),
    /// A string.
    Text(String),
    /// A date or a time, as the text that its format prints it with.
    Datetime(String),
    /// A sequence of values.
    Sequence(Vec<DocValue>),
    /// A table of entries, each a key and a value, in the order in which the
    /// format hands them out.
    Table(Vec<(DocValue, DocValue)>),
    /// A value under a tag.
    Tagged(String, Box<DocValue>),
}

/// The text of a boolean.
pub open spec fn bool_text(b: bool) -> Seq<char> {
    if b {
        "true"@
    } else {
        "false"@
    }
}

/// The text of a scalar; a value of any other kind has none.
pub open spec fn scalar_text(value: DocValue) -> Option<Seq<char>> {
    match value {
        DocValue::Text(text) => Some(text@),
        DocValue::Number(text) => Some(text@),
        DocValue::Datetime(text) => Some(text@),
        DocValue::Bool(b) => Some(bool_text(b)),
        _ => None,
    }
}

/// The variable that an entry stands for: its key is a string and its value
/// a scalar. Any other entry stands for none.
pub open spec fn variable_of(key: DocValue, value: DocValue) -> Option<Variable> {
    match (key, scalar_text(value)) {
        (DocValue::Text(name), Some(text)) => Some(Variable { name: name@, value: text }),
        _ => None,
    }
}

/// The variables that the entries of a table stand for. Of two entries with
/// one name the later counts.
pub open spec fn variables_of(table: Seq<(DocValue, DocValue)>) -> Map<Seq<char>, Variable>
    decreases table.len(),
{
    if table.len() == 0 {
        Map::empty()
    } else {
        let earlier = variables_of(table.drop_last());
        match variable_of(table.last().0, table.last().1) {
            Some(variable) => earlier.insert(variable.name, variable),
            None => earlier,
        }
    }
}

/// The environments that the entries of a table stand for: each entry whose
/// key is a string and whose value is a table, with the variables of that
/// table. Of two entries with one name the later counts.
pub open spec fn environments_of(table: Seq<(DocValue, DocValue)>) -> Map<
    Seq<char>,
    Map<Seq<char>, Variable>,
>
    decreases table.len(),
{
    if table.len() == 0 {
        Map::empty()
    } else {
        let earlier = environments_of(table.drop_last());
        match table.last() {
            (DocValue::Text(name), DocValue::Table(inner)) => earlier.insert(
                name@,
                variables_of(inner@),
            ),
            _ => earlier,
        }
    }
}

/// The variables of every environment that a document declares. A document
/// whose root is no table declares none.
pub open spec fn defaults_of(document: DocValue) -> Map<Seq<char>, Variable> {
    match document {
        DocValue::Table(table) => variables_of(table@),
        _ => Map::empty(),
    }
}

/// The environments that a document declares. A document whose root is no
/// table declares none.
pub open spec fn overrides_of(document: DocValue) -> Map<Seq<char>, Map<Seq<char>, Variable>> {
    match document {
        DocValue::Table(table) => environments_of(table@),
        _ => Map::empty(),
    }
}

/// The variables of a table are stored under their own names.
pub proof fn lemma_variables_keyed(table: Seq<(DocValue, DocValue)>)
    ensures
        keyed_by_name(variables_of(table)),
    decreases table.len(),
{
    if table.len() > 0 {
        lemma_variables_keyed(table.drop_last());
    }
}

/// The variables of each environment of a table are stored under their own
/// names.
pub proof fn lemma_environments_keyed(table: Seq<(DocValue, DocValue)>)
    ensures
        forall|name: Seq<char>| #[trigger]
            environments_of(table).contains_key(name) ==> keyed_by_name(
                environments_of(table)[name],
            ),
    decreases table.len(),
{
    if table.len() > 0 {
        let earlier = environments_of(table.drop_last());
        lemma_environments_keyed(table.drop_last());
        assert forall|name: Seq<char>| #[trigger]
            environments_of(table).contains_key(name) implies keyed_by_name(
            environments_of(table)[name],
        ) by {
            match table.last() {
                (DocValue::Text(last), DocValue::Table(inner)) => {
                    lemma_variables_keyed(inner@);
                    if name != last@ {
                        assert(earlier.contains_key(name));
                    }
                },
                _ => {
                    assert(earlier.contains_key(name));
                },
            }
        }
    }
}

/// The entry declares the environment `name`.
pub open spec fn is_environment(entry: (DocValue, DocValue), name: Seq<char>) -> bool {
    entry matches (DocValue::Text(key), DocValue::Table(_)) && key@ == name
}

/// A name is an environment of a table where, and only where, some entry
/// has that string for its key and a table for its value.
pub proof fn lemma_environment_names(table: Seq<(DocValue, DocValue)>, name: Seq<char>)
    ensures
        environments_of(table).contains_key(name) <==> exists|i: int|
            0 <= i < table.len() && is_environment(#[trigger] table[i], name),
    decreases table.len(),
{
    if table.len() > 0 {
        let earlier = table.drop_last();
        lemma_environment_names(earlier, name);
        if environments_of(table).contains_key(name) {
            if is_environment(table.last(), name) {
                assert(is_environment(table[table.len() - 1], name));
            } else {
                assert(environments_of(earlier).contains_key(name));
                let i = choose|i: int| 0 <= i < earlier.len() && is_environment(#[trigger] earlier[i], name);
                assert(is_environment(table[i], name));
            }
        }
        if exists|i: int| 0 <= i < table.len() && is_environment(#[trigger] table[i], name) {
            let i = choose|i: int| 0 <= i < table.len() && is_environment(#[trigger] table[i], name);
            if i < table.len() - 1 {
                assert(is_environment(earlier[i], name));
            }
        }
    }
}

/// Two keys read the same: they are the same string, or neither is a
/// string.
pub open spec fn same_key(a: DocValue, b: DocValue) -> bool {
    match (a, b) {
        (DocValue::Text(x), DocValue::Text(y)) => x@ == y@,
        (DocValue::Text(_), _) => false,
        (_, DocValue::Text(_)) => false,
        _ => true,
    }
}

/// Two tables write the same variables: entry by entry the keys read the
/// same, and the values are scalars of the same text or neither is a
/// scalar.
pub open spec fn same_variables(a: Seq<(DocValue, DocValue)>, b: Seq<(DocValue, DocValue)>) -> bool {
    &&& a.len() == b.len()
    &&& forall|i: int|
        0 <= i < a.len() ==> same_key((#[trigger] a[i]).0, b[i].0) && scalar_text(a[i].1)
            == scalar_text(b[i].1)
}

/// Two values write the same environment: they are tables that write the
/// same variables, or neither is a table.
pub open spec fn same_environment(a: DocValue, b: DocValue) -> bool {
    match (a, b) {
        (DocValue::Table(x), DocValue::Table(y)) => same_variables(x@, y@),
        (DocValue::Table(_), _) => false,
        (_, DocValue::Table(_)) => false,
        _ => true,
    }
}

/// Two documents write the same configuration: their roots are tables that
/// write the same variables and, entry by entry, the same environments, or
/// neither root is a table.
pub open spec fn same_document(a: DocValue, b: DocValue) -> bool {
    match (a, b) {
        (DocValue::Table(x), DocValue::Table(y)) => {
            &&& same_variables(x@, y@)
            &&& forall|i: int| 0 <= i < x@.len() ==> same_environment((#[trigger] x@[i]).1, y@[i].1)
        },
        (DocValue::Table(_), _) => false,
        (_, DocValue::Table(_)) => false,
        _ => true,
    }
}

/// Tables that write the same variables declare the same variables.
pub proof fn lemma_same_variables(a: Seq<(DocValue, DocValue)>, b: Seq<(DocValue, DocValue)>)
    requires
        same_variables(a, b),
    ensures
        variables_of(a) == variables_of(b),
    decreases a.len(),
{
    if a.len() > 0 {
        assert(same_key(a[a.len() - 1].0, b[b.len() - 1].0));
        assert forall|i: int| 0 <= i < a.drop_last().len() implies same_key(
            (#[trigger] a.drop_last()[i]).0,
            b.drop_last()[i].0,
        ) && scalar_text(a.drop_last()[i].1) == scalar_text(b.drop_last()[i].1) by {
            assert(same_key(a[i].0, b[i].0));
        }
        lemma_same_variables(a.drop_last(), b.drop_last());
    }
}

proof fn lemma_same_environments(a: Seq<(DocValue, DocValue)>, b: Seq<(DocValue, DocValue)>)
    requires
        same_variables(a, b),
        forall|i: int| 0 <= i < a.len() ==> same_environment((#[trigger] a[i]).1, b[i].1),
    ensures
        environments_of(a) == environments_of(b),
    decreases a.len(),
{
    if a.len() > 0 {
        let last = a.len() - 1;
        assert(same_key(a[last].0, b[last].0));
        assert(same_environment(a[last].1, b[last].1));
        assert forall|i: int| 0 <= i < a.drop_last().len() implies same_key(
            (#[trigger] a.drop_last()[i]).0,
            b.drop_last()[i].0,
        ) && scalar_text(a.drop_last()[i].1) == scalar_text(b.drop_last()[i].1) by {
            assert(same_key(a[i].0, b[i].0));
        }
        assert forall|i: int| 0 <= i < a.drop_last().len() implies same_environment(
            (#[trigger] a.drop_last()[i]).1,
            b.drop_last()[i].1,
        ) by {
            assert(same_environment(a[i].1, b[i].1));
        }
        lemma_same_environments(a.drop_last(), b.drop_last());
        match (a[last].1, b[last].1) {
            (DocValue::Table(x), DocValue::Table(y)) => {
                lemma_same_variables(x@, y@);
            },
            _ => {},
        }
    }
}

/// Documents that write the same configuration declare the same
/// configuration, whatever format each was written in: the same variables
/// for every environment and the same environments, with the same text for
/// every value. Neither the kind of a scalar nor what a document holds
/// beside its variables and environments makes a difference.
pub proof fn lemma_same_document(a: DocValue, b: DocValue)
    requires
        same_document(a, b),
    ensures
        defaults_of(a) == defaults_of(b),
        overrides_of(a) == overrides_of(b),
{
    match (a, b) {
        (DocValue::Table(x), DocValue::Table(y)) => {
            lemma_same_variables(x@, y@);
            lemma_same_environments(x@, y@);
        },
        _ => {},
    }
}

/// The text of a boolean: `true` or `false`.
fn bool_to_string(b: bool) -> (r: String)
    ensures
        r@ == bool_text(b),
{
    if b {
        "true".to_owned()
    } else {
        "false".to_owned()
    }
}

/// The variable that the entry stands for, if it stands for one.
pub fn to_env_varible(key: &DocValue, value: &DocValue) -> (r: Option<EnvVariable>)
    ensures
        match r {
            Some(variable) => variable_of(*key, *value) == Some(variable@),
            None => variable_of(*key, *value) is None,
        },
{
    match key {
        DocValue::Text(name) => match value {
            DocValue::Text(text) => Some(EnvVariable::new(name.as_str(), text.clone())),
            DocValue::Number(text) => Some(EnvVariable::new(name.as_str(), text.clone())),
            DocValue::Datetime(text) => Some(EnvVariable::new(name.as_str(), text.clone())),
            DocValue::Bool(b) => Some(EnvVariable::new(name.as_str(), bool_to_string(*b))),
            _ => None,
        },
        _ => None,
    }
}

/// The variables that the entries of the table stand for.
pub fn defaults_from_table(table: &Vec<(DocValue, DocValue)>) -> (r: EnvVariableMap)
    ensures
        r@ == variables_of(table@),
        keyed_by_name(r@),
{
    let mut variables = EnvVariableMap::new();
    let mut at: usize = 0;
    while at < table.len()
        invariant
            at <= table@.len(),
            variables@ == variables_of(table@.take(at as int)),
        decreases table@.len() - at,
    {
        proof {
            assert(table@.take(at + 1).drop_last() =~= table@.take(at as int));
        }
        match to_env_varible(&table[at].0, &table[at].1) {
            Some(item) => {
                variables.insert(item.key.clone(), item);
            },
            None => {},
        }
        at = at + 1;
    }
    proof {
        assert(table@.take(table@.len() as int) =~= table@);
        lemma_variables_keyed(table@);
    }
    variables
}

/// The environments that the entries of the table stand for.
pub fn overrides_from_table(table: &Vec<(DocValue, DocValue)>) -> (r: SortedMap<EnvVariableMap>)
    ensures
        r@ == environments_of(table@),
        forall|name: Seq<char>| #[trigger] r@.contains_key(name) ==> keyed_by_name(r@[name]),
{
    let mut environments: SortedMap<EnvVariableMap> = SortedMap::new();
    let mut at: usize = 0;
    while at < table.len()
        invariant
            at <= table@.len(),
            environments@ == environments_of(table@.take(at as int)),
        decreases table@.len() - at,
    {
        proof {
            assert(table@.take(at + 1).drop_last() =~= table@.take(at as int));
        }
        match &table[at] {
            (DocValue::Text(name), DocValue::Table(inner)) => {
                environments.insert(name.clone(), defaults_from_table(inner));
            },
            _ => {},
        }
        at = at + 1;
    }
    proof {
        assert(table@.take(table@.len() as int) =~= table@);
        lemma_environments_keyed(table@);
    }
    environments
}

/// The variables of every environment and the environments that the
/// document declares.
pub fn config_from_document(document: &DocValue) -> (r: (EnvVariableMap, SortedMap<EnvVariableMap>))
    ensures
        r.0@ == defaults_of(*document),
        r.1@ == overrides_of(*document),
        keyed_by_name(r.0@),
        forall|name: Seq<char>| #[trigger] r.1@.contains_key(name) ==> keyed_by_name(r.1@[name]),
{
    match document {
        DocValue::Table(table) => (defaults_from_table(table), overrides_from_table(table)),
        _ => (EnvVariableMap::new(), SortedMap::new()),
    }
}

} // verus!
