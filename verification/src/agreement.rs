//! When documents declare the same configuration, whatever the format of
//! each, the order of its entries and the kinds of its scalars.

use crate::document::{defaults_of, environments_of, overrides_of, variable_of, variables_of, DocValue};
use crate::file_parser::reading;
use crate::variable::Variable;
use vstd::prelude::*;

verus! {

/// The variable that an entry writes, if it writes one.
pub open spec fn variable_at(entry: (DocValue, DocValue)) -> Option<Variable> {
    variable_of(entry.0, entry.1)
}

/// The environment that an entry writes, if it writes one: its name and its
/// variables.
pub open spec fn environment_at(entry: (DocValue, DocValue)) -> Option<
    (Seq<char>, Map<Seq<char>, Variable>),
> {
    match entry {
        (DocValue::Text(name), DocValue::Table(inner)) => Some((name@, variables_of(inner@))),
        _ => None,
    }
}

/// Some entry of the table writes the variable.
pub open spec fn writes_variable(table: Seq<(DocValue, DocValue)>, variable: Variable) -> bool {
    exists|i: int| 0 <= i < table.len() && variable_at(#[trigger] table[i]) == Some(variable)
}

/// Some entry of the table writes the environment `name` with these
/// variables.
pub open spec fn writes_environment(
    table: Seq<(DocValue, DocValue)>,
    name: Seq<char>,
    variables: Map<Seq<char>, Variable>,
) -> bool {
    exists|i: int|
        0 <= i < table.len() && environment_at(#[trigger] table[i]) == Some((name, variables))
}

/// No two entries of the table write one variable with different values,
/// nor one environment with different variables.
pub open spec fn writes_each_once(table: Seq<(DocValue, DocValue)>) -> bool {
    &&& forall|v: Variable, w: Variable|
        #![trigger writes_variable(table, v), writes_variable(table, w)]
        writes_variable(table, v) && writes_variable(table, w) && v.name == w.name ==> v == w
    &&& forall|name: Seq<char>, v: Map<Seq<char>, Variable>, w: Map<Seq<char>, Variable>|
        #![trigger writes_environment(table, name, v), writes_environment(table, name, w)]
        writes_environment(table, name, v) && writes_environment(table, name, w) ==> v == w
}

/// Two tables write the same: each variable and each environment that one
/// writes the other writes too, in whatever order and with scalars of
/// whatever kind.
pub open spec fn write_the_same(
    a: Seq<(DocValue, DocValue)>,
    b: Seq<(DocValue, DocValue)>,
) -> bool {
    &&& forall|v: Variable| #[trigger] writes_variable(a, v) <==> writes_variable(b, v)
    &&& forall|name: Seq<char>, v: Map<Seq<char>, Variable>| #[trigger]
        writes_environment(a, name, v) <==> writes_environment(b, name, v)
}

/// Two documents express the same configuration: their roots are tables
/// that write the same, each variable and each environment once, or neither
/// root is a table.
pub open spec fn express_the_same(a: DocValue, b: DocValue) -> bool {
    match (a, b) {
        (DocValue::Table(x), DocValue::Table(y)) => {
            &&& writes_each_once(x@)
            &&& writes_each_once(y@)
            &&& write_the_same(x@, y@)
        },
        (DocValue::Table(_), _) => false,
        (_, DocValue::Table(_)) => false,
        _ => true,
    }
}

/// The variables of a table are those that its entries write: a name has a
/// variable where, and only where, some entry writes a variable of that
/// name, and the variable is one that an entry writes.
pub proof fn lemma_variables_written(table: Seq<(DocValue, DocValue)>, name: Seq<char>)
    ensures
        variables_of(table).contains_key(name) ==> variables_of(table)[name].name == name
            && writes_variable(table, variables_of(table)[name]),
        forall|v: Variable| #[trigger]
            writes_variable(table, v) && v.name == name ==> variables_of(table).contains_key(name),
    decreases table.len(),
{
    if table.len() > 0 {
        let earlier = table.drop_last();
        lemma_variables_written(earlier, name);
        if variables_of(table).contains_key(name) {
            match variable_at(table.last()) {
                Some(v) if v.name == name => {
                    assert(variable_at(table[table.len() - 1]) == Some(v));
                },
                _ => {
                    let found = variables_of(earlier)[name];
                    let i = choose|i: int|
                        0 <= i < earlier.len() && variable_at(#[trigger] earlier[i]) == Some(found);
                    assert(variable_at(table[i]) == Some(found));
                },
            }
        }
        assert forall|v: Variable| #[trigger]
            writes_variable(table, v) && v.name == name implies variables_of(table).contains_key(
            name,
        ) by {
            let i = choose|i: int| 0 <= i < table.len() && variable_at(#[trigger] table[i]) == Some(v);
            if i < table.len() - 1 {
                assert(variable_at(earlier[i]) == Some(v));
                assert(writes_variable(earlier, v));
            }
        }
    }
}

/// The environments of a table are those that its entries write.
pub proof fn lemma_environments_written(table: Seq<(DocValue, DocValue)>, name: Seq<char>)
    ensures
        environments_of(table).contains_key(name) ==> writes_environment(
            table,
            name,
            environments_of(table)[name],
        ),
        forall|v: Map<Seq<char>, Variable>| #[trigger]
            writes_environment(table, name, v) ==> environments_of(table).contains_key(name),
    decreases table.len(),
{
    if table.len() > 0 {
        let earlier = table.drop_last();
        lemma_environments_written(earlier, name);
        if environments_of(table).contains_key(name) {
            match environment_at(table.last()) {
                Some((last, v)) if last == name => {
                    assert(environment_at(table[table.len() - 1]) == Some((name, v)));
                },
                _ => {
                    let found = environments_of(earlier)[name];
                    let i = choose|i: int|
                        0 <= i < earlier.len() && environment_at(#[trigger] earlier[i]) == Some(
                            (name, found),
                        );
                    assert(environment_at(table[i]) == Some((name, found)));
                },
            }
        }
        assert forall|v: Map<Seq<char>, Variable>| #[trigger]
            writes_environment(table, name, v) implies environments_of(table).contains_key(
            name,
        ) by {
            let i = choose|i: int|
                0 <= i < table.len() && environment_at(#[trigger] table[i]) == Some((name, v));
            if i < table.len() - 1 {
                assert(environment_at(earlier[i]) == Some((name, v)));
                assert(writes_environment(earlier, name, v));
            }
        }
    }
}

/// Tables that write the same, each variable and each environment once,
/// declare the same variables and the same environments.
pub proof fn lemma_tables_agree(a: Seq<(DocValue, DocValue)>, b: Seq<(DocValue, DocValue)>)
    requires
        writes_each_once(a),
        writes_each_once(b),
        write_the_same(a, b),
    ensures
        variables_of(a) == variables_of(b),
        environments_of(a) == environments_of(b),
{
    assert forall|name: Seq<char>| #[trigger]
        variables_of(a).dom().contains(name) == variables_of(b).dom().contains(name) by {
        lemma_variables_written(a, name);
        lemma_variables_written(b, name);
        if variables_of(a).contains_key(name) {
            assert(writes_variable(b, variables_of(a)[name]));
        }
        if variables_of(b).contains_key(name) {
            assert(writes_variable(a, variables_of(b)[name]));
        }
    }
    assert forall|name: Seq<char>| #[trigger] variables_of(a).dom().contains(name) implies variables_of(
        a,
    )[name] == variables_of(b)[name] by {
        lemma_variables_written(a, name);
        lemma_variables_written(b, name);
        assert(writes_variable(b, variables_of(a)[name]));
    }
    assert(variables_of(a) =~= variables_of(b));
    assert forall|name: Seq<char>| #[trigger]
        environments_of(a).dom().contains(name) == environments_of(b).dom().contains(name) by {
        lemma_environments_written(a, name);
        lemma_environments_written(b, name);
        if environments_of(a).contains_key(name) {
            assert(writes_environment(b, name, environments_of(a)[name]));
        }
        if environments_of(b).contains_key(name) {
            assert(writes_environment(a, name, environments_of(b)[name]));
        }
    }
    assert forall|name: Seq<char>| #[trigger]
        environments_of(a).dom().contains(name) implies environments_of(a)[name]
        == environments_of(b)[name] by {
        lemma_environments_written(a, name);
        lemma_environments_written(b, name);
        assert(writes_environment(b, name, environments_of(a)[name]));
    }
    assert(environments_of(a) =~= environments_of(b));
}

/// Documents that express the same configuration declare the same
/// configuration: the same variables for every environment and the same
/// environments, every value the same text.
pub proof fn lemma_documents_agree(a: DocValue, b: DocValue)
    requires
        express_the_same(a, b),
    ensures
        defaults_of(a) == defaults_of(b),
        overrides_of(a) == overrides_of(b),
{
    match (a, b) {
        (DocValue::Table(x), DocValue::Table(y)) => {
            lemma_tables_agree(x@, y@);
        },
        _ => {},
    }
}

/// What is read from three texts, one of each format, is the same where
/// the three parsers make documents of them that express the same
/// configuration. `json`, `toml` and `yaml` are what the parsers made of
/// the three texts, and `source_file` is any path.
pub proof fn lemma_readings_agree(
    json: Result<DocValue, Seq<char>>,
    toml: Result<DocValue, Seq<char>>,
    yaml: Result<DocValue, Seq<char>>,
    source_file: Seq<char>,
)
    requires
        json is Ok,
        toml is Ok,
        yaml is Ok,
        express_the_same(json->Ok_0, toml->Ok_0),
        express_the_same(toml->Ok_0, yaml->Ok_0),
    ensures
        reading(json, source_file) is Ok,
        reading(json, source_file) == reading(toml, source_file),
        reading(toml, source_file) == reading(yaml, source_file),
{
    lemma_documents_agree(json->Ok_0, toml->Ok_0);
    lemma_documents_agree(toml->Ok_0, yaml->Ok_0);
}

} // verus!
