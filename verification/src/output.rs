//! What is shown of variables and of comparisons, line by line.

use crate::diff::{DiffEntry, DiffResult, DiffStatus};
use crate::names::{in_order, names_of, str_eq};
use crate::variable::{EnvVariable, EnvVariableMap, Variable};
use vstd::prelude::*;
use vstd::string::StringExecFns;

verus! {

/// The line that assigns a value, already escaped, to a name.
pub open spec fn assignment_text(name: Seq<char>, escaped: Seq<char>) -> Seq<char> {
    name + "="@ + escaped
}

/// A character that no shell gives a meaning to: a letter or a digit of
/// ASCII, or one of `-`, `_`, `=`, `/`, `,`, `.`, `+`.
pub open spec fn is_plain(c: char) -> bool {
    ||| 'a' <= c <= 'z'
    ||| 'A' <= c <= 'Z'
    ||| '0' <= c <= '9'
    ||| c == '-'
    ||| c == '_'
    ||| c == '='
    ||| c == '/'
    ||| c == ','
    ||| c == '.'
    ||| c == '+'
}

/// A text that is not empty and holds plain characters only.
pub open spec fn plain_text(text: Seq<char>) -> bool {
    &&& text.len() > 0
    &&& forall|i: int| 0 <= i < text.len() ==> is_plain(#[trigger] text[i])
}

/// `escaped` may be `value` escaped for a shell: a plain text is left as it
/// is. Of a text that is not plain this asks nothing.
pub open spec fn may_escape(value: Seq<char>, escaped: Seq<char>) -> bool {
    plain_text(value) ==> escaped == value
}

/// The line assigns the variable's value, escaped, to its name.
pub open spec fn assigns(line: Seq<char>, variable: Variable) -> bool {
    exists|escaped: Seq<char>|
        line == #[trigger] assignment_text(variable.name, escaped) && may_escape(
            variable.value,
            escaped,
        )
}

/// The sign of a status: `+` for an added variable, `-` for a deleted one.
pub open spec fn sign(status: DiffStatus) -> Seq<char> {
    match status {
        DiffStatus::Added => "+"@,
        DiffStatus::Deleted => "-"@,
    }
}

/// The line of a comparison that shows a status before an assignment.
pub open spec fn diff_text(status: DiffStatus, assignment: Seq<char>) -> Seq<char> {
    sign(status) + " "@ + assignment
}

/// The line shows the entry: its sign, then the assignment of its
/// variable's value, escaped, to the variable's name.
pub open spec fn shows(line: Seq<char>, entry: DiffEntry) -> bool {
    exists|escaped: Seq<char>|
        line == diff_text(entry.status, #[trigger] assignment_text(entry.variable.name, escaped))
            && may_escape(entry.variable.value, escaped)
}

/// Whether a variable is among those asked for: all are where no names are
/// given.
pub open spec fn is_wanted(name: Seq<char>, wanted: Option<Seq<Seq<char>>>) -> bool {
    wanted matches Some(names) ==> names.contains(name)
}

/// The names, of those given, that are asked for, in the order given.
pub open spec fn chosen(names: Seq<Seq<char>>, wanted: Option<Seq<Seq<char>>>) -> Seq<Seq<char>>
    decreases names.len(),
{
    if names.len() == 0 {
        seq![]
    } else if is_wanted(names.last(), wanted) {
        chosen(names.drop_last(), wanted).push(names.last())
    } else {
        chosen(names.drop_last(), wanted)
    }
}

/// The line shows the variable: its value alone where `value_only` is set,
/// else the assignment of its value, escaped, to its name.
pub open spec fn shows_variable(line: Seq<char>, variable: Variable, value_only: bool) -> bool {
    if value_only {
        line == variable.value
    } else {
        assigns(line, variable)
    }
}

/// The names under which the variables that are shown are stored: those
/// asked for, in ascending order.
pub open spec fn shown_names(
    variables: Map<Seq<char>, Variable>,
    wanted: Option<Seq<Seq<char>>>,
) -> Seq<Seq<char>> {
    chosen(in_order(variables.dom()), wanted)
}

/// What the names asked for are, where names are given.
pub open spec fn wanted_names(variable_names: Option<&Vec<String>>) -> Option<Seq<Seq<char>>> {
    match variable_names {
        Some(names) => Some(names_of(names@)),
        None => None,
    }
}

/// A line that assigns a plain value is the name, `=` and the value itself.
pub proof fn lemma_plain_assignment(line: Seq<char>, variable: Variable)
    requires
        assigns(line, variable),
        plain_text(variable.value),
    ensures
        line == assignment_text(variable.name, variable.value),
{
}

/// A line that shows an entry of a plain value is the sign, a space, the
/// name, `=` and the value itself.
pub proof fn lemma_plain_entry(line: Seq<char>, entry: DiffEntry)
    requires
        shows(line, entry),
        plain_text(entry.variable.value),
    ensures
        line == diff_text(
            entry.status,
            assignment_text(entry.variable.name, entry.variable.value),
        ),
{
}

/// Calls `shell_escape::escape`, which quotes a text for a shell where the
/// text needs it. Which shell's rules it follows depends on the platform and
/// on the environment of the process, so the result has no name. Taken on
/// trust is what holds under either shell's rules: a plain text comes back
/// as it is.
#[verifier::external_body]
fn escape_for_shell(value: &str) -> (r: String)
    ensures
        plain_text(value@) ==> r@ == value@,
{
    shell_escape::escape(std::borrow::Cow::Borrowed(value)).into_owned()
}

/// The line `key=escaped`.
pub fn assignment(key: &str, escaped: &str) -> (r: String)
    ensures
        r@ == assignment_text(key@, escaped@),
{
    let mut line = key.to_owned();
    line.append("=");
    line.append(escaped);
    line
}

/// The line that shows `status` before `assignment`, with a space between.
pub fn diff_line(status: DiffStatus, assignment: &str) -> (r: String)
    ensures
        r@ == diff_text(status, assignment@),
{
    let mut line = status.to_string();
    line.append(" ");
    line.append(assignment);
    line
}

impl EnvVariable {
    /// The line that assigns the variable's value, escaped for a shell, to
    /// its name. A plain value is shown as it is.
    pub fn to_string(&self) -> (r: String)
        ensures
            assigns(r@, self@),
            plain_text(self@.value) ==> r@ == assignment_text(self@.name, self@.value),
    {
        let escaped = escape_for_shell(self.value.as_str());
        let line = assignment(self.key.as_str(), escaped.as_str());
        proof {
            assert(line@ == assignment_text(self@.name, escaped@) && may_escape(
                self@.value,
                escaped@,
            ));
        }
        line
    }
}

impl DiffStatus {
    /// The sign of the status.
    pub fn to_string(&self) -> (r: String)
        ensures
            r@ == sign(*self),
    {
        match self {
            DiffStatus::Added => "+".to_owned(),
            DiffStatus::Deleted => "-".to_owned(),
        }
    }
}

impl DiffResult {
    /// The line that shows the entry. A plain value is shown as it is.
    pub fn to_string(&self) -> (r: String)
        ensures
            shows(r@, self@),
            plain_text(self@.variable.value) ==> r@ == diff_text(
                self@.status,
                assignment_text(self@.variable.name, self@.variable.value),
            ),
    {
        let shown = self.env_var.to_string();
        proof {
            let escaped = choose|escaped: Seq<char>|
                shown@ == #[trigger] assignment_text(self@.variable.name, escaped) && may_escape(
                    self@.variable.value,
                    escaped,
                );
            assert(diff_text(self.diff_status, shown@) == diff_text(
                self@.status,
                assignment_text(self@.variable.name, escaped),
            ));
        }
        diff_line(self.diff_status, shown.as_str())
    }
}

/// Whether `name` is one of `names`.
fn contains_name(names: &Vec<String>, name: &str) -> (r: bool)
    ensures
        r == names_of(names@).contains(name@),
{
    let mut at: usize = 0;
    while at < names.len()
        invariant
            at <= names@.len(),
            forall|i: int| 0 <= i < at ==> names_of(names@)[i] != name@,
        decreases names@.len() - at,
    {
        if str_eq(names[at].as_str(), name) {
            assert(names_of(names@)[at as int] == name@);
            return true;
        }
        at = at + 1;
    }
    false
}

/// The lines that show the variables of a set, in ascending order of the
/// names that they are stored under. Where `variable_names` is given, only
/// the variables stored under one of those names are shown. A line is the
/// value alone where `value_only` is set, and the assignment of the escaped
/// value to the variable's name where it is not.
pub fn show_lines(
    variables: &EnvVariableMap,
    variable_names: Option<&Vec<String>>,
    value_only: bool,
) -> (r: Vec<String>)
    ensures
        r@.len() == shown_names(variables@, wanted_names(variable_names)).len(),
        forall|i: int|
            0 <= i < r@.len() ==> {
                &&& variables@.contains_key(
                    #[trigger] shown_names(variables@, wanted_names(variable_names))[i],
                )
                &&& shows_variable(
                    r@[i]@,
                    variables@[shown_names(variables@, wanted_names(variable_names))[i]],
                    value_only,
                )
            },
{
    let names = variables.keys();
    let ghost all = names_of(names@);
    let ghost wanted = wanted_names(variable_names);
    let mut lines: Vec<String> = Vec::new();
    let mut at: usize = 0;
    while at < names.len()
        invariant
            at <= names@.len(),
            all == names_of(names@),
            all == in_order(variables@.dom()),
            all.to_set() == variables@.dom(),
            wanted == wanted_names(variable_names),
            lines@.len() == chosen(all.take(at as int), wanted).len(),
            forall|i: int|
                0 <= i < lines@.len() ==> {
                    &&& variables@.contains_key(#[trigger] chosen(all.take(at as int), wanted)[i])
                    &&& shows_variable(
                        lines@[i]@,
                        variables@[chosen(all.take(at as int), wanted)[i]],
                        value_only,
                    )
                },
        decreases names@.len() - at,
    {
        let name = names[at].as_str();
        let ghost before = lines@;
        let ghost earlier = chosen(all.take(at as int), wanted);
        proof {
            assert(all.take(at + 1).drop_last() =~= all.take(at as int));
            assert(all.take(at + 1).last() == name@);
            assert(all[at as int] == name@);
            assert(all.to_set().contains(name@));
        }
        let is_wanted = match variable_names {
            Some(wanted_names) => contains_name(wanted_names, name),
            None => true,
        };
        if is_wanted {
            match variables.get(name) {
                Some(variable) => {
                    let line = if value_only {
                        variable.value.clone()
                    } else {
                        variable.to_string()
                    };
                    lines.push(line);
                },
                None => {},
            }
        }
        proof {
            let now = chosen(all.take(at + 1), wanted);
            assert forall|i: int| 0 <= i < lines@.len() implies {
                &&& variables@.contains_key(#[trigger] now[i])
                &&& shows_variable(lines@[i]@, variables@[now[i]], value_only)
            } by {
                if i < before.len() {
                    assert(lines@[i] == before[i]);
                    assert(now[i] == earlier[i]);
                }
            }
        }
        at = at + 1;
    }
    proof {
        assert(all.take(names@.len() as int) =~= all);
    }
    lines
}

/// The lines that show a comparison of `from` with `to`: none where nothing
/// differs, else a line that names `from`, a line that names `to`, and a line
/// for each entry.
pub fn diff_lines(from: &str, to: &str, diffs: &Vec<DiffResult>) -> (r: Vec<String>)
    ensures
        diffs@.len() == 0 ==> r@.len() == 0,
        diffs@.len() > 0 ==> {
            &&& r@.len() == diffs@.len() + 2
            &&& r@[0]@ == "--- "@ + from@
            &&& r@[1]@ == "+++ "@ + to@
            &&& forall|i: int| 0 <= i < diffs@.len() ==> shows(#[trigger] r@[i + 2]@, diffs@[i]@)
        },
{
    let mut lines: Vec<String> = Vec::new();
    if diffs.len() > 0 {
        let mut from_line = "--- ".to_owned();
        from_line.append(from);
        lines.push(from_line);
        let mut to_line = "+++ ".to_owned();
        to_line.append(to);
        lines.push(to_line);
        let mut at: usize = 0;
        while at < diffs.len()
            invariant
                at <= diffs@.len(),
                lines@.len() == at + 2,
                lines@[0]@ == "--- "@ + from@,
                lines@[1]@ == "+++ "@ + to@,
                forall|i: int| 0 <= i < at ==> shows(#[trigger] lines@[i + 2]@, diffs@[i]@),
            decreases diffs@.len() - at,
        {
            lines.push(diffs[at].to_string());
            at = at + 1;
        }
    }
    lines
}

} // verus!
