use envi::output::{assignment, diff_line, diff_lines, show_lines};
use envi::{DiffResult, DiffStatus, EnvVariable, EnvVariableMap, SortedMap};

fn set(entries: &[(&str, &str)]) -> EnvVariableMap {
    let mut map: EnvVariableMap = SortedMap::new();
    for (name, value) in entries {
        map.insert(name.to_string(), EnvVariable::new(name, value.to_string()));
    }
    map
}

fn added(name: &str, value: &str) -> DiffResult {
    DiffResult {
        diff_status: DiffStatus::Added,
        env_var: EnvVariable::new(name, value.to_owned()),
    }
}

fn deleted(name: &str, value: &str) -> DiffResult {
    DiffResult {
        diff_status: DiffStatus::Deleted,
        env_var: EnvVariable::new(name, value.to_owned()),
    }
}

#[test]
fn assignment_joins_name_and_value() {
    assert_eq!(assignment("FOO", "foo"), "FOO=foo");
    assert_eq!(assignment("FOO", ""), "FOO=");
    assert_eq!(assignment("", "foo"), "=foo");
    assert_eq!(assignment("A", "'b c'"), "A='b c'");
}

#[test]
fn status_shows_as_its_sign() {
    assert_eq!(DiffStatus::Added.to_string(), "+");
    assert_eq!(DiffStatus::Deleted.to_string(), "-");
}

#[test]
fn diff_line_puts_the_sign_first() {
    assert_eq!(diff_line(DiffStatus::Added, "FOO=foo"), "+ FOO=foo");
    assert_eq!(diff_line(DiffStatus::Deleted, "FOO=foo"), "- FOO=foo");
}

#[test]
fn plain_value_is_shown_as_it_is() {
    assert_eq!(EnvVariable::new("FOO", "foo".to_owned()).to_string(), "FOO=foo");
    assert_eq!(
        EnvVariable::new("URL", "host.example/path,a=b+c-d_e".to_owned()).to_string(),
        "URL=host.example/path,a=b+c-d_e"
    );
}

#[test]
fn value_is_escaped_for_the_shell() {
    assert_eq!(
        EnvVariable::new("GREETING", "hello world".to_owned()).to_string(),
        "GREETING='hello world'"
    );
    assert_eq!(EnvVariable::new("EMPTY", "".to_owned()).to_string(), "EMPTY=''");
    assert_eq!(
        EnvVariable::new("QUOTE", "it's".to_owned()).to_string(),
        "QUOTE='it'\\''s'"
    );
    assert_eq!(
        EnvVariable::new("CMD", "a && b".to_owned()).to_string(),
        "CMD='a && b'"
    );
}

#[test]
fn entry_shows_as_sign_and_assignment() {
    assert_eq!(added("FOO", "foo").to_string(), "+ FOO=foo");
    assert_eq!(deleted("FOO", "old value").to_string(), "- FOO='old value'");
}

#[test]
fn show_lines_of_all_variables() {
    let variables = set(&[("PORT", "8080"), ("FOO", "foo bar"), ("DEBUG", "true")]);
    assert_eq!(
        show_lines(&variables, None, false),
        vec!["DEBUG=true", "FOO='foo bar'", "PORT=8080"]
    );
}

#[test]
fn show_lines_of_values_only() {
    let variables = set(&[("PORT", "8080"), ("FOO", "foo bar"), ("DEBUG", "true")]);
    assert_eq!(show_lines(&variables, None, true), vec!["true", "foo bar", "8080"]);
}

#[test]
fn show_lines_of_the_names_asked_for() {
    let variables = set(&[("PORT", "8080"), ("FOO", "foo"), ("DEBUG", "true")]);
    let names = vec!["PORT".to_owned(), "NONE".to_owned(), "DEBUG".to_owned(), "PORT".to_owned()];
    assert_eq!(show_lines(&variables, Some(&names), false), vec!["DEBUG=true", "PORT=8080"]);
    assert_eq!(show_lines(&variables, Some(&names), true), vec!["true", "8080"]);
    assert_eq!(show_lines(&variables, Some(&vec![]), false), Vec::<String>::new());
}

#[test]
fn show_lines_of_no_variables() {
    assert_eq!(show_lines(&set(&[]), None, false), Vec::<String>::new());
}

#[test]
fn diff_lines_without_entries_are_none() {
    assert_eq!(diff_lines("local", "dev", &vec![]), Vec::<String>::new());
}

#[test]
fn diff_lines_start_with_the_two_names() {
    let diffs = vec![deleted("BAR", "local_bar"), added("BAR", "dev_bar"), added("NEW", "a b")];
    assert_eq!(
        diff_lines("local", "dev", &diffs),
        vec!["--- local", "+++ dev", "- BAR=local_bar", "+ BAR=dev_bar", "+ NEW='a b'"]
    );
}

#[test]
fn plain_text_is_left_as_it_is() {
    let plain = "abcdefghijklmnopqrstuvwxyzABCDEFGHIJKLMNOPQRSTUVWXYZ0123456789-_=/,.+";
    assert_eq!(
        EnvVariable::new("ALL", plain.to_owned()).to_string(),
        format!("ALL={}", plain)
    );
    assert_eq!(added("ALL", plain).to_string(), format!("+ ALL={}", plain));
    for c in plain.chars() {
        let value = c.to_string();
        assert_eq!(
            EnvVariable::new("ONE", value.clone()).to_string(),
            format!("ONE={}", value)
        );
    }
}

#[test]
fn text_that_is_not_plain_is_quoted() {
    for value in ["", " ", "a b", "$HOME", "a;b", "é", "a\"b", "tab\there", "x*"] {
        assert_ne!(
            EnvVariable::new("V", value.to_owned()).to_string(),
            format!("V={}", value),
            "{:?}",
            value
        );
    }
}
