use envi::diff::{diff, unique_keys};
use envi::{DiffResult, DiffStatus, EnvVariable, EnvVariableMap, SortedMap};

fn variables(entries: &[(&str, &str, &str)]) -> EnvVariableMap {
    let mut map: EnvVariableMap = SortedMap::new();
    for (key, name, value) in entries {
        map.insert(key.to_string(), EnvVariable::new(name, value.to_string()));
    }
    map
}

fn set(entries: &[(&str, &str)]) -> EnvVariableMap {
    let mut map: EnvVariableMap = SortedMap::new();
    for (name, value) in entries {
        map.insert(name.to_string(), EnvVariable::new(name, value.to_string()));
    }
    map
}

fn names(keys: &[&str]) -> Vec<String> {
    keys.iter().map(|k| k.to_string()).collect()
}

fn added(name: &str, value: &str) -> DiffResult {
    DiffResult {
        diff_status: DiffStatus::Added,
        env_var: EnvVariable::new(name, value.to_owned()),
    }
}

fn deleted(name: &str, value: &str) -> DiffResult {
    DiffResult {
        diff_status: DiffStatus::Deleted,
        env_var: EnvVariable::new(name, value.to_owned()),
    }
}

#[test]
fn test_unique_keys() {
    let a = variables(&[("a", "a1", "bar"), ("b", "b2", "bar"), ("c", "c2", "bar")]);
    let b = variables(&[("a", "b1", "bar"), ("b", "b2", "bar"), ("d", "b3", "bar")]);

    let res = unique_keys(&a, &b);
    assert_eq!(res.len(), 4);
    assert_eq!(res.contains(&"a".to_string()), true);
    assert_eq!(res.contains(&"b".to_string()), true);
    assert_eq!(res.contains(&"c".to_string()), true);
    assert_eq!(res.contains(&"d".to_string()), true);
}

#[test]
fn unique_keys_come_in_ascending_order() {
    let a = set(&[("PORT", "1"), ("DEBUG", "2")]);
    let b = set(&[("FOO", "3"), ("DEBUG", "4"), ("BAR", "5")]);
    assert_eq!(unique_keys(&a, &b), names(&["BAR", "DEBUG", "FOO", "PORT"]));
    assert_eq!(unique_keys(&b, &a), names(&["BAR", "DEBUG", "FOO", "PORT"]));
}

#[test]
fn unique_keys_of_empty_sets() {
    let empty = set(&[]);
    let a = set(&[("FOO", "foo")]);
    assert_eq!(unique_keys(&empty, &empty), Vec::<String>::new());
    assert_eq!(unique_keys(&a, &empty), names(&["FOO"]));
    assert_eq!(unique_keys(&empty, &a), names(&["FOO"]));
}

#[test]
fn same_value_gives_no_entry() {
    let from = set(&[("FOO", "foo")]);
    let to = set(&[("FOO", "foo")]);
    assert_eq!(diff(&names(&["FOO"]), &from, &to), vec![]);
}

#[test]
fn different_value_gives_deleted_then_added() {
    let from = set(&[("FOO", "old")]);
    let to = set(&[("FOO", "new")]);
    assert_eq!(
        diff(&names(&["FOO"]), &from, &to),
        vec![deleted("FOO", "old"), added("FOO", "new")]
    );
}

#[test]
fn only_in_to_gives_added() {
    let from = set(&[]);
    let to = set(&[("FOO", "foo")]);
    assert_eq!(diff(&names(&["FOO"]), &from, &to), vec![added("FOO", "foo")]);
}

#[test]
fn only_in_from_gives_deleted() {
    let from = set(&[("FOO", "foo")]);
    let to = set(&[]);
    assert_eq!(diff(&names(&["FOO"]), &from, &to), vec![deleted("FOO", "foo")]);
}

#[test]
fn name_in_neither_set_gives_no_entry() {
    let from = set(&[("FOO", "foo")]);
    let to = set(&[("FOO", "bar")]);
    assert_eq!(diff(&names(&["OTHER"]), &from, &to), vec![]);
}

#[test]
fn only_the_names_asked_for_are_compared() {
    let from = set(&[("A", "1"), ("B", "2"), ("C", "3")]);
    let to = set(&[("A", "x"), ("B", "y"), ("D", "z")]);
    assert_eq!(
        diff(&names(&["B", "D"]), &from, &to),
        vec![deleted("B", "2"), added("B", "y"), added("D", "z")]
    );
    assert_eq!(diff(&names(&[]), &from, &to), vec![]);
}

#[test]
fn entries_are_sorted_by_name_whatever_the_order_of_the_names() {
    let from = set(&[("A", "1"), ("B", "2"), ("C", "3")]);
    let to = set(&[("A", "x"), ("B", "2"), ("D", "z")]);
    let expected = vec![
        deleted("A", "1"),
        added("A", "x"),
        deleted("C", "3"),
        added("D", "z"),
    ];
    assert_eq!(diff(&names(&["A", "B", "C", "D"]), &from, &to), expected);
    assert_eq!(diff(&names(&["D", "C", "B", "A"]), &from, &to), expected);
    assert_eq!(diff(&names(&["C", "A", "D", "B"]), &from, &to), expected);
}

#[test]
fn scenario_local_against_dev() {
    let local = set(&[("BAR", "local_bar"), ("FOO", "foo")]);
    let dev = set(&[("BAR", "dev_bar"), ("FOO", "foo")]);
    let keys = unique_keys(&local, &dev);
    assert_eq!(
        diff(&keys, &local, &dev),
        vec![deleted("BAR", "local_bar"), added("BAR", "dev_bar")]
    );
}

#[test]
fn diff_is_symmetric() {
    let a = set(&[("A", "1"), ("B", "2"), ("C", "3"), ("E", "5")]);
    let b = set(&[("A", "x"), ("B", "2"), ("D", "z"), ("E", "6")]);
    let keys = unique_keys(&a, &b);
    let forth = diff(&keys, &a, &b);
    let back = diff(&keys, &b, &a);
    assert_eq!(
        forth,
        vec![
            deleted("A", "1"),
            added("A", "x"),
            deleted("C", "3"),
            added("D", "z"),
            deleted("E", "5"),
            added("E", "6"),
        ]
    );
    assert_eq!(
        back,
        vec![
            deleted("A", "x"),
            added("A", "1"),
            added("C", "3"),
            deleted("D", "z"),
            deleted("E", "6"),
            added("E", "5"),
        ]
    );
    assert_eq!(forth.len(), back.len());
    for entry in forth.iter() {
        let other_side = match entry.diff_status {
            DiffStatus::Added => deleted(&entry.env_var.key, &entry.env_var.value),
            DiffStatus::Deleted => added(&entry.env_var.key, &entry.env_var.value),
        };
        assert!(back.contains(&other_side));
    }
}

#[test]
fn diff_of_a_set_with_itself_is_empty() {
    let a = set(&[("A", "1"), ("B", "2")]);
    let keys = unique_keys(&a, &a);
    assert_eq!(diff(&keys, &a, &a), vec![]);
}

#[test]
fn diff_twice_gives_the_same() {
    let a = set(&[("A", "1"), ("B", "2")]);
    let b = set(&[("A", "x"), ("C", "3")]);
    let keys = unique_keys(&a, &b);
    assert_eq!(diff(&keys, &a, &b), diff(&keys, &a, &b));
}

#[test]
fn entries_are_sorted_by_the_names_of_the_variables() {
    let from = variables(&[("a", "z", "1"), ("b", "y", "2")]);
    let to = variables(&[]);
    let expected = vec![deleted("y", "2"), deleted("z", "1")];
    assert_eq!(diff(&names(&["a", "b"]), &from, &to), expected);
    assert_eq!(diff(&names(&["b", "a"]), &from, &to), expected);
}

#[test]
fn entries_of_one_name_stay_in_the_order_found() {
    let from = variables(&[("a", "x", "1"), ("b", "w", "2"), ("c", "x", "3")]);
    let to = variables(&[("a", "x", "4"), ("b", "x", "5")]);
    assert_eq!(
        diff(&names(&["c", "b", "a"]), &from, &to),
        vec![
            deleted("w", "2"),
            deleted("x", "1"),
            added("x", "4"),
            added("x", "5"),
            deleted("x", "3"),
        ]
    );
}
