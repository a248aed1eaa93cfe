use envi::names::{str_eq, str_lt};

#[test]
fn names_compare_by_first_difference() {
    assert!(str_lt("BAR", "FOO"));
    assert!(!str_lt("FOO", "BAR"));
    assert!(str_lt("FOO", "FOP"));
    assert!(!str_lt("FOP", "FOO"));
}

#[test]
fn a_prefix_comes_first() {
    assert!(str_lt("", "a"));
    assert!(!str_lt("a", ""));
    assert!(str_lt("PORT", "PORT_2"));
    assert!(!str_lt("PORT_2", "PORT"));
}

#[test]
fn no_name_comes_before_itself() {
    assert!(!str_lt("", ""));
    assert!(!str_lt("FOO", "FOO"));
}

#[test]
fn upper_case_comes_before_lower_case() {
    assert!(str_lt("Z", "a"));
    assert!(str_lt("DEBUG", "debug"));
    assert!(str_lt("_", "a"));
    assert!(str_lt("Z", "_"));
}

#[test]
fn names_compare_as_str_does() {
    let names = ["", "a", "A", "ab", "b", "é", "e", "zz", "z", "日本", "日", "\u{10000}", "\u{ffff}"];
    for a in names.iter() {
        for b in names.iter() {
            assert_eq!(str_lt(a, b), a < b, "{:?} < {:?}", a, b);
            assert_eq!(str_eq(a, b), a == b, "{:?} == {:?}", a, b);
        }
    }
}

#[test]
fn equal_names() {
    assert!(str_eq("", ""));
    assert!(str_eq("json", "json"));
    assert!(!str_eq("json", "jso"));
    assert!(!str_eq("json", "JSON"));
}
