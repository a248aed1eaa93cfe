use envi::file_parser;
use envi::sorted_map::SortedMap;
use envi::variable::{EnvVariable, EnvVariableMap};

fn expected_defaults() -> EnvVariableMap {
    let mut defaults_expected: EnvVariableMap = SortedMap::new();
    defaults_expected.insert(
        "DEBUG".to_owned(),
        EnvVariable::new("DEBUG", "true".to_owned()),
    );
    defaults_expected.insert("FOO".to_owned(), EnvVariable::new("FOO", "foo".to_owned()));
    defaults_expected.insert(
        "PORT".to_owned(),
        EnvVariable::new("PORT", "8080".to_owned()),
    );
    defaults_expected
}

fn expected_overrides() -> SortedMap<EnvVariableMap> {
    let mut overrides_expected: SortedMap<EnvVariableMap> = SortedMap::new();
    let mut test_env_var_map: EnvVariableMap = SortedMap::new();
    test_env_var_map.insert(
        "FLAGS".to_owned(),
        EnvVariable::new("FLAGS", "none".to_owned()),
    );
    test_env_var_map.insert(
        "FOO".to_owned(),
        EnvVariable::new("FOO", "test_foo".to_owned()),
    );
    test_env_var_map.insert(
        "PORT".to_owned(),
        EnvVariable::new("PORT", "3000".to_owned()),
    );
    overrides_expected.insert("test".to_owned(), test_env_var_map);
    overrides_expected
}

#[test]
fn json_test_json_parser() {
    let content = r#"
        {
            "DEBUG": true,
            "FOO": "foo",
            "PORT": 8080,
            "bars": [1,2,3],
            "aaa": null,
            "test": {
              "FLAGS": "none",
              "FOO": "test_foo",
              "PORT": "3000"
            }
        }"#;

    let (defaults, overrides) = file_parser::json::parse_config(content, "testfile.json").unwrap();

    assert_eq!(defaults, expected_defaults());
    assert_eq!(overrides, expected_overrides());
}

#[test]
fn toml_test_json_parser() {
    let content = r#"
            DEBUG = true
            FOO = "foo"
            PORT = 8080
            bars = [ 1, 2, 3 ]

            [test]
            FLAGS = "none"
            FOO = "test_foo"
            PORT = "3000"
        "#;

    let (defaults, overrides) = file_parser::toml::parse_config(content, "testfile.json").unwrap();

    assert_eq!(defaults, expected_defaults());
    assert_eq!(overrides, expected_overrides());
}

#[test]
fn yaml_test_json_parser() {
    let content = r#"
            DEBUG: true
            FOO: foo
            PORT: 8080
            bars:
              - 1
              - 2
              - 3
            test:
              FLAGS: none
              FOO: test_foo
              PORT: 3000
        "#;

    let (defaults, overrides) = file_parser::yaml::parse_config(content, "testfile.json").unwrap();

    assert_eq!(defaults, expected_defaults());
    assert_eq!(overrides, expected_overrides());
}

fn set(entries: &[(&str, &str)]) -> EnvVariableMap {
    let mut map: EnvVariableMap = SortedMap::new();
    for (name, value) in entries {
        map.insert(name.to_string(), EnvVariable::new(name, value.to_string()));
    }
    map
}

fn environments(entries: Vec<(&str, EnvVariableMap)>) -> SortedMap<EnvVariableMap> {
    let mut map: SortedMap<EnvVariableMap> = SortedMap::new();
    for (name, variables) in entries {
        map.insert(name.to_string(), variables);
    }
    map
}

fn parse_failure(result: Result<(EnvVariableMap, SortedMap<EnvVariableMap>), envi::ConfigError>) -> (String, String, String) {
    match result {
        Err(e) => {
            let message = e.message();
            match e {
                envi::ConfigError::Parse { source_file, cause } => (source_file, cause, message),
                other => panic!("not a parse failure: {:?}", other),
            }
        }
        Ok(_) => panic!("parsed"),
    }
}

#[test]
fn the_three_formats_read_the_same_configuration() {
    let json = r#"{
        "DEBUG": true,
        "FOO": "foo",
        "PORT": 8080,
        "RATIO": 0.5,
        "bars": [1, 2, 3],
        "dev": { "BAR": "dev_bar", "PORT": 3000, "ON": false },
        "local": { "BAR": "local_bar" }
    }"#;
    let toml = r#"
        DEBUG = true
        FOO = "foo"
        PORT = 8080
        RATIO = 0.5
        bars = [1, 2, 3]

        [dev]
        BAR = "dev_bar"
        PORT = 3000
        ON = false

        [local]
        BAR = "local_bar"
    "#;
    let yaml = r#"
        DEBUG: true
        FOO: foo
        PORT: 8080
        RATIO: 0.5
        bars: [1, 2, 3]
        dev:
          BAR: dev_bar
          PORT: 3000
          ON: false
        local:
          BAR: local_bar
    "#;
    let expected_defaults = set(&[("DEBUG", "true"), ("FOO", "foo"), ("PORT", "8080"), ("RATIO", "0.5")]);
    let expected_overrides = environments(vec![
        ("dev", set(&[("BAR", "dev_bar"), ("PORT", "3000"), ("ON", "false")])),
        ("local", set(&[("BAR", "local_bar")])),
    ]);

    let from_json = file_parser::json::parse_config(json, "envi.json").unwrap();
    let from_toml = file_parser::toml::parse_config(toml, "envi.toml").unwrap();
    let from_yaml = file_parser::yaml::parse_config(yaml, "envi.yaml").unwrap();

    assert_eq!(from_json.0, expected_defaults);
    assert_eq!(from_json.1, expected_overrides);
    assert_eq!(from_toml, from_json);
    assert_eq!(from_yaml, from_json);
}

#[test]
fn json_that_is_malformed_fails() {
    let (source_file, cause, message) =
        parse_failure(file_parser::json::parse_config("{ \"FOO\": ", "conf/envi.json"));
    assert_eq!(source_file, "conf/envi.json");
    assert_eq!(cause, "EOF while parsing a value at line 1 column 9");
    assert_eq!(message, "failed to parse config file 'conf/envi.json'");
}

#[test]
fn toml_that_is_malformed_fails() {
    let (source_file, cause, message) =
        parse_failure(file_parser::toml::parse_config("FOO = ", "conf/envi.toml"));
    assert_eq!(source_file, "conf/envi.toml");
    assert!(!cause.is_empty());
    assert_ne!(cause, "FOO = ");
    assert_eq!(message, "failed to parse config file 'conf/envi.toml'");
}

#[test]
fn yaml_that_is_malformed_fails() {
    let (source_file, cause, message) =
        parse_failure(file_parser::yaml::parse_config("FOO: [1, 2", "conf/envi.yml"));
    assert_eq!(source_file, "conf/envi.yml");
    assert!(!cause.is_empty());
    assert_ne!(cause, "FOO: [1, 2");
    assert_eq!(message, "failed to parse config file 'conf/envi.yml'");
}

#[test]
fn json_root_that_is_no_object_declares_nothing() {
    for content in ["[1, 2, 3]", "42", "\"FOO\"", "null", "true", "[{\"FOO\": \"foo\"}]"] {
        let (defaults, overrides) = file_parser::json::parse_config(content, "envi.json").unwrap();
        assert_eq!(defaults, SortedMap::new());
        assert_eq!(overrides, SortedMap::new());
    }
}

#[test]
fn yaml_root_that_is_no_mapping_declares_nothing() {
    for content in ["- FOO\n- BAR\n", "42", "just text", "", "~", "!tagged\nFOO: foo\n"] {
        let (defaults, overrides) = file_parser::yaml::parse_config(content, "envi.yaml").unwrap();
        assert_eq!(defaults, SortedMap::new());
        assert_eq!(overrides, SortedMap::new());
    }
}

#[test]
fn toml_without_entries_declares_nothing() {
    for content in ["", "# nothing here\n"] {
        let (defaults, overrides) = file_parser::toml::parse_config(content, "envi.toml").unwrap();
        assert_eq!(defaults, SortedMap::new());
        assert_eq!(overrides, SortedMap::new());
    }
}

#[test]
fn json_values_that_are_no_scalars_are_dropped() {
    let content = r#"{
        "FOO": "foo",
        "list": ["a", "b"],
        "nothing": null,
        "dev": {
            "BAR": "bar",
            "list": [1],
            "nothing": null,
            "deeper": { "BAZ": "baz" }
        }
    }"#;
    let (defaults, overrides) = file_parser::json::parse_config(content, "envi.json").unwrap();
    assert_eq!(defaults, set(&[("FOO", "foo")]));
    assert_eq!(overrides, environments(vec![("dev", set(&[("BAR", "bar")]))]));
}

#[test]
fn json_numbers_and_booleans_become_text() {
    let content = r#"{ "A": 1, "B": -3, "C": 1.5, "D": true, "E": false, "F": "", "G": 18446744073709551615 }"#;
    let (defaults, _) = file_parser::json::parse_config(content, "envi.json").unwrap();
    assert_eq!(
        defaults,
        set(&[
            ("A", "1"),
            ("B", "-3"),
            ("C", "1.5"),
            ("D", "true"),
            ("E", "false"),
            ("F", ""),
            ("G", "18446744073709551615"),
        ])
    );
}

#[test]
fn json_key_written_twice_counts_once() {
    let content = r#"{ "FOO": "first", "FOO": "second" }"#;
    let (defaults, _) = file_parser::json::parse_config(content, "envi.json").unwrap();
    assert_eq!(defaults, set(&[("FOO", "second")]));
}

#[test]
fn toml_scalars_become_text() {
    let content = r#"
        A = 42
        B = -7
        C = 3.5
        D = true
        E = 1979-05-27T07:32:00Z
        F = 1979-05-27
        G = 07:32:00
        H = "text"
        I = 'literal'
        J = 0x10
        K = 1_000
    "#;
    let (defaults, overrides) = file_parser::toml::parse_config(content, "envi.toml").unwrap();
    assert_eq!(
        defaults,
        set(&[
            ("A", "42"),
            ("B", "-7"),
            ("C", "3.5"),
            ("D", "true"),
            ("E", "1979-05-27T07:32:00Z"),
            ("F", "1979-05-27"),
            ("G", "07:32:00"),
            ("H", "text"),
            ("I", "literal"),
            ("J", "16"),
            ("K", "1000"),
        ])
    );
    assert_eq!(overrides, SortedMap::new());
}

#[test]
fn toml_values_that_are_no_scalars_are_dropped() {
    let content = r#"
        FOO = "foo"
        list = ["a", "b"]

        [dev]
        BAR = "bar"
        list = [1]
        inline = { BAZ = "baz" }

        [dev.deeper]
        QUX = "qux"

        [[servers]]
        name = "one"
    "#;
    let (defaults, overrides) = file_parser::toml::parse_config(content, "envi.toml").unwrap();
    assert_eq!(defaults, set(&[("FOO", "foo")]));
    assert_eq!(overrides, environments(vec![("dev", set(&[("BAR", "bar")]))]));
}

#[test]
fn yaml_scalars_become_text() {
    let content = "A: 42\nB: -7\nC: 3.5\nD: true\nE: text\nF: \"3000\"\nG: 'quoted'\nH: false\n";
    let (defaults, overrides) = file_parser::yaml::parse_config(content, "envi.yaml").unwrap();
    assert_eq!(
        defaults,
        set(&[
            ("A", "42"),
            ("B", "-7"),
            ("C", "3.5"),
            ("D", "true"),
            ("E", "text"),
            ("F", "3000"),
            ("G", "quoted"),
            ("H", "false"),
        ])
    );
    assert_eq!(overrides, SortedMap::new());
}

#[test]
fn yaml_keys_that_are_no_strings_are_dropped() {
    let content = "FOO: foo\n1: one\ntrue: yes\n~: nothing\n2:\n  BAR: bar\ndev:\n  BAZ: baz\n  3: three\n";
    let (defaults, overrides) = file_parser::yaml::parse_config(content, "envi.yaml").unwrap();
    assert_eq!(defaults, set(&[("FOO", "foo")]));
    assert_eq!(overrides, environments(vec![("dev", set(&[("BAZ", "baz")]))]));
}

#[test]
fn yaml_values_that_are_no_scalars_are_dropped() {
    let content = "FOO: foo\nlist:\n  - a\n  - b\nnothing: ~\ntagged: !secret hidden\ndev:\n  BAR: bar\n  list: [1]\n  nothing:\n  deeper:\n    BAZ: baz\n";
    let (defaults, overrides) = file_parser::yaml::parse_config(content, "envi.yaml").unwrap();
    assert_eq!(defaults, set(&[("FOO", "foo")]));
    assert_eq!(overrides, environments(vec![("dev", set(&[("BAR", "bar")]))]));
}

#[test]
fn an_environment_may_be_empty() {
    let (_, from_json) = file_parser::json::parse_config(r#"{ "dev": {} }"#, "envi.json").unwrap();
    let (_, from_toml) = file_parser::toml::parse_config("[dev]\n", "envi.toml").unwrap();
    let (_, from_yaml) = file_parser::yaml::parse_config("dev: {}\n", "envi.yaml").unwrap();
    let expected = environments(vec![("dev", set(&[]))]);
    assert_eq!(from_json, expected);
    assert_eq!(from_toml, expected);
    assert_eq!(from_yaml, expected);
}

#[test]
fn the_three_formats_agree_whatever_the_order_of_the_entries() {
    let json = r#"{ "dev": { "PORT": 3000, "BAR": "dev_bar" }, "PORT": 8080, "FOO": "foo", "DEBUG": false }"#;
    let toml = "FOO = \"foo\"\nDEBUG = false\nPORT = 8080\n\n[dev]\nBAR = \"dev_bar\"\nPORT = 3000\n";
    let yaml = "PORT: 8080\ndev:\n  BAR: dev_bar\n  PORT: 3000\nDEBUG: false\nFOO: foo\n";

    let from_json = file_parser::json::parse_config(json, "envi").unwrap();
    let from_toml = file_parser::toml::parse_config(toml, "envi").unwrap();
    let from_yaml = file_parser::yaml::parse_config(yaml, "envi").unwrap();

    assert_eq!(from_json.0, set(&[("DEBUG", "false"), ("FOO", "foo"), ("PORT", "8080")]));
    assert_eq!(
        from_json.1,
        environments(vec![("dev", set(&[("BAR", "dev_bar"), ("PORT", "3000")]))])
    );
    assert_eq!(from_toml, from_json);
    assert_eq!(from_yaml, from_json);
}
