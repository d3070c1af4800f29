use devloop::env_expand::{expand_map, expand_value, expand_vec, ReferenceProblem};
use devloop::name_map::NameMap;

fn env(pairs: Vec<(&str, &str)>) -> NameMap<String> {
    let mut env = NameMap::new();
    for (name, value) in pairs {
        env.insert(name.into(), value.into());
    }
    env
}

#[test]
fn expands_bare_environment_references() {
    let env = env(vec![("CONTAINER_PORT", "18080")]);

    assert_eq!(
        expand_value("http://127.0.0.1:$CONTAINER_PORT/", "probe.url", &env).expect("expand value"),
        "http://127.0.0.1:18080/"
    );
}

#[test]
fn expands_braced_environment_references() {
    let env = env(vec![("CONTAINER_PORT", "18080")]);

    assert_eq!(
        expand_value("${CONTAINER_PORT}", "env.PORT", &env).expect("expand value"),
        "18080"
    );
}

#[test]
fn keeps_literals_without_references() {
    assert_eq!(
        expand_value("http://127.0.0.1:8080/", "probe.url", &NameMap::new()).expect("expand value"),
        "http://127.0.0.1:8080/"
    );
}

#[test]
fn escapes_literal_dollars() {
    let env = env(vec![("NAME", "value")]);

    assert_eq!(
        expand_value("cost=$$5 name=$NAME", "command[1]", &env).expect("expand value"),
        "cost=$5 name=value"
    );
}

#[test]
fn reports_missing_environment_variables_with_context() {
    let error = expand_value("$MISSING_DEVLOOP_TEST_VAR", "command[1]", &NameMap::new())
        .expect_err("missing var");

    assert!(error.message().contains("command[1]"));
    assert!(error.message().contains("MISSING_DEVLOOP_TEST_VAR"));
    assert_eq!(
        error.message(),
        "command[1] references missing environment variable 'MISSING_DEVLOOP_TEST_VAR'"
    );
}

#[test]
fn reports_malformed_references() {
    let error = expand_value("${", "env.PORT", &NameMap::new()).expect_err("malformed var");

    assert!(error.message().contains("unclosed environment reference"));
}

#[test]
fn expands_vectors_with_index_context() {
    let env = env(vec![("CONTAINER_PORT", "18080")]);
    let expanded = expand_vec(
        &vec!["cloudflared".into(), "http://127.0.0.1:$CONTAINER_PORT".into()],
        "command",
        &env,
    )
    .expect("expand vec");

    assert_eq!(expanded, vec!["cloudflared", "http://127.0.0.1:18080"]);
}

#[test]
fn expands_maps_with_key_context() {
    let parent = env(vec![("CONTAINER_PORT", "18080")]);
    let values = env(vec![("PORT", "$CONTAINER_PORT")]);
    let expanded = expand_map(&values, "env", &parent).expect("expand map");

    assert_eq!(expanded.get("PORT").map(String::as_str), Some("18080"));
}

#[test]
fn every_malformed_reference_is_named() {
    let none = NameMap::new();
    for (value, problem, message) in [
        ("a$", ReferenceProblem::TrailingDollar, "f contains trailing '$'"),
        ("${A", ReferenceProblem::Unclosed, "f contains unclosed environment reference"),
        (
            "${}",
            ReferenceProblem::InvalidName("".into()),
            "f contains invalid environment variable name ''",
        ),
        (
            "${1A}",
            ReferenceProblem::InvalidName("1A".into()),
            "f contains invalid environment variable name '1A'",
        ),
        (
            "$1",
            ReferenceProblem::InvalidReference('1'),
            "f contains invalid environment reference '$1'",
        ),
    ] {
        let error = expand_value(value, "f", &none).expect_err("malformed");
        assert_eq!(error.problem, problem);
        assert_eq!(error.field, "f");
        assert_eq!(error.message(), message);
    }
}

#[test]
fn the_first_problem_of_a_list_or_map_is_reported() {
    let parent = env(vec![("A", "1")]);
    let list = vec!["$A".to_string(), "$B".to_string(), "$C".to_string()];
    assert_eq!(expand_vec(&list, "command", &parent).unwrap_err().field, "command[1]");
    let values = env(vec![("X", "$A"), ("Y", "$B"), ("Z", "$")]);
    let error = expand_map(&values, "env", &parent).unwrap_err();
    assert_eq!(error.field, "env.Y");
    assert_eq!(error.problem, ReferenceProblem::MissingVariable("B".into()));
}

#[test]
fn names_end_where_they_cannot_go_on() {
    let parent = env(vec![("A_1", "x"), ("A", "y")]);
    assert_eq!(expand_value("$A_1-$A.", "f", &parent).unwrap(), "x-y.");
    assert_eq!(expand_value("$$A$$$A", "f", &parent).unwrap(), "$A$y");
}
