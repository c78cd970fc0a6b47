use agent_workspace::runtime::{parse_runtime_value, resolve_runtime, Runtime};

fn args(values: &[&str]) -> Vec<String> {
    values.iter().map(|v| v.to_string()).collect()
}

#[test]
fn defaults_to_container() {
    let (runtime, cleaned) = resolve_runtime(&[], None, None).expect("resolve runtime");
    assert_eq!(runtime, Runtime::Container);
    assert!(cleaned.is_empty());
}

#[test]
fn flag_overrides_env() {
    let (runtime, cleaned) = resolve_runtime(
        &args(&["--runtime", "container", "create", "--name", "ws-demo"]),
        Some("host"),
        None,
    )
    .expect("resolve runtime");
    assert_eq!(runtime, Runtime::Container);
    assert_eq!(cleaned.len(), 3);
}

#[test]
fn parses_inline_flag_and_strips_it_from_args() {
    let (runtime, cleaned) =
        resolve_runtime(&args(&["--runtime=host", "ls", "--output", "json"]), None, None)
            .expect("resolve runtime");
    assert_eq!(runtime, Runtime::Host);
    assert_eq!(cleaned, vec!["ls", "--output", "json"]);
}

#[test]
fn rejects_invalid_runtime() {
    let err = resolve_runtime(&args(&["--runtime", "k8s"]), None, None).expect_err("invalid");
    assert!(err.contains("expected: container|host"));
}

#[test]
fn runtime_values_and_environment_fallback() {
    assert_eq!(parse_runtime_value(" Docker "), Ok(Runtime::Container));
    assert_eq!(parse_runtime_value("NATIVE"), Ok(Runtime::Host));
    assert_eq!(
        parse_runtime_value("  "),
        Err("invalid runtime value: empty (expected: container|host)".to_string())
    );
    let (runtime, _) = resolve_runtime(&[], None, Some("host")).expect("alias");
    assert_eq!(runtime, Runtime::Host);
    assert!(resolve_runtime(&[], Some("nope"), Some("host")).is_err());
    assert_eq!(
        resolve_runtime(&args(&["--runtime"]), None, None).expect_err("missing"),
        "missing value for --runtime"
    );
}
