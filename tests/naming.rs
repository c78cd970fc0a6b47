use agent_workspace::naming::{
    normalize_workspace_name_for_create, slugify_name, workspace_name_variants, workspace_prefixes,
    workspace_resolution_candidates,
};

#[test]
fn workspace_variants_strip_prefixes() {
    let prefixes = workspace_prefixes(None, None);
    let variants = workspace_name_variants("agent-ws-ws-demo", &prefixes);
    assert_eq!(variants, vec!["agent-ws-ws-demo", "ws-demo", "demo"]);
}

#[test]
fn normalize_workspace_name_for_create_strips_prefixes() {
    assert_eq!(
        normalize_workspace_name_for_create("agent-ws-ws-demo", &workspace_prefixes(None, None)),
        "demo"
    );
}

#[test]
fn prefixes_put_settings_first_and_once() {
    assert_eq!(workspace_prefixes(None, None), vec!["agent-ws", "codex-ws"]);
    assert_eq!(
        workspace_prefixes(Some(" team "), Some("agent-ws")),
        vec!["team", "agent-ws", "codex-ws"]
    );
    assert_eq!(
        workspace_prefixes(Some("  "), None),
        vec!["agent-ws", "codex-ws"]
    );
}

#[test]
fn variants_of_blank_name_are_empty() {
    let prefixes = workspace_prefixes(None, None);
    assert!(workspace_name_variants("   ", &prefixes).is_empty());
    assert_eq!(workspace_name_variants(" demo ", &prefixes), vec!["demo"]);
}

#[test]
fn resolution_candidates_list_variants_then_prefixed_forms() {
    let prefixes = workspace_prefixes(None, None);
    assert_eq!(
        workspace_resolution_candidates("ws-demo", &prefixes),
        vec![
            "ws-demo",
            "demo",
            "agent-ws-ws-demo",
            "codex-ws-ws-demo",
            "agent-ws-demo",
            "codex-ws-demo",
        ]
    );
    assert_eq!(
        workspace_resolution_candidates("agent-ws-x", &prefixes),
        vec!["agent-ws-x", "x", "codex-ws-agent-ws-x", "codex-ws-x"]
    );
}

#[test]
fn slugify_lowers_and_collapses_separators() {
    assert_eq!(slugify_name("My Repo/Name.v2"), "my-repo-name-v2");
    assert_eq!(slugify_name("--a  :: b--"), "a-b");
    assert_eq!(slugify_name("!!!"), "workspace");
    assert_eq!(slugify_name("Ünï_X"), "n_x");
}

#[test]
fn creation_name_falls_back_for_blank_names() {
    let prefixes = workspace_prefixes(None, None);
    assert_eq!(normalize_workspace_name_for_create("  ", &prefixes), "workspace");
    assert_eq!(normalize_workspace_name_for_create("ws-My Demo", &prefixes), "my-demo");
}
