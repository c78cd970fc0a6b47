use agent_workspace::candidates::{finalize, Candidate};
use agent_workspace::engine::{complete, complete_with_lookup, WorkspaceProvider};
use agent_workspace::output::render;
use agent_workspace::protocol::{
    CompletionEnv, CompletionOutputFormat, CompletionRequest, CompletionShell,
};
use agent_workspace::runtime::Runtime;
use std::cell::Cell;

struct StubWorkspaceProvider {
    host: Vec<String>,
    container: Vec<String>,
    calls: Cell<usize>,
}

impl WorkspaceProvider for StubWorkspaceProvider {
    fn list_workspaces(&self, runtime: Runtime) -> Result<Vec<String>, String> {
        self.calls.set(self.calls.get() + 1);
        Ok(match runtime {
            Runtime::Host => self.host.clone(),
            Runtime::Container => self.container.clone(),
        })
    }
}

struct FailingWorkspaceProvider;

impl WorkspaceProvider for FailingWorkspaceProvider {
    fn list_workspaces(&self, _runtime: Runtime) -> Result<Vec<String>, String> {
        Err(String::from("backend unavailable"))
    }
}

fn request(words: &[&str], cword: usize) -> CompletionRequest {
    let mut args: Vec<String> = vec![
        "--shell".to_string(),
        "bash".to_string(),
        "--cword".to_string(),
        cword.to_string(),
    ];
    for word in words {
        args.push("--word".to_string());
        args.push(word.to_string());
    }
    let env = CompletionEnv {
        mode: None,
        runtime: None,
        runtime_alias: None,
    };
    CompletionRequest::parse(&args, &env).expect("parse completion request")
}

fn provider() -> StubWorkspaceProvider {
    StubWorkspaceProvider {
        host: vec!["host-ws".to_string()],
        container: vec!["container-ws".to_string()],
        calls: Cell::new(0),
    }
}

fn values_of(words: &[&str], cword: usize) -> Vec<String> {
    complete(&request(words, cword), &provider())
        .candidates
        .into_iter()
        .map(|candidate| candidate.value)
        .collect()
}

#[test]
fn top_level_completion_returns_core_subcommands() {
    let values = values_of(&["agent-workspace-launcher", ""], 1);
    for expected in ["auth", "create", "ls", "rm", "exec", "reset", "tunnel"] {
        assert!(values.iter().any(|value| value == expected));
    }
}

#[test]
fn top_level_completion_includes_global_options() {
    let values = values_of(&["prog", ""], 1);
    for expected in [
        "auth", "create", "ls", "rm", "exec", "reset", "tunnel", "--runtime", "--help",
        "--version", "-h", "-V",
    ] {
        assert!(values.iter().any(|value| value == expected), "{expected}");
    }
}

#[test]
fn describe_output_contains_subcommand_descriptions() {
    let result = complete(&request(&["agent-workspace-launcher", ""], 1), &provider());
    let rendered = render(
        CompletionShell::Zsh,
        CompletionOutputFormat::Describe,
        &result.candidates,
    );

    assert!(rendered.contains("auth\tUpdate auth material in workspace"));
    assert!(rendered.contains("create\tCreate a new workspace"));
    assert!(rendered.contains("--runtime\tSelect runtime backend (container or host)"));
}

#[test]
fn runtime_value_completion_is_available() {
    let values = values_of(&["agent-workspace-launcher", "--runtime", ""], 2);
    assert_eq!(values, vec!["container", "host"]);
}

#[test]
fn runtime_value_completion_with_program_name_prog() {
    let values = values_of(&["prog", "--runtime", ""], 2);
    assert_eq!(values, vec!["container", "host"]);
}

#[test]
fn runtime_value_completion_is_described() {
    let result = complete(
        &request(&["agent-workspace-launcher", "--runtime", ""], 2),
        &provider(),
    );
    let rendered = render(
        CompletionShell::Zsh,
        CompletionOutputFormat::Describe,
        &result.candidates,
    );

    assert!(rendered.contains("container\tUse container runtime"));
    assert!(rendered.contains("host\tUse host runtime"));
}

#[test]
fn inline_runtime_value_is_prefixed_and_filtered() {
    let values = values_of(&["prog", "--runtime=h"], 1);
    assert_eq!(values, vec!["--runtime=host"]);
}

#[test]
fn ls_output_value_completion_supports_plain_and_inline() {
    let plain_values = values_of(&["agent-workspace-launcher", "ls", "--output", ""], 3);
    assert!(plain_values.iter().any(|value| value == "json"));

    let inline_values = values_of(&["agent-workspace-launcher", "ls", "--output="], 2);
    assert!(inline_values.iter().any(|value| value == "--output=json"));
}

#[test]
fn inline_and_space_forms_agree() {
    let space = values_of(&["prog", "reset", "work-repos", "--depth", ""], 4);
    let inline = values_of(&["prog", "reset", "work-repos", "--depth="], 3);
    let prefixed: Vec<String> = space.iter().map(|v| format!("--depth={v}")).collect();
    assert_eq!(inline, prefixed);
    assert_eq!(space, vec!["1", "2", "3", "5"]);
}

#[test]
fn rm_workspace_candidates_follow_runtime() {
    let host_values = values_of(
        &["agent-workspace-launcher", "--runtime", "host", "rm", ""],
        4,
    );
    assert!(host_values.iter().any(|value| value == "host-ws"));
    assert!(!host_values.iter().any(|value| value == "container-ws"));

    let container_values = values_of(
        &["agent-workspace-launcher", "--runtime", "container", "rm", ""],
        4,
    );
    assert!(container_values.iter().any(|value| value == "container-ws"));
    assert!(!container_values.iter().any(|value| value == "host-ws"));
}

#[test]
fn rm_with_runtime_host_offers_host_workspaces_only() {
    let values = values_of(&["prog", "--runtime", "host", "rm", ""], 4);
    assert!(values.iter().any(|value| value == "host-ws"));
    assert!(!values.iter().any(|value| value == "container-ws"));
}

#[test]
fn rm_stops_offering_workspaces_after_all_or_positional() {
    let values = values_of(&["prog", "rm", "--all", ""], 3);
    assert!(!values.iter().any(|value| value == "container-ws"));
    let values = values_of(&["prog", "rm", "container-ws", ""], 3);
    assert!(!values.iter().any(|value| value == "container-ws"));
    assert!(values.iter().any(|value| value == "--yes"));
}

#[test]
fn auth_workspace_completion_after_provider() {
    let values = values_of(
        &["agent-workspace-launcher", "--runtime", "host", "auth", "github", ""],
        5,
    );
    assert!(values.iter().any(|value| value == "host-ws"));
    assert!(values.iter().any(|value| value == "--host"));
}

#[test]
fn auth_offers_providers_then_workspace_values() {
    let values = values_of(&["prog", "auth", ""], 2);
    for expected in ["github", "codex", "gpg"] {
        assert!(values.iter().any(|value| value == expected));
    }
    let values = values_of(&["prog", "auth", "--container="], 2);
    assert_eq!(values, vec!["--container=container-ws"]);
    let values = values_of(&["prog", "auth", "codex", "ws1", ""], 4);
    assert!(!values.iter().any(|value| value == "container-ws"));
}

#[test]
fn exec_user_values_and_workspace_detection() {
    let values = values_of(&["prog", "exec", "--user", ""], 3);
    assert_eq!(values, vec!["0", "agent", "codex", "root"]);
    let values = values_of(&["prog", "exec", "--user", "agent", ""], 4);
    assert!(values.iter().any(|value| value == "container-ws"));
    let values = values_of(&["prog", "exec", "ws", ""], 3);
    assert!(!values.iter().any(|value| value == "container-ws"));
}

#[test]
fn reset_completion_lists_nested_subcommands() {
    let values = values_of(&["agent-workspace-launcher", "reset", ""], 2);
    for expected in ["repo", "work-repos", "opt-repos", "private-repo"] {
        assert!(values.iter().any(|value| value == expected));
    }
}

#[test]
fn workspace_lookup_failure_keeps_static_candidates() {
    let result = complete(
        &request(&["agent-workspace-launcher", "rm", ""], 2),
        &FailingWorkspaceProvider,
    );
    let values: Vec<String> = result
        .candidates
        .iter()
        .map(|candidate| candidate.value.clone())
        .collect();
    assert!(values.iter().any(|value| value == "--all"));
    assert!(result.workspace_error.is_some());
}

#[test]
fn failing_provider_on_prog_rm() {
    let result = complete(&request(&["prog", "rm", ""], 2), &FailingWorkspaceProvider);
    assert!(result.candidates.iter().any(|c| c.value == "--all"));
    assert!(!result.workspace_error.expect("error").is_empty());
}

#[test]
fn provider_is_asked_once_and_only_when_needed() {
    let p = provider();
    let _ = complete(&request(&["prog", "ls", ""], 2), &p);
    assert_eq!(p.calls.get(), 0);
    let _ = complete(&request(&["prog", "rm", ""], 2), &p);
    assert_eq!(p.calls.get(), 1);
}

#[test]
fn lookup_error_is_kept_only_where_names_are_needed() {
    let lookup = Some(Err(String::from("down")));
    let r = complete_with_lookup(&request(&["prog", "ls", ""], 2), lookup.clone());
    assert!(r.workspace_error.is_none());
    let r = complete_with_lookup(&request(&["prog", "rm", ""], 2), lookup);
    assert_eq!(r.workspace_error.as_deref(), Some("down"));
}

#[test]
fn candidates_are_filtered_sorted_and_unique() {
    let values = values_of(&["prog", "create", "--n"], 2);
    assert_eq!(values, vec!["--name", "--no-extras", "--no-pull", "--no-work-repos"]);
    let all = values_of(&["prog", "create", ""], 2);
    let mut sorted = all.clone();
    sorted.sort();
    sorted.dedup();
    assert_eq!(all, sorted);
    assert_eq!(all.iter().filter(|v| *v == "--help").count(), 1);
}

#[test]
fn finalize_keeps_first_description_and_is_idempotent() {
    let raw = vec![
        Candidate::value("b"),
        Candidate::described("a", "first"),
        Candidate::described("a", "second"),
        Candidate::described("b", "late"),
        Candidate::value("c"),
    ];
    let once = finalize(raw, "");
    let view: Vec<(String, Option<String>)> = once
        .iter()
        .map(|c| (c.value.clone(), c.description.clone()))
        .collect();
    assert_eq!(
        view,
        vec![
            ("a".to_string(), Some("first".to_string())),
            ("b".to_string(), Some("late".to_string())),
            ("c".to_string(), None),
        ]
    );
    let twice = finalize(once.clone(), "");
    let view2: Vec<(String, Option<String>)> = twice
        .iter()
        .map(|c| (c.value.clone(), c.description.clone()))
        .collect();
    assert_eq!(view, view2);
    let filtered = finalize(once, "b");
    assert_eq!(filtered.len(), 1);
    assert_eq!(filtered[0].value, "b");
}

#[test]
fn reset_repo_skips_ref_value_when_looking_for_workspace() {
    let values = values_of(&["prog", "reset", "repo", "--ref", "origin/main", ""], 5);
    assert!(values.iter().any(|value| value == "container-ws"));
    let values = values_of(&["prog", "reset", "private-repo", "--ref", "origin/main", ""], 5);
    assert!(values.iter().any(|value| value == "container-ws"));
    let values = values_of(&["prog", "reset", "repo", "--ref=main", "ws1", ""], 5);
    assert!(!values.iter().any(|value| value == "container-ws"));
    let values = values_of(&["prog", "reset", "opt-repos", "ws1", ""], 4);
    assert!(!values.iter().any(|value| value == "container-ws"));
}

#[test]
fn inline_and_space_forms_agree_for_runtime() {
    let space = values_of(&["prog", "rm", "--runtime", "h"], 3);
    let inline = values_of(&["prog", "rm", "--runtime=h"], 2);
    assert_eq!(space, vec!["host"]);
    assert_eq!(inline, vec!["--runtime=host"]);
}
