use agent_workspace::repo::parse_repo_spec;

#[test]
fn parse_repo_spec_accepts_owner_repo() {
    let parsed = parse_repo_spec("octo/demo", "github.com").expect("parse owner/repo");
    assert_eq!(parsed.owner, "octo");
    assert_eq!(parsed.repo, "demo");
    assert_eq!(parsed.owner_repo, "octo/demo");
    assert_eq!(parsed.clone_url, "https://github.com/octo/demo.git");
}

#[test]
fn parse_repo_spec_accepts_https_url() {
    let parsed = parse_repo_spec("https://example.com/octo/demo.git", "github.com")
        .expect("parse https url");
    assert_eq!(parsed.owner_repo, "octo/demo");
    assert_eq!(parsed.clone_url, "https://example.com/octo/demo.git");
}

#[test]
fn parse_repo_spec_accepts_ssh_forms() {
    let parsed = parse_repo_spec("git@ghe.local:team/tool.git", "github.com").expect("scp form");
    assert_eq!(parsed.clone_url, "https://ghe.local/team/tool.git");
    let parsed =
        parse_repo_spec(" ssh://git@host.example/a/b/extra ", "github.com").expect("ssh url");
    assert_eq!(parsed.owner_repo, "a/b");
    assert_eq!(parsed.clone_url, "https://host.example/a/b.git");
}

#[test]
fn parse_repo_spec_rejects_incomplete_input() {
    assert!(parse_repo_spec("   ", "github.com").is_none());
    assert!(parse_repo_spec("octo", "github.com").is_none());
    assert!(parse_repo_spec("octo/", "github.com").is_none());
    assert!(parse_repo_spec("https://example.com", "github.com").is_none());
    assert!(parse_repo_spec("git@host", "github.com").is_none());
}
