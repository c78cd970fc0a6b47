use agent_workspace::engine::{first_positional, first_positional_skipping_options};
use agent_workspace::protocol::{
    parse_mode_value, CompletionEnv, CompletionMode, CompletionOutputFormat, CompletionRequest,
    CompletionShell,
};
use agent_workspace::runtime::Runtime;

fn no_env() -> CompletionEnv {
    CompletionEnv {
        mode: None,
        runtime: None,
        runtime_alias: None,
    }
}

fn parse(args: &[&str]) -> Result<CompletionRequest, String> {
    let args: Vec<String> = args.iter().map(|a| a.to_string()).collect();
    CompletionRequest::parse(&args, &no_env())
}

#[test]
fn parses_repeated_word_arguments() {
    let request = parse(&[
        "--shell",
        "bash",
        "--cword",
        "1",
        "--word",
        "agent-workspace-launcher",
        "--word",
        "",
    ])
    .expect("parse request");

    assert_eq!(request.shell, CompletionShell::Bash);
    assert_eq!(request.cword, 1);
    assert_eq!(request.words, vec!["agent-workspace-launcher", ""]);
    assert_eq!(request.runtime, Runtime::Container);
    assert_eq!(request.mode, CompletionMode::Active);
    assert_eq!(request.output, CompletionOutputFormat::Plain);
}

#[test]
fn parses_words_blob_with_trailing_space() {
    let request = parse(&[
        "--shell",
        "zsh",
        "--cword",
        "1",
        "--words",
        "agent-workspace-launcher ",
    ])
    .expect("parse words blob");

    assert_eq!(request.shell, CompletionShell::Zsh);
    assert_eq!(request.words, vec!["agent-workspace-launcher", ""]);
}

#[test]
fn rejects_invalid_shell() {
    let err = parse(&[
        "--shell",
        "fish",
        "--cword",
        "1",
        "--word",
        "agent-workspace-launcher",
        "--word",
        "",
    ])
    .expect_err("invalid shell should fail");
    assert!(err.contains("expected: bash|zsh"));
}

#[test]
fn rejects_out_of_range_cword() {
    let err = parse(&[
        "--shell",
        "bash",
        "--cword",
        "2",
        "--word",
        "agent-workspace-launcher",
        "--word",
        "",
    ])
    .expect_err("cword range check");
    assert!(err.contains("invalid --cword index"));
}

#[test]
fn resolves_runtime_from_completed_tokens_before_cursor() {
    let request = parse(&[
        "--shell",
        "bash",
        "--cword",
        "4",
        "--word",
        "agent-workspace-launcher",
        "--word",
        "--runtime",
        "--word",
        "host",
        "--word",
        "rm",
        "--word",
        "",
    ])
    .expect("parse request with runtime");

    assert_eq!(request.runtime, Runtime::Host);
}

#[test]
fn default_mode_is_rust() {
    assert_eq!(
        parse_mode_value("").expect("parse default mode"),
        CompletionMode::Active
    );
    assert_eq!(
        parse_mode_value("active").expect("parse explicit active mode"),
        CompletionMode::Active
    );
}

#[test]
fn mode_value_rust_is_rejected() {
    let err = parse_mode_value("rust").expect_err("only the empty value and active select it");
    assert_eq!(
        err,
        "invalid AGENT_WORKSPACE_COMPLETION_MODE value: rust (expected: active|legacy)"
    );
    assert_eq!(parse_mode_value(" ACTIVE "), Ok(CompletionMode::Active));
}

#[test]
fn parses_legacy_mode_from_env() {
    assert_eq!(
        parse_mode_value("legacy").expect("parse legacy mode"),
        CompletionMode::Legacy
    );
}

#[test]
fn rejects_unknown_mode_value() {
    let err = parse_mode_value("invalid").expect_err("invalid mode should fail");
    assert!(err.contains("active|legacy"));
}

#[test]
fn cursor_index_error_names_index_and_word_count() {
    let err = parse(&["--shell", "bash", "--cword", "7", "--word", "prog"]).expect_err("range");
    assert_eq!(err, "invalid --cword index 7 for 1 word(s)");
}

#[test]
fn inline_option_forms_are_accepted() {
    let request = parse(&[
        "--shell=ZSH",
        "--cword=+1",
        "--word=prog",
        "--word=",
        "--format=described",
    ])
    .expect("inline forms");
    assert_eq!(request.shell, CompletionShell::Zsh);
    assert_eq!(request.cword, 1);
    assert_eq!(request.words, vec!["prog", ""]);
    assert_eq!(request.output, CompletionOutputFormat::Describe);
}

#[test]
fn parse_errors_are_reported() {
    assert_eq!(
        parse(&["--shell"]).expect_err("missing value"),
        "missing value for --shell"
    );
    assert_eq!(
        parse(&["--bogus"]).expect_err("unknown option"),
        "unknown option for __complete: --bogus"
    );
    assert_eq!(
        parse(&["--shell", "bash", "--cword", "x1", "--word", "p"]).expect_err("bad cword"),
        "invalid --cword value: x1"
    );
    assert_eq!(
        parse(&["--shell", "bash", "--cword", "99999999999999999999999", "--word", "p"])
            .expect_err("overflowing cword"),
        "invalid --cword value: 99999999999999999999999"
    );
    assert_eq!(
        parse(&["--shell", "bash", "--cword", "0"]).expect_err("no words"),
        "missing --word or --words"
    );
    assert_eq!(
        parse(&["--shell", "bash", "--word", "p"]).expect_err("no cword"),
        "missing --cword"
    );
    assert_eq!(
        parse(&["--cword", "0", "--word", "p"]).expect_err("no shell"),
        "missing --shell"
    );
    assert_eq!(
        parse(&["--shell", "bash", "--cword", "0", "--word", "p", "--format", "json"])
            .expect_err("bad format"),
        "invalid --format value: json (expected: plain|describe)"
    );
}

#[test]
fn empty_words_blob_yields_one_empty_word() {
    let request = parse(&["--shell", "bash", "--cword", "0", "--words", ""]).expect("blob");
    assert_eq!(request.words, vec![""]);
    let request =
        parse(&["--shell", "bash", "--cword", "1", "--words", " prog \t rm"]).expect("blob");
    assert_eq!(request.words, vec!["prog", "rm"]);
}

#[test]
fn environment_sets_mode_and_runtime() {
    let args: Vec<String> = ["--shell", "bash", "--cword", "1", "--word", "p", "--word", ""]
        .iter()
        .map(|a| a.to_string())
        .collect();
    let env = CompletionEnv {
        mode: Some(" Legacy ".to_string()),
        runtime: Some("bogus".to_string()),
        runtime_alias: Some("native".to_string()),
    };
    let request = CompletionRequest::parse(&args, &env).expect("env");
    assert_eq!(request.mode, CompletionMode::Legacy);
    assert_eq!(request.runtime, Runtime::Host);

    let env = CompletionEnv {
        mode: Some("other".to_string()),
        runtime: None,
        runtime_alias: None,
    };
    let err = CompletionRequest::parse(&args, &env).expect_err("bad mode");
    assert!(err.contains("active|legacy"));
}

#[test]
fn runtime_after_cursor_is_ignored() {
    let request = parse(&[
        "--shell", "bash", "--cword", "1", "--word", "p", "--word", "", "--word", "--runtime=host",
    ])
    .expect("parse");
    assert_eq!(request.runtime, Runtime::Container);
    let request = parse(&[
        "--shell", "bash", "--cword", "3", "--word", "p", "--word", "--runtime=host", "--word",
        "--runtime=bad", "--word", "",
    ])
    .expect("parse");
    assert_eq!(request.runtime, Runtime::Host);
}

#[test]
fn first_positional_returns_the_first_word_reached() {
    let args: Vec<String> = ["--ref", "main", "-y", "ws"].iter().map(|a| a.to_string()).collect();
    assert_eq!(first_positional(&args), Some("main"));
    assert_eq!(first_positional_skipping_options(&args, &["--ref"]), Some("ws"));
    let args: Vec<String> = ["--ref", "main"].iter().map(|a| a.to_string()).collect();
    assert_eq!(first_positional_skipping_options(&args, &["--ref"]), None);
    let args: Vec<String> = ["--ref=x", "ws2"].iter().map(|a| a.to_string()).collect();
    assert_eq!(first_positional_skipping_options(&args, &["--ref"]), Some("ws2"));
}
