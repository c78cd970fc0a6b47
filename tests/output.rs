use agent_workspace::candidates::Candidate;
use agent_workspace::output::render;
use agent_workspace::protocol::{CompletionOutputFormat, CompletionShell};

#[test]
fn plain_output_sanitizes_control_characters() {
    let rendered = render(
        CompletionShell::Bash,
        CompletionOutputFormat::Plain,
        &[Candidate::value("--runtime=host\nnext")],
    );
    assert_eq!(rendered, "--runtime=host next");
}

#[test]
fn described_output_includes_description_columns() {
    let rendered = render(
        CompletionShell::Zsh,
        CompletionOutputFormat::Describe,
        &[Candidate::described("rm", "Remove workspace")],
    );
    assert_eq!(rendered, "rm\tRemove workspace");
}

#[test]
fn rendering_joins_lines_and_sanitizes_descriptions() {
    let candidates = [
        Candidate::value("a\tb"),
        Candidate::described("c", "x\r\ny"),
    ];
    assert_eq!(
        render(CompletionShell::Bash, CompletionOutputFormat::Plain, &candidates),
        "a b\nc"
    );
    assert_eq!(
        render(CompletionShell::Zsh, CompletionOutputFormat::Describe, &candidates),
        "a b\nc\tx  y"
    );
    assert_eq!(
        render(CompletionShell::Bash, CompletionOutputFormat::Plain, &[]),
        ""
    );
}
