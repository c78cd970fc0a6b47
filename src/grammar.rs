//! The grammar of each subcommand: its options, the values they take, and
//! the candidates offered at each position after it.
use vstd::prelude::*;
use vstd::string::*;
use crate::candidates::{Candidate, CandView, cands_view, strs_view, pairs_view, plain, described, global_options, push_described_values, push_global_options};
use crate::engine::{value_slot, suggest, suggest_plain, value_option, value_suggestions, value_suggestions_described, WorkspaceContext, ws_names, ctx_after, ws_cands, push_workspaces, has_positional, first_positional, has_positional_skipping, first_positional_skipping_options};
use crate::text::{words_view, starts_with, has_prefix, str_eq};

verus! {

pub open spec fn ref_values() -> Seq<(Seq<char>, Seq<char>)> {
    seq![("origin/main"@, "Default remote branch"@), ("origin/master"@, "Legacy default branch"@)]
}

fn ref_table() -> (r: [(&'static str, &'static str); 2])
    ensures
        pairs_view(r@) == ref_values(),
{
    let t = [("origin/main", "Default remote branch"), ("origin/master", "Legacy default branch")];
    assert(pairs_view(t@) =~= ref_values());
    t
}

pub open spec fn json_values() -> Seq<(Seq<char>, Seq<char>)> {
    seq![("json"@, "JSON output format"@)]
}

fn json_table() -> (r: [(&'static str, &'static str); 1])
    ensures
        pairs_view(r@) == json_values(),
{
    let t = [("json", "JSON output format")];
    assert(pairs_view(t@) =~= json_values());
    t
}

pub open spec fn create_options() -> Seq<Seq<char>> {
    seq!["--name"@, "--image"@, "--ref"@, "--private-repo"@]
}

pub open spec fn create_flags() -> Seq<(Seq<char>, Seq<char>)> {
    seq![
        ("--name"@, "Set workspace name"@),
        ("--image"@, "Use custom agent image"@),
        ("--ref"@, "Pin work repos to git ref"@),
        ("--private-repo"@, "Attach private repository"@),
        ("--no-work-repos"@, "Skip cloning work repositories"@),
        ("--no-extras"@, "Skip optional setup extras"@),
        ("--no-pull"@, "Do not pull image before create"@),
        ("--help"@, "Show help for create"@),
        ("-h"@, "Show help for create"@),
    ]
}

/// Candidates after `create`.
pub open spec fn create_gen(args: Seq<Seq<char>>, cur: Seq<char>) -> Seq<CandView> {
    match value_slot(args, cur, create_options()) {
        Some((o, inline)) => if o == "--ref"@ {
            suggest(o, inline, ref_values())
        } else {
            suggest_plain(o, inline, seq![])
        },
        None => described(create_flags()) + described(global_options()),
    }
}

pub fn complete_create(current: &str, args_before: &[String]) -> (r: Vec<Candidate>)
    ensures
        cands_view(r@) == create_gen(words_view(args_before@), current@),
{
    let opts = ["--name", "--image", "--ref", "--private-repo"];
    assert(strs_view(opts@) =~= create_options());
    if let Some((option, inline)) = value_option(args_before, current, &opts) {
        if str_eq(option.as_str(), "--ref") {
            return value_suggestions_described(option.as_str(), inline, &ref_table());
        }
        let none: [&str; 0] = [];
        assert(strs_view(none@) =~= Seq::<Seq<char>>::empty());
        return value_suggestions(option.as_str(), inline, &none);
    }
    let flags = [
        ("--name", "Set workspace name"),
        ("--image", "Use custom agent image"),
        ("--ref", "Pin work repos to git ref"),
        ("--private-repo", "Attach private repository"),
        ("--no-work-repos", "Skip cloning work repositories"),
        ("--no-extras", "Skip optional setup extras"),
        ("--no-pull", "Do not pull image before create"),
        ("--help", "Show help for create"),
        ("-h", "Show help for create"),
    ];
    assert(pairs_view(flags@) =~= create_flags());
    let mut out: Vec<Candidate> = Vec::new();
    push_described_values(&mut out, &flags);
    push_global_options(&mut out);
    assert(cands_view(out@) =~= described(create_flags()) + described(global_options()));
    out
}

pub open spec fn ls_flags() -> Seq<(Seq<char>, Seq<char>)> {
    seq![
        ("--json"@, "Shortcut for --output json"@),
        ("--output"@, "Set output format"@),
        ("--help"@, "Show help for ls"@),
        ("-h"@, "Show help for ls"@),
    ]
}

/// Candidates after `ls`.
pub open spec fn ls_gen(args: Seq<Seq<char>>, cur: Seq<char>) -> Seq<CandView> {
    match value_slot(args, cur, seq!["--output"@]) {
        Some((o, inline)) => suggest(o, inline, json_values()),
        None => described(ls_flags()) + described(global_options()),
    }
}

pub fn complete_ls(current: &str, args_before: &[String]) -> (r: Vec<Candidate>)
    ensures
        cands_view(r@) == ls_gen(words_view(args_before@), current@),
{
    let opts = ["--output"];
    assert(strs_view(opts@) =~= seq!["--output"@]);
    if let Some((option, inline)) = value_option(args_before, current, &opts) {
        return value_suggestions_described(option.as_str(), inline, &json_table());
    }
    let flags = [
        ("--json", "Shortcut for --output json"),
        ("--output", "Set output format"),
        ("--help", "Show help for ls"),
        ("-h", "Show help for ls"),
    ];
    assert(pairs_view(flags@) =~= ls_flags());
    let mut out: Vec<Candidate> = Vec::new();
    push_described_values(&mut out, &flags);
    push_global_options(&mut out);
    assert(cands_view(out@) =~= described(ls_flags()) + described(global_options()));
    out
}

pub open spec fn rm_flags() -> Seq<(Seq<char>, Seq<char>)> {
    seq![
        ("--all"@, "Remove all workspaces"@),
        ("--yes"@, "Skip confirmation prompt"@),
        ("-y"@, "Skip confirmation prompt"@),
        ("--keep-volumes"@, "Keep attached volumes"@),
        ("--volumes"@, "Remove attached volumes"@),
        ("--help"@, "Show help for rm"@),
        ("-h"@, "Show help for rm"@),
    ]
}

/// After `rm`, workspace names are offered while every word so far is a flag
/// other than `--all`.
pub open spec fn rm_offers_workspaces(args: Seq<Seq<char>>, i: int) -> bool
    decreases args.len() - i,
{
    if i < 0 || i >= args.len() {
        true
    } else if args[i] == "--all"@ {
        false
    } else if starts_with(args[i], "-"@) {
        rm_offers_workspaces(args, i + 1)
    } else {
        false
    }
}

/// Candidates after `rm`, and whether they include the workspace names.
pub open spec fn rm_gen(args: Seq<Seq<char>>, ws: Seq<Seq<char>>) -> (Seq<CandView>, bool) {
    let offers = rm_offers_workspaces(args, 0);
    (
        described(rm_flags()) + described(global_options()) + if offers {
            plain(ws)
        } else {
            seq![]
        },
        offers,
    )
}

pub fn complete_rm(args_before: &[String], ctx: &mut WorkspaceContext) -> (r: Vec<Candidate>)
    ensures
        cands_view(r@) == rm_gen(words_view(args_before@), ws_names(*old(ctx))).0,
        ctx_after(*old(ctx), *final(ctx), rm_gen(words_view(args_before@), ws_names(*old(ctx))).1),
{
    let ghost a = words_view(args_before@);
    let mut has_all = false;
    let mut workspace_seen = false;
    let mut i: usize = 0;
    while i < args_before.len() && !workspace_seen
        invariant
            a == words_view(args_before@),
            i <= args_before@.len(),
            workspace_seen ==> !rm_offers_workspaces(a, 0),
            !workspace_seen ==> (rm_offers_workspaces(a, 0) == (!has_all
                && rm_offers_workspaces(a, i as int))),
        decreases args_before@.len() - i + (if workspace_seen { 0int } else { 1int }),
    {
        let token = args_before[i].as_str();
        if str_eq(token, "--all") {
            has_all = true;
        } else if has_prefix(token, "-") {
        } else {
            workspace_seen = true;
        }
        i = i + 1;
    }
    let flags = [
        ("--all", "Remove all workspaces"),
        ("--yes", "Skip confirmation prompt"),
        ("-y", "Skip confirmation prompt"),
        ("--keep-volumes", "Keep attached volumes"),
        ("--volumes", "Remove attached volumes"),
        ("--help", "Show help for rm"),
        ("-h", "Show help for rm"),
    ];
    assert(pairs_view(flags@) =~= rm_flags());
    let mut out: Vec<Candidate> = Vec::new();
    push_described_values(&mut out, &flags);
    push_global_options(&mut out);
    if !has_all && !workspace_seen {
        push_workspaces(&mut out, ctx);
    }
    assert(cands_view(out@) =~= rm_gen(a, ws_names(*old(ctx))).0);
    out
}

pub open spec fn user_values() -> Seq<(Seq<char>, Seq<char>)> {
    seq![
        ("0"@, "UID 0 (root)"@),
        ("root"@, "Root user"@),
        ("agent"@, "Default agent user"@),
        ("codex"@, "Alternate codex user"@),
    ]
}

pub open spec fn exec_flags() -> Seq<(Seq<char>, Seq<char>)> {
    seq![
        ("--root"@, "Run command as root user"@),
        ("--user"@, "Run command as specific user"@),
        ("--help"@, "Show help for exec"@),
        ("-h"@, "Show help for exec"@),
    ]
}

/// Some word of `args[i..]` after `exec` names the workspace; `--user` takes
/// the word after it.
pub open spec fn exec_workspace_seen(args: Seq<Seq<char>>, i: int) -> bool
    decreases args.len() - i,
{
    if i < 0 || i >= args.len() {
        false
    } else if args[i] == "--user"@ {
        if i + 1 >= args.len() {
            false
        } else {
            exec_workspace_seen(args, i + 2)
        }
    } else if starts_with(args[i], "--user="@) {
        exec_workspace_seen(args, i + 1)
    } else if starts_with(args[i], "-"@) {
        exec_workspace_seen(args, i + 1)
    } else {
        true
    }
}

/// Candidates after `exec`, and whether they include the workspace names.
pub open spec fn exec_gen(args: Seq<Seq<char>>, cur: Seq<char>, ws: Seq<Seq<char>>) -> (
    Seq<CandView>,
    bool,
) {
    match value_slot(args, cur, seq!["--user"@]) {
        Some((o, inline)) => (suggest(o, inline, user_values()), false),
        None => {
            let offers = !exec_workspace_seen(args, 0);
            (
                described(exec_flags()) + described(global_options()) + if offers {
                    plain(ws)
                } else {
                    seq![]
                },
                offers,
            )
        },
    }
}

pub fn complete_exec(current: &str, args_before: &[String], ctx: &mut WorkspaceContext) -> (r: Vec<
    Candidate,
>)
    ensures
        cands_view(r@) == exec_gen(words_view(args_before@), current@, ws_names(*old(ctx))).0,
        ctx_after(
            *old(ctx),
            *final(ctx),
            exec_gen(words_view(args_before@), current@, ws_names(*old(ctx))).1,
        ),
{
    let ghost a = words_view(args_before@);
    let opts = ["--user"];
    assert(strs_view(opts@) =~= seq!["--user"@]);
    if let Some((option, inline)) = value_option(args_before, current, &opts) {
        let values = [
            ("0", "UID 0 (root)"),
            ("root", "Root user"),
            ("agent", "Default agent user"),
            ("codex", "Alternate codex user"),
        ];
        assert(pairs_view(values@) =~= user_values());
        return value_suggestions_described(option.as_str(), inline, &values);
    }
    let mut workspace_seen = false;
    let mut idx: usize = 0;
    while idx < args_before.len() && !workspace_seen
        invariant
            a == words_view(args_before@),
            idx <= args_before@.len(),
            workspace_seen ==> exec_workspace_seen(a, 0),
            !workspace_seen ==> exec_workspace_seen(a, 0) == exec_workspace_seen(a, idx as int),
        decreases args_before@.len() - idx + (if workspace_seen { 0int } else { 1int }),
    {
        let token = args_before[idx].as_str();
        if str_eq(token, "--user") {
            if idx + 1 >= args_before.len() {
                idx = args_before.len();
            } else {
                idx = idx + 2;
            }
        } else if has_prefix(token, "--user=") {
            idx = idx + 1;
        } else if has_prefix(token, "-") {
            idx = idx + 1;
        } else {
            workspace_seen = true;
        }
    }
    let flags = [
        ("--root", "Run command as root user"),
        ("--user", "Run command as specific user"),
        ("--help", "Show help for exec"),
        ("-h", "Show help for exec"),
    ];
    assert(pairs_view(flags@) =~= exec_flags());
    let mut out: Vec<Candidate> = Vec::new();
    push_described_values(&mut out, &flags);
    push_global_options(&mut out);
    if !workspace_seen {
        push_workspaces(&mut out, ctx);
    }
    assert(cands_view(out@) =~= exec_gen(a, current@, ws_names(*old(ctx))).0);
    out
}

pub open spec fn tunnel_flags() -> Seq<(Seq<char>, Seq<char>)> {
    seq![
        ("--name"@, "Set tunnel display name"@),
        ("--detach"@, "Start tunnel in background"@),
        ("--output"@, "Set output format"@),
        ("--help"@, "Show help for tunnel"@),
        ("-h"@, "Show help for tunnel"@),
    ]
}

/// Some word of `args[i..]` after `tunnel` names the workspace; `--name` and
/// `--output` take the word after them.
pub open spec fn tunnel_workspace_seen(args: Seq<Seq<char>>, i: int) -> bool
    decreases args.len() - i,
{
    if i < 0 || i >= args.len() {
        false
    } else if args[i] == "--name"@ || args[i] == "--output"@ {
        if i + 1 >= args.len() {
            false
        } else {
            tunnel_workspace_seen(args, i + 2)
        }
    } else if starts_with(args[i], "--name="@) || starts_with(args[i], "--output="@) {
        tunnel_workspace_seen(args, i + 1)
    } else if starts_with(args[i], "-"@) {
        tunnel_workspace_seen(args, i + 1)
    } else {
        true
    }
}

/// Candidates after `tunnel`, and whether they include the workspace names.
pub open spec fn tunnel_gen(args: Seq<Seq<char>>, cur: Seq<char>, ws: Seq<Seq<char>>) -> (
    Seq<CandView>,
    bool,
) {
    match value_slot(args, cur, seq!["--name"@, "--output"@]) {
        Some((o, inline)) => if o == "--output"@ {
            (suggest(o, inline, json_values()), false)
        } else {
            (suggest_plain(o, inline, seq![]), false)
        },
        None => {
            let offers = !tunnel_workspace_seen(args, 0);
            (
                described(tunnel_flags()) + described(global_options()) + if offers {
                    plain(ws)
                } else {
                    seq![]
                },
                offers,
            )
        },
    }
}

pub fn complete_tunnel(current: &str, args_before: &[String], ctx: &mut WorkspaceContext) -> (r:
    Vec<Candidate>)
    ensures
        cands_view(r@) == tunnel_gen(words_view(args_before@), current@, ws_names(*old(ctx))).0,
        ctx_after(
            *old(ctx),
            *final(ctx),
            tunnel_gen(words_view(args_before@), current@, ws_names(*old(ctx))).1,
        ),
{
    let ghost a = words_view(args_before@);
    let opts = ["--name", "--output"];
    assert(strs_view(opts@) =~= seq!["--name"@, "--output"@]);
    if let Some((option, inline)) = value_option(args_before, current, &opts) {
        if str_eq(option.as_str(), "--output") {
            return value_suggestions_described(option.as_str(), inline, &json_table());
        }
        let none: [&str; 0] = [];
        assert(strs_view(none@) =~= Seq::<Seq<char>>::empty());
        return value_suggestions(option.as_str(), inline, &none);
    }
    let mut workspace_seen = false;
    let mut idx: usize = 0;
    while idx < args_before.len() && !workspace_seen
        invariant
            a == words_view(args_before@),
            idx <= args_before@.len(),
            workspace_seen ==> tunnel_workspace_seen(a, 0),
            !workspace_seen ==> tunnel_workspace_seen(a, 0) == tunnel_workspace_seen(a, idx as int),
        decreases args_before@.len() - idx + (if workspace_seen { 0int } else { 1int }),
    {
        let token = args_before[idx].as_str();
        if str_eq(token, "--name") || str_eq(token, "--output") {
            if idx + 1 >= args_before.len() {
                idx = args_before.len();
            } else {
                idx = idx + 2;
            }
        } else if has_prefix(token, "--name=") || has_prefix(token, "--output=") {
            idx = idx + 1;
        } else if has_prefix(token, "-") {
            idx = idx + 1;
        } else {
            workspace_seen = true;
        }
    }
    let flags = [
        ("--name", "Set tunnel display name"),
        ("--detach", "Start tunnel in background"),
        ("--output", "Set output format"),
        ("--help", "Show help for tunnel"),
        ("-h", "Show help for tunnel"),
    ];
    assert(pairs_view(flags@) =~= tunnel_flags());
    let mut out: Vec<Candidate> = Vec::new();
    push_described_values(&mut out, &flags);
    push_global_options(&mut out);
    if !workspace_seen {
        push_workspaces(&mut out, ctx);
    }
    assert(cands_view(out@) =~= tunnel_gen(a, current@, ws_names(*old(ctx))).0);
    out
}

pub open spec fn auth_options() -> Seq<Seq<char>> {
    seq!["--container"@, "--workspace"@, "--profile"@, "--host"@, "--key"@]
}

pub open spec fn host_values() -> Seq<(Seq<char>, Seq<char>)> {
    seq![("github.com"@, "GitHub.com"@), ("ghe.local"@, "Example GitHub Enterprise host"@)]
}

pub open spec fn profile_values() -> Seq<(Seq<char>, Seq<char>)> {
    seq![("default"@, "Default Codex profile"@), ("work"@, "Example work profile"@)]
}

pub open spec fn auth_flags() -> Seq<(Seq<char>, Seq<char>)> {
    seq![
        ("--container"@, "Target workspace by container name"@),
        ("--workspace"@, "Target workspace by workspace name"@),
        ("--profile"@, "Select Codex profile"@),
        ("--host"@, "Set GitHub host"@),
        ("--key"@, "Set GPG key id"@),
        ("--help"@, "Show help for auth"@),
        ("-h"@, "Show help for auth"@),
    ]
}

pub open spec fn auth_providers() -> Seq<(Seq<char>, Seq<char>)> {
    seq![
        ("github"@, "Sync GitHub token to workspace"@),
        ("codex"@, "Sync Codex auth file to workspace"@),
        ("gpg"@, "Import GPG signing key into workspace"@),
    ]
}

/// The flags that fit the auth provider `p`.
pub open spec fn provider_flags(p: Seq<char>) -> Seq<(Seq<char>, Seq<char>)> {
    let target = seq![
        ("--container"@, "Target workspace by container name"@),
        ("--workspace"@, "Target workspace by workspace name"@),
    ];
    if p == "github"@ {
        seq![("--host"@, "Set GitHub host"@)] + target
    } else if p == "codex"@ {
        seq![("--profile"@, "Select Codex profile"@)] + target
    } else if p == "gpg"@ {
        seq![("--key"@, "Set GPG key id"@)] + target
    } else {
        seq![]
    }
}

/// Reads `args[i..]` after `auth`: the provider (the first positional word)
/// and whether a workspace was named (a second positional word, or a
/// non-empty value of `--container` or `--workspace`).
pub open spec fn auth_scan(args: Seq<Seq<char>>, i: int, provider: Option<Seq<char>>, seen: bool) -> (
    Option<Seq<char>>,
    bool,
)
    decreases args.len() - i,
{
    if i < 0 || i >= args.len() {
        (provider, seen)
    } else if args[i] == "--container"@ || args[i] == "--workspace"@ {
        if i + 1 >= args.len() {
            (provider, seen)
        } else {
            auth_scan(args, i + 2, provider, seen || args[i + 1].len() > 0)
        }
    } else if args[i] == "--profile"@ || args[i] == "--host"@ || args[i] == "--key"@ {
        if i + 1 >= args.len() {
            (provider, seen)
        } else {
            auth_scan(args, i + 2, provider, seen)
        }
    } else if starts_with(args[i], "--container="@) || starts_with(args[i], "--workspace="@) {
        auth_scan(args, i + 1, provider, true)
    } else if starts_with(args[i], "--profile="@) || starts_with(args[i], "--host="@)
        || starts_with(args[i], "--key="@) || starts_with(args[i], "-"@) {
        auth_scan(args, i + 1, provider, seen)
    } else if provider is None {
        auth_scan(args, i + 1, Some(args[i]), seen)
    } else {
        auth_scan(args, i + 1, provider, true)
    }
}

/// Candidates after `auth`, and whether they include the workspace names.
pub open spec fn auth_gen(args: Seq<Seq<char>>, cur: Seq<char>, ws: Seq<Seq<char>>) -> (
    Seq<CandView>,
    bool,
) {
    match value_slot(args, cur, auth_options()) {
        Some((o, inline)) => if o == "--container"@ || o == "--workspace"@ {
            (ws_cands(ws, Some((o, inline))), true)
        } else if o == "--host"@ {
            (suggest(o, inline, host_values()), false)
        } else if o == "--profile"@ {
            (suggest(o, inline, profile_values()), false)
        } else {
            (suggest_plain(o, inline, seq![]), false)
        },
        None => {
            let (provider, seen) = auth_scan(args, 0, None, false);
            let base = described(auth_flags()) + described(global_options());
            match provider {
                Some(p) => (
                    base + described(provider_flags(p)) + if !seen {
                        plain(ws)
                    } else {
                        seq![]
                    },
                    !seen,
                ),
                None => (base + described(auth_providers()), false),
            }
        },
    }
}

fn push_provider_flags(out: &mut Vec<Candidate>, provider: &str)
    ensures
        cands_view(final(out)@) == cands_view(old(out)@) + described(provider_flags(provider@)),
{
    if str_eq(provider, "github") {
        let t = [
            ("--host", "Set GitHub host"),
            ("--container", "Target workspace by container name"),
            ("--workspace", "Target workspace by workspace name"),
        ];
        assert(pairs_view(t@) =~= provider_flags(provider@));
        push_described_values(out, &t);
    } else if str_eq(provider, "codex") {
        let t = [
            ("--profile", "Select Codex profile"),
            ("--container", "Target workspace by container name"),
            ("--workspace", "Target workspace by workspace name"),
        ];
        assert(pairs_view(t@) =~= provider_flags(provider@));
        push_described_values(out, &t);
    } else if str_eq(provider, "gpg") {
        let t = [
            ("--key", "Set GPG key id"),
            ("--container", "Target workspace by container name"),
            ("--workspace", "Target workspace by workspace name"),
        ];
        assert(pairs_view(t@) =~= provider_flags(provider@));
        push_described_values(out, &t);
    } else {
        assert(cands_view(out@) =~= cands_view(out@) + described(provider_flags(provider@)));
    }
}

pub fn complete_auth(current: &str, args_before: &[String], ctx: &mut WorkspaceContext) -> (r: Vec<
    Candidate,
>)
    ensures
        cands_view(r@) == auth_gen(words_view(args_before@), current@, ws_names(*old(ctx))).0,
        ctx_after(
            *old(ctx),
            *final(ctx),
            auth_gen(words_view(args_before@), current@, ws_names(*old(ctx))).1,
        ),
{
    let ghost a = words_view(args_before@);
    let opts = ["--container", "--workspace", "--profile", "--host", "--key"];
    assert(strs_view(opts@) =~= auth_options());
    if let Some((option, inline)) = value_option(args_before, current, &opts) {
        if str_eq(option.as_str(), "--container") || str_eq(option.as_str(), "--workspace") {
            return ctx.workspace_candidates(Some((option.as_str(), inline)));
        }
        if str_eq(option.as_str(), "--host") {
            let values = [
                ("github.com", "GitHub.com"),
                ("ghe.local", "Example GitHub Enterprise host"),
            ];
            assert(pairs_view(values@) =~= host_values());
            return value_suggestions_described(option.as_str(), inline, &values);
        }
        if str_eq(option.as_str(), "--profile") {
            let values = [("default", "Default Codex profile"), ("work", "Example work profile")];
            assert(pairs_view(values@) =~= profile_values());
            return value_suggestions_described(option.as_str(), inline, &values);
        }
        let none: [&str; 0] = [];
        assert(strs_view(none@) =~= Seq::<Seq<char>>::empty());
        return value_suggestions(option.as_str(), inline, &none);
    }
    let mut provider: Option<String> = None;
    let mut workspace_seen = false;
    let mut idx: usize = 0;
    while idx < args_before.len()
        invariant
            a == words_view(args_before@),
            idx <= args_before@.len(),
            auth_scan(a, 0, None, false) == auth_scan(
                a,
                idx as int,
                match provider {
                    Some(p) => Some(p@),
                    None => None,
                },
                workspace_seen,
            ),
        decreases args_before@.len() - idx,
    {
        let token = args_before[idx].as_str();
        if str_eq(token, "--container") || str_eq(token, "--workspace") {
            idx = idx + 1;
            if idx < args_before.len() && args_before[idx].as_str().unicode_len() > 0 {
                workspace_seen = true;
            }
            if idx < args_before.len() {
                idx = idx + 1;
            }
        } else if str_eq(token, "--profile") || str_eq(token, "--host") || str_eq(token, "--key") {
            idx = idx + 1;
            if idx < args_before.len() {
                idx = idx + 1;
            }
        } else if has_prefix(token, "--container=") || has_prefix(token, "--workspace=") {
            workspace_seen = true;
            idx = idx + 1;
        } else if has_prefix(token, "--profile=") || has_prefix(token, "--host=") || has_prefix(
            token,
            "--key=",
        ) || has_prefix(token, "-") {
            idx = idx + 1;
        } else {
            if provider.is_none() {
                provider = Some(String::from_str(token));
            } else {
                workspace_seen = true;
            }
            idx = idx + 1;
        }
    }
    let flags = [
        ("--container", "Target workspace by container name"),
        ("--workspace", "Target workspace by workspace name"),
        ("--profile", "Select Codex profile"),
        ("--host", "Set GitHub host"),
        ("--key", "Set GPG key id"),
        ("--help", "Show help for auth"),
        ("-h", "Show help for auth"),
    ];
    assert(pairs_view(flags@) =~= auth_flags());
    let mut out: Vec<Candidate> = Vec::new();
    push_described_values(&mut out, &flags);
    push_global_options(&mut out);
    match &provider {
        Some(p) => {
            push_provider_flags(&mut out, p.as_str());
            if !workspace_seen {
                push_workspaces(&mut out, ctx);
            }
        },
        None => {
            let t = [
                ("github", "Sync GitHub token to workspace"),
                ("codex", "Sync Codex auth file to workspace"),
                ("gpg", "Import GPG signing key into workspace"),
            ];
            assert(pairs_view(t@) =~= auth_providers());
            push_described_values(&mut out, &t);
        },
    }
    assert(cands_view(out@) =~= auth_gen(a, current@, ws_names(*old(ctx))).0);
    out
}

/// The four forms of `reset`.
#[derive(Debug, Clone, Copy, PartialEq, Eq, Structural)]
pub enum ResetKind {
    Repo,
    WorkRepos,
    OptRepos,
    PrivateRepo,
}

pub open spec fn reset_kind_of(s: Seq<char>) -> Option<ResetKind> {
    if s == "repo"@ {
        Some(ResetKind::Repo)
    } else if s == "work-repos"@ {
        Some(ResetKind::WorkRepos)
    } else if s == "opt-repos"@ {
        Some(ResetKind::OptRepos)
    } else if s == "private-repo"@ {
        Some(ResetKind::PrivateRepo)
    } else {
        None
    }
}

pub fn parse_reset_kind(s: &str) -> (r: Option<ResetKind>)
    ensures
        r == reset_kind_of(s@),
{
    if str_eq(s, "repo") {
        Some(ResetKind::Repo)
    } else if str_eq(s, "work-repos") {
        Some(ResetKind::WorkRepos)
    } else if str_eq(s, "opt-repos") {
        Some(ResetKind::OptRepos)
    } else if str_eq(s, "private-repo") {
        Some(ResetKind::PrivateRepo)
    } else {
        None
    }
}

pub open spec fn reset_menu() -> Seq<(Seq<char>, Seq<char>)> {
    seq![
        ("repo"@, "Reset one repo to remote ref"@),
        ("work-repos"@, "Reset all work repos"@),
        ("opt-repos"@, "Reset repos under /opt"@),
        ("private-repo"@, "Reset private repo"@),
    ]
}

fn reset_menu_table() -> (r: [(&'static str, &'static str); 4])
    ensures
        pairs_view(r@) == reset_menu(),
{
    let t = [
        ("repo", "Reset one repo to remote ref"),
        ("work-repos", "Reset all work repos"),
        ("opt-repos", "Reset repos under /opt"),
        ("private-repo", "Reset private repo"),
    ];
    assert(pairs_view(t@) =~= reset_menu());
    t
}

pub open spec fn reset_help() -> Seq<(Seq<char>, Seq<char>)> {
    seq![("--help"@, "Show help for reset"@), ("-h"@, "Show help for reset"@)]
}

/// The nested forms of `reset`, its help flags and the global options.
pub open spec fn reset_listing() -> Seq<CandView> {
    described(reset_menu()) + described(reset_help()) + described(global_options())
}

fn reset_listing_candidates() -> (r: Vec<Candidate>)
    ensures
        cands_view(r@) == reset_listing(),
{
    let mut out: Vec<Candidate> = Vec::new();
    push_described_values(&mut out, &reset_menu_table());
    let help = [("--help", "Show help for reset"), ("-h", "Show help for reset")];
    assert(pairs_view(help@) =~= reset_help());
    push_described_values(&mut out, &help);
    push_global_options(&mut out);
    assert(cands_view(out@) =~= reset_listing());
    out
}

pub open spec fn reset_repo_flags() -> Seq<(Seq<char>, Seq<char>)> {
    seq![
        ("--ref"@, "Set git ref to reset"@),
        ("--yes"@, "Skip confirmation prompt"@),
        ("-y"@, "Skip confirmation prompt"@),
        ("--help"@, "Show help for reset repo"@),
        ("-h"@, "Show help for reset repo"@),
    ]
}

/// Candidates after `reset repo`, and whether they include the workspace
/// names.
pub open spec fn reset_repo_gen(args: Seq<Seq<char>>, cur: Seq<char>, ws: Seq<Seq<char>>) -> (
    Seq<CandView>,
    bool,
) {
    match value_slot(args, cur, seq!["--ref"@]) {
        Some((o, inline)) => (suggest(o, inline, ref_values()), false),
        None => {
            let offers = !has_positional_skipping(args, seq!["--ref"@], 0);
            (
                described(reset_repo_flags()) + described(global_options()) + if offers {
                    plain(ws)
                } else {
                    seq![]
                },
                offers,
            )
        },
    }
}

pub fn complete_reset_repo(current: &str, args_before: &[String], ctx: &mut WorkspaceContext) -> (r:
    Vec<Candidate>)
    ensures
        cands_view(r@) == reset_repo_gen(words_view(args_before@), current@, ws_names(*old(ctx))).0,
        ctx_after(
            *old(ctx),
            *final(ctx),
            reset_repo_gen(words_view(args_before@), current@, ws_names(*old(ctx))).1,
        ),
{
    let opts = ["--ref"];
    assert(strs_view(opts@) =~= seq!["--ref"@]);
    if let Some((option, inline)) = value_option(args_before, current, &opts) {
        return value_suggestions_described(option.as_str(), inline, &ref_table());
    }
    let workspace_seen = first_positional_skipping_options(args_before, &opts).is_some();
    let flags = [
        ("--ref", "Set git ref to reset"),
        ("--yes", "Skip confirmation prompt"),
        ("-y", "Skip confirmation prompt"),
        ("--help", "Show help for reset repo"),
        ("-h", "Show help for reset repo"),
    ];
    assert(pairs_view(flags@) =~= reset_repo_flags());
    let mut out: Vec<Candidate> = Vec::new();
    push_described_values(&mut out, &flags);
    push_global_options(&mut out);
    if !workspace_seen {
        push_workspaces(&mut out, ctx);
    }
    assert(cands_view(out@) =~= reset_repo_gen(
        words_view(args_before@),
        current@,
        ws_names(*old(ctx)),
    ).0);
    out
}

pub open spec fn work_repos_options() -> Seq<Seq<char>> {
    seq!["--root"@, "--depth"@, "--ref"@]
}

pub open spec fn root_values() -> Seq<(Seq<char>, Seq<char>)> {
    seq![("/work"@, "Default work repositories root"@), ("/opt"@, "Optional repositories root"@)]
}

pub open spec fn depth_values() -> Seq<(Seq<char>, Seq<char>)> {
    seq![
        ("1"@, "Only immediate repositories"@),
        ("2"@, "Shallow tree scan"@),
        ("3"@, "Default scan depth"@),
        ("5"@, "Deeper scan depth"@),
    ]
}

pub open spec fn work_repos_flags() -> Seq<(Seq<char>, Seq<char>)> {
    seq![
        ("--root"@, "Set repository root directory"@),
        ("--depth"@, "Set fetch depth"@),
        ("--ref"@, "Set git ref to reset"@),
        ("--yes"@, "Skip confirmation prompt"@),
        ("-y"@, "Skip confirmation prompt"@),
        ("--help"@, "Show help for reset work-repos"@),
        ("-h"@, "Show help for reset work-repos"@),
    ]
}

/// Candidates after `reset work-repos`, and whether they include the
/// workspace names.
pub open spec fn work_repos_gen(args: Seq<Seq<char>>, cur: Seq<char>, ws: Seq<Seq<char>>) -> (
    Seq<CandView>,
    bool,
) {
    match value_slot(args, cur, work_repos_options()) {
        Some((o, inline)) => if o == "--root"@ {
            (suggest(o, inline, root_values()), false)
        } else if o == "--depth"@ {
            (suggest(o, inline, depth_values()), false)
        } else if o == "--ref"@ {
            (suggest(o, inline, ref_values()), false)
        } else {
            (suggest_plain(o, inline, seq![]), false)
        },
        None => {
            let offers = !has_positional_skipping(args, work_repos_options(), 0);
            (
                described(work_repos_flags()) + described(global_options()) + if offers {
                    plain(ws)
                } else {
                    seq![]
                },
                offers,
            )
        },
    }
}

pub fn complete_reset_work_repos(
    current: &str,
    args_before: &[String],
    ctx: &mut WorkspaceContext,
) -> (r: Vec<Candidate>)
    ensures
        cands_view(r@) == work_repos_gen(words_view(args_before@), current@, ws_names(*old(ctx))).0,
        ctx_after(
            *old(ctx),
            *final(ctx),
            work_repos_gen(words_view(args_before@), current@, ws_names(*old(ctx))).1,
        ),
{
    let opts = ["--root", "--depth", "--ref"];
    assert(strs_view(opts@) =~= work_repos_options());
    if let Some((option, inline)) = value_option(args_before, current, &opts) {
        if str_eq(option.as_str(), "--root") {
            let values = [
                ("/work", "Default work repositories root"),
                ("/opt", "Optional repositories root"),
            ];
            assert(pairs_view(values@) =~= root_values());
            return value_suggestions_described(option.as_str(), inline, &values);
        }
        if str_eq(option.as_str(), "--depth") {
            let values = [
                ("1", "Only immediate repositories"),
                ("2", "Shallow tree scan"),
                ("3", "Default scan depth"),
                ("5", "Deeper scan depth"),
            ];
            assert(pairs_view(values@) =~= depth_values());
            return value_suggestions_described(option.as_str(), inline, &values);
        }
        if str_eq(option.as_str(), "--ref") {
            return value_suggestions_described(option.as_str(), inline, &ref_table());
        }
        let none: [&str; 0] = [];
        assert(strs_view(none@) =~= Seq::<Seq<char>>::empty());
        return value_suggestions(option.as_str(), inline, &none);
    }
    let workspace_seen = first_positional_skipping_options(args_before, &opts).is_some();
    let flags = [
        ("--root", "Set repository root directory"),
        ("--depth", "Set fetch depth"),
        ("--ref", "Set git ref to reset"),
        ("--yes", "Skip confirmation prompt"),
        ("-y", "Skip confirmation prompt"),
        ("--help", "Show help for reset work-repos"),
        ("-h", "Show help for reset work-repos"),
    ];
    assert(pairs_view(flags@) =~= work_repos_flags());
    let mut out: Vec<Candidate> = Vec::new();
    push_described_values(&mut out, &flags);
    push_global_options(&mut out);
    if !workspace_seen {
        push_workspaces(&mut out, ctx);
    }
    assert(cands_view(out@) =~= work_repos_gen(
        words_view(args_before@),
        current@,
        ws_names(*old(ctx)),
    ).0);
    out
}

pub open spec fn private_repo_flags() -> Seq<(Seq<char>, Seq<char>)> {
    seq![
        ("--ref"@, "Set git ref to reset"@),
        ("--yes"@, "Skip confirmation prompt"@),
        ("-y"@, "Skip confirmation prompt"@),
        ("--help"@, "Show help for reset private-repo"@),
        ("-h"@, "Show help for reset private-repo"@),
    ]
}

pub open spec fn opt_repos_flags() -> Seq<(Seq<char>, Seq<char>)> {
    seq![
        ("--yes"@, "Skip confirmation prompt"@),
        ("-y"@, "Skip confirmation prompt"@),
        ("--help"@, "Show help for reset opt-repos"@),
        ("-h"@, "Show help for reset opt-repos"@),
    ]
}

/// Candidates after `reset private-repo` (`with_ref`) or `reset opt-repos`,
/// and whether they include the workspace names.
pub open spec fn reset_simple_gen(
    args: Seq<Seq<char>>,
    cur: Seq<char>,
    ws: Seq<Seq<char>>,
    with_ref: bool,
) -> (Seq<CandView>, bool) {
    if with_ref && value_slot(args, cur, seq!["--ref"@]) is Some {
        let (o, inline) = value_slot(args, cur, seq!["--ref"@])->0;
        (suggest(o, inline, ref_values()), false)
    } else {
        let offers = if with_ref {
            !has_positional_skipping(args, seq!["--ref"@], 0)
        } else {
            !has_positional(args, 0)
        };
        (
            described(if with_ref {
                private_repo_flags()
            } else {
                opt_repos_flags()
            }) + described(global_options()) + if offers {
                plain(ws)
            } else {
                seq![]
            },
            offers,
        )
    }
}

pub fn complete_reset_simple(
    current: &str,
    args_before: &[String],
    ctx: &mut WorkspaceContext,
    with_ref: bool,
) -> (r: Vec<Candidate>)
    ensures
        cands_view(r@) == reset_simple_gen(
            words_view(args_before@),
            current@,
            ws_names(*old(ctx)),
            with_ref,
        ).0,
        ctx_after(
            *old(ctx),
            *final(ctx),
            reset_simple_gen(words_view(args_before@), current@, ws_names(*old(ctx)), with_ref).1,
        ),
{
    if with_ref {
        let opts = ["--ref"];
        assert(strs_view(opts@) =~= seq!["--ref"@]);
        if let Some((option, inline)) = value_option(args_before, current, &opts) {
            return value_suggestions_described(option.as_str(), inline, &ref_table());
        }
    }
    let ref_option = ["--ref"];
    assert(strs_view(ref_option@) =~= seq!["--ref"@]);
    let workspace_seen = if with_ref {
        first_positional_skipping_options(args_before, &ref_option).is_some()
    } else {
        first_positional(args_before).is_some()
    };
    let mut out: Vec<Candidate> = Vec::new();
    if with_ref {
        let flags = [
            ("--ref", "Set git ref to reset"),
            ("--yes", "Skip confirmation prompt"),
            ("-y", "Skip confirmation prompt"),
            ("--help", "Show help for reset private-repo"),
            ("-h", "Show help for reset private-repo"),
        ];
        assert(pairs_view(flags@) =~= private_repo_flags());
        push_described_values(&mut out, &flags);
    } else {
        let flags = [
            ("--yes", "Skip confirmation prompt"),
            ("-y", "Skip confirmation prompt"),
            ("--help", "Show help for reset opt-repos"),
            ("-h", "Show help for reset opt-repos"),
        ];
        assert(pairs_view(flags@) =~= opt_repos_flags());
        push_described_values(&mut out, &flags);
    }
    push_global_options(&mut out);
    if !workspace_seen {
        push_workspaces(&mut out, ctx);
    }
    assert(cands_view(out@) =~= reset_simple_gen(
        words_view(args_before@),
        current@,
        ws_names(*old(ctx)),
        with_ref,
    ).0);
    out
}

/// The index of the first word of `args[i..]` that is not a flag.
pub open spec fn first_word_index(args: Seq<Seq<char>>, i: int) -> Option<int>
    decreases args.len() - i,
{
    if i < 0 || i >= args.len() {
        None
    } else if starts_with(args[i], "-"@) {
        first_word_index(args, i + 1)
    } else {
        Some(i)
    }
}

/// Candidates after `reset`, and whether they include the workspace names:
/// the first word that is not a flag selects the nested form.
pub open spec fn reset_gen(args: Seq<Seq<char>>, cur: Seq<char>, ws: Seq<Seq<char>>) -> (
    Seq<CandView>,
    bool,
) {
    match first_word_index(args, 0) {
        None => (reset_listing(), false),
        Some(k) => {
            let nested = args.subrange(k + 1, args.len() as int);
            match reset_kind_of(args[k]) {
                Some(ResetKind::Repo) => reset_repo_gen(nested, cur, ws),
                Some(ResetKind::WorkRepos) => work_repos_gen(nested, cur, ws),
                Some(ResetKind::OptRepos) => reset_simple_gen(nested, cur, ws, false),
                Some(ResetKind::PrivateRepo) => reset_simple_gen(nested, cur, ws, true),
                None => (described(reset_menu()), false),
            }
        },
    }
}

pub fn complete_reset(current: &str, args_before: &[String], ctx: &mut WorkspaceContext) -> (r: Vec<
    Candidate,
>)
    ensures
        cands_view(r@) == reset_gen(words_view(args_before@), current@, ws_names(*old(ctx))).0,
        ctx_after(
            *old(ctx),
            *final(ctx),
            reset_gen(words_view(args_before@), current@, ws_names(*old(ctx))).1,
        ),
{
    let ghost a = words_view(args_before@);
    if args_before.len() == 0 {
        return reset_listing_candidates();
    }
    let mut k: usize = 0;
    while k < args_before.len() && has_prefix(args_before[k].as_str(), "-")
        invariant
            a == words_view(args_before@),
            k <= args_before@.len(),
            first_word_index(a, 0) == first_word_index(a, k as int),
        decreases args_before@.len() - k,
    {
        k = k + 1;
    }
    if k == args_before.len() {
        return reset_listing_candidates();
    }
    let (_, nested) = args_before.split_at(k + 1);
    assert(words_view(nested@) =~= a.subrange(k + 1, a.len() as int));
    match parse_reset_kind(args_before[k].as_str()) {
        Some(ResetKind::Repo) => complete_reset_repo(current, nested, ctx),
        Some(ResetKind::WorkRepos) => complete_reset_work_repos(current, nested, ctx),
        Some(ResetKind::OptRepos) => complete_reset_simple(current, nested, ctx, false),
        Some(ResetKind::PrivateRepo) => complete_reset_simple(current, nested, ctx, true),
        None => {
            let mut out: Vec<Candidate> = Vec::new();
            push_described_values(&mut out, &reset_menu_table());
            assert(cands_view(out@) =~= described(reset_menu()));
            out
        },
    }
}

} // verus!
