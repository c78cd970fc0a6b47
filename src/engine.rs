//! The completion engine: classifies a partial command line and builds the
//! candidates that fit the position of the cursor.
use vstd::prelude::*;
use vstd::string::*;
use crate::candidates::{Candidate, has_value, first_desc, lemma_has_value_push, lemma_first_desc_push, lemma_finalization_unique, lemma_finalization_prefix_lift, lemma_finalized_values_distinct, with_value_prefix, is_finalization, opt_view, finalize, lemma_cands_push, global_options, push_global_options, CandView, cands_view, strs_view, pairs_view, plain, described, prefixed, prefixed_pairs, push_values, push_described_values, with_prefix, with_described_prefix};
use crate::runtime::Runtime;
use crate::protocol::CompletionRequest;
use crate::grammar::{ResetKind, reset_kind_of, first_word_index, auth_options, create_options, work_repos_options, ref_values, json_values, user_values, host_values, profile_values, root_values, depth_values, auth_gen, create_gen, ls_gen, rm_gen, exec_gen, reset_gen, tunnel_gen, complete_auth, complete_create, complete_ls, complete_rm, complete_exec, complete_reset, complete_tunnel};
use crate::text::{words_view, lemma_words_push, starts_with, after, has_prefix, str_eq, concat, suffix_from};

verus! {

/// The first option whose inline form `<option>=` begins `cur`.
pub open spec fn first_inline(cur: Seq<char>, opts: Seq<Seq<char>>) -> Option<Seq<char>>
    decreases opts.len(),
{
    if opts.len() == 0 {
        None
    } else if starts_with(cur, opts[0] + "="@) {
        Some(opts[0])
    } else {
        first_inline(cur, opts.drop_first())
    }
}

/// The value-taking option whose value the current word fills, and whether it
/// is written inline (`--opt=`) rather than as the word before the cursor.
pub open spec fn value_slot(args: Seq<Seq<char>>, cur: Seq<char>, opts: Seq<Seq<char>>) -> Option<
    (Seq<char>, bool),
> {
    match first_inline(cur, opts) {
        Some(o) => Some((o, true)),
        None => if args.len() > 0 && opts.contains(args.last()) {
            Some((args.last(), false))
        } else {
            None
        },
    }
}

/// Suggested values for an option, behind `<option>=` when written inline.
pub open spec fn suggest(opt: Seq<char>, inline: bool, table: Seq<(Seq<char>, Seq<char>)>) -> Seq<
    CandView,
> {
    if inline {
        described(prefixed_pairs(opt + "="@, table))
    } else {
        described(table)
    }
}

/// Suggested undescribed values for an option.
pub open spec fn suggest_plain(opt: Seq<char>, inline: bool, values: Seq<Seq<char>>) -> Seq<
    CandView,
> {
    if inline {
        plain(prefixed(opt + "="@, values))
    } else {
        plain(values)
    }
}

pub fn value_option(args: &[String], current: &str, options: &[&str]) -> (r: Option<(String, bool)>)
    ensures
        match r {
            Some((o, inline)) => value_slot(words_view(args@), current@, strs_view(options@))
                == Some((o@, inline)),
            None => value_slot(words_view(args@), current@, strs_view(options@)) is None,
        },
{
    let ghost opts = strs_view(options@);
    let mut i: usize = 0;
    assert(opts.subrange(0, options@.len() as int) =~= opts);
    while i < options.len()
        invariant
            opts == strs_view(options@),
            i <= options@.len(),
            first_inline(current@, opts) == first_inline(current@, opts.subrange(i as int, opts.len() as int)),
        decreases options@.len() - i,
    {
        let prefix = concat(options[i], "=");
        let ghost rest = opts.subrange(i as int, opts.len() as int);
        assert(rest.drop_first() =~= opts.subrange(i + 1, opts.len() as int));
        if has_prefix(current, prefix.as_str()) {
            return Some((String::from_str(options[i]), true));
        }
        i = i + 1;
    }
    assert(opts.subrange(i as int, opts.len() as int) =~= Seq::<Seq<char>>::empty());
    assert(first_inline(current@, opts) is None);
    if args.len() > 0 {
        let last = &args[args.len() - 1];
        let mut j: usize = 0;
        while j < options.len()
            invariant
                opts == strs_view(options@),
                j <= options@.len(),
                args@.len() > 0,
                *last == args@[args@.len() - 1],
                first_inline(current@, opts) is None,
                forall|k: int| 0 <= k < j ==> opts[k] != last@,
            decreases options@.len() - j,
        {
            if str_eq(last.as_str(), options[j]) {
                assert(opts[j as int] == words_view(args@).last());
                assert(opts.contains(words_view(args@).last()));
                let o = last.clone();
                assert(words_view(args@)[args@.len() - 1] == o@);
                return Some((o, false));
            }
            j = j + 1;
        }
        assert(!opts.contains(words_view(args@).last()));
    }
    None
}

pub fn value_suggestions(option: &str, inline: bool, values: &[&str]) -> (r: Vec<Candidate>)
    ensures
        cands_view(r@) == suggest_plain(option@, inline, strs_view(values@)),
{
    if inline {
        let prefix = concat(option, "=");
        return with_prefix(prefix.as_str(), values);
    }
    let mut out: Vec<Candidate> = Vec::new();
    push_values(&mut out, values);
    assert(cands_view(out@) =~= plain(strs_view(values@)));
    out
}

pub fn value_suggestions_described(option: &str, inline: bool, values: &[(&str, &str)]) -> (r: Vec<
    Candidate,
>)
    ensures
        cands_view(r@) == suggest(option@, inline, pairs_view(values@)),
{
    if inline {
        let prefix = concat(option, "=");
        return with_described_prefix(prefix.as_str(), values);
    }
    let mut out: Vec<Candidate> = Vec::new();
    push_described_values(&mut out, values);
    assert(cands_view(out@) =~= described(pairs_view(values@)));
    out
}

/// The pairs whose value starts with `prefix`.
pub open spec fn pairs_with_prefix(pairs: Seq<(Seq<char>, Seq<char>)>, prefix: Seq<char>) -> Seq<
    (Seq<char>, Seq<char>),
> {
    pairs.filter(|p: (Seq<char>, Seq<char>)| starts_with(p.0, prefix))
}

pub fn filter_described_values<'a>(values: &[(&'a str, &'a str)], prefix: &str) -> (r: Vec<
    (&'a str, &'a str),
>)
    ensures
        pairs_view(r@) == pairs_with_prefix(pairs_view(values@), prefix@),
{
    let ghost pv = pairs_view(values@);
    let mut out: Vec<(&'a str, &'a str)> = Vec::new();
    let mut i: usize = 0;
    while i < values.len()
        invariant
            pv == pairs_view(values@),
            i <= values@.len(),
            pairs_view(out@) == pairs_with_prefix(pv.subrange(0, i as int), prefix@),
        decreases values@.len() - i,
    {
        let ghost pre = pv.subrange(0, i + 1);
        assert(pre.drop_last() =~= pv.subrange(0, i as int));
        proof {
            reveal(Seq::filter);
        }
        let (v, d) = values[i];
        if has_prefix(v, prefix) {
            out.push((v, d));
            assert(pairs_view(out@) =~= pairs_with_prefix(pv.subrange(0, i as int), prefix@).push((v@, d@)));
        }
        i = i + 1;
    }
    assert(pv.subrange(0, i as int) =~= pv);
    out
}

/// The two runtime backends, as values of `--runtime`.
pub open spec fn runtime_values() -> Seq<(Seq<char>, Seq<char>)> {
    seq![("container"@, "Use container runtime"@), ("host"@, "Use host runtime"@)]
}

/// The candidates for the value of `--runtime`, where the cursor is on it.
pub open spec fn runtime_slot(wb: Seq<Seq<char>>, cur: Seq<char>) -> Option<Seq<CandView>> {
    if starts_with(cur, "--runtime="@) {
        Some(
            described(
                prefixed_pairs(
                    "--runtime="@,
                    pairs_with_prefix(runtime_values(), after(cur, "--runtime="@)),
                ),
            ),
        )
    } else if wb.len() > 0 && wb.last() == "--runtime"@ {
        Some(described(runtime_values()))
    } else {
        None
    }
}

pub fn complete_runtime_value(words_before: &[String], current: &str) -> (r: Option<Vec<Candidate>>)
    ensures
        match r {
            Some(v) => runtime_slot(words_view(words_before@), current@) == Some(cands_view(v@)),
            None => runtime_slot(words_view(words_before@), current@) is None,
        },
{
    let table = [("container", "Use container runtime"), ("host", "Use host runtime")];
    assert(pairs_view(table@) =~= runtime_values());
    if has_prefix(current, "--runtime=") {
        proof {
            reveal_strlit("--runtime=");
        }
        let rest = suffix_from(current, 10);
        let kept = filter_described_values(&table, rest.as_str());
        return Some(with_described_prefix("--runtime=", kept.as_slice()));
    }
    if words_before.len() > 0 && str_eq(words_before[words_before.len() - 1].as_str(), "--runtime") {
        let mut out: Vec<Candidate> = Vec::new();
        push_described_values(&mut out, &table);
        assert(cands_view(out@) =~= described(runtime_values()));
        return Some(out);
    }
    None
}

/// The index of the subcommand among `wb[i..]`: the first word that is not a
/// flag, skipping `--runtime` with its value.
pub open spec fn subcommand_index(wb: Seq<Seq<char>>, i: int) -> Option<int>
    decreases wb.len() - i,
{
    if i < 0 || i >= wb.len() {
        None
    } else if wb[i] == "--runtime"@ {
        if i + 1 >= wb.len() {
            None
        } else {
            subcommand_index(wb, i + 2)
        }
    } else if starts_with(wb[i], "--runtime="@) {
        subcommand_index(wb, i + 1)
    } else if starts_with(wb[i], "-"@) {
        subcommand_index(wb, i + 1)
    } else {
        Some(i)
    }
}

/// The subcommand's position among the words before the cursor; the program
/// name at index 0 is never one.
pub open spec fn detected_subcommand(wb: Seq<Seq<char>>) -> Option<int> {
    if wb.len() <= 1 {
        None
    } else {
        subcommand_index(wb, 1)
    }
}

pub fn detect_subcommand(words_before: &[String]) -> (r: Option<(usize, &str)>)
    ensures
        match r {
            Some((k, s)) => detected_subcommand(words_view(words_before@)) == Some(k as int) && k
                < words_before@.len() && s@ == words_before@[k as int]@,
            None => detected_subcommand(words_view(words_before@)) is None,
        },
{
    let ghost wb = words_view(words_before@);
    if words_before.len() <= 1 {
        return None;
    }
    let mut idx: usize = 1;
    while idx < words_before.len()
        invariant
            wb == words_view(words_before@),
            words_before@.len() > 1,
            1 <= idx <= words_before@.len(),
            subcommand_index(wb, 1) == subcommand_index(wb, idx as int),
        decreases words_before@.len() - idx,
    {
        let token = words_before[idx].as_str();
        if str_eq(token, "--runtime") {
            if idx + 1 >= words_before.len() {
                idx = words_before.len();
            } else {
                idx = idx + 2;
            }
        } else if has_prefix(token, "--runtime=") {
            idx = idx + 1;
        } else if has_prefix(token, "-") {
            idx = idx + 1;
        } else {
            return Some((idx, token));
        }
    }
    None
}

/// `args[i..]` without `--runtime`, its value, and `--runtime=` words.
pub open spec fn without_runtime(args: Seq<Seq<char>>, i: int) -> Seq<Seq<char>>
    decreases args.len() - i,
{
    if i < 0 || i >= args.len() {
        seq![]
    } else if args[i] == "--runtime"@ {
        if i + 1 >= args.len() {
            seq![]
        } else {
            without_runtime(args, i + 2)
        }
    } else if starts_with(args[i], "--runtime="@) {
        without_runtime(args, i + 1)
    } else {
        seq![args[i]] + without_runtime(args, i + 1)
    }
}

pub fn strip_runtime_tokens(args_before: &[String]) -> (r: Vec<String>)
    ensures
        words_view(r@) == without_runtime(words_view(args_before@), 0),
{
    let ghost a = words_view(args_before@);
    let mut out: Vec<String> = Vec::with_capacity(args_before.len());
    let mut idx: usize = 0;
    while idx < args_before.len()
        invariant
            a == words_view(args_before@),
            idx <= args_before@.len(),
            without_runtime(a, 0) == words_view(out@) + without_runtime(a, idx as int),
        decreases args_before@.len() - idx,
    {
        let token = args_before[idx].as_str();
        if str_eq(token, "--runtime") {
            if idx + 1 >= args_before.len() {
                idx = args_before.len();
            } else {
                idx = idx + 2;
            }
        } else if has_prefix(token, "--runtime=") {
            idx = idx + 1;
        } else {
            proof {
                lemma_words_push(out@, args_before@[idx as int]);
                assert(words_view(out@) + (seq![a[idx as int]] + without_runtime(a, idx + 1))
                    =~= words_view(out@).push(a[idx as int]) + without_runtime(a, idx + 1));
            }
            out.push(args_before[idx].clone());
            idx = idx + 1;
        }
    }
    assert(words_view(out@) + seq![] =~= words_view(out@));
    out
}

/// The first word of `args[i..]` that is not a flag.
pub open spec fn positional_at(args: Seq<Seq<char>>, i: int) -> Option<Seq<char>>
    decreases args.len() - i,
{
    if i < 0 || i >= args.len() {
        None
    } else if starts_with(args[i], "-"@) {
        positional_at(args, i + 1)
    } else {
        Some(args[i])
    }
}

/// Some word of `args[i..]` is not a flag.
pub open spec fn has_positional(args: Seq<Seq<char>>, i: int) -> bool {
    positional_at(args, i) is Some
}

pub fn first_positional(args_before: &[String]) -> (r: Option<&str>)
    ensures
        match r {
            Some(t) => positional_at(words_view(args_before@), 0) == Some(t@),
            None => positional_at(words_view(args_before@), 0) is None,
        },
{
    let ghost a = words_view(args_before@);
    let mut i: usize = 0;
    while i < args_before.len()
        invariant
            a == words_view(args_before@),
            positional_at(a, 0) == positional_at(a, i as int),
        decreases args_before@.len() - i,
    {
        if !has_prefix(args_before[i].as_str(), "-") {
            return Some(args_before[i].as_str());
        }
        i = i + 1;
    }
    None
}

/// The first positional word of `args[i..]`, where each option of `opts`
/// takes the word after it as its value and `<option>=` words and flags are
/// passed over.
pub open spec fn positional_skipping(args: Seq<Seq<char>>, opts: Seq<Seq<char>>, i: int) -> Option<
    Seq<char>,
>
    decreases args.len() - i,
{
    if i < 0 || i >= args.len() {
        None
    } else if opts.contains(args[i]) {
        if i + 1 >= args.len() {
            None
        } else {
            positional_skipping(args, opts, i + 2)
        }
    } else if first_inline(args[i], opts) is Some {
        positional_skipping(args, opts, i + 1)
    } else if starts_with(args[i], "-"@) {
        positional_skipping(args, opts, i + 1)
    } else {
        Some(args[i])
    }
}

/// Some word of `args[i..]` is a positional argument, where each option of
/// `opts` takes the word after it as its value.
pub open spec fn has_positional_skipping(args: Seq<Seq<char>>, opts: Seq<Seq<char>>, i: int) -> bool {
    positional_skipping(args, opts, i) is Some
}

fn is_one_of(token: &str, options: &[&str]) -> (r: bool)
    ensures
        r == strs_view(options@).contains(token@),
{
    let mut j: usize = 0;
    while j < options.len()
        invariant
            j <= options@.len(),
            forall|k: int| 0 <= k < j ==> strs_view(options@)[k] != token@,
        decreases options@.len() - j,
    {
        if str_eq(token, options[j]) {
            assert(strs_view(options@)[j as int] == token@);
            return true;
        }
        j = j + 1;
    }
    false
}

fn has_inline_option(token: &str, options: &[&str]) -> (r: bool)
    ensures
        r == first_inline(token@, strs_view(options@)) is Some,
{
    let ghost opts = strs_view(options@);
    let mut i: usize = 0;
    assert(opts.subrange(0, options@.len() as int) =~= opts);
    while i < options.len()
        invariant
            opts == strs_view(options@),
            i <= options@.len(),
            first_inline(token@, opts) == first_inline(token@, opts.subrange(i as int, opts.len() as int)),
        decreases options@.len() - i,
    {
        let prefix = concat(options[i], "=");
        let ghost rest = opts.subrange(i as int, opts.len() as int);
        assert(rest.drop_first() =~= opts.subrange(i + 1, opts.len() as int));
        if has_prefix(token, prefix.as_str()) {
            return true;
        }
        i = i + 1;
    }
    false
}

pub fn first_positional_skipping_options<'a>(args_before: &'a [String], options_with_values: &[&str]) -> (r: Option<&'a str>)
    ensures
        match r {
            Some(t) => positional_skipping(words_view(args_before@), strs_view(options_with_values@), 0)
                == Some(t@),
            None => positional_skipping(words_view(args_before@), strs_view(options_with_values@), 0) is None,
        },
{
    let ghost a = words_view(args_before@);
    let ghost opts = strs_view(options_with_values@);
    let mut idx: usize = 0;
    while idx < args_before.len()
        invariant
            a == words_view(args_before@),
            opts == strs_view(options_with_values@),
            idx <= args_before@.len(),
            positional_skipping(a, opts, 0) == positional_skipping(a, opts, idx as int),
        decreases args_before@.len() - idx,
    {
        let token = args_before[idx].as_str();
        if is_one_of(token, options_with_values) {
            if idx + 1 >= args_before.len() {
                idx = args_before.len();
            } else {
                idx = idx + 2;
            }
        } else if has_inline_option(token, options_with_values) {
            idx = idx + 1;
        } else if has_prefix(token, "-") {
            idx = idx + 1;
        } else {
            return Some(token);
        }
    }
    None
}

pub proof fn lemma_cands_concat(a: Seq<Candidate>, b: Seq<Candidate>)
    ensures
        cands_view(a + b) == cands_view(a) + cands_view(b),
{
    assert(cands_view(a + b) =~= cands_view(a) + cands_view(b));
}

/// The workspace names that completion may offer, looked up at most once.
pub struct WorkspaceContext {
    /// The provider's answer, once it has been asked.
    pub cache: Option<Result<Vec<String>, String>>,
    /// Whether some completion path asked for the names.
    pub requested: bool,
    /// The first lookup failure seen.
    pub workspace_error: Option<String>,
}

/// The names a context offers: none where the lookup failed or is missing.
pub open spec fn ws_names(c: WorkspaceContext) -> Seq<Seq<char>> {
    match c.cache {
        Some(Ok(v)) => words_view(v@),
        _ => seq![],
    }
}

/// `new` is `old` after the names were asked for (`asked`) or not.
pub open spec fn ctx_after(old: WorkspaceContext, new: WorkspaceContext, asked: bool) -> bool {
    &&& new.cache == old.cache
    &&& new.requested == (old.requested || asked)
    &&& new.workspace_error == (if asked && old.workspace_error is None {
        match old.cache {
            Some(Err(e)) => Some(e),
            _ => None,
        }
    } else {
        old.workspace_error
    })
}

pub open spec fn flag_view(option: Option<(&str, bool)>) -> Option<(Seq<char>, bool)> {
    match option {
        Some((f, inline)) => Some((f@, inline)),
        None => None,
    }
}

/// Workspace names as candidates, behind `<flag>=` when the flag is inline.
pub open spec fn ws_cands(names: Seq<Seq<char>>, option: Option<(Seq<char>, bool)>) -> Seq<CandView> {
    match option {
        Some((f, true)) => plain(prefixed(f + "="@, names)),
        _ => plain(names),
    }
}

impl WorkspaceContext {
    /// A context holding the provider's answer, or none yet.
    pub fn new(cache: Option<Result<Vec<String>, String>>) -> (r: WorkspaceContext)
        ensures
            r.cache == cache,
            !r.requested,
            r.workspace_error is None,
    {
        WorkspaceContext { cache, requested: false, workspace_error: None }
    }

    pub fn workspace_names(&mut self) -> (r: Vec<String>)
        ensures
            words_view(r@) == ws_names(*old(self)),
            ctx_after(*old(self), *final(self), true),
    {
        self.requested = true;
        let err = match &self.cache {
            Some(Err(e)) => Some(e.clone()),
            _ => None,
        };
        if self.workspace_error.is_none() {
            self.workspace_error = err;
        }
        match &self.cache {
            Some(Ok(values)) => {
                let r = values.clone();
                assert(words_view(r@) =~= words_view(values@));
                r
            },
            _ => Vec::new(),
        }
    }

    pub fn workspace_candidates(&mut self, option: Option<(&str, bool)>) -> (r: Vec<Candidate>)
        ensures
            cands_view(r@) == ws_cands(ws_names(*old(self)), flag_view(option)),
            ctx_after(*old(self), *final(self), true),
    {
        let names = self.workspace_names();
        let ghost nv = words_view(names@);
        let mut out: Vec<Candidate> = Vec::with_capacity(names.len());
        let mut i: usize = 0;
        while i < names.len()
            invariant
                nv == words_view(names@),
                i <= names@.len(),
                cands_view(out@) == ws_cands(nv.subrange(0, i as int), flag_view(option)),
            decreases names@.len() - i,
        {
            let value = match option {
                Some((flag, true)) => {
                    let mut v = concat(flag, "=");
                    v.append(names[i].as_str());
                    v
                },
                _ => names[i].clone(),
            };
            let c = Candidate { value, description: None };
            proof {
                lemma_cands_push(out@, c);
            }
            out.push(c);
            assert(cands_view(out@) =~= ws_cands(nv.subrange(0, i + 1), flag_view(option)));
            i = i + 1;
        }
        assert(nv.subrange(0, i as int) =~= nv);
        out
    }
}

/// Appends the workspace names of `ctx` as candidates.
pub(crate) fn push_workspaces(out: &mut Vec<Candidate>, ctx: &mut WorkspaceContext)
    ensures
        cands_view(final(out)@) == cands_view(old(out)@) + plain(ws_names(*old(ctx))),
        ctx_after(*old(ctx), *final(ctx), true),
{
    let mut ws = ctx.workspace_candidates(None);
    proof {
        lemma_cands_concat(out@, ws@);
    }
    out.append(&mut ws);
}

/// The seven subcommands.
#[derive(Debug, Clone, Copy, PartialEq, Eq, Structural)]
pub enum Subcommand {
    Auth,
    Create,
    Ls,
    Rm,
    Exec,
    Reset,
    Tunnel,
}

pub open spec fn subcommand_of(s: Seq<char>) -> Option<Subcommand> {
    if s == "auth"@ {
        Some(Subcommand::Auth)
    } else if s == "create"@ {
        Some(Subcommand::Create)
    } else if s == "ls"@ {
        Some(Subcommand::Ls)
    } else if s == "rm"@ {
        Some(Subcommand::Rm)
    } else if s == "exec"@ {
        Some(Subcommand::Exec)
    } else if s == "reset"@ {
        Some(Subcommand::Reset)
    } else if s == "tunnel"@ {
        Some(Subcommand::Tunnel)
    } else {
        None
    }
}

pub fn parse_subcommand(s: &str) -> (r: Option<Subcommand>)
    ensures
        r == subcommand_of(s@),
{
    if str_eq(s, "auth") {
        Some(Subcommand::Auth)
    } else if str_eq(s, "create") {
        Some(Subcommand::Create)
    } else if str_eq(s, "ls") {
        Some(Subcommand::Ls)
    } else if str_eq(s, "rm") {
        Some(Subcommand::Rm)
    } else if str_eq(s, "exec") {
        Some(Subcommand::Exec)
    } else if str_eq(s, "reset") {
        Some(Subcommand::Reset)
    } else if str_eq(s, "tunnel") {
        Some(Subcommand::Tunnel)
    } else {
        None
    }
}

pub open spec fn subcommands() -> Seq<(Seq<char>, Seq<char>)> {
    seq![
        ("auth"@, "Update auth material in workspace"@),
        ("create"@, "Create a new workspace"@),
        ("ls"@, "List workspaces"@),
        ("rm"@, "Remove workspace(s)"@),
        ("exec"@, "Run command in workspace"@),
        ("reset"@, "Reset repos in workspace"@),
        ("tunnel"@, "Start VS Code tunnel"@),
    ]
}

/// Candidates where no subcommand has been typed yet.
pub open spec fn top_level() -> Seq<CandView> {
    described(subcommands()) + described(global_options())
}

pub fn complete_top_level(_current: &str) -> (r: Vec<Candidate>)
    ensures
        cands_view(r@) == top_level(),
{
    let names = [
        ("auth", "Update auth material in workspace"),
        ("create", "Create a new workspace"),
        ("ls", "List workspaces"),
        ("rm", "Remove workspace(s)"),
        ("exec", "Run command in workspace"),
        ("reset", "Reset repos in workspace"),
        ("tunnel", "Start VS Code tunnel"),
    ];
    assert(pairs_view(names@) =~= subcommands());
    let mut out: Vec<Candidate> = Vec::new();
    push_described_values(&mut out, &names);
    push_global_options(&mut out);
    assert(cands_view(out@) =~= top_level());
    out
}

/// The raw candidates for the words before the cursor and the current word,
/// given the workspace names `ws`, and whether the names were consulted.
pub open spec fn raw_candidates(wb: Seq<Seq<char>>, cur: Seq<char>, ws: Seq<Seq<char>>) -> (
    Seq<CandView>,
    bool,
) {
    match runtime_slot(wb, cur) {
        Some(c) => (c, false),
        None => match detected_subcommand(wb) {
            None => (top_level(), false),
            Some(k) => {
                let args = without_runtime(wb.subrange(k + 1, wb.len() as int), 0);
                match subcommand_of(wb[k]) {
                    Some(Subcommand::Auth) => auth_gen(args, cur, ws),
                    Some(Subcommand::Create) => (create_gen(args, cur), false),
                    Some(Subcommand::Ls) => (ls_gen(args, cur), false),
                    Some(Subcommand::Rm) => rm_gen(args, ws),
                    Some(Subcommand::Exec) => exec_gen(args, cur, ws),
                    Some(Subcommand::Reset) => reset_gen(args, cur, ws),
                    Some(Subcommand::Tunnel) => tunnel_gen(args, cur, ws),
                    None => (seq![], false),
                }
            },
        },
    }
}

/// Whether the candidates for a position draw on the workspace names does not
/// depend on what the names are.
pub proof fn lemma_consults_independent(
    wb: Seq<Seq<char>>,
    cur: Seq<char>,
    ws1: Seq<Seq<char>>,
    ws2: Seq<Seq<char>>,
)
    ensures
        raw_candidates(wb, cur, ws1).1 == raw_candidates(wb, cur, ws2).1,
{
}

/// The result of one completion: the finalized candidates, and the first
/// workspace lookup failure, if the lookup was made and failed.
#[derive(Debug)]
pub struct CompletionResult {
    pub candidates: Vec<Candidate>,
    pub workspace_error: Option<String>,
}

/// The workspace names an answer of the provider holds.
pub open spec fn lookup_names(lookup: Option<Result<Vec<String>, String>>) -> Seq<Seq<char>> {
    match lookup {
        Some(Ok(v)) => words_view(v@),
        _ => seq![],
    }
}

/// Whether the request needs the workspace names.
pub open spec fn consults_workspaces(req: CompletionRequest) -> bool {
    raw_candidates(req.before_view(), req.current_view(), seq![]).1
}

/// `res` is the completion of `req` when the provider answered `lookup`
/// (`None`: it was not asked).
pub open spec fn completes(
    req: CompletionRequest,
    lookup: Option<Result<Vec<String>, String>>,
    res: CompletionResult,
) -> bool {
    let raw = raw_candidates(req.before_view(), req.current_view(), lookup_names(lookup));
    &&& is_finalization(raw.0, req.current_view(), cands_view(res.candidates@))
    &&& opt_view(res.workspace_error) == (if raw.1 {
        match lookup {
            Some(Err(e)) => Some(e@),
            _ => None,
        }
    } else {
        None
    })
}

fn run_engine(request: &CompletionRequest, lookup: Option<Result<Vec<String>, String>>) -> (r: (
    CompletionResult,
    bool,
))
    requires
        request.wf(),
    ensures
        completes(*request, lookup, r.0),
        r.1 == raw_candidates(request.before_view(), request.current_view(), lookup_names(lookup)).1,
{
    let current = request.current_word();
    let words_before = request.words_before_cursor();
    let ghost wb = request.before_view();
    let ghost cur = request.current_view();
    let mut ctx = WorkspaceContext::new(lookup);
    let ghost ws = ws_names(ctx);
    assert(ws == lookup_names(lookup));
    let candidates = match complete_runtime_value(words_before, current) {
        Some(c) => c,
        None => match detect_subcommand(words_before) {
            None => complete_top_level(current),
            Some((k, name)) => {
                let (_, rest) = words_before.split_at(k + 1);
                assert(words_view(rest@) =~= wb.subrange(k + 1, wb.len() as int));
                let stripped = strip_runtime_tokens(rest);
                let args = stripped.as_slice();
                match parse_subcommand(name) {
                    Some(Subcommand::Auth) => complete_auth(current, args, &mut ctx),
                    Some(Subcommand::Create) => complete_create(current, args),
                    Some(Subcommand::Ls) => complete_ls(current, args),
                    Some(Subcommand::Rm) => complete_rm(args, &mut ctx),
                    Some(Subcommand::Exec) => complete_exec(current, args, &mut ctx),
                    Some(Subcommand::Reset) => complete_reset(current, args, &mut ctx),
                    Some(Subcommand::Tunnel) => complete_tunnel(current, args, &mut ctx),
                    None => Vec::new(),
                }
            },
        },
    };
    let ghost raw = raw_candidates(wb, cur, ws);
    assert(cands_view(candidates@) == raw.0);
    let requested = ctx.requested;
    let result = CompletionResult {
        candidates: finalize(candidates, current),
        workspace_error: ctx.workspace_error,
    };
    (result, requested)
}

/// Completes `request` with the provider's answer given: `None` where the
/// provider is not to be asked.
pub fn complete_with_lookup(
    request: &CompletionRequest,
    lookup: Option<Result<Vec<String>, String>>,
) -> (r: CompletionResult)
    requires
        request.wf(),
    ensures
        completes(*request, lookup, r),
{
    run_engine(request, lookup).0
}

/// Enumerates live workspace names for a runtime backend.
pub trait WorkspaceProvider {
    fn list_workspaces(&self, runtime: Runtime) -> Result<Vec<String>, String>;
}

/// Completes `request`, asking `provider` for the workspace names at most
/// once, and only where the position calls for them; a provider failure keeps
/// every other candidate and is reported beside them.
pub fn complete<P: WorkspaceProvider>(request: &CompletionRequest, provider: &P) -> (r:
    CompletionResult)
    requires
        request.wf(),
    ensures
        !consults_workspaces(*request) ==> completes(*request, None, r),
        consults_workspaces(*request) ==> exists|l: Result<Vec<String>, String>|
            completes(*request, Some(l), r),
{
    proof {
        lemma_consults_independent(request.before_view(), request.current_view(), seq![], seq![]);
    }
    // A first pass without names tells whether the position needs them; the
    // provider is asked only then, and the pass is repeated with its answer.
    let (first, requested) = run_engine(request, None);
    if !requested {
        return first;
    }
    let lookup = provider.list_workspaces(request.runtime);
    let ghost l = lookup;
    let (r, _) = run_engine(request, Some(lookup));
    proof {
        lemma_consults_independent(
            request.before_view(),
            request.current_view(),
            seq![],
            lookup_names(Some(l)),
        );
        assert(completes(*request, Some(l), r));
    }
    r
}


pub open spec fn no_eq_sign(s: Seq<char>) -> bool {
    forall|i: int| 0 <= i < s.len() ==> s[i] != '='
}

/// An option name of the grammar: starts with `-`, holds no `=`, and is not
/// `--runtime`.
pub open spec fn option_name(o: Seq<char>) -> bool {
    starts_with(o, "-"@) && no_eq_sign(o) && o != "--runtime"@
}

pub open spec fn option_names(opts: Seq<Seq<char>>) -> bool {
    forall|k: int| 0 <= k < opts.len() ==> option_name(#[trigger] opts[k])
}

/// The value-taking options of the subcommand `name` with arguments `args`.
pub open spec fn subcommand_options(name: Seq<char>, args: Seq<Seq<char>>) -> Seq<Seq<char>> {
    match subcommand_of(name) {
        Some(Subcommand::Auth) => auth_options(),
        Some(Subcommand::Create) => create_options(),
        Some(Subcommand::Ls) => seq!["--output"@],
        Some(Subcommand::Exec) => seq!["--user"@],
        Some(Subcommand::Tunnel) => seq!["--name"@, "--output"@],
        Some(Subcommand::Reset) => match first_word_index(args, 0) {
            Some(j) => match reset_kind_of(args[j]) {
                Some(ResetKind::Repo) => seq!["--ref"@],
                Some(ResetKind::PrivateRepo) => seq!["--ref"@],
                Some(ResetKind::WorkRepos) => work_repos_options(),
                _ => seq![],
            },
            None => seq![],
        },
        _ => seq![],
    }
}

/// The value-taking options at the position after the words `wb`.
pub open spec fn slot_options(wb: Seq<Seq<char>>) -> Seq<Seq<char>> {
    match detected_subcommand(wb) {
        Some(k) => subcommand_options(wb[k], without_runtime(wb.subrange(k + 1, wb.len() as int), 0)),
        None => seq![],
    }
}

proof fn lemma_option_tables()
    ensures
        option_names(auth_options()),
        option_names(create_options()),
        option_names(seq!["--output"@]),
        option_names(seq!["--user"@]),
        option_names(seq!["--name"@, "--output"@]),
        option_names(seq!["--ref"@]),
        option_names(work_repos_options()),
{
    reveal_strlit("-");
    reveal_strlit("--runtime");
    reveal_strlit("--container");
    reveal_strlit("--workspace");
    reveal_strlit("--profile");
    reveal_strlit("--host");
    reveal_strlit("--key");
    reveal_strlit("--name");
    reveal_strlit("--image");
    reveal_strlit("--ref");
    reveal_strlit("--private-repo");
    reveal_strlit("--output");
    reveal_strlit("--user");
    reveal_strlit("--root");
    reveal_strlit("--depth");
    assert("--profile"@[2] != "--runtime"@[2]);
    assert("--container"@.subrange(0, 1) =~= "-"@);
    assert("--workspace"@.subrange(0, 1) =~= "-"@);
    assert("--profile"@.subrange(0, 1) =~= "-"@);
    assert("--host"@.subrange(0, 1) =~= "-"@);
    assert("--key"@.subrange(0, 1) =~= "-"@);
    assert("--name"@.subrange(0, 1) =~= "-"@);
    assert("--image"@.subrange(0, 1) =~= "-"@);
    assert("--ref"@.subrange(0, 1) =~= "-"@);
    assert("--private-repo"@.subrange(0, 1) =~= "-"@);
    assert("--output"@.subrange(0, 1) =~= "-"@);
    assert("--user"@.subrange(0, 1) =~= "-"@);
    assert("--root"@.subrange(0, 1) =~= "-"@);
    assert("--depth"@.subrange(0, 1) =~= "-"@);
}

proof fn lemma_first_inline_own(o: Seq<char>, x: Seq<char>, opts: Seq<Seq<char>>)
    requires
        opts.contains(o),
        option_names(opts),
    ensures
        first_inline(o + "="@ + x, opts) == Some(o),
    decreases opts.len(),
{
    reveal_strlit("=");
    let c = o + "="@ + x;
    let q = opts[0];
    assert(option_name(q));
    if q == o {
        assert(c.subrange(0, (o + "="@).len() as int) =~= o + "="@);
    } else {
        if starts_with(c, q + "="@) {
            let lq = q.len() as int;
            let lo = o.len() as int;
            assert(c.subrange(0, lq + 1)[lq] == c[lq]);
            if lq < lo {
                assert(c[lq] == o[lq]);
            } else if lq > lo {
                assert(c[lo] == '=');
                assert(c.subrange(0, lq + 1)[lo] == c[lo]);
            } else {
                assert forall|i: int| 0 <= i < lq implies q[i] == o[i] by {
                    assert(c.subrange(0, lq + 1)[i] == c[i]);
                }
                assert(q =~= o);
            }
        }
        let k = choose|k: int| 0 <= k < opts.len() && opts[k] == o;
        assert(opts.drop_first()[k - 1] == o);
        assert forall|m: int| 0 <= m < opts.drop_first().len() implies option_name(
            #[trigger] opts.drop_first()[m],
        ) by {
            assert(opts.drop_first()[m] == opts[m + 1]);
        }
        lemma_first_inline_own(o, x, opts.drop_first());
    }
}

proof fn lemma_not_runtime_inline(o: Seq<char>, x: Seq<char>)
    requires
        option_name(o),
    ensures
        !starts_with(o + "="@ + x, "--runtime="@),
{
    reveal_strlit("=");
    reveal_strlit("--runtime=");
    reveal_strlit("--runtime");
    let c = o + "="@ + x;
    let lo = o.len() as int;
    if starts_with(c, "--runtime="@) {
        assert(c.subrange(0, 10)[9] == c[9]);
        if lo >= 10 {
            assert(c[9] == o[9]);
        } else {
            assert(c[lo] == '=');
            assert(c.subrange(0, 10)[lo] == c[lo]);
            assert(lo == 9);
            assert forall|i: int| 0 <= i < 9 implies o[i] == "--runtime"@[i] by {
                assert(c.subrange(0, 10)[i] == c[i]);
            }
            assert(o =~= "--runtime"@);
        }
    }
}

proof fn lemma_subcommand_push(wb: Seq<Seq<char>>, o: Seq<char>, i: int)
    requires
        subcommand_index(wb, i) is Some,
    ensures
        subcommand_index(wb.push(o), i) == subcommand_index(wb, i),
    decreases wb.len() - i,
{
    let w = wb.push(o);
    assert(w[i] == wb[i]);
    if wb[i] == "--runtime"@ {
        lemma_subcommand_push(wb, o, i + 2);
    } else if starts_with(wb[i], "--runtime="@) || starts_with(wb[i], "-"@) {
        lemma_subcommand_push(wb, o, i + 1);
    }
}

proof fn lemma_subcommand_index_range(wb: Seq<Seq<char>>, i: int)
    ensures
        subcommand_index(wb, i) is Some ==> i <= subcommand_index(wb, i)->0 < wb.len(),
    decreases wb.len() - i,
{
    if 0 <= i < wb.len() {
        if wb[i] == "--runtime"@ {
            if i + 1 < wb.len() {
                lemma_subcommand_index_range(wb, i + 2);
            }
        } else if starts_with(wb[i], "--runtime="@) || starts_with(wb[i], "-"@) {
            lemma_subcommand_index_range(wb, i + 1);
        }
    }
}

proof fn lemma_without_runtime_push(a: Seq<Seq<char>>, o: Seq<char>, i: int)
    requires
        a.len() == 0 || a.last() != "--runtime"@,
        option_name(o),
        0 <= i <= a.len(),
    ensures
        without_runtime(a.push(o), i) == without_runtime(a, i).push(o),
    decreases a.len() - i,
{
    let w = a.push(o);
    if i == a.len() {
        lemma_not_runtime_inline(o, seq![]);
        reveal_strlit("=");
        reveal_strlit("--runtime=");
        if starts_with(o, "--runtime="@) {
            assert(o.subrange(0, 10)[9] == o[9]);
            assert("--runtime="@[9] == '=');
        }
        assert(w[i] == o);
        assert(without_runtime(w, i + 1) == Seq::<Seq<char>>::empty());
        assert(seq![o] + Seq::<Seq<char>>::empty() =~= Seq::<Seq<char>>::empty().push(o));
    } else {
        assert(w[i] == a[i]);
        if a[i] == "--runtime"@ {
            lemma_without_runtime_push(a, o, i + 2);
        } else if starts_with(a[i], "--runtime="@) {
            lemma_without_runtime_push(a, o, i + 1);
        } else {
            lemma_without_runtime_push(a, o, i + 1);
            assert(seq![a[i]] + without_runtime(a, i + 1).push(o) =~= (seq![a[i]] + without_runtime(
                a,
                i + 1,
            )).push(o));
        }
    }
}

proof fn lemma_first_word_range(a: Seq<Seq<char>>, i: int)
    ensures
        first_word_index(a, i) is Some ==> i <= first_word_index(a, i)->0 < a.len(),
    decreases a.len() - i,
{
    if 0 <= i < a.len() && starts_with(a[i], "-"@) {
        lemma_first_word_range(a, i + 1);
    }
}

proof fn lemma_first_word_push(a: Seq<Seq<char>>, o: Seq<char>, i: int)
    requires
        first_word_index(a, i) is Some,
    ensures
        first_word_index(a.push(o), i) == first_word_index(a, i),
    decreases a.len() - i,
{
    assert(a.push(o)[i] == a[i]);
    if starts_with(a[i], "-"@) {
        lemma_first_word_push(a, o, i + 1);
    }
}

proof fn lemma_suggestions_prefixed(o: Seq<char>, table: Seq<(Seq<char>, Seq<char>)>, ws: Seq<Seq<char>>)
    ensures
        suggest(o, true, table) == with_value_prefix(o + "="@, suggest(o, false, table)),
        suggest_plain(o, true, seq![]) == with_value_prefix(o + "="@, suggest_plain(o, false, seq![])),
        ws_cands(ws, Some((o, true))) == with_value_prefix(o + "="@, ws_cands(ws, Some((o, false)))),
{
    assert(suggest(o, true, table) =~= with_value_prefix(o + "="@, suggest(o, false, table)));
    assert(suggest_plain(o, true, seq![]) =~= with_value_prefix(o + "="@, suggest_plain(o, false, seq![])));
    assert(ws_cands(ws, Some((o, true))) =~= with_value_prefix(o + "="@, ws_cands(ws, Some((o, false)))));
}

proof fn lemma_slots(args: Seq<Seq<char>>, x: Seq<char>, o: Seq<char>, opts: Seq<Seq<char>>)
    requires
        opts.contains(o),
        option_names(opts),
        first_inline(x, opts) is None,
    ensures
        value_slot(args.push(o), x, opts) == Some((o, false)),
        value_slot(args, o + "="@ + x, opts) == Some((o, true)),
{
    lemma_first_inline_own(o, x, opts);
}

proof fn lemma_raw_inline_space(wb: Seq<Seq<char>>, x: Seq<char>, ws: Seq<Seq<char>>, o: Seq<char>)
    requires
        slot_options(wb).contains(o),
        wb.last() != "--runtime"@,
        first_inline(x, slot_options(wb)) is None,
        !starts_with(x, "--runtime="@),
    ensures
        raw_candidates(wb, o + "="@ + x, ws).0 == with_value_prefix(
            o + "="@,
            raw_candidates(wb.push(o), x, ws).0,
        ),
{
    lemma_option_tables();
    let k = detected_subcommand(wb)->0;
    lemma_subcommand_index_range(wb, 1);
    let w = wb.push(o);
    lemma_subcommand_push(wb, o, 1);
    assert(detected_subcommand(w) == Some(k));
    let rest = wb.subrange(k + 1, wb.len() as int);
    assert(w.subrange(k + 1, w.len() as int) =~= rest.push(o));
    assert(w[k] == wb[k]);
    let opts = slot_options(wb);
    assert(option_names(opts));
    let oi = choose|i: int| 0 <= i < opts.len() && opts[i] == o;
    assert(option_name(opts[oi]));
    if rest.len() > 0 {
        assert(rest.last() == wb.last());
    }
    lemma_without_runtime_push(rest, o, 0);
    let a = without_runtime(rest, 0);
    assert(without_runtime(w.subrange(k + 1, w.len() as int), 0) == a.push(o));
    lemma_not_runtime_inline(o, x);
    assert(runtime_slot(w, x) is None);
    assert(runtime_slot(wb, o + "="@ + x) is None);
    lemma_slots(a, x, o, opts);
    match subcommand_of(wb[k]) {
        Some(Subcommand::Auth) => {
            lemma_suggestions_prefixed(o, host_values(), ws);
            lemma_suggestions_prefixed(o, profile_values(), ws);
        },
        Some(Subcommand::Create) => {
            lemma_suggestions_prefixed(o, ref_values(), ws);
        },
        Some(Subcommand::Ls) => {
            lemma_suggestions_prefixed(o, json_values(), ws);
        },
        Some(Subcommand::Exec) => {
            lemma_suggestions_prefixed(o, user_values(), ws);
        },
        Some(Subcommand::Tunnel) => {
            lemma_suggestions_prefixed(o, json_values(), ws);
        },
        Some(Subcommand::Reset) => {
            let j = first_word_index(a, 0)->0;
            lemma_first_word_range(a, 0);
            lemma_first_word_push(a, o, 0);
            let nested = a.subrange(j + 1, a.len() as int);
            assert(a.push(o).subrange(j + 1, a.len() as int + 1) =~= nested.push(o));
            assert(a.push(o)[j] == a[j]);
            lemma_slots(nested, x, o, opts);
            lemma_suggestions_prefixed(o, ref_values(), ws);
            lemma_suggestions_prefixed(o, root_values(), ws);
            lemma_suggestions_prefixed(o, depth_values(), ws);
        },
        _ => {},
    }
}

/// No two candidates of a completion share a value.
pub proof fn lemma_completion_values_distinct(
    req: CompletionRequest,
    lookup: Option<Result<Vec<String>, String>>,
    res: CompletionResult,
)
    requires
        completes(req, lookup, res),
    ensures
        forall|i: int, j: int|
            0 <= i < res.candidates@.len() && 0 <= j < res.candidates@.len() && i != j
                ==> res.candidates@[i].value@ != res.candidates@[j].value@,
{
    let raw = raw_candidates(req.before_view(), req.current_view(), lookup_names(lookup));
    let r = cands_view(res.candidates@);
    lemma_finalized_values_distinct(raw.0, req.current_view(), r);
    assert forall|i: int, j: int|
        0 <= i < res.candidates@.len() && 0 <= j < res.candidates@.len() && i != j implies res.candidates@[i].value@
        != res.candidates@[j].value@ by {
        assert(r[i].0 == res.candidates@[i].value@);
        assert(r[j].0 == res.candidates@[j].value@);
    }
}


proof fn lemma_described_filter(t: Seq<(Seq<char>, Seq<char>)>, x: Seq<char>, v: Seq<char>)
    ensures
        has_value(described(pairs_with_prefix(t, x)), v) == (has_value(described(t), v)
            && starts_with(v, x)),
        starts_with(v, x) ==> first_desc(described(pairs_with_prefix(t, x)), v) == first_desc(
            described(t),
            v,
        ),
    decreases t.len(),
{
    reveal(Seq::filter);
    if t.len() == 0 {
        assert(pairs_with_prefix(t, x) =~= t);
    } else {
        let d = t.drop_last();
        let e = t.last();
        let c = (e.0, Some(e.1));
        lemma_described_filter(d, x, v);
        assert(described(t) =~= described(d).push(c));
        lemma_has_value_push(described(d), c, v);
        lemma_first_desc_push(described(d), c, v);
        let f = pairs_with_prefix(d, x);
        if starts_with(e.0, x) {
            assert(pairs_with_prefix(t, x) == f.push(e));
            assert(described(f.push(e)) =~= described(f).push(c));
            lemma_has_value_push(described(f), c, v);
            lemma_first_desc_push(described(f), c, v);
        } else {
            assert(pairs_with_prefix(t, x) == f);
        }
    }
}

proof fn lemma_finalization_of_filtered(t: Seq<(Seq<char>, Seq<char>)>, x: Seq<char>, r: Seq<CandView>)
    requires
        is_finalization(described(t), x, r),
    ensures
        is_finalization(described(pairs_with_prefix(t, x)), x, r),
{
    let f = described(pairs_with_prefix(t, x));
    assert forall|v: Seq<char>| #[trigger] has_value(r, v) <==> (has_value(f, v) && starts_with(v, x)) by {
        lemma_described_filter(t, x, v);
    }
    assert forall|i: int| 0 <= i < r.len() implies r[i].1 == first_desc(f, r[i].0) by {
        assert(has_value(r, r[i].0));
        lemma_described_filter(t, x, r[i].0);
    }
}

proof fn lemma_slot_option_names(wb: Seq<Seq<char>>)
    ensures
        option_names(slot_options(wb)),
{
    lemma_option_tables();
    assert(option_names(Seq::<Seq<char>>::empty()));
}

proof fn lemma_first_inline_dash(x: Seq<char>, opts: Seq<Seq<char>>)
    requires
        option_names(opts),
        !starts_with(x, "-"@),
    ensures
        first_inline(x, opts) is None,
    decreases opts.len(),
{
    reveal_strlit("-");
    if opts.len() > 0 {
        let q = opts[0];
        assert(option_name(q));
        if starts_with(x, q + "="@) {
            assert(x.subrange(0, (q + "="@).len() as int)[0] == q[0]);
            assert(q.subrange(0, 1)[0] == q[0]);
            assert(x.subrange(0, 1) =~= "-"@);
        }
        assert forall|m: int| 0 <= m < opts.drop_first().len() implies option_name(
            #[trigger] opts.drop_first()[m],
        ) by {
            assert(opts.drop_first()[m] == opts[m + 1]);
        }
        lemma_first_inline_dash(x, opts.drop_first());
    }
}

proof fn lemma_not_runtime_word(x: Seq<char>)
    requires
        !starts_with(x, "-"@),
    ensures
        !starts_with(x, "--runtime="@),
{
    reveal_strlit("-");
    reveal_strlit("--runtime=");
    if starts_with(x, "--runtime="@) {
        assert(x.subrange(0, 10)[0] == x[0]);
        assert(x.subrange(0, 1) =~= "-"@);
    }
}

/// For a value-taking option `o` at the position after the words `W` (the
/// global `--runtime`, or an option of the active subcommand), completing the
/// inline form (`W`, then `o=x` under the cursor) gives the candidates of the
/// space form (`W` and `o`, then `x` under the cursor) with `o=` in front of
/// each value, when both see the same answer of the provider.
pub proof fn lemma_inline_form_completion(
    req_space: CompletionRequest,
    req_inline: CompletionRequest,
    lookup: Option<Result<Vec<String>, String>>,
    res_space: CompletionResult,
    res_inline: CompletionResult,
    o: Seq<char>,
    x: Seq<char>,
)
    requires
        req_space.before_view() == req_inline.before_view().push(o),
        req_space.current_view() == x,
        req_inline.current_view() == o + "="@ + x,
        o == "--runtime"@ || slot_options(req_inline.before_view()).contains(o),
        req_inline.before_view().last() != "--runtime"@,
        !starts_with(x, "-"@),
        completes(req_space, lookup, res_space),
        completes(req_inline, lookup, res_inline),
    ensures
        cands_view(res_inline.candidates@) == with_value_prefix(
            o + "="@,
            cands_view(res_space.candidates@),
        ),
{
    let wb = req_inline.before_view();
    let ws = lookup_names(lookup);
    let p = o + "="@;
    let r_space = cands_view(res_space.candidates@);
    let r_inline = cands_view(res_inline.candidates@);
    lemma_not_runtime_word(x);
    if o == "--runtime"@ {
        reveal_strlit("--runtime");
        reveal_strlit("--runtime=");
        reveal_strlit("=");
        assert(p =~= "--runtime="@);
        assert(wb.push(o).last() == o);
        let t = runtime_values();
        assert(raw_candidates(wb.push(o), x, ws).0 == described(t));
        assert(starts_with(p + x, "--runtime="@)) by {
            assert((p + x).subrange(0, 10) =~= p);
        }
        assert(after(p + x, "--runtime="@) =~= x);
        let f = pairs_with_prefix(t, x);
        assert(raw_candidates(wb, p + x, ws).0 == described(prefixed_pairs(p, f)));
        assert(described(prefixed_pairs(p, f)) =~= with_value_prefix(p, described(f)));
        lemma_finalization_of_filtered(t, x, r_space);
        lemma_finalization_prefix_lift(described(f), x, p, r_space);
        lemma_finalization_unique(with_value_prefix(p, described(f)), p + x, r_inline, with_value_prefix(p, r_space));
    } else {
        lemma_slot_option_names(wb);
        lemma_first_inline_dash(x, slot_options(wb));
        lemma_raw_inline_space(wb, x, ws, o);
        let raw_space = raw_candidates(wb.push(o), x, ws).0;
        lemma_finalization_prefix_lift(raw_space, x, p, r_space);
        lemma_finalization_unique(with_value_prefix(p, raw_space), p + x, r_inline, with_value_prefix(p, r_space));
    }
}

} // verus!
