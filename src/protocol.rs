//! The completion request: what the shell hands over, checked and resolved.
use vstd::prelude::*;
use vstd::string::*;
use crate::candidates::opt_view;
use crate::runtime::{Runtime, runtime_value, parse_runtime_value, result_view};
use crate::text::{words_view, lemma_words_push, is_ws, char_is_ws, trim, trim_str, normalized, normalize, str_eq, has_prefix, starts_with, after, concat, suffix_from};

verus! {

/// The shell that asked for completions.
#[derive(Debug, Clone, Copy, PartialEq, Eq, Structural)]
pub enum CompletionShell {
    Bash,
    Zsh,
}

/// Whether this engine answers, or the older shell-side completion does.
#[derive(Debug, Clone, Copy, PartialEq, Eq, Structural)]
pub enum CompletionMode {
    Active,
    Legacy,
}

/// How candidates are written out.
#[derive(Debug, Clone, Copy, PartialEq, Eq, Structural)]
pub enum CompletionOutputFormat {
    Plain,
    Describe,
}

/// A parsed completion request.
#[derive(Debug, Clone)]
pub struct CompletionRequest {
    pub shell: CompletionShell,
    pub words: Vec<String>,
    pub cword: usize,
    pub runtime: Runtime,
    pub mode: CompletionMode,
    pub output: CompletionOutputFormat,
}

impl CompletionRequest {
    /// The cursor indexes a word.
    pub open spec fn wf(&self) -> bool {
        self.cword < self.words@.len()
    }

    /// The word under the cursor.
    pub open spec fn current_view(&self) -> Seq<char> {
        if self.cword < self.words@.len() {
            self.words@[self.cword as int]@
        } else {
            seq![]
        }
    }

    /// The words before the cursor.
    pub open spec fn before_view(&self) -> Seq<Seq<char>> {
        words_view(self.words@).subrange(0, self.cword as int)
    }

    pub fn current_word(&self) -> (r: &str)
        ensures
            r@ == self.current_view(),
    {
        if self.cword < self.words.len() {
            self.words[self.cword].as_str()
        } else {
            let empty = "";
            proof {
                reveal_strlit("");
            }
            empty
        }
    }

    pub fn words_before_cursor(&self) -> (r: &[String])
        requires
            self.cword <= self.words@.len(),
        ensures
            words_view(r@) == self.before_view(),
    {
        let (before, _) = self.words.as_slice().split_at(self.cword);
        assert(words_view(before@) =~= self.before_view());
        before
    }
}

/// The shell named by a `--shell` value.
pub open spec fn shell_value(raw: Seq<char>) -> Result<CompletionShell, Seq<char>> {
    let n = normalized(raw);
    if n == "bash"@ {
        Ok(CompletionShell::Bash)
    } else if n == "zsh"@ {
        Ok(CompletionShell::Zsh)
    } else {
        Err("invalid --shell value: "@ + raw + " (expected: bash|zsh)"@)
    }
}

pub fn parse_shell(raw: &str) -> (r: Result<CompletionShell, String>)
    ensures
        result_view(r) == shell_value(raw@),
{
    let n = normalize(raw);
    if str_eq(n.as_str(), "bash") {
        Ok(CompletionShell::Bash)
    } else if str_eq(n.as_str(), "zsh") {
        Ok(CompletionShell::Zsh)
    } else {
        let mut e = concat("invalid --shell value: ", raw);
        e.append(" (expected: bash|zsh)");
        Err(e)
    }
}

/// The format named by a `--format` value.
pub open spec fn output_value(raw: Seq<char>) -> Result<CompletionOutputFormat, Seq<char>> {
    let n = normalized(raw);
    if n == "plain"@ {
        Ok(CompletionOutputFormat::Plain)
    } else if n == "describe"@ || n == "described"@ {
        Ok(CompletionOutputFormat::Describe)
    } else {
        Err("invalid --format value: "@ + raw + " (expected: plain|describe)"@)
    }
}

pub fn parse_output(raw: &str) -> (r: Result<CompletionOutputFormat, String>)
    ensures
        result_view(r) == output_value(raw@),
{
    let n = normalize(raw);
    if str_eq(n.as_str(), "plain") {
        Ok(CompletionOutputFormat::Plain)
    } else if str_eq(n.as_str(), "describe") || str_eq(n.as_str(), "described") {
        Ok(CompletionOutputFormat::Describe)
    } else {
        let mut e = concat("invalid --format value: ", raw);
        e.append(" (expected: plain|describe)");
        Err(e)
    }
}

/// The completion mode a mode setting selects.
pub open spec fn mode_value(raw: Seq<char>) -> Result<CompletionMode, Seq<char>> {
    let n = normalized(raw);
    if n == ""@ || n == "active"@ {
        Ok(CompletionMode::Active)
    } else if n == "legacy"@ {
        Ok(CompletionMode::Legacy)
    } else {
        Err("invalid AGENT_WORKSPACE_COMPLETION_MODE value: "@ + raw + " (expected: active|legacy)"@)
    }
}

pub fn parse_mode_value(raw: &str) -> (r: Result<CompletionMode, String>)
    ensures
        result_view(r) == mode_value(raw@),
{
    let n = normalize(raw);
    if str_eq(n.as_str(), "") || str_eq(n.as_str(), "active") {
        Ok(CompletionMode::Active)
    } else if str_eq(n.as_str(), "legacy") {
        Ok(CompletionMode::Legacy)
    } else {
        let mut e = concat("invalid AGENT_WORKSPACE_COMPLETION_MODE value: ", raw);
        e.append(" (expected: active|legacy)");
        Err(e)
    }
}

pub open spec fn is_digit(c: char) -> bool {
    '0' <= c && c <= '9'
}

/// The number a string of decimal digits denotes.
pub open spec fn digits_value(s: Seq<char>) -> nat
    decreases s.len(),
{
    if s.len() == 0 {
        0
    } else {
        digits_value(s.drop_last()) * 10 + ((s.last() as u32) - 48) as nat
    }
}

pub open spec fn all_digits(s: Seq<char>) -> bool {
    forall|i: int| 0 <= i < s.len() ==> is_digit(#[trigger] s[i])
}

/// The number an unsigned integer literal denotes: an optional `+` and at
/// least one decimal digit.
pub open spec fn unsigned_text(s: Seq<char>) -> Option<nat> {
    let d = if s.len() > 0 && s[0] == '+' {
        s.drop_first()
    } else {
        s
    };
    if d.len() > 0 && all_digits(d) {
        Some(digits_value(d))
    } else {
        None
    }
}

/// The cursor index a `--cword` value gives.
pub open spec fn cword_value(raw: Seq<char>) -> Result<usize, Seq<char>> {
    match unsigned_text(trim(raw)) {
        Some(n) => if n <= usize::MAX {
            Ok(n as usize)
        } else {
            Err("invalid --cword value: "@ + raw)
        },
        None => Err("invalid --cword value: "@ + raw),
    }
}

proof fn lemma_digits_monotone(s: Seq<char>, j: int)
    requires
        0 <= j <= s.len(),
        forall|i: int| 0 <= i < s.len() ==> is_digit(s[i]),
    ensures
        digits_value(s.subrange(0, j)) <= digits_value(s),
    decreases s.len(),
{
    if j < s.len() {
        assert(s.drop_last().subrange(0, j) =~= s.subrange(0, j));
        lemma_digits_monotone(s.drop_last(), j);
    } else {
        assert(s.subrange(0, j) =~= s);
    }
}

pub fn parse_cword(raw: &str) -> (r: Result<usize, String>)
    ensures
        result_view(r) == cword_value(raw@),
{
    let t = trim_str(raw);
    let ts = t.as_str();
    let n = ts.unicode_len();
    let ghost ghost_t = ts@;
    let start: usize = if n > 0 && ts.get_char(0) == '+' {
        1
    } else {
        0
    };
    let ghost d = ghost_t.subrange(start as int, n as int);
    assert(d =~= (if ghost_t.len() > 0 && ghost_t[0] == '+' {
        ghost_t.drop_first()
    } else {
        ghost_t
    }));
    if start == n {
        return Err(concat("invalid --cword value: ", raw));
    }
    let mut value: usize = 0;
    let mut i: usize = start;
    while i < n
        invariant
            n == ghost_t.len(),
            ghost_t == ts@,
            ghost_t == trim(raw@),
            start <= i <= n,
            d == ghost_t.subrange(start as int, n as int),
            d == (if ghost_t.len() > 0 && ghost_t[0] == '+' {
                ghost_t.drop_first()
            } else {
                ghost_t
            }),
            forall|k: int| 0 <= k < i - start ==> is_digit(d[k]),
            value == digits_value(d.subrange(0, i - start)),
        decreases n - i,
    {
        let c = ts.get_char(i);
        assert(d[i - start] == c);
        if c < '0' || c > '9' {
            assert(!is_digit(d[i - start]));
            assert(!all_digits(d));
            assert(unsigned_text(ghost_t) is None);
            return Err(concat("invalid --cword value: ", raw));
        }
        let digit = ((c as u32) - 48) as usize;
        assert(d.subrange(0, i + 1 - start).drop_last() =~= d.subrange(0, i - start));
        match value.checked_mul(10) {
            None => {
                proof {
                    assert(digits_value(d.subrange(0, i + 1 - start)) > usize::MAX) by (nonlinear_arith)
                        requires
                            digits_value(d.subrange(0, i + 1 - start)) == digits_value(d.subrange(0, i - start)) * 10 + digit,
                            digits_value(d.subrange(0, i - start)) == value,
                            value * 10 > usize::MAX;
                    if all_digits(d) {
                        lemma_digits_monotone(d, i + 1 - start);
                    }
                }
                return Err(concat("invalid --cword value: ", raw));
            },
            Some(m) => match m.checked_add(digit) {
                None => {
                    proof {
                        assert(digits_value(d.subrange(0, i + 1 - start)) > usize::MAX);
                        if all_digits(d) {
                            lemma_digits_monotone(d, i + 1 - start);
                        }
                    }
                    return Err(concat("invalid --cword value: ", raw));
                },
                Some(v) => {
                    value = v;
                },
            },
        }
        i = i + 1;
    }
    assert(d.subrange(0, n - start) =~= d);
    Ok(value)
}

/// The whitespace-separated words of `s`.
pub open spec fn split_ws(s: Seq<char>) -> Seq<Seq<char>>
    decreases s.len(),
{
    if s.len() == 0 {
        seq![]
    } else {
        let r = split_ws(s.drop_last());
        let c = s.last();
        if is_ws(c) {
            r
        } else if s.len() >= 2 && !is_ws(s[s.len() - 2]) {
            r.drop_last().push(r.last().push(c))
        } else {
            r.push(seq![c])
        }
    }
}

/// The words of a `--words` value: its whitespace-separated words, then an
/// empty word where it ends in whitespace; never no word at all.
pub open spec fn blob_words(s: Seq<char>) -> Seq<Seq<char>> {
    let w = split_ws(s);
    let w2 = if s.len() > 0 && is_ws(s.last()) {
        w.push(seq![])
    } else {
        w
    };
    if w2.len() == 0 {
        seq![seq![]]
    } else {
        w2
    }
}

pub fn parse_words_blob(raw: &str) -> (r: Vec<String>)
    ensures
        words_view(r@) == blob_words(raw@),
{
    let n = raw.unicode_len();
    let mut words: Vec<String> = Vec::new();
    let mut start: usize = 0;
    let mut in_word = false;
    let mut i: usize = 0;
    while i < n
        invariant
            n == raw@.len(),
            i <= n,
            in_word ==> start < i && !is_ws(raw@[i - 1]) && split_ws(raw@.subrange(0, i as int))
                == words_view(words@).push(raw@.subrange(start as int, i as int)),
            !in_word ==> (i == 0 || is_ws(raw@[i - 1])) && split_ws(raw@.subrange(0, i as int))
                == words_view(words@),
        decreases n - i,
    {
        let c = raw.get_char(i);
        let ghost pre = raw@.subrange(0, i + 1);
        assert(pre.drop_last() =~= raw@.subrange(0, i as int));
        assert(pre.last() == c);
        if char_is_ws(c) {
            if in_word {
                let w = String::from_str(raw.substring_char(start, i));
                proof {
                    lemma_words_push(words@, w);
                }
                words.push(w);
                in_word = false;
            }
        } else {
            if in_word {
                assert(raw@.subrange(start as int, i + 1) =~= raw@.subrange(start as int, i as int).push(c));
                assert(pre[pre.len() - 2] == raw@[i - 1]);
            } else {
                start = i;
                in_word = true;
                assert(raw@.subrange(start as int, i + 1) =~= seq![c]);
                if i > 0 {
                    assert(pre[pre.len() - 2] == raw@[i - 1]);
                }
            }
        }
        i = i + 1;
    }
    if in_word {
        let w = String::from_str(raw.substring_char(start, n));
        proof {
            lemma_words_push(words@, w);
        }
        words.push(w);
    }
    assert(raw@.subrange(0, n as int) =~= raw@);
    if n > 0 && char_is_ws(raw.get_char(n - 1)) {
        let e = String::new();
        proof {
            lemma_words_push(words@, e);
        }
        words.push(e);
    }
    if words.len() == 0 {
        let e = String::new();
        proof {
            lemma_words_push(words@, e);
        }
        words.push(e);
        assert(words_view(words@) =~= seq![Seq::<char>::empty()]);
    }
    words
}

/// The decimal digit for `d < 10`.
pub open spec fn digit_char(d: nat) -> char {
    "0123456789"@[d as int]
}

/// The decimal numeral of `n`.
pub open spec fn decimal(n: nat) -> Seq<char>
    decreases n,
{
    if n < 10 {
        seq![digit_char(n)]
    } else {
        decimal(n / 10).push(digit_char(n % 10))
    }
}

/// The decimal numeral of `n`, as `usize`'s `Display` writes it.
pub fn decimal_string(n: usize) -> (r: String)
    ensures
        r@ == decimal(n as nat),
    decreases n,
{
    let digits = "0123456789";
    proof {
        reveal_strlit("0123456789");
    }
    if n < 10 {
        String::from_str(digits.substring_char(n, n + 1))
    } else {
        let mut r = decimal_string(n / 10);
        let d = n % 10;
        r.append(digits.substring_char(d, d + 1));
        r
    }
}

/// The runtime an environment value selects, if it names one.
pub open spec fn env_runtime(v: Option<Seq<char>>) -> Option<Runtime> {
    match v {
        Some(s) => match runtime_value(trim(s)) {
            Ok(rt) => Some(rt),
            Err(_) => None,
        },
        None => None,
    }
}

/// The runtime selected by the last valid `--runtime` flag among
/// `ws[i..cword]`, or `acc` where none follows.
pub open spec fn cursor_runtime_scan(ws: Seq<Seq<char>>, cword: int, i: int, acc: Option<Runtime>) -> Option<
    Runtime,
>
    decreases cword - i,
{
    if i < 0 || i >= cword {
        acc
    } else {
        let t = trim(ws[i]);
        if t == "--runtime"@ {
            if i + 1 < cword {
                cursor_runtime_scan(
                    ws,
                    cword,
                    i + 2,
                    match runtime_value(trim(ws[i + 1])) {
                        Ok(rt) => Some(rt),
                        Err(_) => acc,
                    },
                )
            } else {
                cursor_runtime_scan(ws, cword, i + 1, acc)
            }
        } else if starts_with(t, "--runtime="@) {
            cursor_runtime_scan(
                ws,
                cword,
                i + 1,
                match runtime_value(trim(after(t, "--runtime="@))) {
                    Ok(rt) => Some(rt),
                    Err(_) => acc,
                },
            )
        } else {
            cursor_runtime_scan(ws, cword, i + 1, acc)
        }
    }
}

/// The runtime for completion: the last `--runtime` flag before the cursor,
/// else the primary environment value, else the alias one, else `Container`.
pub open spec fn words_runtime(
    ws: Seq<Seq<char>>,
    cword: int,
    env_primary: Option<Seq<char>>,
    env_alias: Option<Seq<char>>,
) -> Runtime {
    match cursor_runtime_scan(ws, cword, 1, None) {
        Some(rt) => rt,
        None => match env_runtime(env_primary) {
            Some(rt) => rt,
            None => match env_runtime(env_alias) {
                Some(rt) => rt,
                None => Runtime::Container,
            },
        },
    }
}

fn env_runtime_value(v: &Option<String>) -> (r: Option<Runtime>)
    ensures
        r == env_runtime(opt_view(*v)),
{
    match v {
        Some(s) => {
            let t = trim_str(s.as_str());
            match parse_runtime_value(t.as_str()) {
                Ok(rt) => Some(rt),
                Err(_) => None,
            }
        },
        None => None,
    }
}

pub fn resolve_runtime_from_words(
    words: &[String],
    cword: usize,
    env_primary: &Option<String>,
    env_alias: &Option<String>,
) -> (r: Runtime)
    requires
        cword <= words@.len(),
    ensures
        r == words_runtime(words_view(words@), cword as int, opt_view(*env_primary), opt_view(*env_alias)),
{
    let ghost ws = words_view(words@);
    let mut flag: Option<Runtime> = None;
    let mut idx: usize = 1;
    while idx < cword
        invariant
            ws == words_view(words@),
            cword <= words@.len(),
            1 <= idx,
            cursor_runtime_scan(ws, cword as int, 1, None) == cursor_runtime_scan(ws, cword as int, idx as int, flag),
        decreases cword - idx,
    {
        let token = trim_str(words[idx].as_str());
        if str_eq(token.as_str(), "--runtime") {
            if idx + 1 < cword {
                let value = trim_str(words[idx + 1].as_str());
                if let Ok(rt) = parse_runtime_value(value.as_str()) {
                    flag = Some(rt);
                }
                idx = idx + 2;
            } else {
                idx = idx + 1;
            }
        } else {
            if has_prefix(token.as_str(), "--runtime=") {
                proof {
                    reveal_strlit("--runtime=");
                }
                let rest = suffix_from(token.as_str(), 10);
                let value = trim_str(rest.as_str());
                if let Ok(rt) = parse_runtime_value(value.as_str()) {
                    flag = Some(rt);
                }
            }
            idx = idx + 1;
        }
    }
    if let Some(rt) = flag {
        return rt;
    }
    if let Some(rt) = env_runtime_value(env_primary) {
        return rt;
    }
    if let Some(rt) = env_runtime_value(env_alias) {
        return rt;
    }
    Runtime::Container
}

/// The environment settings that completion reads.
pub struct CompletionEnv {
    /// The completion mode setting.
    pub mode: Option<String>,
    /// The primary runtime setting.
    pub runtime: Option<String>,
    /// The alias runtime setting, read when the primary one is absent or
    /// names no runtime.
    pub runtime_alias: Option<String>,
}

/// What the option scan has gathered: shell, cursor, raw `--words` value,
/// `--word` values in order, and output format.
pub type ScanView = (
    Option<CompletionShell>,
    Option<usize>,
    Option<Seq<char>>,
    Seq<Seq<char>>,
    CompletionOutputFormat,
);

/// Reads the options `args[i..]` into `st`, failing on the first unknown
/// option, missing value or bad value.
pub open spec fn scan_args(args: Seq<Seq<char>>, i: int, st: ScanView) -> Result<ScanView, Seq<char>>
    decreases args.len() - i,
{
    if i < 0 || i >= args.len() {
        Ok(st)
    } else {
        let t = args[i];
        if t == "--shell"@ {
            if i + 1 >= args.len() {
                Err("missing value for --shell"@)
            } else {
                match shell_value(args[i + 1]) {
                    Err(e) => Err(e),
                    Ok(v) => scan_args(args, i + 2, (Some(v), st.1, st.2, st.3, st.4)),
                }
            }
        } else if t == "--cword"@ {
            if i + 1 >= args.len() {
                Err("missing value for --cword"@)
            } else {
                match cword_value(args[i + 1]) {
                    Err(e) => Err(e),
                    Ok(v) => scan_args(args, i + 2, (st.0, Some(v), st.2, st.3, st.4)),
                }
            }
        } else if t == "--word"@ {
            if i + 1 >= args.len() {
                Err("missing value for --word"@)
            } else {
                scan_args(args, i + 2, (st.0, st.1, st.2, st.3.push(args[i + 1]), st.4))
            }
        } else if t == "--words"@ {
            if i + 1 >= args.len() {
                Err("missing value for --words"@)
            } else {
                scan_args(args, i + 2, (st.0, st.1, Some(args[i + 1]), st.3, st.4))
            }
        } else if t == "--format"@ {
            if i + 1 >= args.len() {
                Err("missing value for --format"@)
            } else {
                match output_value(args[i + 1]) {
                    Err(e) => Err(e),
                    Ok(v) => scan_args(args, i + 2, (st.0, st.1, st.2, st.3, v)),
                }
            }
        } else if starts_with(t, "--shell="@) {
            match shell_value(after(t, "--shell="@)) {
                Err(e) => Err(e),
                Ok(v) => scan_args(args, i + 1, (Some(v), st.1, st.2, st.3, st.4)),
            }
        } else if starts_with(t, "--cword="@) {
            match cword_value(after(t, "--cword="@)) {
                Err(e) => Err(e),
                Ok(v) => scan_args(args, i + 1, (st.0, Some(v), st.2, st.3, st.4)),
            }
        } else if starts_with(t, "--word="@) {
            scan_args(args, i + 1, (st.0, st.1, st.2, st.3.push(after(t, "--word="@)), st.4))
        } else if starts_with(t, "--words="@) {
            scan_args(args, i + 1, (st.0, st.1, Some(after(t, "--words="@)), st.3, st.4))
        } else if starts_with(t, "--format="@) {
            match output_value(after(t, "--format="@)) {
                Err(e) => Err(e),
                Ok(v) => scan_args(args, i + 1, (st.0, st.1, st.2, st.3, v)),
            }
        } else {
            Err("unknown option for __complete: "@ + t)
        }
    }
}

/// A request as plain values: shell, words, cursor, runtime, mode, format.
pub type RequestView = (
    CompletionShell,
    Seq<Seq<char>>,
    usize,
    Runtime,
    CompletionMode,
    CompletionOutputFormat,
);

/// The request that `args` and the environment describe, or the error that
/// parsing reports.
pub open spec fn request_view(
    args: Seq<Seq<char>>,
    env_mode: Option<Seq<char>>,
    env_primary: Option<Seq<char>>,
    env_alias: Option<Seq<char>>,
) -> Result<RequestView, Seq<char>> {
    match scan_args(args, 0, (None, None, None, seq![], CompletionOutputFormat::Plain)) {
        Err(e) => Err(e),
        Ok(st) => if st.3.len() == 0 && st.2 is None {
            Err("missing --word or --words"@)
        } else {
            let words = if st.3.len() == 0 {
                blob_words(st.2->0)
            } else {
                st.3
            };
            if words.len() == 0 {
                Err("completion words cannot be empty"@)
            } else {
                match st.1 {
                    None => Err("missing --cword"@),
                    Some(c) => if c >= words.len() {
                        Err(
                            "invalid --cword index "@ + decimal(c as nat) + " for "@ + decimal(
                                words.len(),
                            ) + " word(s)"@,
                        )
                    } else {
                        match st.0 {
                            None => Err("missing --shell"@),
                            Some(sh) => {
                                let mode = match env_mode {
                                    None => Ok(CompletionMode::Active),
                                    Some(m) => mode_value(m),
                                };
                                match mode {
                                    Err(e) => Err(e),
                                    Ok(m) => Ok(
                                        (
                                            sh,
                                            words,
                                            c,
                                            words_runtime(words, c as int, env_primary, env_alias),
                                            m,
                                            st.4,
                                        ),
                                    ),
                                }
                            },
                        }
                    },
                }
            }
        },
    }
}

impl CompletionRequest {
    /// The request as plain values.
    pub open spec fn plain_view(&self) -> RequestView {
        (self.shell, words_view(self.words@), self.cword, self.runtime, self.mode, self.output)
    }

    /// Parses the arguments of a completion call; the environment gives the
    /// mode and the fallback runtime.
    pub fn parse(args: &[String], env: &CompletionEnv) -> (r: Result<CompletionRequest, String>)
        ensures
            match r {
                Ok(req) => request_view(
                    words_view(args@),
                    opt_view(env.mode),
                    opt_view(env.runtime),
                    opt_view(env.runtime_alias),
                ) == Ok::<RequestView, Seq<char>>(req.plain_view()),
                Err(e) => request_view(
                    words_view(args@),
                    opt_view(env.mode),
                    opt_view(env.runtime),
                    opt_view(env.runtime_alias),
                ) == Err::<RequestView, Seq<char>>(e@),
            },
            r is Ok ==> r->Ok_0.wf(),
    {
        let ghost a = words_view(args@);
        let mut shell: Option<CompletionShell> = None;
        let mut cword: Option<usize> = None;
        let mut words_raw: Option<String> = None;
        let mut words: Vec<String> = Vec::new();
        let mut output = CompletionOutputFormat::Plain;
        let mut idx: usize = 0;
        assert(words_view(words@) =~= Seq::<Seq<char>>::empty());
        while idx < args.len()
            invariant
                a == words_view(args@),
                idx <= args@.len(),
                scan_args(a, 0, (None, None, None, seq![], CompletionOutputFormat::Plain)) == scan_args(
                    a,
                    idx as int,
                    (shell, cword, opt_view(words_raw), words_view(words@), output),
                ),
            decreases args@.len() - idx,
        {
            let token = args[idx].as_str();
            if str_eq(token, "--shell") {
                if idx + 1 >= args.len() {
                    return Err(String::from_str("missing value for --shell"));
                }
                match parse_shell(args[idx + 1].as_str()) {
                    Err(e) => {
                        return Err(e);
                    },
                    Ok(v) => {
                        shell = Some(v);
                    },
                }
                idx = idx + 2;
            } else if str_eq(token, "--cword") {
                if idx + 1 >= args.len() {
                    return Err(String::from_str("missing value for --cword"));
                }
                match parse_cword(args[idx + 1].as_str()) {
                    Err(e) => {
                        return Err(e);
                    },
                    Ok(v) => {
                        cword = Some(v);
                    },
                }
                idx = idx + 2;
            } else if str_eq(token, "--word") {
                if idx + 1 >= args.len() {
                    return Err(String::from_str("missing value for --word"));
                }
                let w = args[idx + 1].clone();
                proof {
                    lemma_words_push(words@, w);
                }
                words.push(w);
                idx = idx + 2;
            } else if str_eq(token, "--words") {
                if idx + 1 >= args.len() {
                    return Err(String::from_str("missing value for --words"));
                }
                words_raw = Some(args[idx + 1].clone());
                idx = idx + 2;
            } else if str_eq(token, "--format") {
                if idx + 1 >= args.len() {
                    return Err(String::from_str("missing value for --format"));
                }
                match parse_output(args[idx + 1].as_str()) {
                    Err(e) => {
                        return Err(e);
                    },
                    Ok(v) => {
                        output = v;
                    },
                }
                idx = idx + 2;
            } else if has_prefix(token, "--shell=") {
                proof {
                    reveal_strlit("--shell=");
                }
                let v = suffix_from(token, 8);
                match parse_shell(v.as_str()) {
                    Err(e) => {
                        return Err(e);
                    },
                    Ok(v) => {
                        shell = Some(v);
                    },
                }
                idx = idx + 1;
            } else if has_prefix(token, "--cword=") {
                proof {
                    reveal_strlit("--cword=");
                }
                let v = suffix_from(token, 8);
                match parse_cword(v.as_str()) {
                    Err(e) => {
                        return Err(e);
                    },
                    Ok(v) => {
                        cword = Some(v);
                    },
                }
                idx = idx + 1;
            } else if has_prefix(token, "--word=") {
                proof {
                    reveal_strlit("--word=");
                }
                let w = suffix_from(token, 7);
                proof {
                    lemma_words_push(words@, w);
                }
                words.push(w);
                idx = idx + 1;
            } else if has_prefix(token, "--words=") {
                proof {
                    reveal_strlit("--words=");
                }
                words_raw = Some(suffix_from(token, 8));
                idx = idx + 1;
            } else if has_prefix(token, "--format=") {
                proof {
                    reveal_strlit("--format=");
                }
                let v = suffix_from(token, 9);
                match parse_output(v.as_str()) {
                    Err(e) => {
                        return Err(e);
                    },
                    Ok(v) => {
                        output = v;
                    },
                }
                idx = idx + 1;
            } else {
                return Err(concat("unknown option for __complete: ", token));
            }
        }
        if words.len() == 0 {
            match &words_raw {
                None => {
                    return Err(String::from_str("missing --word or --words"));
                },
                Some(raw) => {
                    words = parse_words_blob(raw.as_str());
                },
            }
        }
        if words.len() == 0 {
            return Err(String::from_str("completion words cannot be empty"));
        }
        let c = match cword {
            None => {
                return Err(String::from_str("missing --cword"));
            },
            Some(c) => c,
        };
        if c >= words.len() {
            let mut e = concat("invalid --cword index ", decimal_string(c).as_str());
            e.append(" for ");
            e.append(decimal_string(words.len()).as_str());
            e.append(" word(s)");
            return Err(e);
        }
        let sh = match shell {
            None => {
                return Err(String::from_str("missing --shell"));
            },
            Some(sh) => sh,
        };
        let mode = match &env.mode {
            None => CompletionMode::Active,
            Some(m) => match parse_mode_value(m.as_str()) {
                Err(e) => {
                    return Err(e);
                },
                Ok(m) => m,
            },
        };
        let runtime = resolve_runtime_from_words(words.as_slice(), c, &env.runtime, &env.runtime_alias);
        Ok(CompletionRequest { shell: sh, words, cword: c, runtime, mode, output })
    }
}

} // verus!
