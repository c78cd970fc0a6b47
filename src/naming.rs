//! Workspace name resolution: the less-prefixed variants of a typed name, the
//! canonical forms to look a workspace up by, and the name a new workspace is
//! created under.
use vstd::prelude::*;
use vstd::string::*;
use crate::candidates::opt_view;
use crate::text::{words_view, lemma_words_push, trim, trimmed_nonempty, starts_with, after, has_prefix, str_eq, concat, suffix_from, lemma_trim_len, ascii_lower, lower_letter};

verus! {

/// The sequence with each value kept at its first occurrence only.
pub open spec fn dedup(s: Seq<Seq<char>>) -> Seq<Seq<char>>
    decreases s.len(),
{
    if s.len() == 0 {
        seq![]
    } else {
        let d = dedup(s.drop_last());
        if d.contains(s.last()) {
            d
        } else {
            d.push(s.last())
        }
    }
}

/// Appends `value` unless it is already present.
pub fn push_unique(values: &mut Vec<String>, value: String)
    ensures
        words_view(final(values)@) == if words_view(old(values)@).contains(value@) {
            words_view(old(values)@)
        } else {
            words_view(old(values)@).push(value@)
        },
{
    let ghost vs = words_view(values@);
    let mut i: usize = 0;
    while i < values.len()
        invariant
            vs == words_view(values@),
            i <= values@.len(),
            forall|k: int| 0 <= k < i ==> vs[k] != value@,
        decreases values@.len() - i,
    {
        if str_eq(values[i].as_str(), value.as_str()) {
            assert(vs[i as int] == value@);
            return;
        }
        i = i + 1;
    }
    proof {
        lemma_words_push(values@, value);
    }
    values.push(value);
}

pub proof fn lemma_dedup_push(s: Seq<Seq<char>>, x: Seq<char>)
    ensures
        dedup(s.push(x)) == if dedup(s).contains(x) {
            dedup(s)
        } else {
            dedup(s).push(x)
        },
{
    assert(s.push(x).drop_last() =~= s);
}

/// The trimmed value of a setting, where it holds more than whitespace.
pub open spec fn setting(v: Option<Seq<char>>) -> Seq<Seq<char>> {
    match v {
        Some(s) => if trim(s).len() > 0 {
            seq![trim(s)]
        } else {
            seq![]
        },
        None => seq![],
    }
}

/// The known prefixes: the two configured ones, then the built-in ones, each
/// once.
pub open spec fn prefix_set(primary: Option<Seq<char>>, secondary: Option<Seq<char>>) -> Seq<Seq<char>> {
    dedup(setting(primary) + setting(secondary) + seq!["agent-ws"@, "codex-ws"@])
}

pub open spec fn opt_str_view(v: Option<&str>) -> Option<Seq<char>> {
    match v {
        Some(s) => Some(s@),
        None => None,
    }
}

fn push_setting(values: &mut Vec<String>, v: Option<&str>, Ghost(seen): Ghost<Seq<Seq<char>>>)
    requires
        words_view(old(values)@) == dedup(seen),
    ensures
        words_view(final(values)@) == dedup(seen + setting(opt_str_view(v))),
{
    match v {
        Some(s) => match trimmed_nonempty(s) {
            Some(t) => {
                proof {
                    lemma_dedup_push(seen, t@);
                    assert(seen + seq![t@] =~= seen.push(t@));
                }
                push_unique(values, t);
            },
            None => {
                assert(seen + seq![] =~= seen);
            },
        },
        None => {
            assert(seen + seq![] =~= seen);
        },
    }
}

/// The known workspace prefixes, given the two prefix settings.
pub fn workspace_prefixes(primary: Option<&str>, secondary: Option<&str>) -> (r: Vec<String>)
    ensures
        words_view(r@) == prefix_set(opt_str_view(primary), opt_str_view(secondary)),
{
    let mut prefixes: Vec<String> = Vec::new();
    assert(words_view(prefixes@) =~= dedup(Seq::<Seq<char>>::empty()));
    push_setting(&mut prefixes, primary, Ghost(Seq::<Seq<char>>::empty()));
    let ghost s1 = Seq::<Seq<char>>::empty() + setting(opt_str_view(primary));
    push_setting(&mut prefixes, secondary, Ghost(s1));
    let ghost s2 = s1 + setting(opt_str_view(secondary));
    let a = String::from_str("agent-ws");
    proof {
        lemma_dedup_push(s2, a@);
    }
    push_unique(&mut prefixes, a);
    let ghost s3 = s2.push("agent-ws"@);
    let c = String::from_str("codex-ws");
    proof {
        lemma_dedup_push(s3, c@);
        assert(s3.push("codex-ws"@) =~= setting(opt_str_view(primary)) + setting(
            opt_str_view(secondary),
        ) + seq!["agent-ws"@, "codex-ws"@]);
    }
    push_unique(&mut prefixes, c);
    prefixes
}

/// `cur` without the first prefix of `ps` (followed by `-`) that it starts
/// with and that leaves more than whitespace, trimmed.
pub open spec fn strip_known(cur: Seq<char>, ps: Seq<Seq<char>>) -> Option<Seq<char>>
    decreases ps.len(),
{
    if ps.len() == 0 {
        None
    } else if starts_with(cur, ps[0] + "-"@) && trim(after(cur, ps[0] + "-"@)).len() > 0 {
        Some(trim(after(cur, ps[0] + "-"@)))
    } else {
        strip_known(cur, ps.drop_first())
    }
}

/// One step of prefix stripping: a known prefix, else the literal `ws-`.
pub open spec fn strip_once(cur: Seq<char>, ps: Seq<Seq<char>>) -> Option<Seq<char>> {
    match strip_known(cur, ps) {
        Some(r) => Some(r),
        None => if starts_with(cur, "ws-"@) && trim(after(cur, "ws-"@)).len() > 0 {
            Some(trim(after(cur, "ws-"@)))
        } else {
            None
        },
    }
}

/// `cur` and what repeated stripping makes of it, least stripped first.
pub open spec fn strip_chain(cur: Seq<char>, ps: Seq<Seq<char>>) -> Seq<Seq<char>>
    decreases cur.len(),
{
    match strip_once(cur, ps) {
        Some(n) => if n.len() < cur.len() {
            seq![cur] + strip_chain(n, ps)
        } else {
            seq![cur]
        },
        None => seq![cur],
    }
}

/// The variants of a typed name: none for a blank name, else the trimmed name
/// and each further stripped form.
pub open spec fn variants(input: Seq<char>, ps: Seq<Seq<char>>) -> Seq<Seq<char>> {
    if trim(input).len() == 0 {
        seq![]
    } else {
        strip_chain(trim(input), ps)
    }
}

proof fn lemma_strip_shorter(cur: Seq<char>, ps: Seq<Seq<char>>)
    ensures
        strip_once(cur, ps) is Some ==> strip_once(cur, ps)->0.len() < cur.len(),
{
    lemma_strip_known_shorter(cur, ps);
    if starts_with(cur, "ws-"@) {
        lemma_trim_len(after(cur, "ws-"@));
        reveal_strlit("ws-");
    }
}

proof fn lemma_strip_known_shorter(cur: Seq<char>, ps: Seq<Seq<char>>)
    ensures
        strip_known(cur, ps) is Some ==> strip_known(cur, ps)->0.len() < cur.len(),
    decreases ps.len(),
{
    if ps.len() > 0 {
        reveal_strlit("-");
        lemma_trim_len(after(cur, ps[0] + "-"@));
        lemma_strip_known_shorter(cur, ps.drop_first());
    }
}

fn strip_step(current: &str, prefixes: &[String]) -> (r: Option<String>)
    ensures
        opt_view(r) == strip_once(current@, words_view(prefixes@)),
{
    let ghost ps = words_view(prefixes@);
    let mut i: usize = 0;
    assert(ps.subrange(0, ps.len() as int) =~= ps);
    while i < prefixes.len()
        invariant
            ps == words_view(prefixes@),
            i <= prefixes@.len(),
            strip_known(current@, ps) == strip_known(current@, ps.subrange(i as int, ps.len() as int)),
        decreases prefixes@.len() - i,
    {
        let ghost rest = ps.subrange(i as int, ps.len() as int);
        assert(rest.drop_first() =~= ps.subrange(i + 1, ps.len() as int));
        let p = concat(prefixes[i].as_str(), "-");
        if has_prefix(current, p.as_str()) {
            let tail = suffix_from(current, p.as_str().unicode_len());
            if let Some(cleaned) = trimmed_nonempty(tail.as_str()) {
                return Some(cleaned);
            }
        }
        i = i + 1;
    }
    assert(ps.subrange(i as int, ps.len() as int) =~= Seq::<Seq<char>>::empty());
    if has_prefix(current, "ws-") {
        proof {
            reveal_strlit("ws-");
        }
        let tail = suffix_from(current, 3);
        if let Some(cleaned) = trimmed_nonempty(tail.as_str()) {
            return Some(cleaned);
        }
    }
    None
}

/// The trimmed name and its less-prefixed forms, least stripped first;
/// empty for a blank name.
pub fn workspace_name_variants(input: &str, prefixes: &[String]) -> (r: Vec<String>)
    ensures
        words_view(r@) == variants(input@, words_view(prefixes@)),
{
    let ghost ps = words_view(prefixes@);
    let mut current = match trimmed_nonempty(input) {
        None => {
            return Vec::new();
        },
        Some(c) => c,
    };
    let ghost t = trim(input@);
    let mut variants: Vec<String> = Vec::new();
    proof {
        lemma_words_push(variants@, current);
    }
    variants.push(current.clone());
    loop
        invariant
            ps == words_view(prefixes@),
            words_view(variants@).len() > 0,
            words_view(variants@).last() == current@,
            strip_chain(t, ps) == words_view(variants@).drop_last() + strip_chain(current@, ps),
            forall|k: int| 0 <= k < variants@.len() ==> #[trigger] variants@[k]@.len() >= current@.len(),
        ensures
            words_view(variants@).last() == current@,
            strip_chain(t, ps) == words_view(variants@).drop_last() + strip_chain(current@, ps),
            strip_chain(current@, ps) == seq![current@],
        decreases current@.len(),
    {
        proof {
            lemma_strip_shorter(current@, ps);
        }
        let next = match strip_step(current.as_str(), prefixes) {
            None => {
                break;
            },
            Some(n) => n,
        };
        let mut known = false;
        let mut k: usize = 0;
        while k < variants.len()
            invariant
                k <= variants@.len(),
                next@.len() < current@.len(),
                forall|j: int| 0 <= j < variants@.len() ==> #[trigger] variants@[j]@.len() >= current@.len(),
                !known,
            decreases variants@.len() - k,
        {
            if str_eq(variants[k].as_str(), next.as_str()) {
                known = true;
                break;
            }
            k = k + 1;
        }
        if known {
            break;
        }
        proof {
            let w = words_view(variants@);
            lemma_words_push(variants@, next);
            assert(w.drop_last() + strip_chain(current@, ps) =~= w.push(next@).drop_last() + strip_chain(next@, ps));
        }
        variants.push(next.clone());
        current = next;
    }
    proof {
        let w = words_view(variants@);
        assert(w.drop_last() + seq![current@] =~= w);
    }
    variants
}

/// `v` with the prefix `p` in front, unless it already has it.
pub open spec fn prefixed_form(v: Seq<char>, p: Seq<char>) -> Seq<char> {
    if starts_with(v, p + "-"@) {
        v
    } else {
        p + "-"@ + v
    }
}

/// For each variant in order, its prefixed form under each prefix in order.
pub open spec fn all_prefixed(vs: Seq<Seq<char>>, ps: Seq<Seq<char>>) -> Seq<Seq<char>>
    decreases vs.len(),
{
    if vs.len() == 0 {
        seq![]
    } else {
        all_prefixed(vs.drop_last(), ps) + ps.map_values(|p: Seq<char>| prefixed_form(vs.last(), p))
    }
}

/// The forms to look a workspace up by, in the order to try them: its
/// variants, then each variant under each prefix, each form once.
pub open spec fn resolution_candidates(name: Seq<char>, ps: Seq<Seq<char>>) -> Seq<Seq<char>> {
    let vs = variants(name, ps);
    dedup(vs + all_prefixed(vs, ps))
}

pub fn workspace_resolution_candidates(workspace_name: &str, prefixes: &[String]) -> (r: Vec<String>)
    ensures
        words_view(r@) == resolution_candidates(workspace_name@, words_view(prefixes@)),
{
    let ghost ps = words_view(prefixes@);
    let variants = workspace_name_variants(workspace_name, prefixes);
    let ghost vs = words_view(variants@);
    let mut candidates: Vec<String> = Vec::new();
    let mut i: usize = 0;
    assert(words_view(candidates@) =~= dedup(Seq::<Seq<char>>::empty()));
    assert(vs.subrange(0, 0) =~= Seq::<Seq<char>>::empty());
    while i < variants.len()
        invariant
            ps == words_view(prefixes@),
            vs == words_view(variants@),
            i <= variants@.len(),
            words_view(candidates@) == dedup(vs.subrange(0, i as int)),
        decreases variants@.len() - i,
    {
        proof {
            lemma_dedup_push(vs.subrange(0, i as int), vs[i as int]);
            assert(vs.subrange(0, i + 1) =~= vs.subrange(0, i as int).push(vs[i as int]));
        }
        push_unique(&mut candidates, variants[i].clone());
        i = i + 1;
    }
    assert(vs.subrange(0, i as int) =~= vs);
    assert(vs + all_prefixed(vs.subrange(0, 0), ps) =~= vs);
    let mut i: usize = 0;
    while i < variants.len()
        invariant
            ps == words_view(prefixes@),
            vs == words_view(variants@),
            i <= variants@.len(),
            words_view(candidates@) == dedup(vs + all_prefixed(vs.subrange(0, i as int), ps)),
        decreases variants@.len() - i,
    {
        let ghost base = vs + all_prefixed(vs.subrange(0, i as int), ps);
        let ghost v = vs[i as int];
        let mut j: usize = 0;
        assert(base + ps.subrange(0, 0).map_values(|p: Seq<char>| prefixed_form(v, p)) =~= base);
        while j < prefixes.len()
            invariant
                ps == words_view(prefixes@),
                vs == words_view(variants@),
                i < variants@.len(),
                v == vs[i as int],
                j <= prefixes@.len(),
                words_view(candidates@) == dedup(
                    base + ps.subrange(0, j as int).map_values(|p: Seq<char>| prefixed_form(v, p)),
                ),
            decreases prefixes@.len() - j,
        {
            let variant = variants[i].as_str();
            let p = concat(prefixes[j].as_str(), "-");
            let prefixed = if has_prefix(variant, p.as_str()) {
                String::from_str(variant)
            } else {
                let mut f = p;
                f.append(variant);
                f
            };
            proof {
                let pre = base + ps.subrange(0, j as int).map_values(|p: Seq<char>| prefixed_form(v, p));
                lemma_dedup_push(pre, prefixed@);
                assert(base + ps.subrange(0, j + 1).map_values(|p: Seq<char>| prefixed_form(v, p))
                    =~= pre.push(prefixed@));
            }
            push_unique(&mut candidates, prefixed);
            j = j + 1;
        }
        proof {
            assert(vs.subrange(0, i + 1).drop_last() =~= vs.subrange(0, i as int));
            assert(ps.subrange(0, j as int) =~= ps);
            assert(vs + all_prefixed(vs.subrange(0, i + 1), ps) =~= base + ps.map_values(
                |p: Seq<char>| prefixed_form(v, p),
            ));
        }
        i = i + 1;
    }
    assert(vs.subrange(0, i as int) =~= vs);
    candidates
}

pub open spec fn is_ascii_alnum(c: char) -> bool {
    ('0' <= c && c <= '9') || ('a' <= c && c <= 'z') || ('A' <= c && c <= 'Z')
}

/// ASCII whitespace as `char::is_ascii_whitespace` has it.
pub open spec fn is_ascii_ws(c: char) -> bool {
    c == ' ' || c == '\t' || c == '\n' || c == '\u{c}' || c == '\r'
}

/// Lowered ASCII letters, digits, `-` and `_` kept; each run of whitespace,
/// `/`, `.` and `:` becomes one `-` (no `-` right after another); the rest
/// dropped.
pub open spec fn slug_chars(s: Seq<char>) -> Seq<char>
    decreases s.len(),
{
    if s.len() == 0 {
        seq![]
    } else {
        let r = slug_chars(s.drop_last());
        let c = s.last();
        if is_ascii_alnum(c) || c == '-' || c == '_' {
            r.push(ascii_lower(c))
        } else if (is_ascii_ws(c) || c == '/' || c == '.' || c == ':') && !(r.len() > 0 && r.last()
            == '-') {
            r.push('-')
        } else {
            r
        }
    }
}

pub open spec fn trim_dash_start(s: Seq<char>) -> Seq<char>
    decreases s.len(),
{
    if s.len() > 0 && s[0] == '-' {
        trim_dash_start(s.drop_first())
    } else {
        s
    }
}

pub open spec fn trim_dash_end(s: Seq<char>) -> Seq<char>
    decreases s.len(),
{
    if s.len() > 0 && s.last() == '-' {
        trim_dash_end(s.drop_last())
    } else {
        s
    }
}

/// The slug of a name: its slug characters without leading or trailing `-`,
/// or `workspace` where nothing is left.
pub open spec fn slug(s: Seq<char>) -> Seq<char> {
    let t = trim_dash_end(trim_dash_start(slug_chars(s)));
    if t.len() == 0 {
        "workspace"@
    } else {
        t
    }
}

pub fn slugify_name(name: &str) -> (r: String)
    ensures
        r@ == slug(name@),
{
    let n = name.unicode_len();
    let mut out = String::new();
    let mut i: usize = 0;
    let mut ends_dash = false;
    while i < n
        invariant
            n == name@.len(),
            i <= n,
            out@ == slug_chars(name@.subrange(0, i as int)),
            ends_dash == (out@.len() > 0 && out@.last() == '-'),
        decreases n - i,
    {
        let c = name.get_char(i);
        let ghost pre = name@.subrange(0, i + 1);
        assert(pre.drop_last() =~= name@.subrange(0, i as int));
        let dash = "-";
        proof {
            reveal_strlit("-");
        }
        if ('0' <= c && c <= '9') || ('a' <= c && c <= 'z') || c == '-' || c == '_' {
            out.append(name.substring_char(i, i + 1));
            ends_dash = c == '-';
        } else if 'A' <= c && c <= 'Z' {
            out.append(lower_letter(c));
            ends_dash = false;
        } else if (c == ' ' || c == '\t' || c == '\n' || c == '\u{c}' || c == '\r' || c == '/' || c
            == '.' || c == ':') && !ends_dash {
            out.append(dash);
            ends_dash = true;
        }
        i = i + 1;
    }
    assert(name@.subrange(0, n as int) =~= name@);
    let m = out.as_str().unicode_len();
    let mut a: usize = 0;
    assert(out@.subrange(0, m as int) =~= out@);
    while a < m && out.as_str().get_char(a) == '-'
        invariant
            m == out@.len(),
            a <= m,
            trim_dash_start(out@) == trim_dash_start(out@.subrange(a as int, m as int)),
        decreases m - a,
    {
        let ghost t = out@.subrange(a as int, m as int);
        assert(t.drop_first() =~= out@.subrange(a + 1, m as int));
        a = a + 1;
    }
    let mut b: usize = m;
    while b > a && out.as_str().get_char(b - 1) == '-'
        invariant
            m == out@.len(),
            a <= b <= m,
            trim_dash_end(trim_dash_start(out@)) == trim_dash_end(out@.subrange(a as int, b as int)),
            a == m || out@[a as int] != '-',
        decreases b - a,
    {
        let ghost u = out@.subrange(a as int, b as int);
        assert(u.drop_last() =~= out@.subrange(a as int, b - 1));
        b = b - 1;
    }
    if a == b {
        String::from_str("workspace")
    } else {
        String::from_str(out.as_str().substring_char(a, b))
    }
}

/// The name a new workspace is created under: the most stripped variant of
/// the typed name, slugified.
pub open spec fn creation_name(name: Seq<char>, ps: Seq<Seq<char>>) -> Seq<char> {
    let vs = variants(name, ps);
    slug(
        if vs.len() > 0 {
            vs.last()
        } else if trim(name).len() > 0 {
            trim(name)
        } else {
            "workspace"@
        },
    )
}

pub fn normalize_workspace_name_for_create(name: &str, prefixes: &[String]) -> (r: String)
    ensures
        r@ == creation_name(name@, words_view(prefixes@)),
{
    let variants = workspace_name_variants(name, prefixes);
    if variants.len() > 0 {
        let last = variants.len() - 1;
        return slugify_name(variants[last].as_str());
    }
    match trimmed_nonempty(name) {
        Some(t) => slugify_name(t.as_str()),
        None => slugify_name("workspace"),
    }
}

} // verus!
