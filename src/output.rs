//! Turns finalized candidates into the text a shell reads: one line per
//! candidate, with control characters replaced so that no field can break a
//! line or a column.
use vstd::prelude::*;
use vstd::string::*;
use crate::candidates::{Candidate, CandView, cands_view};
use crate::protocol::{CompletionShell, CompletionOutputFormat};

verus! {

pub open spec fn is_control(c: char) -> bool {
    c == '\n' || c == '\r' || c == '\t'
}

/// `s` with each newline, carriage return and tab replaced by a space.
pub open spec fn sanitized(s: Seq<char>) -> Seq<char> {
    s.map_values(|c: char| if is_control(c) { ' ' } else { c })
}

/// The lines joined with a newline between each two.
pub open spec fn join_lines(lines: Seq<Seq<char>>) -> Seq<char>
    decreases lines.len(),
{
    if lines.len() == 0 {
        Seq::empty()
    } else if lines.len() == 1 {
        lines[0]
    } else {
        join_lines(lines.drop_last()) + seq!['\n'] + lines.last()
    }
}

pub open spec fn plain_line(c: CandView) -> Seq<char> {
    sanitized(c.0)
}

pub open spec fn described_line(c: CandView) -> Seq<char> {
    match c.1 {
        Some(d) => sanitized(c.0) + seq!['\t'] + sanitized(d),
        None => sanitized(c.0),
    }
}

/// The text written for `cs` in the given format.
pub open spec fn rendered(format: CompletionOutputFormat, cs: Seq<CandView>) -> Seq<char> {
    match format {
        CompletionOutputFormat::Plain => join_lines(cs.map_values(|c: CandView| plain_line(c))),
        CompletionOutputFormat::Describe => join_lines(
            cs.map_values(|c: CandView| described_line(c)),
        ),
    }
}

proof fn lemma_lines_push(v: Seq<String>, s: String)
    ensures
        v.push(s).map_values(|t: String| t@) == v.map_values(|t: String| t@).push(s@),
{
    assert(v.push(s).map_values(|t: String| t@) =~= v.map_values(|t: String| t@).push(s@));
}

/// Replaces newline, carriage return and tab with a space.
pub fn sanitize_segment(value: &str) -> (r: String)
    ensures
        r@ == sanitized(value@),
{
    let n = value.unicode_len();
    let mut out = String::new();
    let mut i: usize = 0;
    while i < n
        invariant
            n == value@.len(),
            i <= n,
            out@ == sanitized(value@.subrange(0, i as int)),
        decreases n - i,
    {
        let c = value.get_char(i);
        if c == '\n' || c == '\r' || c == '\t' {
            let space = " ";
            proof {
                reveal_strlit(" ");
            }
            out.append(space);
        } else {
            out.append(value.substring_char(i, i + 1));
        }
        assert(sanitized(value@.subrange(0, i + 1)) =~= sanitized(value@.subrange(0, i as int))
            + seq![if is_control(c) { ' ' } else { c }]);
        i = i + 1;
    }
    assert(value@.subrange(0, n as int) =~= value@);
    out
}

/// A value as written for the given shell.
pub fn escape_for_shell(shell: CompletionShell, value: &str) -> (r: String)
    ensures
        r@ == sanitized(value@),
{
    let sanitized = sanitize_segment(value);
    match shell {
        CompletionShell::Bash | CompletionShell::Zsh => sanitized,
    }
}

/// The lines joined with a newline between each two.
pub fn join_with_newlines(lines: &Vec<String>) -> (r: String)
    ensures
        r@ == join_lines(lines@.map_values(|s: String| s@)),
{
    let ghost ls = lines@.map_values(|s: String| s@);
    let mut out = String::new();
    let mut i: usize = 0;
    while i < lines.len()
        invariant
            ls == lines@.map_values(|s: String| s@),
            i <= lines@.len(),
            out@ == join_lines(ls.subrange(0, i as int)),
        decreases lines@.len() - i,
    {
        let ghost pre = ls.subrange(0, i as int);
        assert(ls.subrange(0, i + 1).drop_last() =~= pre);
        if i > 0 {
            let nl = "\n";
            proof {
                reveal_strlit("\n");
            }
            out.append(nl);
        }
        out.append(lines[i].as_str());
        i = i + 1;
    }
    assert(ls.subrange(0, i as int) =~= ls);
    out
}

fn render_plain(shell: CompletionShell, candidates: &[Candidate]) -> (r: String)
    ensures
        r@ == rendered(CompletionOutputFormat::Plain, cands_view(candidates@)),
{
    let ghost cs = cands_view(candidates@);
    let mut lines: Vec<String> = Vec::with_capacity(candidates.len());
    let mut i: usize = 0;
    while i < candidates.len()
        invariant
            cs == cands_view(candidates@),
            i <= candidates@.len(),
            lines@.map_values(|s: String| s@) == cs.subrange(0, i as int).map_values(
                |c: CandView| plain_line(c),
            ),
        decreases candidates@.len() - i,
    {
        let line = escape_for_shell(shell, candidates[i].value.as_str());
        proof {
            lemma_lines_push(lines@, line);
            assert(cs.subrange(0, i + 1).map_values(|c: CandView| plain_line(c)) =~= cs.subrange(
                0,
                i as int,
            ).map_values(|c: CandView| plain_line(c)).push(plain_line(cs[i as int])));
        }
        lines.push(line);
        i = i + 1;
    }
    assert(cs.subrange(0, i as int) =~= cs);
    join_with_newlines(&lines)
}

fn render_described(shell: CompletionShell, candidates: &[Candidate]) -> (r: String)
    ensures
        r@ == rendered(CompletionOutputFormat::Describe, cands_view(candidates@)),
{
    let ghost cs = cands_view(candidates@);
    let mut lines: Vec<String> = Vec::with_capacity(candidates.len());
    let mut i: usize = 0;
    while i < candidates.len()
        invariant
            cs == cands_view(candidates@),
            i <= candidates@.len(),
            lines@.map_values(|s: String| s@) == cs.subrange(0, i as int).map_values(
                |c: CandView| described_line(c),
            ),
        decreases candidates@.len() - i,
    {
        let value = escape_for_shell(shell, candidates[i].value.as_str());
        let line = match &candidates[i].description {
            Some(description) => {
                let mut l = value;
                let tab = "\t";
                proof {
                    reveal_strlit("\t");
                }
                l.append(tab);
                let d = sanitize_segment(description.as_str());
                l.append(d.as_str());
                assert(cs[i as int].1 == Some(description@));
                assert(l@ =~= described_line(cs[i as int]));
                l
            },
            None => value,
        };
        proof {
            lemma_lines_push(lines@, line);
            assert(cs.subrange(0, i + 1).map_values(|c: CandView| described_line(c)) =~= cs.subrange(
                0,
                i as int,
            ).map_values(|c: CandView| described_line(c)).push(described_line(cs[i as int])));
        }
        lines.push(line);
        i = i + 1;
    }
    assert(cs.subrange(0, i as int) =~= cs);
    join_with_newlines(&lines)
}

/// The text for `candidates`: in `Plain`, one sanitized value per line; in
/// `Describe`, the value and, where there is one, a tab and the sanitized
/// description.
pub fn render(
    shell: CompletionShell,
    format: CompletionOutputFormat,
    candidates: &[Candidate],
) -> (r: String)
    ensures
        r@ == rendered(format, cands_view(candidates@)),
{
    match format {
        CompletionOutputFormat::Plain => render_plain(shell, candidates),
        CompletionOutputFormat::Describe => render_described(shell, candidates),
    }
}

} // verus!
