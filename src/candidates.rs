//! Completion candidates, the static building blocks that produce them, and
//! the final filter that prefix-matches, deduplicates and orders them.
use vstd::prelude::*;
use vstd::string::*;
use crate::text::{has_prefix, concat, starts_with};

verus! {

/// One completion suggestion.
#[derive(Debug, Clone)]
pub struct Candidate {
    pub value: String,
    pub description: Option<String>,
}

/// A candidate as a pair of character sequences.
pub type CandView = (Seq<char>, Option<Seq<char>>);

pub open spec fn opt_view(o: Option<String>) -> Option<Seq<char>> {
    match o {
        Some(s) => Some(s@),
        None => None,
    }
}

impl View for Candidate {
    type V = CandView;

    open spec fn view(&self) -> CandView {
        (self.value@, opt_view(self.description))
    }
}

pub open spec fn cands_view(v: Seq<Candidate>) -> Seq<CandView> {
    v.map_values(|c: Candidate| c@)
}

pub proof fn lemma_cands_push(v: Seq<Candidate>, c: Candidate)
    ensures
        cands_view(v.push(c)) == cands_view(v).push(c@),
{
    assert(cands_view(v.push(c)) =~= cands_view(v).push(c@));
}

pub open spec fn strs_view(v: Seq<&str>) -> Seq<Seq<char>> {
    v.map_values(|s: &str| s@)
}

pub open spec fn pairs_view(v: Seq<(&str, &str)>) -> Seq<(Seq<char>, Seq<char>)> {
    v.map_values(|p: (&str, &str)| (p.0@, p.1@))
}

/// Candidates without descriptions, one per value.
pub open spec fn plain(values: Seq<Seq<char>>) -> Seq<CandView> {
    values.map_values(|v: Seq<char>| (v, None::<Seq<char>>))
}

/// Candidates with descriptions, one per `(value, description)` pair.
pub open spec fn described(pairs: Seq<(Seq<char>, Seq<char>)>) -> Seq<CandView> {
    pairs.map_values(|p: (Seq<char>, Seq<char>)| (p.0, Some(p.1)))
}

/// Each value with `prefix` put in front of it.
pub open spec fn prefixed(prefix: Seq<char>, values: Seq<Seq<char>>) -> Seq<Seq<char>> {
    values.map_values(|v: Seq<char>| prefix + v)
}

/// Each pair with `prefix` put in front of its value.
pub open spec fn prefixed_pairs(prefix: Seq<char>, pairs: Seq<(Seq<char>, Seq<char>)>) -> Seq<
    (Seq<char>, Seq<char>),
> {
    pairs.map_values(|p: (Seq<char>, Seq<char>)| (prefix + p.0, p.1))
}

/// The options accepted by every command line, with their descriptions.
pub open spec fn global_options() -> Seq<(Seq<char>, Seq<char>)> {
    seq![
        ("--runtime"@, "Select runtime backend (container or host)"@),
        ("--help"@, "Show help for command"@),
        ("--version"@, "Show CLI version"@),
        ("-h"@, "Show help for command"@),
        ("-V"@, "Show CLI version"@),
    ]
}

impl Candidate {
    /// A candidate without a description.
    pub fn value(value: &str) -> (r: Candidate)
        ensures
            r@ == (value@, None::<Seq<char>>),
    {
        Candidate { value: String::from_str(value), description: None }
    }

    /// A candidate with a description.
    pub fn described(value: &str, description: &str) -> (r: Candidate)
        ensures
            r@ == (value@, Some(description@)),
    {
        Candidate {
            value: String::from_str(value),
            description: Some(String::from_str(description)),
        }
    }
}

/// Appends one undescribed candidate per value.
pub fn push_values(target: &mut Vec<Candidate>, values: &[&str])
    ensures
        cands_view(final(target)@) == cands_view(old(target)@) + plain(strs_view(values@)),
{
    let ghost start = cands_view(target@);
    let mut i: usize = 0;
    while i < values.len()
        invariant
            i <= values@.len(),
            cands_view(target@) == start + plain(strs_view(values@.subrange(0, i as int))),
        decreases values@.len() - i,
    {
        let c = Candidate::value(values[i]);
        proof {
            lemma_cands_push(target@, c);
        }
        target.push(c);
        assert(plain(strs_view(values@.subrange(0, i + 1))) =~= plain(
            strs_view(values@.subrange(0, i as int)),
        ).push((values@[i as int]@, None::<Seq<char>>)));
        assert(cands_view(target@) =~= start + plain(strs_view(values@.subrange(0, i + 1))));
        i = i + 1;
    }
    assert(values@.subrange(0, i as int) =~= values@);
}

/// Appends one described candidate per `(value, description)` pair.
pub fn push_described_values(target: &mut Vec<Candidate>, values: &[(&str, &str)])
    ensures
        cands_view(final(target)@) == cands_view(old(target)@) + described(pairs_view(values@)),
{
    let ghost start = cands_view(target@);
    let mut i: usize = 0;
    while i < values.len()
        invariant
            i <= values@.len(),
            cands_view(target@) == start + described(pairs_view(values@.subrange(0, i as int))),
        decreases values@.len() - i,
    {
        let (v, d) = values[i];
        let c = Candidate::described(v, d);
        proof {
            lemma_cands_push(target@, c);
        }
        target.push(c);
        assert(described(pairs_view(values@.subrange(0, i + 1))) =~= described(
            pairs_view(values@.subrange(0, i as int)),
        ).push((values@[i as int].0@, Some(values@[i as int].1@))));
        assert(cands_view(target@) =~= start + described(
            pairs_view(values@.subrange(0, i + 1)),
        ));
        i = i + 1;
    }
    assert(values@.subrange(0, i as int) =~= values@);
}

/// Appends the global options.
pub fn push_global_options(target: &mut Vec<Candidate>)
    ensures
        cands_view(final(target)@) == cands_view(old(target)@) + described(global_options()),
{
    let table = [
        ("--runtime", "Select runtime backend (container or host)"),
        ("--help", "Show help for command"),
        ("--version", "Show CLI version"),
        ("-h", "Show help for command"),
        ("-V", "Show CLI version"),
    ];
    push_described_values(target, &table);
    assert(pairs_view(table@) =~= global_options());
}

/// Undescribed candidates, each value behind `prefix`.
pub fn with_prefix(prefix: &str, values: &[&str]) -> (r: Vec<Candidate>)
    ensures
        cands_view(r@) == plain(prefixed(prefix@, strs_view(values@))),
{
    let mut out: Vec<Candidate> = Vec::with_capacity(values.len());
    let mut i: usize = 0;
    while i < values.len()
        invariant
            i <= values@.len(),
            cands_view(out@) == plain(prefixed(prefix@, strs_view(values@.subrange(0, i as int)))),
        decreases values@.len() - i,
    {
        let v = concat(prefix, values[i]);
        let c = Candidate { value: v, description: None };
        proof {
            lemma_cands_push(out@, c);
        }
        out.push(c);
        assert(cands_view(out@) =~= plain(
            prefixed(prefix@, strs_view(values@.subrange(0, i + 1))),
        ));
        i = i + 1;
    }
    assert(values@.subrange(0, i as int) =~= values@);
    out
}

/// Described candidates, each value behind `prefix`.
pub fn with_described_prefix(prefix: &str, values: &[(&str, &str)]) -> (r: Vec<Candidate>)
    ensures
        cands_view(r@) == described(prefixed_pairs(prefix@, pairs_view(values@))),
{
    let mut out: Vec<Candidate> = Vec::with_capacity(values.len());
    let mut i: usize = 0;
    while i < values.len()
        invariant
            i <= values@.len(),
            cands_view(out@) == described(
                prefixed_pairs(prefix@, pairs_view(values@.subrange(0, i as int))),
            ),
        decreases values@.len() - i,
    {
        let (v, d) = values[i];
        let value = concat(prefix, v);
        let c = Candidate { value, description: Some(String::from_str(d)) };
        proof {
            lemma_cands_push(out@, c);
        }
        out.push(c);
        assert(cands_view(out@) =~= described(
            prefixed_pairs(prefix@, pairs_view(values@.subrange(0, i + 1))),
        ));
        i = i + 1;
    }
    assert(values@.subrange(0, i as int) =~= values@);
    out
}

/// Lexicographic order on characters: the order of `str`'s `Ord`.
pub open spec fn lex_lt(a: Seq<char>, b: Seq<char>) -> bool
    decreases a.len(),
{
    if b.len() == 0 {
        false
    } else if a.len() == 0 {
        true
    } else if a[0] != b[0] {
        a[0] < b[0]
    } else {
        lex_lt(a.drop_first(), b.drop_first())
    }
}

pub proof fn lemma_lex_irreflexive(a: Seq<char>)
    ensures
        !lex_lt(a, a),
    decreases a.len(),
{
    if a.len() > 0 {
        lemma_lex_irreflexive(a.drop_first());
    }
}

pub proof fn lemma_lex_transitive(a: Seq<char>, b: Seq<char>, c: Seq<char>)
    requires
        lex_lt(a, b),
        lex_lt(b, c),
    ensures
        lex_lt(a, c),
    decreases a.len(),
{
    if a.len() > 0 && a[0] == b[0] && b[0] == c[0] {
        lemma_lex_transitive(a.drop_first(), b.drop_first(), c.drop_first());
    }
}

pub proof fn lemma_lex_total(a: Seq<char>, b: Seq<char>)
    requires
        a != b,
    ensures
        lex_lt(a, b) || lex_lt(b, a),
    decreases a.len(),
{
    if a.len() > 0 && b.len() > 0 && a[0] == b[0] {
        if a.drop_first() == b.drop_first() {
            assert(a =~= seq![a[0]] + a.drop_first());
            assert(b =~= seq![b[0]] + b.drop_first());
        }
        lemma_lex_total(a.drop_first(), b.drop_first());
    } else if a.len() == 0 && b.len() == 0 {
        assert(a =~= b);
    }
}

/// Three-way comparison in the order of `lex_lt`: -1, 0 or 1.
pub fn compare(a: &str, b: &str) -> (r: i8)
    ensures
        (r == -1 && lex_lt(a@, b@)) || (r == 0 && a@ == b@) || (r == 1 && lex_lt(b@, a@)),
{
    let n = a.unicode_len();
    let m = b.unicode_len();
    let mut i: usize = 0;
    assert(a@.subrange(0, n as int) =~= a@);
    assert(b@.subrange(0, m as int) =~= b@);
    while i < n && i < m && a.get_char(i) == b.get_char(i)
        invariant
            n == a@.len(),
            m == b@.len(),
            i <= n,
            i <= m,
            a@.subrange(0, i as int) == b@.subrange(0, i as int),
            lex_lt(a@, b@) == lex_lt(a@.subrange(i as int, n as int), b@.subrange(i as int, m as int)),
            lex_lt(b@, a@) == lex_lt(b@.subrange(i as int, m as int), a@.subrange(i as int, n as int)),
        decreases n - i,
    {
        let ghost sa = a@.subrange(i as int, n as int);
        let ghost sb = b@.subrange(i as int, m as int);
        assert(sa.drop_first() =~= a@.subrange(i + 1, n as int));
        assert(sb.drop_first() =~= b@.subrange(i + 1, m as int));
        assert(a@.subrange(0, i + 1) =~= a@.subrange(0, i as int).push(a@[i as int]));
        assert(b@.subrange(0, i + 1) =~= b@.subrange(0, i as int).push(b@[i as int]));
        i = i + 1;
    }
    if i == n && i == m {
        assert(a@ =~= b@);
        0
    } else if i == n {
        -1
    } else if i == m {
        1
    } else if a.get_char(i) < b.get_char(i) {
        -1
    } else {
        1
    }
}

/// Some candidate of `cs` has the value `v`.
pub open spec fn has_value(cs: Seq<CandView>, v: Seq<char>) -> bool {
    exists|i: int| 0 <= i < cs.len() && cs[i].0 == v
}

/// The first description given to the value `v` in `cs`, in order.
pub open spec fn first_desc(cs: Seq<CandView>, v: Seq<char>) -> Option<Seq<char>>
    decreases cs.len(),
{
    if cs.len() == 0 {
        None
    } else if first_desc(cs.drop_last(), v) is Some {
        first_desc(cs.drop_last(), v)
    } else if cs.last().0 == v {
        cs.last().1
    } else {
        None
    }
}

/// Values strictly ascending, hence pairwise distinct.
pub open spec fn sorted_strict(r: Seq<CandView>) -> bool {
    forall|i: int, j: int| 0 <= i < j < r.len() ==> lex_lt(r[i].0, r[j].0)
}

/// `r` is `cs` reduced to the candidates whose value starts with `p`, one per
/// value, in ascending order of value, each with the first description that
/// `cs` gives its value.
pub open spec fn is_finalization(cs: Seq<CandView>, p: Seq<char>, r: Seq<CandView>) -> bool {
    &&& sorted_strict(r)
    &&& forall|v: Seq<char>| #[trigger]
        has_value(r, v) <==> (has_value(cs, v) && starts_with(v, p))
    &&& forall|i: int| 0 <= i < r.len() ==> r[i].1 == first_desc(cs, r[i].0)
}

pub proof fn lemma_has_value_push(cs: Seq<CandView>, x: CandView, v: Seq<char>)
    ensures
        has_value(cs.push(x), v) == (has_value(cs, v) || x.0 == v),
{
    if has_value(cs, v) {
        let i = choose|i: int| 0 <= i < cs.len() && cs[i].0 == v;
        assert(cs.push(x)[i].0 == v);
    }
    if x.0 == v {
        assert(cs.push(x)[cs.len() as int].0 == v);
    }
    if has_value(cs.push(x), v) {
        let i = choose|i: int| 0 <= i < cs.push(x).len() && cs.push(x)[i].0 == v;
        if i < cs.len() {
            assert(cs[i].0 == v);
        }
    }
}

pub proof fn lemma_first_desc_push(cs: Seq<CandView>, x: CandView, v: Seq<char>)
    ensures
        first_desc(cs.push(x), v) == (if first_desc(cs, v) is Some {
            first_desc(cs, v)
        } else if x.0 == v {
            x.1
        } else {
            None
        }),
{
    assert(cs.push(x).drop_last() =~= cs);
}

pub proof fn lemma_first_desc_absent(cs: Seq<CandView>, v: Seq<char>)
    requires
        !has_value(cs, v),
    ensures
        first_desc(cs, v) is None,
    decreases cs.len(),
{
    if cs.len() > 0 {
        assert(cs =~= cs.drop_last().push(cs.last()));
        lemma_has_value_push(cs.drop_last(), cs.last(), v);
        lemma_first_desc_absent(cs.drop_last(), v);
    }
}

proof fn lemma_cands_insert(v: Seq<Candidate>, j: int, c: Candidate)
    requires
        0 <= j <= v.len(),
    ensures
        cands_view(v.insert(j, c)) == cands_view(v).insert(j, c@),
{
    assert(cands_view(v.insert(j, c)) =~= cands_view(v).insert(j, c@));
}

proof fn lemma_cands_update(v: Seq<Candidate>, j: int, c: Candidate)
    requires
        0 <= j < v.len(),
    ensures
        cands_view(v.update(j, c)) == cands_view(v).update(j, c@),
{
    assert(cands_view(v.update(j, c)) =~= cands_view(v).update(j, c@));
}

fn clone_description(d: &Option<String>) -> (r: Option<String>)
    ensures
        opt_view(r) == opt_view(*d),
{
    match d {
        Some(s) => Some(s.clone()),
        None => None,
    }
}

/// Keeps the candidates whose value starts with `prefix`, one per value (with
/// the first description seen for it), in ascending order of value.
pub fn finalize(candidates: Vec<Candidate>, prefix: &str) -> (r: Vec<Candidate>)
    ensures
        is_finalization(cands_view(candidates@), prefix@, cands_view(r@)),
{
    let ghost cs = cands_view(candidates@);
    let mut out: Vec<Candidate> = Vec::new();
    let mut i: usize = 0;
    while i < candidates.len()
        invariant
            cs == cands_view(candidates@),
            i <= candidates@.len(),
            is_finalization(cs.subrange(0, i as int), prefix@, cands_view(out@)),
        decreases candidates@.len() - i,
    {
        let ghost ci = cs.subrange(0, i as int);
        let ghost ov = cands_view(out@);
        let ghost x = cs[i as int];
        assert(cs.subrange(0, i + 1) =~= ci.push(x));
        assert forall|v: Seq<char>| #[trigger] has_value(ci.push(x), v) == (has_value(ci, v) || x.0 == v) by {
            lemma_has_value_push(ci, x, v);
        }
        assert forall|v: Seq<char>| #[trigger] first_desc(ci.push(x), v) == (if first_desc(ci, v) is Some {
            first_desc(ci, v)
        } else if x.0 == v {
            x.1
        } else {
            None
        }) by {
            lemma_first_desc_push(ci, x, v);
        }
        let c = &candidates[i];
        if has_prefix(c.value.as_str(), prefix) {
            let mut j: usize = 0;
            let mut stop = false;
            let mut ord: i8 = 1;
            while j < out.len() && !stop
                invariant
                    ov == cands_view(out@),
                    j <= out@.len(),
                    c@ == x,
                    forall|t: int| 0 <= t < j ==> lex_lt(ov[t].0, x.0),
                    stop ==> j < out@.len() && ((ord == 0 && ov[j as int].0 == x.0) || (ord == 1
                        && lex_lt(x.0, ov[j as int].0))),
                decreases out@.len() - j + (if stop { 0int } else { 1int }),
            {
                ord = compare(out[j].value.as_str(), c.value.as_str());
                if ord >= 0 {
                    stop = true;
                } else {
                    j = j + 1;
                }
            }
            if stop && ord == 0 {
                if out[j].description.is_none() && c.description.is_some() {
                    let nc = Candidate {
                        value: c.value.clone(),
                        description: clone_description(&c.description),
                    };
                    proof {
                        lemma_cands_update(out@, j as int, nc);
                    }
                    out.set(j, nc);
                }
                proof {
                    let nv = cands_view(out@);
                    assert forall|v: Seq<char>| #[trigger]
                        has_value(nv, v) <==> has_value(ov, v) by {
                        if has_value(nv, v) {
                            let k = choose|k: int| 0 <= k < nv.len() && nv[k].0 == v;
                            assert(ov[k].0 == v);
                        }
                        if has_value(ov, v) {
                            let k = choose|k: int| 0 <= k < ov.len() && ov[k].0 == v;
                            assert(nv[k].0 == v);
                        }
                    }
                    assert forall|k: int| 0 <= k < nv.len() implies nv[k].1 == first_desc(
                        ci.push(x),
                        nv[k].0,
                    ) by {
                        if k != j {
                            if k < j {
                                lemma_lex_irreflexive(ov[k].0);
                            } else {
                                lemma_lex_irreflexive(ov[j as int].0);
                            }
                        }
                    }
                }
            } else {
                let nc = Candidate {
                    value: c.value.clone(),
                    description: clone_description(&c.description),
                };
                proof {
                    lemma_cands_insert(out@, j as int, nc);
                    assert(!has_value(ov, x.0)) by {
                        if has_value(ov, x.0) {
                            let k = choose|k: int| 0 <= k < ov.len() && ov[k].0 == x.0;
                            lemma_lex_irreflexive(x.0);
                            if k >= j {
                                if k > j {
                                    lemma_lex_transitive(x.0, ov[j as int].0, ov[k].0);
                                }
                            }
                        }
                    }
                    lemma_first_desc_absent(ci, x.0);
                    assert forall|t: int| j <= t < ov.len() implies lex_lt(x.0, ov[t].0) by {
                        if t > j {
                            lemma_lex_transitive(x.0, ov[j as int].0, ov[t].0);
                        }
                    }
                }
                out.insert(j, nc);
                proof {
                    let nv = cands_view(out@);
                    assert(nv == ov.insert(j as int, x));
                    assert forall|a: int, b: int| 0 <= a < b < nv.len() implies lex_lt(
                        nv[a].0,
                        nv[b].0,
                    ) by {
                        if a < j && b > j {
                            lemma_lex_transitive(ov[a].0, x.0, ov[b - 1].0);
                        }
                    }
                    assert forall|v: Seq<char>| #[trigger]
                        has_value(nv, v) <==> (has_value(ov, v) || x.0 == v) by {
                        if has_value(nv, v) {
                            let k = choose|k: int| 0 <= k < nv.len() && nv[k].0 == v;
                            if k < j {
                                assert(ov[k].0 == v);
                            } else if k > j {
                                assert(ov[k - 1].0 == v);
                            }
                        }
                        if has_value(ov, v) {
                            let k = choose|k: int| 0 <= k < ov.len() && ov[k].0 == v;
                            if k < j {
                                assert(nv[k].0 == v);
                            } else {
                                assert(nv[k + 1].0 == v);
                            }
                        }
                        if x.0 == v {
                            assert(nv[j as int].0 == v);
                        }
                    }
                    assert forall|k: int| 0 <= k < nv.len() implies nv[k].1 == first_desc(
                        ci.push(x),
                        nv[k].0,
                    ) by {
                        if k < j {
                            lemma_lex_irreflexive(x.0);
                        } else if k > j {
                            lemma_lex_irreflexive(x.0);
                        }
                    }
                }
            }
        } else {
            proof {
                assert forall|k: int| 0 <= k < ov.len() implies ov[k].1 == first_desc(
                    ci.push(x),
                    ov[k].0,
                ) by {
                    assert(has_value(ov, ov[k].0));
                }
            }
        }
        i = i + 1;
    }
    assert(cs.subrange(0, i as int) =~= cs);
    out
}

/// No two candidates of a finalized list share a value.
pub proof fn lemma_finalized_values_distinct(cs: Seq<CandView>, p: Seq<char>, r: Seq<CandView>)
    requires
        is_finalization(cs, p, r),
    ensures
        forall|i: int, j: int| 0 <= i < r.len() && 0 <= j < r.len() && i != j ==> r[i].0 != r[j].0,
{
    assert forall|i: int, j: int| 0 <= i < r.len() && 0 <= j < r.len() && i != j implies r[i].0
        != r[j].0 by {
        lemma_lex_irreflexive(r[i].0);
    }
}

pub proof fn lemma_sorted_unique(r1: Seq<CandView>, r2: Seq<CandView>)
    requires
        sorted_strict(r1),
        sorted_strict(r2),
        forall|v: Seq<char>|
            #![trigger has_value(r1, v)]
            #![trigger has_value(r2, v)]
            has_value(r1, v) <==> has_value(r2, v),
    ensures
        r1.len() == r2.len(),
        forall|i: int| 0 <= i < r1.len() ==> r1[i].0 == r2[i].0,
    decreases r1.len(),
{
    if r1.len() == 0 {
        if r2.len() > 0 {
            assert(has_value(r2, r2[0].0));
        }
    } else {
        assert(has_value(r1, r1[0].0));
        let j = choose|j: int| 0 <= j < r2.len() && r2[j].0 == r1[0].0;
        assert(has_value(r2, r2[0].0));
        let k = choose|k: int| 0 <= k < r1.len() && r1[k].0 == r2[0].0;
        if j > 0 {
            lemma_lex_irreflexive(r1[0].0);
            if k > 0 {
                lemma_lex_transitive(r1[0].0, r1[k].0, r1[0].0);
            }
        }
        let t1 = r1.drop_first();
        let t2 = r2.drop_first();
        assert forall|v: Seq<char>|
            #![trigger has_value(t1, v)]
            #![trigger has_value(t2, v)]
            has_value(t1, v) <==> has_value(t2, v) by {
            if has_value(t1, v) {
                let a = choose|a: int| 0 <= a < t1.len() && t1[a].0 == v;
                assert(has_value(r1, v));
                let b = choose|b: int| 0 <= b < r2.len() && r2[b].0 == v;
                lemma_lex_irreflexive(v);
                if b == 0 {
                    assert(lex_lt(r1[0].0, r1[a + 1].0));
                }
                assert(t2[b - 1].0 == v);
            }
            if has_value(t2, v) {
                let a = choose|a: int| 0 <= a < t2.len() && t2[a].0 == v;
                assert(has_value(r2, v));
                let b = choose|b: int| 0 <= b < r1.len() && r1[b].0 == v;
                lemma_lex_irreflexive(v);
                if b == 0 {
                    assert(lex_lt(r2[0].0, r2[a + 1].0));
                }
                assert(t1[b - 1].0 == v);
            }
        }
        lemma_sorted_unique(t1, t2);
        assert forall|i: int| 0 <= i < r1.len() implies r1[i].0 == r2[i].0 by {
            if i > 0 {
                assert(t1[i - 1].0 == t2[i - 1].0);
            }
        }
    }
}

pub proof fn lemma_first_desc_single(r: Seq<CandView>, i: int)
    requires
        0 <= i < r.len(),
        forall|k: int| 0 <= k < r.len() && k != i ==> r[k].0 != r[i].0,
    ensures
        first_desc(r, r[i].0) == r[i].1,
    decreases r.len(),
{
    let d = r.drop_last();
    if i == r.len() - 1 {
        assert(!has_value(d, r[i].0));
        lemma_first_desc_absent(d, r[i].0);
    } else {
        lemma_first_desc_single(d, i);
    }
}

/// Finalizing an already finalized list against the same prefix changes
/// nothing.
pub proof fn lemma_finalize_idempotent(
    cs: Seq<CandView>,
    p: Seq<char>,
    r: Seq<CandView>,
    r2: Seq<CandView>,
)
    requires
        is_finalization(cs, p, r),
        is_finalization(r, p, r2),
    ensures
        r2 == r,
{
    assert forall|v: Seq<char>| #[trigger] has_value(r2, v) <==> has_value(r, v) by {
        if has_value(r, v) {
            assert(has_value(cs, v) && starts_with(v, p));
        }
    }
    lemma_sorted_unique(r2, r);
    lemma_finalized_values_distinct(cs, p, r);
    assert forall|i: int| 0 <= i < r.len() implies r2[i] == r[i] by {
        lemma_first_desc_single(r, i);
    }
    assert(r2 =~= r);
}

/// The candidates with `p` put in front of each value.
pub open spec fn with_value_prefix(p: Seq<char>, cs: Seq<CandView>) -> Seq<CandView> {
    cs.map_values(|c: CandView| (p + c.0, c.1))
}

pub proof fn lemma_lex_prefix(p: Seq<char>, a: Seq<char>, b: Seq<char>)
    ensures
        lex_lt(p + a, p + b) == lex_lt(a, b),
    decreases p.len(),
{
    if p.len() > 0 {
        assert((p + a).drop_first() =~= p.drop_first() + a);
        assert((p + b).drop_first() =~= p.drop_first() + b);
        lemma_lex_prefix(p.drop_first(), a, b);
    } else {
        assert(p + a =~= a);
        assert(p + b =~= b);
    }
}

pub proof fn lemma_prefix_cancel(p: Seq<char>, a: Seq<char>, b: Seq<char>)
    ensures
        (p + a == p + b) == (a == b),
        starts_with(p + a, p + b) == starts_with(a, b),
{
    if p + a == p + b {
        assert(a =~= (p + a).subrange(p.len() as int, (p + a).len() as int));
        assert(b =~= (p + b).subrange(p.len() as int, (p + b).len() as int));
    }
    if b.len() <= a.len() {
        assert((p + a).subrange(0, (p + b).len() as int) =~= p + a.subrange(0, b.len() as int));
        if starts_with(p + a, p + b) {
            assert(a.subrange(0, b.len() as int) =~= (p + a).subrange(0, (p + b).len() as int).subrange(
                p.len() as int,
                (p + b).len() as int,
            ));
            assert(b =~= (p + b).subrange(p.len() as int, (p + b).len() as int));
        }
    }
}

pub proof fn lemma_first_desc_prefix(p: Seq<char>, cs: Seq<CandView>, v: Seq<char>)
    ensures
        first_desc(with_value_prefix(p, cs), p + v) == first_desc(cs, v),
    decreases cs.len(),
{
    if cs.len() > 0 {
        assert(with_value_prefix(p, cs).drop_last() =~= with_value_prefix(p, cs.drop_last()));
        lemma_first_desc_prefix(p, cs.drop_last(), v);
        lemma_prefix_cancel(p, cs.last().0, v);
    }
}

/// A list has one finalization against a given word.
pub proof fn lemma_finalization_unique(cs: Seq<CandView>, x: Seq<char>, r1: Seq<CandView>, r2: Seq<CandView>)
    requires
        is_finalization(cs, x, r1),
        is_finalization(cs, x, r2),
    ensures
        r1 == r2,
{
    assert forall|v: Seq<char>|
        #![trigger has_value(r1, v)]
        #![trigger has_value(r2, v)]
        has_value(r1, v) <==> has_value(r2, v) by {
        if has_value(r1, v) {
            assert(has_value(cs, v) && starts_with(v, x));
        }
        if has_value(r2, v) {
            assert(has_value(cs, v) && starts_with(v, x));
        }
    }
    lemma_sorted_unique(r1, r2);
    assert(r1 =~= r2);
}

/// Putting `p` in front of every value, of the list and of its finalization,
/// gives the finalization against `p` followed by the word.
pub proof fn lemma_finalization_prefix_lift(cs: Seq<CandView>, x: Seq<char>, p: Seq<char>, r: Seq<CandView>)
    requires
        is_finalization(cs, x, r),
    ensures
        is_finalization(with_value_prefix(p, cs), p + x, with_value_prefix(p, r)),
{
    let r1 = with_value_prefix(p, r);
    let wcs = with_value_prefix(p, cs);
    assert forall|i: int, j: int| 0 <= i < j < r1.len() implies lex_lt(r1[i].0, r1[j].0) by {
        lemma_lex_prefix(p, r[i].0, r[j].0);
    }
    assert forall|v: Seq<char>| #[trigger]
        has_value(r1, v) <==> (has_value(wcs, v) && starts_with(v, p + x)) by {
        if has_value(r1, v) {
            let j = choose|j: int| 0 <= j < r1.len() && r1[j].0 == v;
            let u = r[j].0;
            assert(has_value(r, u));
            assert(has_value(cs, u) && starts_with(u, x));
            let i = choose|i: int| 0 <= i < cs.len() && cs[i].0 == u;
            assert(wcs[i].0 == v);
            lemma_prefix_cancel(p, u, x);
        }
        if has_value(wcs, v) && starts_with(v, p + x) {
            let i = choose|i: int| 0 <= i < wcs.len() && wcs[i].0 == v;
            let u = cs[i].0;
            lemma_prefix_cancel(p, u, x);
            assert(has_value(cs, u));
            assert(has_value(r, u));
            let j = choose|j: int| 0 <= j < r.len() && r[j].0 == u;
            assert(r1[j].0 == v);
        }
    }
    assert forall|i: int| 0 <= i < r1.len() implies r1[i].1 == first_desc(wcs, r1[i].0) by {
        lemma_first_desc_prefix(p, cs, r[i].0);
    }
}

} // verus!
