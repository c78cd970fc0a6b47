//! The runtime backend that an operation targets, and how a command line and
//! the environment select it.
use vstd::prelude::*;
use vstd::string::*;
use crate::text::{words_view, lemma_words_push, normalized, normalize, str_eq, has_prefix, starts_with, after, concat, suffix_from};

verus! {

/// Which realization a workspace operation targets.
#[derive(Debug, Clone, Copy, PartialEq, Eq, Structural)]
pub enum Runtime {
    Container,
    Host,
}

/// The error text for a runtime value that names no backend.
pub open spec fn runtime_value_error(raw: Seq<char>) -> Seq<char> {
    if normalized(raw).len() == 0 {
        "invalid runtime value: empty (expected: container|host)"@
    } else {
        "invalid runtime value: "@ + raw + " (expected: container|host)"@
    }
}

/// What a runtime value selects: case and surrounding whitespace are ignored,
/// `container`/`docker` and `host`/`native` are accepted.
pub open spec fn runtime_value(raw: Seq<char>) -> Result<Runtime, Seq<char>> {
    let n = normalized(raw);
    if n == "container"@ || n == "docker"@ {
        Ok(Runtime::Container)
    } else if n == "host"@ || n == "native"@ {
        Ok(Runtime::Host)
    } else {
        Err(runtime_value_error(raw))
    }
}

pub open spec fn result_view<T>(r: Result<T, String>) -> Result<T, Seq<char>> {
    match r {
        Ok(v) => Ok(v),
        Err(e) => Err(e@),
    }
}

/// Reads a runtime value.
pub fn parse_runtime_value(raw: &str) -> (r: Result<Runtime, String>)
    ensures
        result_view(r) == runtime_value(raw@),
{
    let n = normalize(raw);
    let ns = n.as_str();
    if str_eq(ns, "container") || str_eq(ns, "docker") {
        Ok(Runtime::Container)
    } else if str_eq(ns, "host") || str_eq(ns, "native") {
        Ok(Runtime::Host)
    } else if ns.unicode_len() == 0 {
        Err(String::from_str("invalid runtime value: empty (expected: container|host)"))
    } else {
        let mut e = concat("invalid runtime value: ", raw);
        e.append(" (expected: container|host)");
        Err(e)
    }
}

/// The outcome of reading `--runtime` flags from `args[i..]`: the runtime the
/// last flag selects, if any, and the arguments that are not runtime flags.
pub open spec fn later_wins(
    flag: Option<Runtime>,
    kept: Seq<Seq<char>>,
    rest: Result<(Option<Runtime>, Seq<Seq<char>>), Seq<char>>,
) -> Result<(Option<Runtime>, Seq<Seq<char>>), Seq<char>> {
    match rest {
        Err(e) => Err(e),
        Ok((later, tail)) => Ok((if later is Some { later } else { flag }, kept + tail)),
    }
}

/// Reads `--runtime <value>` and `--runtime=<value>` from `args[i..]`,
/// failing on the first missing or unknown value.
pub open spec fn runtime_flag_scan(args: Seq<Seq<char>>, i: int) -> Result<
    (Option<Runtime>, Seq<Seq<char>>),
    Seq<char>,
>
    decreases args.len() - i,
{
    if i < 0 || i >= args.len() {
        Ok((None, seq![]))
    } else if args[i] == "--runtime"@ {
        if i + 1 >= args.len() {
            Err("missing value for --runtime"@)
        } else {
            match runtime_value(args[i + 1]) {
                Err(e) => Err(e),
                Ok(rt) => later_wins(Some(rt), seq![], runtime_flag_scan(args, i + 2)),
            }
        }
    } else if starts_with(args[i], "--runtime="@) {
        match runtime_value(after(args[i], "--runtime="@)) {
            Err(e) => Err(e),
            Ok(rt) => later_wins(Some(rt), seq![], runtime_flag_scan(args, i + 1)),
        }
    } else {
        later_wins(None, seq![args[i]], runtime_flag_scan(args, i + 1))
    }
}

/// The runtime an operation targets, and its arguments without the runtime
/// flags: the last flag wins; without one, the primary environment value,
/// then the alias one, then `Container`.
pub open spec fn resolved_runtime(
    args: Seq<Seq<char>>,
    env_primary: Option<Seq<char>>,
    env_alias: Option<Seq<char>>,
) -> Result<(Runtime, Seq<Seq<char>>), Seq<char>> {
    match runtime_flag_scan(args, 0) {
        Err(e) => Err(e),
        Ok((Some(rt), cleaned)) => Ok((rt, cleaned)),
        Ok((None, cleaned)) => {
            let env = if env_primary is Some {
                env_primary
            } else {
                env_alias
            };
            match env {
                Some(v) => match runtime_value(v) {
                    Ok(rt) => Ok((rt, cleaned)),
                    Err(e) => Err(e),
                },
                None => Ok((Runtime::Container, cleaned)),
            }
        },
    }
}

proof fn lemma_later_wins_assoc(
    f1: Option<Runtime>,
    k1: Seq<Seq<char>>,
    f2: Option<Runtime>,
    k2: Seq<Seq<char>>,
    r: Result<(Option<Runtime>, Seq<Seq<char>>), Seq<char>>,
)
    ensures
        later_wins(f1, k1, later_wins(f2, k2, r)) == later_wins(
            if f2 is Some {
                f2
            } else {
                f1
            },
            k1 + k2,
            r,
        ),
{
    match r {
        Ok((later, tail)) => {
            assert(k1 + (k2 + tail) =~= (k1 + k2) + tail);
        },
        Err(_) => {},
    }
}

/// Takes the runtime flags out of `args` and resolves the runtime backend,
/// falling back to the two environment values (primary first) and then to
/// `Container`.
pub fn resolve_runtime(args: &[String], env_primary: Option<&str>, env_alias: Option<&str>) -> (r:
    Result<(Runtime, Vec<String>), String>)
    ensures
        match r {
            Ok((rt, cleaned)) => resolved_runtime(
                words_view(args@),
                match env_primary {
                    Some(v) => Some(v@),
                    None => None,
                },
                match env_alias {
                    Some(v) => Some(v@),
                    None => None,
                },
            ) == Ok::<(Runtime, Seq<Seq<char>>), Seq<char>>((rt, words_view(cleaned@))),
            Err(e) => resolved_runtime(
                words_view(args@),
                match env_primary {
                    Some(v) => Some(v@),
                    None => None,
                },
                match env_alias {
                    Some(v) => Some(v@),
                    None => None,
                },
            ) == Err::<(Runtime, Seq<Seq<char>>), Seq<char>>(e@),
        },
{
    let ghost a = words_view(args@);
    let mut flag: Option<Runtime> = None;
    let mut cleaned: Vec<String> = Vec::new();
    let mut idx: usize = 0;
    while idx < args.len()
        invariant
            a == words_view(args@),
            idx <= args@.len(),
            runtime_flag_scan(a, 0) == later_wins(flag, words_view(cleaned@), runtime_flag_scan(a, idx as int)),
        decreases args@.len() - idx,
    {
        let current = args[idx].as_str();
        proof {
            lemma_later_wins_assoc(flag, words_view(cleaned@), None, seq![], runtime_flag_scan(a, idx + 1));
        }
        if str_eq(current, "--runtime") {
            if idx + 1 >= args.len() {
                return Err(String::from_str("missing value for --runtime"));
            }
            match parse_runtime_value(args[idx + 1].as_str()) {
                Err(e) => {
                    return Err(e);
                },
                Ok(rt) => {
                    proof {
                        lemma_later_wins_assoc(flag, words_view(cleaned@), Some(rt), seq![], runtime_flag_scan(a, idx + 2));
                        assert(words_view(cleaned@) + seq![] =~= words_view(cleaned@));
                    }
                    flag = Some(rt);
                    idx = idx + 2;
                },
            }
        } else if has_prefix(current, "--runtime=") {
            proof {
                reveal_strlit("--runtime=");
            }
            let value = suffix_from(current, 10);
            match parse_runtime_value(value.as_str()) {
                Err(e) => {
                    return Err(e);
                },
                Ok(rt) => {
                    proof {
                        lemma_later_wins_assoc(flag, words_view(cleaned@), Some(rt), seq![], runtime_flag_scan(a, idx + 1));
                        assert(words_view(cleaned@) + seq![] =~= words_view(cleaned@));
                    }
                    flag = Some(rt);
                    idx = idx + 1;
                },
            }
        } else {
            proof {
                lemma_later_wins_assoc(flag, words_view(cleaned@), None, seq![a[idx as int]], runtime_flag_scan(a, idx + 1));
                lemma_words_push(cleaned@, args@[idx as int]);
                assert(words_view(cleaned@) + seq![a[idx as int]] =~= words_view(cleaned@).push(a[idx as int]));
            }
            cleaned.push(args[idx].clone());
            idx = idx + 1;
        }
    }
    assert(words_view(cleaned@) + seq![] =~= words_view(cleaned@));
    match flag {
        Some(rt) => Ok((rt, cleaned)),
        None => {
            let env = match env_primary {
                Some(v) => Some(v),
                None => env_alias,
            };
            match env {
                Some(v) => match parse_runtime_value(v) {
                    Ok(rt) => Ok((rt, cleaned)),
                    Err(e) => Err(e),
                },
                None => Ok((Runtime::Container, cleaned)),
            }
        },
    }
}

} // verus!
