//! The matching engine: the best pattern of a repository for one line.
use vstd::prelude::*;
use crate::fields::{merge_fields, overrides, pairs_view};
use crate::pattern::{Pattern, Repository, uuids_unique};
use crate::program::{FieldToken, bind, lemma_match_complete, literal_chars, render, run_tokens, values_fit};
use crate::text::{chars_of, prefix_at};

verus! {

/// Whether the program of `p` consumes the whole of `line`.
pub open spec fn matches_line(p: Pattern, line: Seq<char>) -> bool {
    run_tokens(p.pattern.tokens@, line) is Some
}

/// The number of literal characters in the program of `p`.
pub open spec fn specificity(p: Pattern) -> nat {
    literal_chars(p.pattern.tokens@)
}

/// `a` is preferred to `b`: more literal characters, or as many and a smaller UUID.
pub open spec fn preferred(a: Pattern, b: Pattern) -> bool {
    specificity(a) > specificity(b) || (specificity(a) == specificity(b) && a.uuid < b.uuid)
}

/// The pattern at `i` matches `line` and no matching pattern is preferred to it.
pub open spec fn is_best(ps: Seq<Pattern>, line: Seq<char>, i: int) -> bool {
    &&& 0 <= i < ps.len()
    &&& matches_line(ps[i], line)
    &&& forall|j: int| 0 <= j < ps.len() && #[trigger] matches_line(ps[j], line) ==> !preferred(ps[j], ps[i])
}

/// The fields reported for a line matched by `p`: its default values, overridden
/// by what its program extracts.
pub open spec fn reported_fields(f: Seq<(Seq<char>, Seq<char>)>, p: Pattern, line: Seq<char>) -> bool {
    overrides(f, pairs_view(p.values@), run_tokens(p.pattern.tokens@, line)->0)
}

/// Whether the leading literal of `p`'s program, if it starts with one, begins `cs`.
fn leading_literal_fits(p: &Pattern, cs: &Vec<char>) -> (r: bool)
    ensures
        !r ==> !matches_line(*p, cs@),
{
    if p.pattern.tokens.len() == 0 {
        return true;
    }
    match &p.pattern.tokens[0] {
        FieldToken::Literal(l) => {
            let lc = chars_of(l.as_str());
            let ok = prefix_at(&lc, cs, 0);
            assert(cs@.subrange(0, lc@.len() as int) =~= cs@.take(lc@.len() as int));
            ok
        },
        _ => true,
    }
}

/// Matches `line` against every pattern of `repo`: the UUID of the best
/// matching pattern and its reported fields, or `None` when none matches.
pub fn match_line(repo: &Repository, line: &str) -> (r: Option<(u128, Vec<(String, String)>)>)
    requires
        repo.wf(),
    ensures
        match r {
            None => forall|i: int| 0 <= i < repo@.len() ==> !#[trigger] matches_line(repo@[i], line@),
            Some(res) => exists|i: int|
                #[trigger] is_best(repo@, line@, i) && res.0 == repo@[i].uuid && reported_fields(
                    pairs_view(res.1@),
                    repo@[i],
                    line@,
                ),
        },
{
    let cs = chars_of(line);
    let ghost ps = repo@;
    let n = repo.len();
    let mut best: Option<(usize, Vec<(String, String)>, usize)> = None;
    let mut i: usize = 0;
    while i < n
        invariant
            n == ps.len(),
            ps == repo@,
            uuids_unique(ps),
            cs@ == line@,
            i <= n,
            match best {
                None => forall|j: int| 0 <= j < i ==> !#[trigger] matches_line(ps[j], line@),
                Some(b) => {
                    &&& b.0 < i
                    &&& matches_line(ps[b.0 as int], line@)
                    &&& run_tokens(ps[b.0 as int].pattern.tokens@, line@) == Some(pairs_view(b.1@))
                    &&& b.2 == specificity(ps[b.0 as int])
                    &&& forall|j: int| 0 <= j < i && #[trigger] matches_line(ps[j], line@) ==> !preferred(ps[j], ps[b.0 as int])
                },
            },
        decreases n - i,
    {
        let p = repo.get(i);
        if leading_literal_fits(p, &cs) {
            match p.pattern.execute(line) {
                Some((fields, lits)) => {
                    let take = match &best {
                        None => true,
                        Some(b) => {
                            let q = repo.get(b.0);
                            lits > b.2 || (lits == b.2 && p.uuid < q.uuid)
                        },
                    };
                    if take {
                        proof {
                            match best {
                                None => {},
                                Some(b) => {
                                    assert forall|j: int| 0 <= j <= i && #[trigger] matches_line(ps[j], line@) implies !preferred(ps[j], ps[i as int]) by {
                                        if j < i {
                                            assert(!preferred(ps[j], ps[b.0 as int]));
                                        }
                                    }
                                },
                            }
                        }
                        best = Some((i, fields, lits));
                    } else {
                        proof {
                            let b = best->0;
                            assert(uuids_unique(ps));
                            assert(ps[b.0 as int].uuid != ps[i as int].uuid);
                        }
                    }
                },
                None => {},
            }
        }
        i = i + 1;
    }
    match best {
        None => None,
        Some((k, fields, _)) => {
            let p = repo.get(k);
            let merged = merge_fields(&p.values, fields);
            assert(is_best(ps, line@, k as int));
            Some((p.uuid, merged))
        },
    }
}

/// Among patterns with distinct UUIDs, at most one is best for a line: the
/// choice of winner never depends on anything but the repository and the line.
pub proof fn lemma_best_unique(ps: Seq<Pattern>, line: Seq<char>, i: int, j: int)
    requires
        uuids_unique(ps),
        is_best(ps, line, i),
        is_best(ps, line, j),
    ensures
        i == j,
{
    if i != j {
        assert(!preferred(ps[j], ps[i]));
        assert(!preferred(ps[i], ps[j]));
        assert(ps[i].uuid != ps[j].uuid);
    }
}

/// In a repository of one pattern, a line spelled from the pattern's literals and
/// values that its extractors take whole is matched by that pattern, which
/// extracts exactly those values under their names.
pub proof fn lemma_single_pattern_match(p: Pattern, vals: Seq<Seq<char>>)
    requires
        values_fit(p.pattern.tokens@, vals),
    ensures
        is_best(seq![p], render(p.pattern.tokens@, vals), 0),
        run_tokens(p.pattern.tokens@, render(p.pattern.tokens@, vals)) == Some(bind(p.pattern.tokens@, vals)),
{
    lemma_match_complete(p.pattern.tokens@, vals);
    let ps = seq![p];
    let line = render(p.pattern.tokens@, vals);
    assert forall|j: int| 0 <= j < ps.len() && #[trigger] matches_line(ps[j], line) implies !preferred(ps[j], ps[0]) by {
        assert(ps[j] == p);
    }
}

} // verus!
