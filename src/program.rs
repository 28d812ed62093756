//! Matcher programs: the token sequences that templates compile to, and their
//! execution against a line of text.
use vstd::prelude::*;
use crate::kinds::{FieldKind, accepts, class_run, in_class, lemma_class_run, lemma_class_run_inside, scan_run, value_accepted};
use crate::fields::pairs_view;
use crate::text::{chars_of, prefix_at, substring};

verus! {

/// One step of a matcher program.
#[derive(Clone, Debug)]
pub enum FieldToken {
    /// Text that must appear exactly.
    Literal(String),
    /// A typed field capture bound to `name`; `range` bounds a number inclusively.
    Extractor { kind: FieldKind, name: String, range: Option<(u64, u64)> },
}

/// A compiled template: its tokens in order.
#[derive(Clone, Debug)]
pub struct CompiledPattern {
    pub tokens: Vec<FieldToken>,
}

/// The first character of the literal that follows, if the next token is a non-empty literal.
pub open spec fn next_stop(rest: Seq<FieldToken>) -> Option<char> {
    if rest.len() > 0 && rest[0] is Literal && rest[0]->Literal_0@.len() > 0 {
        Some(rest[0]->Literal_0@[0])
    } else {
        None
    }
}

/// Runs the tokens `t` against the whole of `line`: the fields they extract, in
/// order, when they consume it exactly, and `None` otherwise.
pub open spec fn run_tokens(t: Seq<FieldToken>, line: Seq<char>) -> Option<Seq<(Seq<char>, Seq<char>)>>
    decreases t.len(),
{
    if t.len() == 0 {
        if line.len() == 0 {
            Some(Seq::empty())
        } else {
            None
        }
    } else {
        match t[0] {
            FieldToken::Literal(l) => {
                if l@.len() <= line.len() && line.take(l@.len() as int) == l@ {
                    run_tokens(t.skip(1), line.skip(l@.len() as int))
                } else {
                    None
                }
            },
            FieldToken::Extractor { kind, name, range } => {
                let n = class_run(kind, next_stop(t.skip(1)), line);
                let v = line.take(n as int);
                if accepts(kind, range, v) {
                    match run_tokens(t.skip(1), line.skip(n as int)) {
                        Some(m) => Some(seq![(name@, v)] + m),
                        None => None,
                    }
                } else {
                    None
                }
            },
        }
    }
}

/// The number of literal characters in the tokens `t`.
pub open spec fn literal_chars(t: Seq<FieldToken>) -> nat
    decreases t.len(),
{
    if t.len() == 0 {
        0
    } else {
        (match t[0] {
            FieldToken::Literal(l) => l@.len(),
            _ => 0,
        }) + literal_chars(t.skip(1))
    }
}

pub open spec fn prepend(
    a: Seq<(Seq<char>, Seq<char>)>,
    o: Option<Seq<(Seq<char>, Seq<char>)>>,
) -> Option<Seq<(Seq<char>, Seq<char>)>> {
    match o {
        Some(m) => Some(a + m),
        None => None,
    }
}

impl CompiledPattern {
    /// The first character of the literal after token `k`, if there is one.
    fn stop_after(&self, k: usize) -> (r: Option<char>)
        requires
            k < self.tokens@.len(),
        ensures
            r == next_stop(self.tokens@.skip(k + 1)),
    {
        let n = self.tokens.len();
        if k + 1 < n {
            match &self.tokens[k + 1] {
                FieldToken::Literal(l) => {
                    if l.as_str().unicode_len() > 0 {
                        Some(l.as_str().get_char(0))
                    } else {
                        None
                    }
                },
                _ => None,
            }
        } else {
            None
        }
    }

    /// Runs the program against the whole of `line`: on a match, the extracted
    /// fields in order and the number of literal characters of the program.
    pub fn execute(&self, line: &str) -> (r: Option<(Vec<(String, String)>, usize)>)
        ensures
            match r {
                Some(p) => run_tokens(self.tokens@, line@) == Some(pairs_view(p.0@))
                    && p.1 == literal_chars(self.tokens@),
                None => run_tokens(self.tokens@, line@) is None,
            },
    {
        let cs = chars_of(line);
        let cn = cs.len();
        let ghost t = self.tokens@;
        let ghost l = line@;
        let mut acc: Vec<(String, String)> = Vec::new();
        let mut lits: usize = 0;
        let mut pos: usize = 0;
        let mut k: usize = 0;
        assert(t.skip(0) =~= t);
        assert(l.skip(0) =~= l);
        assert(pairs_view(acc@) + Seq::<(Seq<char>, Seq<char>)>::empty() =~= Seq::<(Seq<char>, Seq<char>)>::empty());
        while k < self.tokens.len()
            invariant
                cs@ == l,
                cn == l.len(),
                l == line@,
                t == self.tokens@,
                k <= t.len(),
                pos <= l.len(),
                lits <= pos,
                literal_chars(t) == lits + literal_chars(t.skip(k as int)),
                run_tokens(t, l) == prepend(pairs_view(acc@), run_tokens(t.skip(k as int), l.skip(pos as int))),
            decreases t.len() - k,
        {
            let ghost tk = t.skip(k as int);
            let ghost lp = l.skip(pos as int);
            assert(tk[0] == t[k as int]);
            assert(tk.skip(1) =~= t.skip(k + 1));
            match &self.tokens[k] {
                FieldToken::Literal(lit) => {
                    let lc = chars_of(lit.as_str());
                    if !prefix_at(&lc, &cs, pos) {
                        proof {
                            if lit@.len() <= lp.len() {
                                assert(lp.take(lit@.len() as int) =~= l.subrange(pos as int, pos + lit@.len()));
                            }
                            assert(run_tokens(tk, lp) is None);
                            assert(run_tokens(t, l) is None);
                        }
                        return None;
                    }
                    assert(lp.take(lit@.len() as int) =~= l.subrange(pos as int, pos + lit@.len()));
                    assert(lp.skip(lit@.len() as int) =~= l.skip(pos + lit@.len()));
                    pos = pos + lc.len();
                    lits = lits + lc.len();
                },
                FieldToken::Extractor { kind, name, range } => {
                    let stop = self.stop_after(k);
                    let end = scan_run(*kind, stop, &cs, pos);
                    assert(end <= line@.len());
                    let value = substring(line, pos, end);
                    let vc = chars_of(value.as_str());
                    proof {
                        assert(lp.take(end - pos) =~= vc@);
                        lemma_class_run_inside(*kind, stop, lp);
                        assert forall|i: int| 0 <= i < vc@.len() implies in_class(*kind, stop, #[trigger] vc@[i]) by {
                            assert(vc@[i] == lp[i]);
                        }
                        assert(lp.skip(end - pos) =~= l.skip(end as int));
                    }
                    if !value_accepted(*kind, *range, &vc) {
                        return None;
                    }
                    let ghost before = pairs_view(acc@);
                    acc.push((name.clone(), value));
                    assert(pairs_view(acc@) =~= before + seq![(name@, vc@)]);
                    proof {
                        match run_tokens(t.skip(k + 1), l.skip(end as int)) {
                            Some(m) => {
                                assert(before + (seq![(name@, vc@)] + m) =~= pairs_view(acc@) + m);
                            },
                            None => {},
                        }
                    }
                    pos = end;
                },
            }
            k = k + 1;
        }
        if pos < cs.len() {
            return None;
        }
        assert(pairs_view(acc@) + Seq::<(Seq<char>, Seq<char>)>::empty() =~= pairs_view(acc@));
        Some((acc, lits))
    }
}

/// The line that the tokens `t` spell with the extracted values `vals`, in order.
pub open spec fn render(t: Seq<FieldToken>, vals: Seq<Seq<char>>) -> Seq<char>
    decreases t.len(),
{
    if t.len() == 0 {
        Seq::empty()
    } else {
        match t[0] {
            FieldToken::Literal(l) => l@ + render(t.skip(1), vals),
            FieldToken::Extractor { .. } => if vals.len() == 0 {
                Seq::empty()
            } else {
                vals[0] + render(t.skip(1), vals.skip(1))
            },
        }
    }
}

/// The extractors' names of `t` paired, in order, with the values `vals`.
pub open spec fn bind(t: Seq<FieldToken>, vals: Seq<Seq<char>>) -> Seq<(Seq<char>, Seq<char>)>
    decreases t.len(),
{
    if t.len() == 0 {
        Seq::empty()
    } else {
        match t[0] {
            FieldToken::Literal(_) => bind(t.skip(1), vals),
            FieldToken::Extractor { name, .. } => if vals.len() == 0 {
                Seq::empty()
            } else {
                seq![(name@, vals[0])] + bind(t.skip(1), vals.skip(1))
            },
        }
    }
}

/// Each value is one its extractor takes whole: it satisfies the kind's grammar
/// and range, and the text that follows it in the line does not continue its run.
pub open spec fn values_fit(t: Seq<FieldToken>, vals: Seq<Seq<char>>) -> bool
    decreases t.len(),
{
    if t.len() == 0 {
        vals.len() == 0
    } else {
        match t[0] {
            FieldToken::Literal(_) => values_fit(t.skip(1), vals),
            FieldToken::Extractor { kind, range, .. } => {
                let stop = next_stop(t.skip(1));
                let rest = render(t.skip(1), vals.skip(1));
                &&& vals.len() > 0
                &&& accepts(kind, range, vals[0])
                &&& forall|i: int| 0 <= i < vals[0].len() ==> in_class(kind, stop, #[trigger] vals[0][i])
                &&& (rest.len() > 0 ==> !in_class(kind, stop, rest[0]))
                &&& values_fit(t.skip(1), vals.skip(1))
            },
        }
    }
}

/// A line made of the program's literals and of values that its extractors take
/// whole is matched, and exactly those values are extracted, under their names.
pub proof fn lemma_match_complete(t: Seq<FieldToken>, vals: Seq<Seq<char>>)
    requires
        values_fit(t, vals),
    ensures
        run_tokens(t, render(t, vals)) == Some(bind(t, vals)),
    decreases t.len(),
{
    if t.len() > 0 {
        let line = render(t, vals);
        match t[0] {
            FieldToken::Literal(l) => {
                lemma_match_complete(t.skip(1), vals);
                assert(line.take(l@.len() as int) =~= l@);
                assert(line.skip(l@.len() as int) =~= render(t.skip(1), vals));
            },
            FieldToken::Extractor { kind, name, range } => {
                let stop = next_stop(t.skip(1));
                let v = vals[0];
                let rest = render(t.skip(1), vals.skip(1));
                assert(line =~= v + rest);
                assert forall|i: int| 0 <= i < v.len() implies in_class(kind, stop, #[trigger] line[i]) by {
                    assert(line[i] == v[i]);
                }
                if v.len() < line.len() {
                    assert(line[v.len() as int] == rest[0]);
                }
                lemma_class_run(kind, stop, line, v.len() as int);
                assert(line.take(v.len() as int) =~= v);
                assert(line.skip(v.len() as int) =~= rest);
                lemma_match_complete(t.skip(1), vals.skip(1));
            },
        }
    }
}

/// The values of a list of extracted fields.
pub open spec fn values_of(m: Seq<(Seq<char>, Seq<char>)>) -> Seq<Seq<char>> {
    m.map_values(|p: (Seq<char>, Seq<char>)| p.1)
}

/// A line is matched only when it is exactly the program's literals interleaved
/// with the extracted values, each of which satisfies its extractor's grammar:
/// text added to a line that does not match makes it match only by completing
/// the whole token sequence.
pub proof fn lemma_match_sound(t: Seq<FieldToken>, line: Seq<char>)
    requires
        run_tokens(t, line) is Some,
    ensures
        line == render(t, values_of(run_tokens(t, line)->0)),
        run_tokens(t, line)->0 == bind(t, values_of(run_tokens(t, line)->0)),
        values_fit(t, values_of(run_tokens(t, line)->0)),
    decreases t.len(),
{
    if t.len() > 0 {
        let m = run_tokens(t, line)->0;
        match t[0] {
            FieldToken::Literal(l) => {
                let rest = line.skip(l@.len() as int);
                lemma_match_sound(t.skip(1), rest);
                assert(line =~= l@ + rest);
            },
            FieldToken::Extractor { kind, name, range } => {
                let stop = next_stop(t.skip(1));
                let n = class_run(kind, stop, line);
                let v = line.take(n as int);
                let rest = line.skip(n as int);
                let m2 = run_tokens(t.skip(1), rest)->0;
                lemma_match_sound(t.skip(1), rest);
                lemma_class_run_inside(kind, stop, line);
                assert(values_of(m) =~= seq![v] + values_of(m2));
                assert(values_of(m).skip(1) =~= values_of(m2));
                assert(line =~= v + rest);
                assert forall|i: int| 0 <= i < v.len() implies in_class(kind, stop, #[trigger] v[i]) by {
                    assert(v[i] == line[i]);
                }
                if rest.len() > 0 {
                    assert(rest[0] == line[n as int]);
                }
            },
        }
    }
}

} // verus!
