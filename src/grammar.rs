//! The template grammar and its compiler.
//!
//! A template is literal text with extractors written `@KIND:name@` or, for a
//! bounded number, `@NUMBER:name:lo-hi@`. The kinds are `NUMBER`, `STRING`,
//! `IPv4` and `ANY`.
use vstd::prelude::*;
use crate::kinds::{FieldKind, all_digits, class_run, decimal, in_class, is_digit, lemma_class_run_inside, parse_decimal, scan_run};
use crate::program::{CompiledPattern, FieldToken};
use crate::text::{chars_of, sub_chars};

verus! {

/// Why a template does not compile.
#[derive(Clone, Copy, Debug, PartialEq, Eq, Structural)]
pub enum CompileError {
    /// An unterminated extractor, an unknown kind or a malformed extractor body.
    Syntax,
    /// Two extractors bind the same name.
    DuplicateField,
}

/// A token with its text as plain sequences.
pub enum TokenSpec {
    Lit(Seq<char>),
    Ext(FieldKind, Seq<char>, Option<(u64, u64)>),
}

pub open spec fn token_spec(t: FieldToken) -> TokenSpec {
    match t {
        FieldToken::Literal(l) => TokenSpec::Lit(l@),
        FieldToken::Extractor { kind, name, range } => TokenSpec::Ext(kind, name@, range),
    }
}

pub open spec fn tokens_spec(t: Seq<FieldToken>) -> Seq<TokenSpec> {
    t.map_values(|x: FieldToken| token_spec(x))
}

/// The kind that a kind name denotes.
pub open spec fn kind_named(t: Seq<char>) -> Option<FieldKind> {
    if t == seq!['N', 'U', 'M', 'B', 'E', 'R'] {
        Some(FieldKind::Number)
    } else if t == seq!['S', 'T', 'R', 'I', 'N', 'G'] {
        Some(FieldKind::Word)
    } else if t == seq!['I', 'P', 'v', '4'] {
        Some(FieldKind::Ipv4)
    } else if t == seq!['A', 'N', 'Y'] {
        Some(FieldKind::Any)
    } else {
        None
    }
}

/// An inclusive range `lo-hi` of two decimal numbers with `lo <= hi`.
pub open spec fn range_spec(c: Seq<char>) -> Option<(u64, u64)> {
    let a = class_run(FieldKind::Number, None, c) as int;
    let lo = c.take(a);
    let hi = c.skip(a + 1);
    if a == 0 || a >= c.len() || c[a] != '-' || hi.len() == 0 || !all_digits(hi) {
        None
    } else if decimal(lo) <= decimal(hi) <= u64::MAX {
        Some((decimal(lo) as u64, decimal(hi) as u64))
    } else {
        None
    }
}

/// The extractor written by the text `b` between two `@`.
pub open spec fn body_spec(b: Seq<char>) -> Option<TokenSpec> {
    let k = class_run(FieldKind::Any, Some(':'), b) as int;
    let rest = b.skip(k + 1);
    let j = class_run(FieldKind::Any, Some(':'), rest) as int;
    let name = rest.take(j);
    if k >= b.len() || j == 0 || kind_named(b.take(k)) is None {
        None
    } else if j == rest.len() {
        Some(TokenSpec::Ext(kind_named(b.take(k))->0, name, None))
    } else if kind_named(b.take(k)) == Some(FieldKind::Number) && range_spec(rest.skip(j + 1)) is Some {
        Some(TokenSpec::Ext(FieldKind::Number, name, range_spec(rest.skip(j + 1))))
    } else {
        None
    }
}

pub open spec fn prepend_token(t: TokenSpec, r: Result<Seq<TokenSpec>, CompileError>) -> Result<Seq<TokenSpec>, CompileError> {
    match r {
        Ok(ts) => Ok(seq![t] + ts),
        Err(e) => Err(e),
    }
}

/// Splits a template into literal runs and extractors, left to right.
pub open spec fn lex(s: Seq<char>) -> Result<Seq<TokenSpec>, CompileError>
    decreases s.len()
    via lex_decreases

{
    if s.len() == 0 {
        Ok(Seq::empty())
    } else if s[0] != '@' {
        let n = class_run(FieldKind::Any, Some('@'), s) as int;
        if n == 0 {
            Err(CompileError::Syntax)
        } else {
            prepend_token(TokenSpec::Lit(s.take(n)), lex(s.skip(n)))
        }
    } else {
        let m = class_run(FieldKind::Any, Some('@'), s.skip(1)) as int;
        if 1 + m >= s.len() {
            Err(CompileError::Syntax)
        } else {
            match body_spec(s.subrange(1, 1 + m)) {
                Some(t) => prepend_token(t, lex(s.skip(m + 2))),
                None => Err(CompileError::Syntax),
            }
        }
    }
}

#[via_fn]
proof fn lex_decreases(s: Seq<char>) {
    lemma_class_run_inside(FieldKind::Any, Some('@'), s);
}

/// No two extractors among `ts` bind the same name.
pub open spec fn names_unique(ts: Seq<TokenSpec>) -> bool {
    forall|i: int, j: int|
        0 <= i < j < ts.len() && #[trigger] ts[i] is Ext && #[trigger] ts[j] is Ext ==> ts[i]->Ext_1
            != ts[j]->Ext_1
}

/// What compiling `s` gives.
pub open spec fn compile_spec(s: Seq<char>) -> Result<Seq<TokenSpec>, CompileError> {
    match lex(s) {
        Ok(ts) => if names_unique(ts) {
            Ok(ts)
        } else {
            Err(CompileError::DuplicateField)
        },
        Err(e) => Err(e),
    }
}

fn kind_of(t: &Vec<char>) -> (r: Option<FieldKind>)
    ensures
        r == kind_named(t@),
{
    let n = t.len();
    if n == 6 && t[0] == 'N' && t[1] == 'U' && t[2] == 'M' && t[3] == 'B' && t[4] == 'E' && t[5] == 'R' {
        assert(t@ =~= seq!['N', 'U', 'M', 'B', 'E', 'R']);
        Some(FieldKind::Number)
    } else if n == 6 && t[0] == 'S' && t[1] == 'T' && t[2] == 'R' && t[3] == 'I' && t[4] == 'N' && t[5] == 'G' {
        assert(t@ =~= seq!['S', 'T', 'R', 'I', 'N', 'G']);
        Some(FieldKind::Word)
    } else if n == 4 && t[0] == 'I' && t[1] == 'P' && t[2] == 'v' && t[3] == '4' {
        assert(t@ =~= seq!['I', 'P', 'v', '4']);
        Some(FieldKind::Ipv4)
    } else if n == 3 && t[0] == 'A' && t[1] == 'N' && t[2] == 'Y' {
        assert(t@ =~= seq!['A', 'N', 'Y']);
        Some(FieldKind::Any)
    } else {
        proof {
            if t@ == seq!['N', 'U', 'M', 'B', 'E', 'R'] || t@ == seq!['S', 'T', 'R', 'I', 'N', 'G'] {
                assert(t@[0] == seq!['N', 'U', 'M', 'B', 'E', 'R'][0] || t@[0] == seq!['S', 'T', 'R', 'I', 'N', 'G'][0]);
            }
            if t@ == seq!['I', 'P', 'v', '4'] {
                assert(t@[0] == seq!['I', 'P', 'v', '4'][0]);
            }
            if t@ == seq!['A', 'N', 'Y'] {
                assert(t@[0] == seq!['A', 'N', 'Y'][0]);
            }
        }
        None
    }
}

proof fn lemma_all_digits_run(v: Seq<char>)
    ensures
        all_digits(v) <==> class_run(FieldKind::Number, None, v) == v.len(),
{
    lemma_class_run_inside(FieldKind::Number, None, v);
    if class_run(FieldKind::Number, None, v) == v.len() {
        assert forall|i: int| 0 <= i < v.len() implies is_digit(#[trigger] v[i]) by {
            assert(in_class(FieldKind::Number, None, v[i]));
        }
    }
}

fn range_of(c: &Vec<char>) -> (r: Option<(u64, u64)>)
    ensures
        r == range_spec(c@),
{
    assert(c@.skip(0) =~= c@);
    let a = scan_run(FieldKind::Number, None, c, 0);
    let n = c.len();
    if a == 0 || a >= n || c[a] != '-' {
        return None;
    }
    let hi = sub_chars(c, a + 1, n);
    assert(hi@ =~= c@.skip(a + 1));
    if hi.len() == 0 {
        return None;
    }
    assert(hi@.skip(0) =~= hi@);
    let e = scan_run(FieldKind::Number, None, &hi, 0);
    proof {
        lemma_all_digits_run(hi@);
    }
    if e != hi.len() {
        return None;
    }
    let lo = sub_chars(c, 0, a);
    proof {
        assert(lo@ =~= c@.take(a as int));
        lemma_class_run_inside(FieldKind::Number, None, c@);
        assert forall|i: int| 0 <= i < lo@.len() implies is_digit(#[trigger] lo@[i]) by {
            assert(in_class(FieldKind::Number, None, c@[i]));
        }
    }
    match parse_decimal(&hi) {
        None => None,
        Some(h) => match parse_decimal(&lo) {
            None => None,
            Some(l) => if l <= h {
                Some((l, h))
            } else {
                None
            },
        },
    }
}

/// The extractor written by `t[from..to]`, the text between two `@`.
fn body_token(t: &str, cs: &Vec<char>, from: usize, to: usize) -> (r: Option<FieldToken>)
    requires
        cs@ == t@,
        from <= to <= cs@.len(),
    ensures
        match r {
            Some(x) => body_spec(cs@.subrange(from as int, to as int)) == Some(token_spec(x)),
            None => body_spec(cs@.subrange(from as int, to as int)) is None,
        },
{
    let b = sub_chars(cs, from, to);
    let bn = b.len();
    assert(b@.skip(0) =~= b@);
    let k = scan_run(FieldKind::Any, Some(':'), &b, 0);
    if k >= bn {
        return None;
    }
    let rest = sub_chars(&b, k + 1, bn);
    assert(rest@ =~= b@.skip(k + 1));
    assert(rest@.skip(0) =~= rest@);
    let j = scan_run(FieldKind::Any, Some(':'), &rest, 0);
    if j == 0 {
        return None;
    }
    let kt = sub_chars(&b, 0, k);
    assert(kt@ =~= b@.take(k as int));
    let kind = match kind_of(&kt) {
        Some(x) => x,
        None => {
            return None;
        },
    };
    let name = crate::text::substring(t, from + k + 1, from + k + 1 + j);
    assert(name@ =~= rest@.take(j as int));
    if j == rest.len() {
        return Some(FieldToken::Extractor { kind, name, range: None });
    }
    let c = sub_chars(&rest, j + 1, rest.len());
    assert(c@ =~= rest@.skip(j + 1));
    match kind {
        FieldKind::Number => match range_of(&c) {
            Some(rg) => Some(FieldToken::Extractor { kind, name, range: Some(rg) }),
            None => None,
        },
        _ => None,
    }
}

pub open spec fn prepend_all(a: Seq<TokenSpec>, r: Result<Seq<TokenSpec>, CompileError>) -> Result<Seq<TokenSpec>, CompileError> {
    match r {
        Ok(ts) => Ok(a + ts),
        Err(e) => Err(e),
    }
}

/// Whether two extractors among `toks` bind the same name.
fn has_duplicate_name(toks: &Vec<FieldToken>) -> (r: bool)
    ensures
        r == !names_unique(tokens_spec(toks@)),
{
    let ghost ts = tokens_spec(toks@);
    let n = toks.len();
    let mut i: usize = 0;
    while i < n
        invariant
            n == toks@.len(),
            ts == tokens_spec(toks@),
            i <= n,
            forall|a: int, b: int|
                0 <= a < i && a < b < n && #[trigger] ts[a] is Ext && #[trigger] ts[b] is Ext ==> ts[a]->Ext_1
                    != ts[b]->Ext_1,
        decreases n - i,
    {
        let mut j: usize = i + 1;
        while j < n
            invariant
                n == toks@.len(),
                ts == tokens_spec(toks@),
                i < n,
                i + 1 <= j <= n,
                forall|a: int, b: int|
                    0 <= a < i && a < b < n && #[trigger] ts[a] is Ext && #[trigger] ts[b] is Ext
                        ==> ts[a]->Ext_1 != ts[b]->Ext_1,
                forall|b: int|
                    i < b < j && ts[i as int] is Ext && #[trigger] ts[b] is Ext ==> ts[i as int]->Ext_1
                        != ts[b]->Ext_1,
            decreases n - j,
        {
            match (&toks[i], &toks[j]) {
                (FieldToken::Extractor { name: a, .. }, FieldToken::Extractor { name: b, .. }) => {
                    if *a == *b {
                        assert(ts[i as int] is Ext && ts[j as int] is Ext);
                        return true;
                    }
                },
                _ => {},
            }
            j = j + 1;
        }
        i = i + 1;
    }
    false
}

/// Compiles a template into a matcher program.
pub fn compile(template: &str) -> (r: Result<CompiledPattern, CompileError>)
    ensures
        match r {
            Ok(p) => compile_spec(template@) == Ok::<Seq<TokenSpec>, CompileError>(tokens_spec(p.tokens@)),
            Err(e) => compile_spec(template@) == Err::<Seq<TokenSpec>, CompileError>(e),
        },
{
    let cs = chars_of(template);
    let n = cs.len();
    let ghost l = template@;
    let mut toks: Vec<FieldToken> = Vec::new();
    let mut pos: usize = 0;
    assert(l.skip(0) =~= l);
    assert(tokens_spec(toks@) =~= Seq::<TokenSpec>::empty());
    proof {
        match lex(l) {
            Ok(ts) => assert(Seq::<TokenSpec>::empty() + ts =~= ts),
            Err(_) => {},
        }
    }
    while pos < n
        invariant
            cs@ == l,
            l == template@,
            n == l.len(),
            pos <= n,
            lex(l) == prepend_all(tokens_spec(toks@), lex(l.skip(pos as int))),
        decreases n - pos,
    {
        let ghost sp = l.skip(pos as int);
        let ghost before = tokens_spec(toks@);
        assert(sp[0] == cs@[pos as int]);
        if cs[pos] != '@' {
            let e = scan_run(FieldKind::Any, Some('@'), &cs, pos);
            proof {
                lemma_class_run_inside(FieldKind::Any, Some('@'), sp);
                assert(in_class(FieldKind::Any, Some('@'), sp[0]));
            }
            let lit = crate::text::substring(template, pos, e);
            assert(lit@ =~= sp.take(e - pos));
            assert(sp.skip(e - pos) =~= l.skip(e as int));
            toks.push(FieldToken::Literal(lit));
            assert(tokens_spec(toks@) =~= before + seq![TokenSpec::Lit(lit@)]);
            proof {
                match lex(l.skip(e as int)) {
                    Ok(ts) => assert(before + (seq![TokenSpec::Lit(lit@)] + ts) =~= tokens_spec(toks@) + ts),
                    Err(_) => {},
                }
            }
            pos = e;
        } else {
            let e = scan_run(FieldKind::Any, Some('@'), &cs, pos + 1);
            assert(sp.skip(1) =~= l.skip(pos + 1));
            if e >= n {
                return Err(CompileError::Syntax);
            }
            assert(sp.subrange(1, 1 + (e - pos - 1)) =~= cs@.subrange(pos + 1, e as int));
            match body_token(template, &cs, pos + 1, e) {
                Some(t) => {
                    assert(sp.skip(e - pos + 1) =~= l.skip(e + 1));
                    toks.push(t);
                    assert(tokens_spec(toks@) =~= before + seq![token_spec(t)]);
                    proof {
                        match lex(l.skip(e + 1)) {
                            Ok(ts) => assert(before + (seq![token_spec(t)] + ts) =~= tokens_spec(toks@) + ts),
                            Err(_) => {},
                        }
                    }
                    pos = e + 1;
                },
                None => {
                    return Err(CompileError::Syntax);
                },
            }
        }
    }
    assert(tokens_spec(toks@) + Seq::<TokenSpec>::empty() =~= tokens_spec(toks@));
    if has_duplicate_name(&toks) {
        return Err(CompileError::DuplicateField);
    }
    Ok(CompiledPattern { tokens: toks })
}

} // verus!
