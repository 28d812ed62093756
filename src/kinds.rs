//! The closed vocabulary of field extractors and the grammar of each kind.
use vstd::prelude::*;

verus! {

/// The kinds of typed extractor a template may use.
#[derive(Clone, Copy, Debug, PartialEq, Eq, Structural)]
pub enum FieldKind {
    /// `NUMBER`: a run of decimal digits, optionally bounded by an inclusive range.
    Number,
    /// `STRING`: a run of ASCII letters, digits and underscores.
    Word,
    /// `IPv4`: a dotted quad of decimal octets.
    Ipv4,
    /// `ANY`: everything up to the first character of the next literal, or to the end.
    Any,
}

pub open spec fn is_digit(c: char) -> bool {
    '0' <= c && c <= '9'
}

pub open spec fn is_word_char(c: char) -> bool {
    ('a' <= c && c <= 'z') || ('A' <= c && c <= 'Z') || is_digit(c) || c == '_'
}

/// Whether an extractor of `kind` may consume `c`; `stop` is the first character
/// of the literal that follows the extractor, if one does.
pub open spec fn in_class(kind: FieldKind, stop: Option<char>, c: char) -> bool {
    match kind {
        FieldKind::Number => is_digit(c),
        FieldKind::Word => is_word_char(c),
        FieldKind::Ipv4 => is_digit(c) || c == '.',
        FieldKind::Any => match stop {
            Some(s) => c != s,
            None => true,
        },
    }
}

/// The length of the longest prefix of `s` made of characters of the kind's class.
pub open spec fn class_run(kind: FieldKind, stop: Option<char>, s: Seq<char>) -> nat
    decreases s.len(),
{
    if s.len() == 0 || !in_class(kind, stop, s[0]) {
        0
    } else {
        1 + class_run(kind, stop, s.skip(1))
    }
}

/// The decimal number written by the digits `s`.
pub open spec fn decimal(s: Seq<char>) -> nat
    decreases s.len(),
{
    if s.len() == 0 {
        0
    } else {
        10 * decimal(s.drop_last()) + ((s.last() as nat) - ('0' as nat)) as nat
    }
}

pub open spec fn all_digits(s: Seq<char>) -> bool {
    forall|i: int| 0 <= i < s.len() ==> is_digit(#[trigger] s[i])
}

/// One octet: one to three digits whose value is at most 255.
pub open spec fn is_octet(s: Seq<char>) -> bool {
    1 <= s.len() <= 3 && all_digits(s) && decimal(s) <= 255
}

/// Whether `s` is made of `n` octets separated by dots.
pub open spec fn dotted(s: Seq<char>, n: nat) -> bool
    decreases n,
{
    let k = class_run(FieldKind::Number, None, s);
    &&& n >= 1
    &&& is_octet(s.take(k as int))
    &&& if n == 1 {
        k == s.len()
    } else {
        k < s.len() && s[k as int] == '.' && dotted(s.skip(k + 1 as int), (n - 1) as nat)
    }
}

pub open spec fn is_dotted_quad(s: Seq<char>) -> bool {
    dotted(s, 4)
}

/// Whether the text `v`, consumed by an extractor of `kind`, satisfies its
/// kind's value grammar and the declared range.
pub open spec fn accepts(kind: FieldKind, range: Option<(u64, u64)>, v: Seq<char>) -> bool {
    &&& v.len() > 0
    &&& match kind {
        FieldKind::Number => match range {
            Some(r) => r.0 <= decimal(v) <= r.1,
            None => true,
        },
        FieldKind::Ipv4 => is_dotted_quad(v),
        _ => true,
    }
}

/// Whether `c` may be consumed by an extractor of `kind` followed by `stop`.
pub fn char_in_class(kind: FieldKind, stop: Option<char>, c: char) -> (r: bool)
    ensures
        r == in_class(kind, stop, c),
{
    match kind {
        FieldKind::Number => '0' <= c && c <= '9',
        FieldKind::Word => ('a' <= c && c <= 'z') || ('A' <= c && c <= 'Z') || ('0' <= c && c
            <= '9') || c == '_',
        FieldKind::Ipv4 => ('0' <= c && c <= '9') || c == '.',
        FieldKind::Any => match stop {
            Some(s) => c != s,
            None => true,
        },
    }
}

pub proof fn lemma_class_run(kind: FieldKind, stop: Option<char>, s: Seq<char>, n: int)
    requires
        0 <= n <= s.len(),
        forall|i: int| 0 <= i < n ==> in_class(kind, stop, #[trigger] s[i]),
        n == s.len() || !in_class(kind, stop, s[n]),
    ensures
        class_run(kind, stop, s) == n,
    decreases n,
{
    if n > 0 {
        assert(in_class(kind, stop, s[0]));
        let t = s.skip(1);
        assert forall|i: int| 0 <= i < n - 1 implies in_class(kind, stop, #[trigger] t[i]) by {
            assert(t[i] == s[i + 1]);
        }
        if n - 1 < t.len() {
            assert(t[n - 1] == s[n]);
        }
        lemma_class_run(kind, stop, t, n - 1);
    }
}

/// The greedy run of the kind's class in `s` starting at `pos`: its end position.
pub fn scan_run(kind: FieldKind, stop: Option<char>, s: &Vec<char>, pos: usize) -> (r: usize)
    requires
        pos <= s@.len(),
    ensures
        pos <= r <= s@.len(),
        r - pos == class_run(kind, stop, s@.skip(pos as int)),
{
    let mut j: usize = pos;
    while j < s.len() && char_in_class(kind, stop, s[j])
        invariant
            pos <= j <= s@.len(),
            forall|i: int| pos <= i < j ==> in_class(kind, stop, #[trigger] s@[i]),
        decreases s@.len() - j,
    {
        j = j + 1;
    }
    let ghost t = s@.skip(pos as int);
    proof {
        assert forall|i: int| 0 <= i < j - pos implies in_class(kind, stop, #[trigger] t[i]) by {
            assert(t[i] == s@[pos + i]);
        }
        if j < s@.len() {
            assert(t[j - pos] == s@[j as int]);
        }
        lemma_class_run(kind, stop, t, j - pos);
    }
    j
}

pub proof fn lemma_class_run_inside(kind: FieldKind, stop: Option<char>, s: Seq<char>)
    ensures
        class_run(kind, stop, s) <= s.len(),
        forall|i: int| 0 <= i < class_run(kind, stop, s) ==> in_class(kind, stop, #[trigger] s[i]),
        class_run(kind, stop, s) < s.len() ==> !in_class(kind, stop, s[class_run(kind, stop, s) as int]),
    decreases s.len(),
{
    if s.len() > 0 && in_class(kind, stop, s[0]) {
        let t = s.skip(1);
        lemma_class_run_inside(kind, stop, t);
        assert forall|i: int| 0 <= i < class_run(kind, stop, s) implies in_class(kind, stop, #[trigger] s[i]) by {
            if i > 0 {
                assert(s[i] == t[i - 1]);
            }
        }
        if class_run(kind, stop, s) < s.len() {
            assert(s[class_run(kind, stop, s) as int] == t[class_run(kind, stop, t) as int]);
        }
    }
}

proof fn lemma_decimal_prefix(s: Seq<char>, i: int)
    requires
        0 <= i <= s.len(),
    ensures
        decimal(s.take(i)) <= decimal(s),
    decreases s.len(),
{
    if i < s.len() {
        lemma_decimal_prefix(s.drop_last(), i);
        assert(s.drop_last().take(i) =~= s.take(i));
    } else {
        assert(s.take(i) =~= s);
    }
}

/// Whether the digits `s[from..to]` denote a number between `lo` and `hi`.
fn decimal_in_range(s: &Vec<char>, from: usize, to: usize, lo: u64, hi: u64) -> (r: bool)
    requires
        from <= to <= s@.len(),
        all_digits(s@.subrange(from as int, to as int)),
    ensures
        r == (lo <= decimal(s@.subrange(from as int, to as int)) <= hi),
{
    let mut acc: u128 = 0;
    let mut i: usize = from;
    assert(s@.subrange(from as int, from as int) =~= Seq::<char>::empty());
    while i < to
        invariant
            from <= i <= to <= s@.len(),
            all_digits(s@.subrange(from as int, to as int)),
            acc == decimal(s@.subrange(from as int, i as int)),
            acc <= hi,
        decreases to - i,
    {
        let c = s[i];
        assert(s@.subrange(from as int, to as int)[i - from] == c);
        let d: u32 = (c as u32) - ('0' as u32);
        let next: u128 = acc * 10 + d as u128;
        let ghost pre = s@.subrange(from as int, (i + 1) as int);
        assert(pre.drop_last() =~= s@.subrange(from as int, i as int));
        assert(next == decimal(pre));
        if next > hi as u128 {
            proof {
                let whole = s@.subrange(from as int, to as int);
                assert(whole.take(i + 1 - from) =~= pre);
                lemma_decimal_prefix(whole, i + 1 - from);
            }
            return false;
        }
        acc = next;
        i = i + 1;
    }
    lo as u128 <= acc
}

/// The number written by the digits `v`, when it fits in 64 bits.
pub fn parse_decimal(v: &Vec<char>) -> (r: Option<u64>)
    requires
        all_digits(v@),
    ensures
        r == (if decimal(v@) <= u64::MAX {
            Some(decimal(v@) as u64)
        } else {
            None
        }),
{
    let mut acc: u128 = 0;
    let mut i: usize = 0;
    assert(v@.take(0) =~= Seq::<char>::empty());
    while i < v.len()
        invariant
            i <= v@.len(),
            all_digits(v@),
            acc == decimal(v@.take(i as int)),
            acc <= u64::MAX,
        decreases v@.len() - i,
    {
        let c = v[i];
        let d: u32 = (c as u32) - ('0' as u32);
        let next: u128 = acc * 10 + d as u128;
        let ghost pre = v@.take(i + 1);
        assert(pre.drop_last() =~= v@.take(i as int));
        assert(next == decimal(pre));
        if next > u64::MAX as u128 {
            proof {
                lemma_decimal_prefix(v@, i + 1);
            }
            return None;
        }
        acc = next;
        i = i + 1;
    }
    assert(v@.take(v@.len() as int) =~= v@);
    Some(acc as u64)
}

/// Whether `v[p..]` is made of `n` octets separated by dots.
fn dotted_from(v: &Vec<char>, p: usize, n: u64) -> (r: bool)
    requires
        p <= v@.len(),
        n >= 1,
    ensures
        r == dotted(v@.skip(p as int), n as nat),
    decreases n,
{
    let k = scan_run(FieldKind::Number, None, v, p);
    let ghost t = v@.skip(p as int);
    proof {
        lemma_class_run_inside(FieldKind::Number, None, t);
        assert(t.take(k - p) =~= v@.subrange(p as int, k as int));
        assert forall|i: int| 0 <= i < k - p implies is_digit(#[trigger] v@.subrange(p as int, k as int)[i]) by {
            assert(in_class(FieldKind::Number, None, t[i]));
        }
    }
    if k - p < 1 || k - p > 3 {
        return false;
    }
    if !decimal_in_range(v, p, k, 0, 255) {
        return false;
    }
    if n == 1 {
        k == v.len()
    } else {
        if k < v.len() && v[k] == '.' {
            assert(t.skip(k - p + 1) =~= v@.skip(k + 1));
            assert(t[k - p] == v@[k as int]);
            dotted_from(v, k + 1, n - 1)
        } else {
            proof {
                if k < v@.len() {
                    assert(t[k - p] == v@[k as int]);
                }
            }
            false
        }
    }
}

/// Whether the consumed text `v` is an acceptable value for an extractor of
/// `kind` with the declared `range`.
pub fn value_accepted(kind: FieldKind, range: Option<(u64, u64)>, v: &Vec<char>) -> (r: bool)
    requires
        kind == FieldKind::Number ==> all_digits(v@),
    ensures
        r == accepts(kind, range, v@),
{
    if v.len() == 0 {
        return false;
    }
    match kind {
        FieldKind::Number => match range {
            Some(rg) => {
                assert(v@.subrange(0, v@.len() as int) =~= v@);
                decimal_in_range(v, 0, v.len(), rg.0, rg.1)
            },
            None => true,
        },
        FieldKind::Ipv4 => {
            assert(v@.skip(0) =~= v@);
            dotted_from(v, 0, 4)
        },
        _ => true,
    }
}

} // verus!
