//! Field mappings: ordered lists of name/value pairs read as maps.
use vstd::prelude::*;

verus! {

/// A field mapping as plain sequences of characters.
pub open spec fn pairs_view(v: Seq<(String, String)>) -> Seq<(Seq<char>, Seq<char>)> {
    v.map_values(|p: (String, String)| (p.0@, p.1@))
}

/// The value bound to `k` in `m`: the first pair with that name wins.
pub open spec fn lookup(m: Seq<(Seq<char>, Seq<char>)>, k: Seq<char>) -> Option<Seq<char>>
    decreases m.len(),
{
    if m.len() == 0 {
        None
    } else if m[0].0 == k {
        Some(m[0].1)
    } else {
        lookup(m.skip(1), k)
    }
}

/// Two mappings bind the same names to the same values.
pub open spec fn same_mapping(a: Seq<(Seq<char>, Seq<char>)>, b: Seq<(Seq<char>, Seq<char>)>) -> bool {
    forall|k: Seq<char>| #[trigger] lookup(a, k) == lookup(b, k)
}

/// `m` binds each name as `over` does where `over` binds it, and as `base` does elsewhere.
pub open spec fn overrides(
    m: Seq<(Seq<char>, Seq<char>)>,
    base: Seq<(Seq<char>, Seq<char>)>,
    over: Seq<(Seq<char>, Seq<char>)>,
) -> bool {
    forall|k: Seq<char>|
        #[trigger] lookup(m, k) == (if lookup(over, k) is Some {
            lookup(over, k)
        } else {
            lookup(base, k)
        })
}

pub proof fn lemma_lookup_append(a: Seq<(Seq<char>, Seq<char>)>, b: Seq<(Seq<char>, Seq<char>)>, k: Seq<char>)
    ensures
        lookup(a + b, k) == (if lookup(a, k) is Some {
            lookup(a, k)
        } else {
            lookup(b, k)
        }),
    decreases a.len(),
{
    if a.len() == 0 {
        assert(a + b =~= b);
    } else {
        assert((a + b).skip(1) =~= a.skip(1) + b);
        lemma_lookup_append(a.skip(1), b, k);
    }
}

pub proof fn lemma_lookup_some(m: Seq<(Seq<char>, Seq<char>)>, k: Seq<char>)
    ensures
        lookup(m, k) is Some <==> exists|i: int| 0 <= i < m.len() && (#[trigger] m[i]).0 == k,
    decreases m.len(),
{
    if m.len() > 0 {
        lemma_lookup_some(m.skip(1), k);
        if lookup(m, k) is Some && m[0].0 != k {
            let i = choose|i: int| 0 <= i < m.skip(1).len() && (#[trigger] m.skip(1)[i]).0 == k;
            assert(m[i + 1] == m.skip(1)[i]);
        }
        if m[0].0 != k && (exists|i: int| 0 <= i < m.len() && (#[trigger] m[i]).0 == k) {
            let i = choose|i: int| 0 <= i < m.len() && (#[trigger] m[i]).0 == k;
            assert(m.skip(1)[i - 1] == m[i]);
        }
    }
}

pub open spec fn opt_view(o: Option<String>) -> Option<Seq<char>> {
    match o {
        Some(s) => Some(s@),
        None => None,
    }
}

/// The value bound to `k` in `m`, if any.
pub fn find_field(m: &Vec<(String, String)>, k: &String) -> (r: Option<String>)
    ensures
        opt_view(r) == lookup(pairs_view(m@), k@),
{
    let mut i: usize = 0;
    assert(pairs_view(m@).skip(0) =~= pairs_view(m@));
    while i < m.len()
        invariant
            i <= m@.len(),
            lookup(pairs_view(m@), k@) == lookup(pairs_view(m@).skip(i as int), k@),
        decreases m@.len() - i,
    {
        let ghost rest = pairs_view(m@).skip(i as int);
        assert(rest[0] == (m@[i as int].0@, m@[i as int].1@));
        if m[i].0 == *k {
            return Some(m[i].1.clone());
        }
        assert(rest.skip(1) =~= pairs_view(m@).skip(i + 1));
        i = i + 1;
    }
    None
}

/// The fields of `extracted`, followed by those of `base` whose names `extracted` does not bind.
pub fn merge_fields(base: &Vec<(String, String)>, extracted: Vec<(String, String)>) -> (r: Vec<(
    String,
    String,
)>)
    ensures
        overrides(pairs_view(r@), pairs_view(base@), pairs_view(extracted@)),
{
    let ghost ex = pairs_view(extracted@);
    let mut r = extracted;
    let mut i: usize = 0;
    assert(pairs_view(r@) =~= ex + pairs_view(base@).take(0));
    while i < base.len()
        invariant
            i <= base@.len(),
            ex == pairs_view(extracted@),
            forall|k: Seq<char>|
                #[trigger] lookup(pairs_view(r@), k) == (if lookup(ex, k) is Some {
                    lookup(ex, k)
                } else {
                    lookup(pairs_view(base@).take(i as int), k)
                }),
        decreases base@.len() - i,
    {
        let ghost r0 = pairs_view(r@);
        let ghost bi = pairs_view(base@).take(i as int);
        let ghost e = pairs_view(base@)[i as int];
        assert(e == (base@[i as int].0@, base@[i as int].1@));
        assert(pairs_view(base@).take(i + 1) =~= bi + seq![e]);
        let hit = find_field(&r, &base[i].0);
        if hit.is_none() {
            let k = base[i].0.clone();
            let v = base[i].1.clone();
            r.push((k, v));
            assert(pairs_view(r@) =~= r0 + seq![e]);
        }
        proof {
            assert forall|q: Seq<char>|
                #[trigger] lookup(pairs_view(r@), q) == (if lookup(ex, q) is Some {
                    lookup(ex, q)
                } else {
                    lookup(pairs_view(base@).take(i + 1), q)
                }) by {
                lemma_lookup_append(bi, seq![e], q);
                lemma_lookup_append(r0, seq![e], q);
                assert(seq![e].skip(1) =~= Seq::<(Seq<char>, Seq<char>)>::empty());
                assert(lookup(seq![e].skip(1), q) is None);
                assert(lookup(seq![e], q) == (if e.0 == q {
                    Some(e.1)
                } else {
                    None
                }));
                assert(lookup(r0, q) == (if lookup(ex, q) is Some {
                    lookup(ex, q)
                } else {
                    lookup(bi, q)
                }));
                if hit.is_some() {
                    assert(lookup(r0, e.0) is Some);
                }
            }
        }
        i = i + 1;
    }
    assert(pairs_view(base@).take(base@.len() as int) =~= pairs_view(base@));
    r
}

/// A copy of the mapping `v`.
pub fn copy_fields(v: &Vec<(String, String)>) -> (r: Vec<(String, String)>)
    ensures
        r@ == v@,
{
    let mut r: Vec<(String, String)> = Vec::new();
    let mut i: usize = 0;
    while i < v.len()
        invariant
            i <= v@.len(),
            r@ == v@.take(i as int),
        decreases v@.len() - i,
    {
        let k = v[i].0.clone();
        let x = v[i].1.clone();
        r.push((k, x));
        i = i + 1;
        assert(r@ =~= v@.take(i as int));
    }
    assert(v@.take(v@.len() as int) =~= v@);
    r
}

fn same_value(x: &Option<String>, y: &Option<String>) -> (r: bool)
    ensures
        r == (opt_view(*x) == opt_view(*y)),
{
    match (x, y) {
        (Some(p), Some(q)) => *p == *q,
        (None, None) => true,
        _ => false,
    }
}

/// Whether `a` and `b` bind the same names to the same values.
pub fn same_fields(a: &Vec<(String, String)>, b: &Vec<(String, String)>) -> (r: bool)
    ensures
        r == same_mapping(pairs_view(a@), pairs_view(b@)),
{
    let ghost av = pairs_view(a@);
    let ghost bv = pairs_view(b@);
    let mut i: usize = 0;
    while i < a.len()
        invariant
            i <= a@.len(),
            av == pairs_view(a@),
            bv == pairs_view(b@),
            forall|j: int| 0 <= j < i ==> lookup(av, (#[trigger] av[j]).0) == lookup(bv, av[j].0),
        decreases a@.len() - i,
    {
        assert(av[i as int].0 == a@[i as int].0@);
        if !same_value(&find_field(a, &a[i].0), &find_field(b, &a[i].0)) {
            return false;
        }
        i = i + 1;
    }
    let mut i: usize = 0;
    while i < b.len()
        invariant
            i <= b@.len(),
            av == pairs_view(a@),
            bv == pairs_view(b@),
            forall|j: int| 0 <= j < a@.len() ==> lookup(av, (#[trigger] av[j]).0) == lookup(bv, av[j].0),
            forall|j: int| 0 <= j < i ==> lookup(av, (#[trigger] bv[j]).0) == lookup(bv, bv[j].0),
        decreases b@.len() - i,
    {
        assert(bv[i as int].0 == b@[i as int].0@);
        if !same_value(&find_field(a, &b[i].0), &find_field(b, &b[i].0)) {
            return false;
        }
        i = i + 1;
    }
    proof {
        assert forall|k: Seq<char>| #[trigger] lookup(av, k) == lookup(bv, k) by {
            lemma_lookup_some(av, k);
            lemma_lookup_some(bv, k);
            if lookup(av, k) is Some {
                let j = choose|j: int| 0 <= j < av.len() && (#[trigger] av[j]).0 == k;
            } else if lookup(bv, k) is Some {
                let j = choose|j: int| 0 <= j < bv.len() && (#[trigger] bv[j]).0 == k;
            }
        }
    }
    true
}

} // verus!
