//! The pattern loader: builds patterns from weakly-typed records, one record at
//! a time, so that a faulty record costs only itself.
use vstd::prelude::*;
use crate::fields::pairs_view;
use crate::grammar::{CompileError, compile, compile_spec, tokens_spec};
use crate::pattern::{Pattern, Repository, TestMessage, has_uuid};
use crate::text::{chars_of, prefix_at};

verus! {

/// A value of a pattern file, with only the shapes the loader tells apart.
#[derive(Debug)]
pub enum RawValue {
    Str(String),
    List(Vec<RawValue>),
    Dict(Vec<(String, RawValue)>),
    /// Any other value: a number, a boolean, null.
    Other,
}

/// The keys of a pattern record.
#[derive(Clone, Copy, Debug, PartialEq, Eq, Structural)]
pub enum Field {
    Name,
    Uuid,
    Pattern,
    Values,
    Tags,
    TestMessages,
}

/// Why a record, or one of its fields, was not taken as it stands.
#[derive(Clone, Copy, Debug, PartialEq, Eq, Structural)]
pub enum LoadError {
    /// A required field is absent or unusable; the record is left out.
    MissingField(Field),
    /// An optional field has the wrong shape; it is taken as empty.
    TypeMismatch(Field),
    /// An earlier record already has this UUID; the record is left out.
    DuplicateUuid,
}

/// What exactly was wrong.
#[derive(Clone, Copy, Debug, PartialEq, Eq, Structural)]
pub enum Detail {
    Absent,
    WrongType,
    EmptyName,
    InvalidUuid,
    Compile(CompileError),
    Duplicate,
}

/// One anomaly met while loading the record at position `record`.
#[derive(Clone, Copy, Debug, PartialEq, Eq, Structural)]
pub struct Diagnostic {
    pub record: usize,
    pub error: LoadError,
    pub detail: Detail,
}

pub open spec fn field_key(f: Field) -> Seq<char> {
    match f {
        Field::Name => "name"@,
        Field::Uuid => "uuid"@,
        Field::Pattern => "pattern"@,
        Field::Values => "values"@,
        Field::Tags => "tags"@,
        Field::TestMessages => "test_messages"@,
    }
}

pub open spec fn message_key() -> Seq<char> {
    "message"@
}

/// The value of the last pair of `rec` whose key is `k`.
pub open spec fn raw_field(rec: Seq<(String, RawValue)>, k: Seq<char>) -> Option<RawValue>
    decreases rec.len(),
{
    if rec.len() == 0 {
        None
    } else if rec.last().0@ == k {
        Some(rec.last().1)
    } else {
        raw_field(rec.drop_last(), k)
    }
}

/// The UUID that the uuid crate reads from the text `s`, as its 128-bit number, if it reads one.
pub uninterp spec fn parsed_uuid(s: Seq<char>) -> Option<u128>;

/// Relies on `uuid::Uuid::parse_str`: it depends on the text alone; the value
/// is read as the UUID's 128-bit big-endian number.
#[verifier::external_body]
fn uuid_from_str(s: &str) -> (r: Option<u128>)
    ensures
        r == parsed_uuid(s@),
{
    match uuid::Uuid::parse_str(s) {
        Ok(u) => Some(u.as_u128()),
        Err(_) => None,
    }
}

pub open spec fn dict_of_strs(v: RawValue) -> bool {
    v is Dict && forall|i: int| 0 <= i < v->Dict_0@.len() ==> (#[trigger] v->Dict_0@[i]).1 is Str
}

pub open spec fn dict_view(d: Seq<(String, RawValue)>) -> Seq<(Seq<char>, Seq<char>)> {
    d.map_values(|p: (String, RawValue)| (p.0@, p.1->Str_0@))
}

pub open spec fn list_of_strs(v: RawValue) -> bool {
    v is List && forall|i: int| 0 <= i < v->List_0@.len() ==> (#[trigger] v->List_0@[i]) is Str
}

/// A worked example: a dictionary with a string `message` and optional string `values`.
pub open spec fn message_ok(v: RawValue) -> bool {
    &&& v is Dict
    &&& raw_field(v->Dict_0@, message_key()) matches Some(RawValue::Str(_))
    &&& match raw_field(v->Dict_0@, field_key(Field::Values)) {
        Some(x) => dict_of_strs(x),
        None => true,
    }
}

pub open spec fn message_from(v: RawValue, m: TestMessage) -> bool {
    &&& m.message@ == raw_field(v->Dict_0@, message_key())->0->Str_0@
    &&& pairs_view(m.values@) == match raw_field(v->Dict_0@, field_key(Field::Values)) {
        Some(x) => dict_view(x->Dict_0@),
        None => Seq::empty(),
    }
}

pub open spec fn messages_ok(v: RawValue) -> bool {
    v is List && forall|i: int| 0 <= i < v->List_0@.len() ==> message_ok(#[trigger] v->List_0@[i])
}

/// The first fault among the required fields of `rec`, checked in the order uuid, name, pattern.
pub open spec fn required_fault(rec: Seq<(String, RawValue)>) -> Option<(Field, Detail)> {
    match raw_field(rec, field_key(Field::Uuid)) {
        None => Some((Field::Uuid, Detail::Absent)),
        Some(RawValue::Str(u)) => if parsed_uuid(u@) is None {
            Some((Field::Uuid, Detail::InvalidUuid))
        } else {
            match raw_field(rec, field_key(Field::Name)) {
                None => Some((Field::Name, Detail::Absent)),
                Some(RawValue::Str(n)) => if n@.len() == 0 {
                    Some((Field::Name, Detail::EmptyName))
                } else {
                    match raw_field(rec, field_key(Field::Pattern)) {
                        None => Some((Field::Pattern, Detail::Absent)),
                        Some(RawValue::Str(t)) => match compile_spec(t@) {
                            Ok(_) => None,
                            Err(e) => Some((Field::Pattern, Detail::Compile(e))),
                        },
                        Some(_) => Some((Field::Pattern, Detail::WrongType)),
                    }
                },
                Some(_) => Some((Field::Name, Detail::WrongType)),
            }
        },
        Some(_) => Some((Field::Uuid, Detail::WrongType)),
    }
}

pub open spec fn accepted(rec: Seq<(String, RawValue)>) -> bool {
    required_fault(rec) is None
}

/// The UUID of an accepted record.
pub open spec fn record_uuid(rec: Seq<(String, RawValue)>) -> u128 {
    parsed_uuid(raw_field(rec, field_key(Field::Uuid))->0->Str_0@)->0
}

/// Whether an optional field of `rec` is present with the wrong shape.
pub open spec fn optional_fault(rec: Seq<(String, RawValue)>, f: Field) -> bool {
    match raw_field(rec, field_key(f)) {
        None => false,
        Some(v) => match f {
            Field::Values => !dict_of_strs(v),
            Field::Tags => !list_of_strs(v),
            _ => !messages_ok(v),
        },
    }
}

/// `p` is the pattern built from the accepted record `rec`.
pub open spec fn pattern_from(rec: Seq<(String, RawValue)>, p: Pattern) -> bool {
    &&& p.name@ == raw_field(rec, field_key(Field::Name))->0->Str_0@
    &&& p.uuid == record_uuid(rec)
    &&& compile_spec(raw_field(rec, field_key(Field::Pattern))->0->Str_0@) == Ok::<Seq<crate::grammar::TokenSpec>, CompileError>(tokens_spec(p.pattern.tokens@))
    &&& if optional_fault(rec, Field::Values) || raw_field(rec, field_key(Field::Values)) is None {
        p.values@.len() == 0
    } else {
        pairs_view(p.values@) == dict_view(raw_field(rec, field_key(Field::Values))->0->Dict_0@)
    }
    &&& if optional_fault(rec, Field::Tags) || raw_field(rec, field_key(Field::Tags)) is None {
        p.tags@.len() == 0
    } else {
        let l = raw_field(rec, field_key(Field::Tags))->0->List_0@;
        p.tags@.len() == l.len() && forall|i: int| 0 <= i < l.len() ==> (#[trigger] p.tags@[i])@ == l[i]->Str_0@
    }
    &&& if optional_fault(rec, Field::TestMessages) || raw_field(rec, field_key(Field::TestMessages)) is None {
        p.test_messages@.len() == 0
    } else {
        let l = raw_field(rec, field_key(Field::TestMessages))->0->List_0@;
        p.test_messages@.len() == l.len() && forall|i: int| 0 <= i < l.len() ==> message_from(l[i], #[trigger] p.test_messages@[i])
    }
}

/// The optional fields of `rec` that are present with the wrong shape, in the
/// order values, tags, test messages.
pub open spec fn optional_faults(rec: Seq<(String, RawValue)>) -> Seq<Field> {
    (if optional_fault(rec, Field::Values) { seq![Field::Values] } else { Seq::empty() })
        + (if optional_fault(rec, Field::Tags) { seq![Field::Tags] } else { Seq::empty() })
        + (if optional_fault(rec, Field::TestMessages) { seq![Field::TestMessages] } else { Seq::empty() })
}

fn key_is(k: &String, want: &str) -> (r: bool)
    ensures
        r == (k@ == want@),
{
    let kc = chars_of(k.as_str());
    let wc = chars_of(want);
    if kc.len() != wc.len() {
        return false;
    }
    let r = prefix_at(&wc, &kc, 0);
    assert(kc@.subrange(0, wc@.len() as int) =~= kc@);
    r
}

/// The value of the last pair of `rec` whose key is `key`.
fn find_raw<'a>(rec: &'a Vec<(String, RawValue)>, key: &str) -> (r: Option<&'a RawValue>)
    ensures
        match r {
            Some(v) => raw_field(rec@, key@) == Some(*v),
            None => raw_field(rec@, key@) is None,
        },
{
    let mut i: usize = rec.len();
    assert(rec@.take(i as int) =~= rec@);
    while i > 0
        invariant
            i <= rec@.len(),
            raw_field(rec@, key@) == raw_field(rec@.take(i as int), key@),
        decreases i,
    {
        let ghost t = rec@.take(i as int);
        assert(t.last() == rec@[i - 1]);
        if key_is(&rec[i - 1].0, key) {
            return Some(&rec[i - 1].1);
        }
        assert(t.drop_last() =~= rec@.take(i - 1));
        i = i - 1;
    }
    None
}

/// The dictionary of strings `v` as a field mapping.
fn read_values(v: &RawValue) -> (r: Option<Vec<(String, String)>>)
    ensures
        match r {
            Some(f) => dict_of_strs(*v) && pairs_view(f@) == dict_view(v->Dict_0@),
            None => !dict_of_strs(*v),
        },
{
    match v {
        RawValue::Dict(d) => {
            let mut out: Vec<(String, String)> = Vec::new();
            let mut i: usize = 0;
            while i < d.len()
                invariant
                    *v is Dict && v->Dict_0@ == d@,
                    i <= d@.len(),
                    forall|j: int| 0 <= j < i ==> (#[trigger] d@[j]).1 is Str,
                    pairs_view(out@) == dict_view(d@.take(i as int)),
                decreases d@.len() - i,
            {
                let ghost before = pairs_view(out@);
                assert(v->Dict_0@[i as int] == d@[i as int]);
                match &d[i].1 {
                    RawValue::Str(x) => {
                        let k = d[i].0.clone();
                        let y = x.clone();
                        out.push((k, y));
                        assert(pairs_view(out@) =~= before.push((k@, y@)));
                    },
                    _ => {
                        return None;
                    },
                }
                i = i + 1;
                assert(dict_view(d@.take(i as int)) =~= dict_view(d@.take(i - 1)).push((d@[i - 1].0@, d@[i - 1].1->Str_0@)));
            }
            assert(d@.take(i as int) =~= d@);
            Some(out)
        },
        _ => None,
    }
}

/// The list of strings `v`.
fn read_tags(v: &RawValue) -> (r: Option<Vec<String>>)
    ensures
        match r {
            Some(t) => list_of_strs(*v) && t@.len() == v->List_0@.len() && forall|i: int|
                0 <= i < t@.len() ==> (#[trigger] t@[i])@ == v->List_0@[i]->Str_0@,
            None => !list_of_strs(*v),
        },
{
    match v {
        RawValue::List(l) => {
            let mut out: Vec<String> = Vec::new();
            let mut i: usize = 0;
            while i < l.len()
                invariant
                    *v is List && v->List_0@ == l@,
                    i <= l@.len(),
                    out@.len() == i,
                    forall|j: int| 0 <= j < i ==> (#[trigger] l@[j]) is Str,
                    forall|j: int| 0 <= j < i ==> (#[trigger] out@[j])@ == l@[j]->Str_0@,
                decreases l@.len() - i,
            {
                assert(v->List_0@[i as int] == l@[i as int]);
                match &l[i] {
                    RawValue::Str(x) => {
                        out.push(x.clone());
                    },
                    _ => {
                        return None;
                    },
                }
                i = i + 1;
            }
            Some(out)
        },
        _ => None,
    }
}

/// The worked example written by `v`.
fn read_message(v: &RawValue) -> (r: Option<TestMessage>)
    ensures
        match r {
            Some(m) => message_ok(*v) && message_from(*v, m),
            None => !message_ok(*v),
        },
{
    match v {
        RawValue::Dict(d) => {
            let text = match find_raw(d, "message") {
                Some(RawValue::Str(t)) => t.clone(),
                _ => {
                    return None;
                },
            };
            let values = match find_raw(d, "values") {
                Some(x) => match read_values(x) {
                    Some(f) => f,
                    None => {
                        return None;
                    },
                },
                None => Vec::new(),
            };
            assert(pairs_view(values@) =~= match raw_field(v->Dict_0@, field_key(Field::Values)) {
                Some(x) => dict_view(x->Dict_0@),
                None => Seq::empty(),
            });
            Some(TestMessage::new(text, values))
        },
        _ => None,
    }
}

/// The list of worked examples `v`.
fn read_messages(v: &RawValue) -> (r: Option<Vec<TestMessage>>)
    ensures
        match r {
            Some(t) => messages_ok(*v) && t@.len() == v->List_0@.len() && forall|i: int|
                0 <= i < t@.len() ==> message_from(v->List_0@[i], #[trigger] t@[i]),
            None => !messages_ok(*v),
        },
{
    match v {
        RawValue::List(l) => {
            let mut out: Vec<TestMessage> = Vec::new();
            let mut i: usize = 0;
            while i < l.len()
                invariant
                    *v is List && v->List_0@ == l@,
                    i <= l@.len(),
                    out@.len() == i,
                    forall|j: int| 0 <= j < i ==> message_ok(#[trigger] l@[j]),
                    forall|j: int| 0 <= j < i ==> message_from(l@[j], #[trigger] out@[j]),
                decreases l@.len() - i,
            {
                assert(v->List_0@[i as int] == l@[i as int]);
                match read_message(&l[i]) {
                    Some(m) => {
                        out.push(m);
                    },
                    None => {
                        return None;
                    },
                }
                i = i + 1;
            }
            Some(out)
        },
        _ => None,
    }
}

/// The per-record step of the loader.
pub struct PatternVisitor;

impl PatternVisitor {
    /// The UUID written by `uuid`; an absent or unparsable one is a missing field.
    pub fn parse_uuid(uuid: Option<String>) -> (r: Result<u128, LoadError>)
        ensures
            match uuid {
                None => r == Err::<u128, LoadError>(LoadError::MissingField(Field::Uuid)),
                Some(s) => match parsed_uuid(s@) {
                    Some(u) => r == Ok::<u128, LoadError>(u),
                    None => r == Err::<u128, LoadError>(LoadError::MissingField(Field::Uuid)),
                },
            },
    {
        match uuid {
            Some(s) => match uuid_from_str(s.as_str()) {
                Some(u) => Ok(u),
                None => Err(LoadError::MissingField(Field::Uuid)),
            },
            None => Err(LoadError::MissingField(Field::Uuid)),
        }
    }

    /// Builds the pattern of one record: its first fault among the required
    /// fields, or the pattern and the optional fields that were taken as empty.
    pub fn visit_map(rec: &Vec<(String, RawValue)>) -> (r: Result<(Pattern, Vec<Field>), (Field, Detail)>)
        ensures
            match r {
                Ok(ok) => accepted(rec@) && pattern_from(rec@, ok.0) && ok.1@ == optional_faults(rec@),
                Err(e) => required_fault(rec@) == Some(e),
            },
    {
        let uuid = match find_raw(rec, "uuid") {
            None => {
                return Err((Field::Uuid, Detail::Absent));
            },
            Some(RawValue::Str(u)) => match PatternVisitor::parse_uuid(Some(u.clone())) {
                Ok(x) => x,
                Err(_) => {
                    return Err((Field::Uuid, Detail::InvalidUuid));
                },
            },
            Some(_) => {
                return Err((Field::Uuid, Detail::WrongType));
            },
        };
        let name = match find_raw(rec, "name") {
            None => {
                return Err((Field::Name, Detail::Absent));
            },
            Some(RawValue::Str(n)) => {
                if n.as_str().unicode_len() == 0 {
                    return Err((Field::Name, Detail::EmptyName));
                }
                n.clone()
            },
            Some(_) => {
                return Err((Field::Name, Detail::WrongType));
            },
        };
        let program = match find_raw(rec, "pattern") {
            None => {
                return Err((Field::Pattern, Detail::Absent));
            },
            Some(RawValue::Str(t)) => match compile(t.as_str()) {
                Ok(p) => p,
                Err(e) => {
                    return Err((Field::Pattern, Detail::Compile(e)));
                },
            },
            Some(_) => {
                return Err((Field::Pattern, Detail::WrongType));
            },
        };
        let mut faults: Vec<Field> = Vec::new();
        let values = match find_raw(rec, "values") {
            None => Vec::new(),
            Some(x) => match read_values(x) {
                Some(f) => f,
                None => {
                    faults.push(Field::Values);
                    Vec::new()
                },
            },
        };
        let tags = match find_raw(rec, "tags") {
            None => Vec::new(),
            Some(x) => match read_tags(x) {
                Some(t) => t,
                None => {
                    faults.push(Field::Tags);
                    Vec::new()
                },
            },
        };
        let messages = match find_raw(rec, "test_messages") {
            None => Vec::new(),
            Some(x) => match read_messages(x) {
                Some(t) => t,
                None => {
                    faults.push(Field::TestMessages);
                    Vec::new()
                },
            },
        };
        assert(faults@ =~= optional_faults(rec@));
        Ok((Pattern::new(name, uuid, program, messages, values, tags), faults))
    }
}

pub open spec fn records_view(rs: Seq<Vec<(String, RawValue)>>) -> Seq<Seq<(String, RawValue)>> {
    rs.map_values(|r: Vec<(String, RawValue)>| r@)
}

/// Whether an accepted record among `prev` has the UUID `u`.
pub open spec fn uuid_taken(prev: Seq<Seq<(String, RawValue)>>, u: u128) -> bool {
    exists|j: int| 0 <= j < prev.len() && accepted(prev[j]) && #[trigger] record_uuid(prev[j]) == u
}

/// Whether `rec`, following the records `prev`, yields a pattern.
pub open spec fn kept(prev: Seq<Seq<(String, RawValue)>>, rec: Seq<(String, RawValue)>) -> bool {
    accepted(rec) && !uuid_taken(prev, record_uuid(rec))
}

/// The records that yield patterns, in order.
pub open spec fn kept_records(rs: Seq<Seq<(String, RawValue)>>) -> Seq<Seq<(String, RawValue)>>
    decreases rs.len(),
{
    if rs.len() == 0 {
        Seq::empty()
    } else {
        kept_records(rs.drop_last()) + if kept(rs.drop_last(), rs.last()) {
            seq![rs.last()]
        } else {
            Seq::empty()
        }
    }
}

pub open spec fn optional_diagnostic(rec: Seq<(String, RawValue)>, f: Field, index: int) -> Seq<Diagnostic> {
    if optional_fault(rec, f) {
        seq![Diagnostic { record: index as usize, error: LoadError::TypeMismatch(f), detail: Detail::WrongType }]
    } else {
        Seq::empty()
    }
}

/// The diagnostics of the record `rec` at position `index`, following the records `prev`.
pub open spec fn record_diagnostics(prev: Seq<Seq<(String, RawValue)>>, rec: Seq<(String, RawValue)>, index: int) -> Seq<Diagnostic> {
    match required_fault(rec) {
        Some(fault) => seq![Diagnostic { record: index as usize, error: LoadError::MissingField(fault.0), detail: fault.1 }],
        None => if uuid_taken(prev, record_uuid(rec)) {
            seq![Diagnostic { record: index as usize, error: LoadError::DuplicateUuid, detail: Detail::Duplicate }]
        } else {
            optional_diagnostic(rec, Field::Values, index) + optional_diagnostic(rec, Field::Tags, index)
                + optional_diagnostic(rec, Field::TestMessages, index)
        },
    }
}

/// All diagnostics of loading `rs`, record by record.
pub open spec fn load_diagnostics(rs: Seq<Seq<(String, RawValue)>>) -> Seq<Diagnostic>
    decreases rs.len(),
{
    if rs.len() == 0 {
        Seq::empty()
    } else {
        load_diagnostics(rs.drop_last()) + record_diagnostics(rs.drop_last(), rs.last(), rs.len() - 1)
    }
}

proof fn lemma_taken_push(prev: Seq<Seq<(String, RawValue)>>, rec: Seq<(String, RawValue)>, u: u128)
    ensures
        uuid_taken(prev.push(rec), u) <==> (uuid_taken(prev, u) || (accepted(rec) && record_uuid(rec) == u)),
{
    let q = prev.push(rec);
    if uuid_taken(q, u) {
        let j = choose|j: int| 0 <= j < q.len() && accepted(q[j]) && #[trigger] record_uuid(q[j]) == u;
        if j < prev.len() {
            assert(q[j] == prev[j]);
        }
    }
    if uuid_taken(prev, u) {
        let j = choose|j: int| 0 <= j < prev.len() && accepted(prev[j]) && #[trigger] record_uuid(prev[j]) == u;
        assert(q[j] == prev[j]);
    }
    if accepted(rec) && record_uuid(rec) == u {
        assert(q[prev.len() as int] == rec);
    }
}

/// Loads the records `records`: a repository of the records that yield
/// patterns, in order, and every diagnostic. A faulty record costs only itself.
pub fn load(records: &Vec<Vec<(String, RawValue)>>) -> (r: (Repository, Vec<Diagnostic>))
    ensures
        r.0.wf(),
        r.0@.len() == kept_records(records_view(records@)).len(),
        forall|t: int| 0 <= t < r.0@.len() ==> pattern_from(kept_records(records_view(records@))[t], #[trigger] r.0@[t]),
        r.1@ == load_diagnostics(records_view(records@)),
{
    let ghost rv = records_view(records@);
    let mut repo = Repository::new();
    let mut diags: Vec<Diagnostic> = Vec::new();
    let mut i: usize = 0;
    assert(rv.take(0) =~= Seq::<Seq<(String, RawValue)>>::empty());
    while i < records.len()
        invariant
            rv == records_view(records@),
            i <= records@.len(),
            repo.wf(),
            repo@.len() == kept_records(rv.take(i as int)).len(),
            forall|t: int| 0 <= t < repo@.len() ==> pattern_from(kept_records(rv.take(i as int))[t], #[trigger] repo@[t]),
            forall|u: u128| #[trigger] has_uuid(repo@, u) <==> uuid_taken(rv.take(i as int), u),
            diags@ == load_diagnostics(rv.take(i as int)),
        decreases records@.len() - i,
    {
        let ghost prev = rv.take(i as int);
        let ghost rec = rv[i as int];
        let ghost old_repo = repo@;
        let ghost old_diags = diags@;
        let ghost next = rv.take(i + 1);
        assert(next.drop_last() =~= prev);
        assert(next.last() == rec);
        assert(rec == records@[i as int]@);
        proof {
            assert forall|u: u128| uuid_taken(next, u) <==> (uuid_taken(prev, u) || (accepted(rec) && record_uuid(rec) == u)) by {
                lemma_taken_push(prev, rec, u);
                assert(prev.push(rec) =~= next);
            }
        }
        match PatternVisitor::visit_map(&records[i]) {
            Err((f, d)) => {
                diags.push(Diagnostic { record: i, error: LoadError::MissingField(f), detail: d });
                assert(diags@ =~= load_diagnostics(next));
                assert(kept_records(next) =~= kept_records(prev));
            },
            Ok((p, faults)) => {
                let ghost pu = p.uuid;
                let added = repo.insert(p);
                if !added {
                    diags.push(Diagnostic { record: i, error: LoadError::DuplicateUuid, detail: Detail::Duplicate });
                    assert(diags@ =~= load_diagnostics(next));
                    assert(kept_records(next) =~= kept_records(prev));
                } else {
                    let mut k: usize = 0;
                    while k < faults.len()
                        invariant
                            k <= faults@.len(),
                            diags@ == old_diags + faults@.take(k as int).map_values(|f: Field| Diagnostic { record: i, error: LoadError::TypeMismatch(f), detail: Detail::WrongType }),
                        decreases faults@.len() - k,
                    {
                        diags.push(Diagnostic { record: i, error: LoadError::TypeMismatch(faults[k]), detail: Detail::WrongType });
                        k = k + 1;
                        assert(diags@ =~= old_diags + faults@.take(k as int).map_values(|f: Field| Diagnostic { record: i, error: LoadError::TypeMismatch(f), detail: Detail::WrongType }));
                    }
                    assert(faults@.take(k as int) =~= faults@);
                    assert(diags@ =~= load_diagnostics(next));
                    assert(kept_records(next) =~= kept_records(prev).push(rec));
                    assert forall|t: int| 0 <= t < repo@.len() implies pattern_from(kept_records(next)[t], #[trigger] repo@[t]) by {
                        if t < old_repo.len() {
                            assert(repo@[t] == old_repo[t]);
                        }
                    }
                    assert forall|u: u128| #[trigger] has_uuid(repo@, u) <==> uuid_taken(next, u) by {
                        if has_uuid(repo@, u) {
                            let j = choose|j: int| 0 <= j < repo@.len() && (#[trigger] repo@[j]).uuid == u;
                            if j < old_repo.len() {
                                assert(old_repo[j] == repo@[j]);
                                assert(has_uuid(old_repo, u));
                            }
                        }
                        if has_uuid(old_repo, u) {
                            let j = choose|j: int| 0 <= j < old_repo.len() && (#[trigger] old_repo[j]).uuid == u;
                            assert(old_repo[j] == repo@[j]);
                        }
                        if u == pu {
                            assert(repo@[old_repo.len() as int].uuid == u);
                        }
                    }
                }
            },
        }
        i = i + 1;
    }
    assert(rv.take(i as int) =~= rv);
    (repo, diags)
}

proof fn lemma_taken_without(pre: Seq<Seq<(String, RawValue)>>, bad: Seq<(String, RawValue)>, post: Seq<Seq<(String, RawValue)>>, u: u128)
    requires
        !accepted(bad),
    ensures
        uuid_taken(pre + seq![bad] + post, u) <==> uuid_taken(pre + post, u),
{
    let a = pre + seq![bad] + post;
    let b = pre + post;
    if uuid_taken(a, u) {
        let j = choose|j: int| 0 <= j < a.len() && accepted(a[j]) && #[trigger] record_uuid(a[j]) == u;
        if j < pre.len() {
            assert(a[j] == b[j]);
        } else {
            assert(j > pre.len());
            assert(a[j] == b[j - 1]);
        }
    }
    if uuid_taken(b, u) {
        let j = choose|j: int| 0 <= j < b.len() && accepted(b[j]) && #[trigger] record_uuid(b[j]) == u;
        if j < pre.len() {
            assert(a[j] == b[j]);
        } else {
            assert(a[j + 1] == b[j]);
        }
    }
}

/// Taking a record that fails a required field out of a pattern file leaves the
/// loaded patterns as they were, and removes exactly one diagnostic.
pub proof fn lemma_load_isolation(pre: Seq<Seq<(String, RawValue)>>, bad: Seq<(String, RawValue)>, post: Seq<Seq<(String, RawValue)>>)
    requires
        !accepted(bad),
    ensures
        kept_records(pre + seq![bad] + post) == kept_records(pre + post),
        load_diagnostics(pre + seq![bad] + post).len() == load_diagnostics(pre + post).len() + 1,
    decreases post.len(),
{
    let a = pre + seq![bad] + post;
    let b = pre + post;
    if post.len() == 0 {
        assert(a.drop_last() =~= pre);
        assert(b =~= pre);
    } else {
        let p2 = post.drop_last();
        lemma_load_isolation(pre, bad, p2);
        assert(a.drop_last() =~= pre + seq![bad] + p2);
        assert(b.drop_last() =~= pre + p2);
        assert(a.last() == b.last());
        let x = a.last();
        lemma_taken_without(pre, bad, p2, record_uuid(x));
    }
}

} // verus!
