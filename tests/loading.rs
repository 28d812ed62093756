use actiondb_core::grammar::CompileError;
use actiondb_core::loader::{load, Detail, Diagnostic, Field, LoadError, PatternVisitor, RawValue};
use actiondb_core::matcher::match_line;

const UUID_A: &str = "9a49c47d-29e9-4072-be84-3b76c6814743";
const UUID_B: &str = "2e49c47d-29e9-4072-be84-3b76c6814744";
const UUID_C: &str = "5d49c47d-29e9-4072-be84-3b76c6814745";

fn s(x: &str) -> RawValue {
    RawValue::Str(x.to_string())
}

fn record(pairs: Vec<(&str, RawValue)>) -> Vec<(String, RawValue)> {
    pairs.into_iter().map(|(k, v)| (k.to_string(), v)).collect()
}

fn valid(uuid: &str, template: &str) -> Vec<(String, RawValue)> {
    record(vec![("name", s("n")), ("uuid", s(uuid)), ("pattern", s(template))])
}

#[test]
fn parse_uuid_reads_the_number() {
    assert_eq!(
        PatternVisitor::parse_uuid(Some(UUID_A.to_string())),
        Ok(0x9a49c47d_29e9_4072_be84_3b76c6814743u128)
    );
}

#[test]
fn parse_uuid_absent_or_invalid_is_missing() {
    assert_eq!(PatternVisitor::parse_uuid(None), Err(LoadError::MissingField(Field::Uuid)));
    assert_eq!(
        PatternVisitor::parse_uuid(Some("not-a-uuid".to_string())),
        Err(LoadError::MissingField(Field::Uuid))
    );
}

#[test]
fn invalid_uuid_record_is_excluded() {
    let recs = vec![
        valid(UUID_A, "a @NUMBER:x@"),
        record(vec![("name", s("bad")), ("uuid", s("not-a-uuid")), ("pattern", s("b"))]),
        valid(UUID_B, "c"),
    ];
    let (repo, diags) = load(&recs);
    assert_eq!(repo.len(), 2);
    assert_eq!(
        diags,
        vec![Diagnostic { record: 1, error: LoadError::MissingField(Field::Uuid), detail: Detail::InvalidUuid }]
    );
    assert_eq!(repo.get(0).uuid, 0x9a49c47d_29e9_4072_be84_3b76c6814743u128);
    assert!(match_line(&repo, "c").is_some());
}

#[test]
fn one_malformed_record_among_valid_ones() {
    let good = vec![valid(UUID_A, "a @NUMBER:x@"), valid(UUID_B, "b @STRING:y@"), valid(UUID_C, "c")];
    let mut with_bad = good.clone_records();
    with_bad.insert(1, record(vec![("name", s("no uuid")), ("pattern", s("x"))]));
    let (alone, alone_diags) = load(&good);
    let (repo, diags) = load(&with_bad);
    assert_eq!(repo.len(), 3);
    assert_eq!(alone_diags.len(), 0);
    assert_eq!(diags.len(), 1);
    assert_eq!(diags[0].error, LoadError::MissingField(Field::Uuid));
    for line in ["a 1", "b word", "c", "x"] {
        assert_eq!(match_line(&repo, line), match_line(&alone, line));
    }
}

trait CloneRecords {
    fn clone_records(&self) -> Vec<Vec<(String, RawValue)>>;
}

fn clone_value(v: &RawValue) -> RawValue {
    match v {
        RawValue::Str(x) => RawValue::Str(x.clone()),
        RawValue::List(l) => RawValue::List(l.iter().map(clone_value).collect()),
        RawValue::Dict(d) => RawValue::Dict(d.iter().map(|(k, v)| (k.clone(), clone_value(v))).collect()),
        RawValue::Other => RawValue::Other,
    }
}

impl CloneRecords for Vec<Vec<(String, RawValue)>> {
    fn clone_records(&self) -> Vec<Vec<(String, RawValue)>> {
        self.iter().map(|r| r.iter().map(|(k, v)| (k.clone(), clone_value(v))).collect()).collect()
    }
}

#[test]
fn missing_name_is_reported() {
    let (repo, diags) = load(&vec![record(vec![("uuid", s(UUID_A)), ("pattern", s("x"))])]);
    assert_eq!(repo.len(), 0);
    assert_eq!(diags[0].error, LoadError::MissingField(Field::Name));
    assert_eq!(diags[0].detail, Detail::Absent);
}

#[test]
fn empty_name_is_reported() {
    let (_, diags) = load(&vec![record(vec![("name", s("")), ("uuid", s(UUID_A)), ("pattern", s("x"))])]);
    assert_eq!(diags[0].error, LoadError::MissingField(Field::Name));
    assert_eq!(diags[0].detail, Detail::EmptyName);
}

#[test]
fn uncompilable_pattern_is_a_missing_pattern() {
    let (repo, diags) = load(&vec![valid(UUID_A, "@NUMBER:x")]);
    assert_eq!(repo.len(), 0);
    assert_eq!(
        diags,
        vec![Diagnostic {
            record: 0,
            error: LoadError::MissingField(Field::Pattern),
            detail: Detail::Compile(CompileError::Syntax)
        }]
    );
}

#[test]
fn absent_pattern_is_reported() {
    let (_, diags) = load(&vec![record(vec![("name", s("n")), ("uuid", s(UUID_A))])]);
    assert_eq!(diags[0].error, LoadError::MissingField(Field::Pattern));
    assert_eq!(diags[0].detail, Detail::Absent);
}

#[test]
fn uuid_checked_before_name() {
    let (_, diags) = load(&vec![record(vec![("pattern", s("x"))])]);
    assert_eq!(diags.len(), 1);
    assert_eq!(diags[0].error, LoadError::MissingField(Field::Uuid));
}

#[test]
fn wrong_type_of_required_field() {
    let (_, diags) = load(&vec![record(vec![("name", s("n")), ("uuid", RawValue::Other), ("pattern", s("x"))])]);
    assert_eq!(diags[0].error, LoadError::MissingField(Field::Uuid));
    assert_eq!(diags[0].detail, Detail::WrongType);
}

#[test]
fn malformed_optional_fields_are_taken_as_empty() {
    let mut r = valid(UUID_A, "x");
    r.push(("values".to_string(), RawValue::List(vec![])));
    r.push(("tags".to_string(), RawValue::List(vec![s("ok"), RawValue::Other])));
    r.push(("test_messages".to_string(), s("nope")));
    let (repo, diags) = load(&vec![r]);
    assert_eq!(repo.len(), 1);
    let errors: Vec<LoadError> = diags.iter().map(|d| d.error).collect();
    assert_eq!(
        errors,
        vec![
            LoadError::TypeMismatch(Field::Values),
            LoadError::TypeMismatch(Field::Tags),
            LoadError::TypeMismatch(Field::TestMessages)
        ]
    );
    let p = repo.get(0);
    assert!(p.values.is_empty() && p.tags.is_empty() && p.test_messages.is_empty());
}

#[test]
fn optional_fields_are_read() {
    let mut r = valid(UUID_A, "user @STRING:user@");
    r.push(("values".to_string(), RawValue::Dict(vec![("app".to_string(), s("sshd"))])));
    r.push(("tags".to_string(), RawValue::List(vec![s("auth"), s("login")])));
    r.push((
        "test_messages".to_string(),
        RawValue::List(vec![RawValue::Dict(vec![
            ("message".to_string(), s("user root")),
            ("values".to_string(), RawValue::Dict(vec![("user".to_string(), s("root"))])),
        ])]),
    ));
    r.push(("unknown".to_string(), RawValue::Other));
    let (repo, diags) = load(&vec![r]);
    assert!(diags.is_empty());
    let p = repo.get(0);
    assert_eq!(p.name, "n");
    assert_eq!(p.values, vec![("app".to_string(), "sshd".to_string())]);
    assert_eq!(p.tags, vec!["auth".to_string(), "login".to_string()]);
    assert_eq!(p.test_messages.len(), 1);
    assert_eq!(p.test_messages[0].message, "user root");
    assert_eq!(p.test_messages[0].values, vec![("user".to_string(), "root".to_string())]);
}

#[test]
fn later_duplicate_uuid_is_left_out() {
    let (repo, diags) = load(&vec![valid(UUID_A, "first"), valid(UUID_A, "second")]);
    assert_eq!(repo.len(), 1);
    assert!(match_line(&repo, "first").is_some());
    assert!(match_line(&repo, "second").is_none());
    assert_eq!(
        diags,
        vec![Diagnostic { record: 1, error: LoadError::DuplicateUuid, detail: Detail::Duplicate }]
    );
}

#[test]
fn last_occurrence_of_a_key_counts() {
    let r = record(vec![("name", s("n")), ("uuid", s("bad")), ("uuid", s(UUID_A)), ("pattern", s("x"))]);
    let (repo, diags) = load(&vec![r]);
    assert_eq!(repo.len(), 1);
    assert!(diags.is_empty());
}
