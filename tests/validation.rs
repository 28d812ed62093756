use actiondb_core::grammar::compile;
use actiondb_core::pattern::{Pattern, Repository, TestMessage};
use actiondb_core::loader::{Detail, Diagnostic, Field, LoadError};
use actiondb_core::validate::{all_passed, check_message, validate, validation_succeeded, TestOutcome};

fn fields(v: Vec<(&str, &str)>) -> Vec<(String, String)> {
    v.into_iter().map(|(k, v)| (k.to_string(), v.to_string())).collect()
}

fn message(text: &str, v: Vec<(&str, &str)>) -> TestMessage {
    TestMessage::new(text.to_string(), fields(v))
}

fn login(uuid: u128, msgs: Vec<TestMessage>) -> Pattern {
    Pattern::new(
        "login".to_string(),
        uuid,
        compile("user @STRING:user@ logged in from @IPv4:ip@").unwrap(),
        msgs,
        fields(vec![("app", "sshd")]),
        vec![],
    )
}

#[test]
fn shipped_patterns_pass_their_own_examples() {
    let mut repo = Repository::new();
    repo.insert(login(
        1,
        vec![
            message("user alice logged in from 10.0.0.5", vec![("user", "alice"), ("ip", "10.0.0.5"), ("app", "sshd")]),
            message("user bob logged in from 192.168.1.1", vec![("app", "sshd"), ("ip", "192.168.1.1"), ("user", "bob")]),
        ],
    ));
    repo.insert(Pattern::new(
        "port".to_string(),
        2,
        compile("listening on @NUMBER:port:1-65535@").unwrap(),
        vec![message("listening on 8080", vec![("port", "8080")])],
        vec![],
        vec![],
    ));
    let reports = validate(&repo);
    assert_eq!(reports.len(), 3);
    assert!(reports.iter().all(|r| matches!(r.outcome, TestOutcome::Pass)));
    assert_eq!((reports[0].pattern_uuid, reports[0].test_index), (1, 0));
    assert_eq!((reports[1].pattern_uuid, reports[1].test_index), (1, 1));
    assert_eq!((reports[2].pattern_uuid, reports[2].test_index), (2, 0));
    assert!(all_passed(&reports));
}

#[test]
fn missing_expected_field_fails() {
    let p = login(1, vec![]);
    let m = message("user alice logged in from 10.0.0.5", vec![("user", "alice"), ("ip", "10.0.0.5")]);
    match check_message(&p, &m) {
        TestOutcome::Fail { expected, mut actual } => {
            assert_eq!(expected, m.values);
            actual.sort();
            assert_eq!(actual, fields(vec![("app", "sshd"), ("ip", "10.0.0.5"), ("user", "alice")]));
        }
        other => panic!("unexpected {:?}", other),
    }
}

#[test]
fn wrong_value_fails() {
    let p = login(1, vec![]);
    let m = message(
        "user alice logged in from 10.0.0.5",
        vec![("user", "bob"), ("ip", "10.0.0.5"), ("app", "sshd")],
    );
    assert!(matches!(check_message(&p, &m), TestOutcome::Fail { .. }));
}

#[test]
fn unexpected_extra_expectation_fails() {
    let p = login(1, vec![]);
    let m = message(
        "user alice logged in from 10.0.0.5",
        vec![("user", "alice"), ("ip", "10.0.0.5"), ("app", "sshd"), ("host", "h")],
    );
    assert!(matches!(check_message(&p, &m), TestOutcome::Fail { .. }));
}

#[test]
fn unmatched_example_is_no_match() {
    let mut repo = Repository::new();
    repo.insert(login(7, vec![message("user logged in", vec![])]));
    let reports = validate(&repo);
    assert_eq!(reports.len(), 1);
    assert!(matches!(reports[0].outcome, TestOutcome::NoMatch));
    assert!(!all_passed(&reports));
}

#[test]
fn pattern_without_examples_reports_nothing() {
    let mut repo = Repository::new();
    repo.insert(login(1, vec![]));
    assert!(validate(&repo).is_empty());
    assert!(all_passed(&validate(&repo)));
}

#[test]
fn load_diagnostics_fail_validation() {
    let mut repo = Repository::new();
    repo.insert(login(1, vec![message("user a logged in from 1.1.1.1", vec![("user", "a"), ("ip", "1.1.1.1"), ("app", "sshd")])]));
    let reports = validate(&repo);
    assert!(validation_succeeded(&reports, &vec![]));
    let diag = Diagnostic { record: 3, error: LoadError::MissingField(Field::Name), detail: Detail::Absent };
    assert!(!validation_succeeded(&reports, &vec![diag]));
}
