use actiondb_core::grammar::compile;
use actiondb_core::matcher::match_line;
use actiondb_core::pattern::{Pattern, Repository};

const U1: u128 = 0x0000_0000_0000_0000_0000_0000_0000_0001;
const U2: u128 = 0x0000_0000_0000_0000_0000_0000_0000_0002;

fn pattern(uuid: u128, template: &str, values: Vec<(&str, &str)>) -> Pattern {
    let values = values.into_iter().map(|(k, v)| (k.to_string(), v.to_string())).collect();
    Pattern::new("p".to_string(), uuid, compile(template).unwrap(), Vec::new(), values, Vec::new())
}

fn repo(ps: Vec<Pattern>) -> Repository {
    let mut r = Repository::new();
    for p in ps {
        assert!(r.insert(p));
    }
    r
}

fn sorted(mut f: Vec<(String, String)>) -> Vec<(String, String)> {
    f.sort();
    f
}

fn pairs(v: Vec<(&str, &str)>) -> Vec<(String, String)> {
    sorted(v.into_iter().map(|(k, v)| (k.to_string(), v.to_string())).collect())
}

#[test]
fn login_line_is_matched() {
    let r = repo(vec![pattern(U1, "user @STRING:user@ logged in from @IPv4:ip@", vec![])]);
    let (u, f) = match_line(&r, "user alice logged in from 10.0.0.5").unwrap();
    assert_eq!(u, U1);
    assert_eq!(sorted(f), pairs(vec![("ip", "10.0.0.5"), ("user", "alice")]));
}

#[test]
fn short_login_line_is_not_matched() {
    let r = repo(vec![pattern(U1, "user @STRING:user@ logged in from @IPv4:ip@", vec![])]);
    assert!(match_line(&r, "user logged in").is_none());
}

#[test]
fn trailing_text_is_not_matched() {
    let r = repo(vec![pattern(U1, "id @NUMBER:id@", vec![])]);
    assert!(match_line(&r, "id 42 extra").is_none());
    assert!(match_line(&r, "id 42").is_some());
}

#[test]
fn empty_repository_matches_nothing() {
    let r = Repository::new();
    assert!(match_line(&r, "anything").is_none());
}

#[test]
fn number_range_is_enforced() {
    let r = repo(vec![pattern(U1, "port @NUMBER:port:1-1024@", vec![])]);
    assert!(match_line(&r, "port 0").is_none());
    assert!(match_line(&r, "port 1025").is_none());
    let (_, f) = match_line(&r, "port 1024").unwrap();
    assert_eq!(f, pairs(vec![("port", "1024")]));
}

#[test]
fn invalid_ipv4_is_not_matched() {
    let r = repo(vec![pattern(U1, "from @IPv4:ip@", vec![])]);
    assert!(match_line(&r, "from 10.0.0.256").is_none());
    assert!(match_line(&r, "from 10.0.0").is_none());
    assert!(match_line(&r, "from 1.2.3.4.5").is_none());
    assert!(match_line(&r, "from 1.2.3.4").is_some());
}

#[test]
fn any_stops_at_next_literal() {
    let r = repo(vec![pattern(U1, "msg=@ANY:msg@;code=@NUMBER:code@", vec![])]);
    let (_, f) = match_line(&r, "msg=disk full, retry;code=7").unwrap();
    assert_eq!(sorted(f), pairs(vec![("code", "7"), ("msg", "disk full, retry")]));
}

#[test]
fn any_at_end_takes_rest() {
    let r = repo(vec![pattern(U1, "error: @ANY:rest@", vec![])]);
    let (_, f) = match_line(&r, "error: a; b: c").unwrap();
    assert_eq!(f, pairs(vec![("rest", "a; b: c")]));
}

#[test]
fn most_literal_characters_wins() {
    let r = repo(vec![pattern(U1, "@ANY:all@", vec![]), pattern(U2, "user @STRING:u@", vec![])]);
    let (u, f) = match_line(&r, "user bob").unwrap();
    assert_eq!(u, U2);
    assert_eq!(f, pairs(vec![("u", "bob")]));
}

#[test]
fn equal_specificity_smallest_uuid_wins_repeatably() {
    let r = repo(vec![pattern(U2, "user @STRING:a@", vec![]), pattern(U1, "user @STRING:b@", vec![])]);
    for _ in 0..3 {
        let (u, f) = match_line(&r, "user bob").unwrap();
        assert_eq!(u, U1);
        assert_eq!(f, pairs(vec![("b", "bob")]));
    }
}

#[test]
fn defaults_are_overridden_by_extracted_values() {
    let r = repo(vec![pattern(U1, "user @STRING:user@", vec![("user", "nobody"), ("app", "sshd")])]);
    let (_, f) = match_line(&r, "user root").unwrap();
    assert_eq!(sorted(f), pairs(vec![("app", "sshd"), ("user", "root")]));
}

#[test]
fn leading_literal_prunes_candidates() {
    let r = repo(vec![pattern(U1, "GET @ANY:path@", vec![]), pattern(U2, "POST @ANY:path@", vec![])]);
    let (u, _) = match_line(&r, "POST /index").unwrap();
    assert_eq!(u, U2);
}

#[test]
fn duplicate_uuid_is_refused_by_repository() {
    let mut r = Repository::new();
    assert!(r.insert(pattern(U1, "a", vec![])));
    assert!(!r.insert(pattern(U1, "b", vec![])));
    assert_eq!(r.len(), 1);
}

#[test]
fn appending_text_matches_only_when_the_program_is_complete() {
    let r = repo(vec![pattern(U1, "user @STRING:user@ logged in from @IPv4:ip@", vec![])]);
    assert!(match_line(&r, "user alice logged in from").is_none());
    assert!(match_line(&r, "user alice logged in from ").is_none());
    assert!(match_line(&r, "user alice logged in from 10.0.0.5 now").is_none());
    assert!(match_line(&r, "user alice logged in from 10.0.0.5").is_some());
}
