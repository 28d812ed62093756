use actiondb_core::grammar::{compile, CompileError};
use actiondb_core::kinds::FieldKind;
use actiondb_core::program::FieldToken;

fn literal(t: &FieldToken) -> Option<String> {
    match t {
        FieldToken::Literal(s) => Some(s.clone()),
        _ => None,
    }
}

fn extractor(t: &FieldToken) -> Option<(FieldKind, String, Option<(u64, u64)>)> {
    match t {
        FieldToken::Extractor { kind, name, range } => Some((*kind, name.clone(), *range)),
        _ => None,
    }
}

#[test]
fn compiles_literals_and_extractors_in_order() {
    let p = compile("user @STRING:user@ logged in from @IPv4:ip@").unwrap();
    assert_eq!(p.tokens.len(), 4);
    assert_eq!(literal(&p.tokens[0]), Some("user ".to_string()));
    assert_eq!(extractor(&p.tokens[1]), Some((FieldKind::Word, "user".to_string(), None)));
    assert_eq!(literal(&p.tokens[2]), Some(" logged in from ".to_string()));
    assert_eq!(extractor(&p.tokens[3]), Some((FieldKind::Ipv4, "ip".to_string(), None)));
}

#[test]
fn compiles_every_kind_name() {
    let p = compile("@NUMBER:a@@STRING:b@@IPv4:c@@ANY:d@").unwrap();
    let kinds: Vec<FieldKind> = p.tokens.iter().map(|t| extractor(t).unwrap().0).collect();
    assert_eq!(kinds, vec![FieldKind::Number, FieldKind::Word, FieldKind::Ipv4, FieldKind::Any]);
}

#[test]
fn compiles_number_range() {
    let p = compile("port @NUMBER:port:1-65535@").unwrap();
    assert_eq!(extractor(&p.tokens[1]), Some((FieldKind::Number, "port".to_string(), Some((1, 65535)))));
}

#[test]
fn empty_template_compiles_to_empty_program() {
    let p = compile("").unwrap();
    assert_eq!(p.tokens.len(), 0);
}

#[test]
fn literal_only_template() {
    let p = compile("hello world").unwrap();
    assert_eq!(p.tokens.len(), 1);
    assert_eq!(literal(&p.tokens[0]), Some("hello world".to_string()));
}

#[test]
fn unterminated_extractor_is_syntax_error() {
    assert_eq!(compile("value @NUMBER:x").unwrap_err(), CompileError::Syntax);
}

#[test]
fn unknown_kind_is_syntax_error() {
    assert_eq!(compile("@FLOAT:x@").unwrap_err(), CompileError::Syntax);
}

#[test]
fn missing_name_is_syntax_error() {
    assert_eq!(compile("@NUMBER@").unwrap_err(), CompileError::Syntax);
    assert_eq!(compile("@NUMBER:@").unwrap_err(), CompileError::Syntax);
}

#[test]
fn range_on_other_kind_is_syntax_error() {
    assert_eq!(compile("@STRING:s:1-2@").unwrap_err(), CompileError::Syntax);
}

#[test]
fn reversed_or_malformed_range_is_syntax_error() {
    assert_eq!(compile("@NUMBER:n:9-1@").unwrap_err(), CompileError::Syntax);
    assert_eq!(compile("@NUMBER:n:1-@").unwrap_err(), CompileError::Syntax);
    assert_eq!(compile("@NUMBER:n:x-2@").unwrap_err(), CompileError::Syntax);
    assert_eq!(compile("@NUMBER:n:1-99999999999999999999@").unwrap_err(), CompileError::Syntax);
}

#[test]
fn repeated_name_is_duplicate_field() {
    assert_eq!(compile("@NUMBER:a@ and @STRING:a@").unwrap_err(), CompileError::DuplicateField);
}

#[test]
fn syntax_error_wins_over_duplicate() {
    assert_eq!(compile("@NUMBER:a@ @NUMBER:a@ @BAD:b@").unwrap_err(), CompileError::Syntax);
}
