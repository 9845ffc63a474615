use sandbox_exec::{parse_key_value, parse_permissions, ParseError, Permission, SandboxExecError};

fn pair(k: &str, v: &str) -> (Vec<u8>, Vec<u8>) {
    (k.as_bytes().to_vec(), v.as_bytes().to_vec())
}

#[test]
fn tokenize_empty_input() {
    assert_eq!(parse_key_value(""), Ok(Vec::new()));
}

#[test]
fn tokenize_pairs_in_order() {
    assert_eq!(
        parse_key_value("a:b:c,d:e"),
        Ok(vec![pair("a", "b:c"), pair("d", "e")])
    );
    assert_eq!(parse_key_value("k,x:v"), Ok(vec![pair("k,x", "v")]));
    assert_eq!(parse_key_value("k:"), Ok(vec![pair("k", "")]));
    assert_eq!(parse_key_value("k:v,"), Ok(vec![pair("k", "v")]));
}

#[test]
fn tokenize_escapes_are_opaque() {
    assert_eq!(
        parse_key_value("AllowRead:\\x3a\\x2c"),
        Ok(vec![pair("AllowRead", "\\x3a\\x2c")])
    );
}

#[test]
fn tokenize_trailing_key_is_incomplete() {
    assert_eq!(parse_key_value("AllowRead"), Err(ParseError::IncompletePair));
    assert_eq!(parse_key_value("a:b,AllowRead"), Err(ParseError::IncompletePair));
    assert_eq!(parse_key_value(","), Err(ParseError::IncompletePair));
}

#[test]
fn from_key_value_network_any_case() {
    let kv = |k: &str, v: &str| (k.to_string(), v.to_string());
    assert_eq!(Permission::from_key_value(kv("AllowNetwork", "in")), Ok(Permission::AllowNetworkIn));
    assert_eq!(Permission::from_key_value(kv("AllowNetwork", "IN")), Ok(Permission::AllowNetworkIn));
    assert_eq!(Permission::from_key_value(kv("AllowNetwork", "OuT")), Ok(Permission::AllowNetworkOut));
    assert_eq!(
        Permission::from_key_value(kv("AllowNetwork", "inn")),
        Err(ParseError::InvalidPermission)
    );
}

#[test]
fn from_key_value_paths_and_unknown_keys() {
    let kv = |k: &str, v: &str| (k.to_string(), v.to_string());
    assert_eq!(
        Permission::from_key_value(kv("AllowRead", "/tmp")),
        Ok(Permission::AllowRead("/tmp".to_string()))
    );
    assert_eq!(
        Permission::from_key_value(kv("AllowWrite", "")),
        Ok(Permission::AllowWrite(String::new()))
    );
    assert_eq!(Permission::from_key_value(kv("allownetwork", "in")), Err(ParseError::UnknownKey));
    assert_eq!(Permission::from_key_value(kv("AllowExec", "x")), Err(ParseError::UnknownKey));
}

#[test]
fn network_in_and_read_tmp() {
    assert_eq!(
        parse_permissions("AllowNetwork:in,AllowRead:/tmp"),
        Ok(vec![Permission::AllowNetworkIn, Permission::AllowRead("/tmp".to_string())])
    );
}

#[test]
fn sideways_network_is_invalid() {
    let r = parse_permissions("AllowNetwork:sideways");
    assert_eq!(r, Err(ParseError::InvalidPermission));
    let kind = r.unwrap_err().kind();
    assert_eq!(kind, SandboxExecError::ApiError);
    assert_eq!(kind.code(), 1);
}

#[test]
fn escaped_write_path() {
    assert_eq!(
        parse_permissions("AllowWrite:\\x2f\\x74\\x6d\\x70"),
        Ok(vec![Permission::AllowWrite("/tmp".to_string())])
    );
}

#[test]
fn empty_specification_grants_nothing() {
    assert_eq!(parse_permissions(""), Ok(Vec::new()));
}

#[test]
fn duplicates_are_kept_in_order() {
    assert_eq!(
        parse_permissions("AllowNetwork:out,AllowNetwork:in,AllowNetwork:out"),
        Ok(vec![
            Permission::AllowNetworkOut,
            Permission::AllowNetworkIn,
            Permission::AllowNetworkOut
        ])
    );
}

#[test]
fn escaped_delimiters_are_data() {
    assert_eq!(
        parse_permissions("AllowRead:/a\\x3ab\\x2cc"),
        Ok(vec![Permission::AllowRead("/a:b,c".to_string())])
    );
}

#[test]
fn unescaping_precedes_key_checks() {
    assert_eq!(parse_permissions("Foo:x,AllowRead:\\q"), Err(ParseError::IncompleteEscape));
    assert_eq!(parse_permissions("Foo:x,AllowRead:/x"), Err(ParseError::UnknownKey));
}

#[test]
fn raw_colon_in_value_is_rejected() {
    assert_eq!(parse_permissions("AllowRead:/a:b"), Err(ParseError::InvalidByte(b':')));
}

#[test]
fn incomplete_specification() {
    assert_eq!(parse_permissions("AllowNetwork:in,AllowRead"), Err(ParseError::IncompletePair));
}
