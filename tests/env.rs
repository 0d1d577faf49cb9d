use togglr::env::{get, Env};

#[test]
fn key_with_and_without_prefix() {
    assert_eq!(Env::new().key("PORT"), "PORT");
    assert_eq!(Env::with_prefix("TOGGLR").key("PORT"), "TOGGLR_PORT");
    assert_eq!(Env::with_prefix("").key("PORT"), "_PORT");
}

#[test]
fn resolve_present_value() {
    let found: Option<Result<u16, ()>> = Some(Ok(42));
    assert_eq!(get(found, Some(24)), Ok(42));
}

#[test]
fn resolve_default_when_absent() {
    let found: Option<Result<u16, ()>> = None;
    assert_eq!(get(found, Some(24)), Ok(24));
}

#[test]
fn resolve_missing_without_default() {
    let found: Option<Result<u16, ()>> = None;
    assert_eq!(get(found, None), Err(String::from("key not found")));
}

#[test]
fn resolve_parse_failure() {
    let found: Option<Result<u16, ()>> = Some(Err(()));
    assert_eq!(get(found, Some(24)), Err(String::from("parsing failure")));
}

#[test]
fn env_get_reads_full_key() {
    let env = Env::with_prefix("TOGGLR");
    let read = |k: &String| -> Option<Result<u16, ()>> {
        if k == "TOGGLR_PORT" {
            Some(Ok(42))
        } else {
            None
        }
    };
    assert_eq!(env.get("PORT", Some(24), read), Ok(42));
    assert_eq!(env.get("HOST", Some(24), read), Ok(24));
    assert_eq!(Env::new().get("PORT", None, read), Err(String::from("key not found")));
}
