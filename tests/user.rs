use togglr::user::Identity;

#[test]
fn identity_strings() {
    let github_str = String::from(Identity::Github);
    let google_str = String::from(Identity::Google);
    let basic_str = String::from(Identity::Basic);
    let unknown_str = "random";

    assert!(matches!(Identity::from(github_str), Identity::Github));
    assert!(matches!(Identity::from(google_str), Identity::Google));
    assert!(matches!(Identity::from(basic_str), Identity::Basic));
    assert!(matches!(Identity::from(unknown_str), Identity::Unknown));
}

#[test]
fn identity_names() {
    assert_eq!(String::from(Identity::Github), "github");
    assert_eq!(String::from(Identity::Basic), "basic");
    assert_eq!(String::from(Identity::Google), "google");
    assert_eq!(String::from(Identity::Unknown), "unknown");
}

#[test]
fn identity_ignores_case() {
    assert_eq!(Identity::from("GitHub"), Identity::Github);
    assert_eq!(Identity::from(String::from("GOOGLE")), Identity::Google);
    assert_eq!(Identity::from("Basic"), Identity::Basic);
    assert_eq!(Identity::from("unknown"), Identity::Unknown);
}

#[test]
fn identity_from_lowercase_is_exact() {
    assert_eq!(Identity::from_lowercase("github"), Identity::Github);
    assert_eq!(Identity::from_lowercase("GitHub"), Identity::Unknown);
    assert_eq!(Identity::from_lowercase(""), Identity::Unknown);
}
