use api::model::PasswordHash;

#[test]
fn fresh_hash_verifies_its_password() {
    let hash = PasswordHash::raw(String::from("correct horse battery staple")).unwrap();
    assert!(hash.verify("correct horse battery staple"));
}

#[test]
fn fresh_hash_rejects_other_passwords() {
    let hash = PasswordHash::raw(String::from("first password")).unwrap();
    assert!(!hash.verify("second password"));
    assert!(!hash.verify(""));
    assert!(!hash.verify("first password "));
    assert!(!hash.verify("First password"));
}

#[test]
fn two_hashes_of_one_password_differ_but_both_verify() {
    let first = PasswordHash::raw(String::from("same plaintext")).unwrap();
    let second = PasswordHash::raw(String::from("same plaintext")).unwrap();
    assert_ne!(first.as_str(), second.as_str());
    assert!(first.verify("same plaintext"));
    assert!(second.verify("same plaintext"));
}

#[test]
fn malformed_stored_hash_matches_nothing() {
    let corrupted = PasswordHash::from_hash(String::from("not a phc string"));
    assert!(!corrupted.verify("anything"));
    assert!(!corrupted.verify(""));
    let empty = PasswordHash::from_hash(String::new());
    assert!(!empty.verify("anything"));
}

#[test]
fn stored_hash_string_round_trips_through_from_hash() {
    let hash = PasswordHash::raw(String::from("a password")).unwrap();
    let stored = hash.as_str().to_string();
    let reloaded = PasswordHash::from_hash(stored.clone());
    assert_eq!(reloaded.as_str(), stored.as_str());
    assert!(reloaded.verify("a password"));
    assert!(!reloaded.verify("another password"));
}
