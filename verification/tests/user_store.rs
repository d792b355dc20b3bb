use my_socks_server::auth::{CredentialError, MAX_CREDENTIAL_LEN, UserCredentials, UserStore};

fn user(username: &str, password: &str) -> UserCredentials {
    UserCredentials {
        username: username.into(),
        password: password.into(),
    }
}

fn store() -> UserStore {
    UserStore::new(&[user("alice", "correct horse"), user("bob", "b0b")]).unwrap()
}

#[test]
fn accepts_valid_pairs() {
    let store = store();
    assert_eq!(store.verify(b"alice", b"correct horse"), Some("alice"));
    assert_eq!(store.verify(b"bob", b"b0b"), Some("bob"));
}

#[test]
fn rejects_wrong_pairs() {
    let store = store();
    for (username, password) in [
        (&b"alice"[..], &b"correct hors"[..]),
        (b"alice", b"correct horse "),
        (b"alice", b"b0b"),
        (b"bob", b"correct horse"),
        (b"carol", b"b0b"),
        (b"", b""),
        (b"alice", b""),
    ] {
        assert_eq!(store.verify(username, password), None);
    }
}

#[test]
fn rejects_over_long_input() {
    let long = vec![b'a'; 300];
    assert_eq!(store().verify(&long, &long), None);
}

#[test]
fn accepts_maximum_length_values() {
    let long = "p".repeat(MAX_CREDENTIAL_LEN);
    let store = UserStore::new(&[user(&long, &long)]).unwrap();
    assert_eq!(
        store.verify(long.as_bytes(), long.as_bytes()),
        Some(long.as_str())
    );
}

#[test]
fn validates_user_list() {
    assert_eq!(UserStore::new(&[]).err(), Some(CredentialError::NoUsers));
    assert_eq!(
        UserStore::new(&[user("", "x")]).err(),
        Some(CredentialError::InvalidUsername { index: 0 })
    );
    assert!(matches!(
        UserStore::new(&[user("a", "")]).err(),
        Some(CredentialError::InvalidPassword { .. })
    ));
    assert!(matches!(
        UserStore::new(&[user("a", &"x".repeat(256))]).err(),
        Some(CredentialError::InvalidPassword { .. })
    ));
    assert_eq!(
        UserStore::new(&[user("a", "1"), user("a", "2")]).err(),
        Some(CredentialError::DuplicateUsername("a".into()))
    );
}

#[test]
fn debug_output_has_no_passwords() {
    let rendered = store().debug_text();
    assert!(rendered.contains("alice"));
    assert!(!rendered.contains("correct horse"));
    let rendered = user("alice", "hunter2").debug_text();
    assert!(!rendered.contains("hunter2"));
}

#[test]
fn credential_error_messages_name_users_only() {
    assert_eq!(
        CredentialError::NoUsers.message(),
        "at least one user is required"
    );
    assert_eq!(
        CredentialError::InvalidUsername { index: 3 }.message(),
        "user #3: username must be 1..=255 bytes"
    );
    let error = UserStore::new(&[user("carol", "")]).err().unwrap();
    assert_eq!(error.message(), "user 'carol': password must be 1..=255 bytes");
    let error = UserStore::new(&[user("dave", "hunter2"), user("dave", "hunter3")])
        .err()
        .unwrap();
    assert_eq!(error.message(), "username 'dave' is listed more than once");
    assert!(!error.message().contains("hunter"));
}

#[test]
fn store_lists_usernames_in_order() {
    let store = store();
    assert_eq!(store.usernames(), vec!["alice", "bob"]);
    assert_eq!(store.len(), 2);
    assert!(!store.is_empty());
    let copy = store.clone();
    assert_eq!(copy.verify(b"bob", b"b0b"), Some("bob"));
}

#[test]
fn a_differing_byte_anywhere_rejects() {
    let store = store();
    // The comparison goes through the constant-time equality: a difference in the last byte
    // of a maximal-length block must still reject.
    assert_eq!(store.verify(b"alice", b"correct horsf"), None);
    assert_eq!(store.verify(b"alicf", b"correct horse"), None);
}
