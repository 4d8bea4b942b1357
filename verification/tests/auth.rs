use brainix_kernel::auth::{
    constant_time_bytes_equal, Credential, CredentialStore, UserIdentity,
    INITIAL_DEFAULT_PASSWORD, SALT_LENGTH_IN_BYTES,
};

fn fixed_salt(seed: u8) -> [u8; SALT_LENGTH_IN_BYTES] {
    [seed; SALT_LENGTH_IN_BYTES]
}

#[test]
fn test_default_password_verifies_for_both_users() {
    let store = CredentialStore::with_default_passwords(fixed_salt(1), fixed_salt(2));
    assert_eq!(
        store.verify_login(b"root", &INITIAL_DEFAULT_PASSWORD),
        Some(UserIdentity::Root)
    );
    assert_eq!(
        store.verify_login(b"jbrahy", &INITIAL_DEFAULT_PASSWORD),
        Some(UserIdentity::Jbrahy)
    );
}

#[test]
fn test_wrong_password_is_rejected() {
    let store = CredentialStore::with_default_passwords(fixed_salt(1), fixed_salt(2));
    assert_eq!(store.verify_login(b"root", b"wrongpass"), None);
    assert_eq!(store.verify_login(b"jbrahy", b"brainxo"), None);
}

#[test]
fn test_unknown_user_is_rejected() {
    let store = CredentialStore::with_default_passwords(fixed_salt(1), fixed_salt(2));
    assert_eq!(store.verify_login(b"admin", &INITIAL_DEFAULT_PASSWORD), None);
    assert_eq!(store.verify_login(b"", &INITIAL_DEFAULT_PASSWORD), None);
}

#[test]
fn test_both_users_must_change_password_initially() {
    let store = CredentialStore::with_default_passwords(fixed_salt(1), fixed_salt(2));
    assert!(store.credential_for(UserIdentity::Root).must_change_password());
    assert!(store.credential_for(UserIdentity::Jbrahy).must_change_password());
}

#[test]
fn test_change_password_updates_hash_and_clears_flag() {
    let mut store = CredentialStore::with_default_passwords(fixed_salt(1), fixed_salt(2));
    store
        .credential_for_mut(UserIdentity::Root)
        .change_password(fixed_salt(9), b"newsecret");
    let root = store.credential_for(UserIdentity::Root);
    assert!(!root.must_change_password());
    assert!(root.verify_password(b"newsecret"));
    assert!(!root.verify_password(&INITIAL_DEFAULT_PASSWORD));
}

#[test]
fn test_same_password_different_salts_yields_different_hashes() {
    let credential_a = Credential::new_requiring_change(fixed_salt(1), b"brainxos");
    let credential_b = Credential::new_requiring_change(fixed_salt(2), b"brainxos");
    assert!(credential_a.verify_password(b"brainxos"));
    assert!(credential_b.verify_password(b"brainxos"));
    assert!(!constant_time_bytes_equal(
        &credential_a.password_hash(),
        &credential_b.password_hash()
    ));
}

#[test]
fn test_constant_time_equal_matches_semantics() {
    assert!(constant_time_bytes_equal(b"abcd", b"abcd"));
    assert!(!constant_time_bytes_equal(b"abcd", b"abce"));
    assert!(!constant_time_bytes_equal(b"abc", b"abcd"));
}

#[test]
fn test_login_name_round_trips() {
    assert_eq!(UserIdentity::from_login_name(b"root"), Some(UserIdentity::Root));
    assert_eq!(UserIdentity::Root.login_name(), b"root");
    assert_eq!(UserIdentity::Jbrahy.login_name(), b"jbrahy");
}

#[test]
fn default_password_is_brainxos() {
    assert_eq!(&INITIAL_DEFAULT_PASSWORD, b"brainxos");
}

#[test]
fn login_name_maps_back_to_its_identity() {
    for user in [UserIdentity::Root, UserIdentity::Jbrahy] {
        assert_eq!(UserIdentity::from_login_name(&user.login_name()), Some(user));
    }
    assert_eq!(UserIdentity::from_login_name(b"roo"), None);
    assert_eq!(UserIdentity::from_login_name(b"rootx"), None);
}

#[test]
fn new_credential_requires_change_and_rejects_other_passwords() {
    let credential = Credential::new_requiring_change(fixed_salt(3), b"secret");
    assert!(credential.must_change_password());
    assert!(credential.verify_password(b"secret"));
    assert!(!credential.verify_password(b"secreT"));
    assert!(!credential.verify_password(b""));
}

#[test]
fn changed_password_moves_the_login_to_the_new_secret() {
    let mut store = CredentialStore::with_default_passwords(fixed_salt(1), fixed_salt(2));
    store
        .credential_for_mut(UserIdentity::Jbrahy)
        .change_password(fixed_salt(4), b"hunter22");
    assert_eq!(store.verify_login(b"jbrahy", b"hunter22"), Some(UserIdentity::Jbrahy));
    assert_eq!(store.verify_login(b"jbrahy", &INITIAL_DEFAULT_PASSWORD), None);
    assert_eq!(
        store.verify_login(b"root", &INITIAL_DEFAULT_PASSWORD),
        Some(UserIdentity::Root)
    );
}

#[test]
fn password_hash_differs_from_the_password_and_the_salt() {
    let credential = Credential::new_requiring_change(fixed_salt(0), b"brainxos");
    let hash = credential.password_hash();
    assert_ne!(hash, [0u8; 32]);
    assert!(!constant_time_bytes_equal(&hash[..8], b"brainxos"));
}
