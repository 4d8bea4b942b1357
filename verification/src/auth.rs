//! Credential store and login verification.
//!
//! The system ships with two users, `root` and `jbrahy`, both with the initial
//! password `brainxos` and the force-change flag set, so the first login has
//! to choose a new password.
//!
//! Passwords are never stored in cleartext: each credential holds a salt and
//! `SHA-256(salt || password)`, and verification compares the recomputed hash
//! without an early exit. Salts are supplied by the caller.

use vstd::prelude::*;
use crate::bytes::{append_bytes, same_bytes};
use crate::digest::{sha256, sha256_digest};

verus! {

/// Length in bytes of a password salt.
pub const SALT_LENGTH_IN_BYTES: usize = 16;

/// Length in bytes of a stored password hash (a SHA-256 digest).
pub const PASSWORD_HASH_LENGTH_IN_BYTES: usize = 32;

/// The initial password of both shipped users, `brainxos`. It has to be
/// changed on first login.
pub const INITIAL_DEFAULT_PASSWORD: [u8; 8] = [98, 114, 97, 105, 110, 120, 111, 115];

/// The bytes of `brainxos`.
pub open spec fn default_password() -> Seq<u8> {
    seq![98u8, 114, 97, 105, 110, 120, 111, 115]
}

/// The login name `root`.
pub open spec fn root_login() -> Seq<u8> {
    seq![114u8, 111, 111, 116]
}

/// The login name `jbrahy`.
pub open spec fn jbrahy_login() -> Seq<u8> {
    seq![106u8, 98, 114, 97, 104, 121]
}

/// The two users provisioned at first boot.
#[derive(Copy, Clone, PartialEq, Eq, Debug, Structural)]
pub enum UserIdentity {
    /// The superuser.
    Root,
    /// The primary interactive user.
    Jbrahy,
}

/// The user a login name names, if any.
pub open spec fn user_named(name: Seq<u8>) -> Option<UserIdentity> {
    if name == root_login() {
        Some(UserIdentity::Root)
    } else if name == jbrahy_login() {
        Some(UserIdentity::Jbrahy)
    } else {
        None
    }
}

/// A user's canonical login name.
pub open spec fn login_of(user: UserIdentity) -> Seq<u8> {
    match user {
        UserIdentity::Root => root_login(),
        UserIdentity::Jbrahy => jbrahy_login(),
    }
}

impl UserIdentity {
    /// Resolves a login name (raw bytes typed at the prompt) to a user.
    ///
    /// `None` for any name that is not a provisioned user, so the login gate
    /// reveals nothing about which names exist.
    pub fn from_login_name(name: &[u8]) -> (user: Option<UserIdentity>)
        ensures
            user == user_named(name@),
    {
        let root = [114u8, 111, 111, 116];
        let jbrahy = [106u8, 98, 114, 97, 104, 121];
        assert(root@ =~= root_login());
        assert(jbrahy@ =~= jbrahy_login());
        if same_bytes(name, root.as_slice()) {
            Some(UserIdentity::Root)
        } else if same_bytes(name, jbrahy.as_slice()) {
            Some(UserIdentity::Jbrahy)
        } else {
            None
        }
    }

    /// The canonical login name of this user.
    pub fn login_name(self) -> (name: Vec<u8>)
        ensures
            name@ == login_of(self),
    {
        let name = match self {
            UserIdentity::Root => vec![114u8, 111, 111, 116],
            UserIdentity::Jbrahy => vec![106u8, 98, 114, 97, 104, 121],
        };
        assert(name@ =~= login_of(self));
        name
    }
}

/// Law: the login name of every user resolves back to that user.
pub proof fn lemma_login_name_round_trips(user: UserIdentity)
    ensures
        user_named(login_of(user)) == Some(user),
{
    assert(root_login() != jbrahy_login()) by {
        assert(root_login().len() != jbrahy_login().len());
    }
}

/// Law: a login name names a user exactly when it is that user's login
/// name, byte for byte: no prefix, extension or other spelling resolves.
pub proof fn lemma_only_exact_login_names_resolve(name: Seq<u8>, user: UserIdentity)
    ensures
        (user_named(name) == Some(user)) == (name == login_of(user)),
{
    assert(root_login() != jbrahy_login()) by {
        assert(root_login().len() != jbrahy_login().len());
    }
}

/// `SHA-256(salt || password)`, the stored form of a password.
pub open spec fn salted_hash(salt: Seq<u8>, password: Seq<u8>) -> Seq<u8> {
    sha256(salt + password)
}

/// One user's stored credential: a salt, the salted password hash, and whether
/// the password must be changed before the account can be used.
#[derive(Copy, Clone, Debug)]
pub struct Credential {
    salt: [u8; SALT_LENGTH_IN_BYTES],
    password_hash: [u8; PASSWORD_HASH_LENGTH_IN_BYTES],
    must_change_password: bool,
}

impl Credential {
    /// The salt.
    pub closed spec fn salt_view(self) -> Seq<u8> {
        self.salt@
    }

    /// The stored hash.
    pub closed spec fn hash_view(self) -> Seq<u8> {
        self.password_hash@
    }

    /// Whether the password has to be changed first.
    pub closed spec fn change_required(self) -> bool {
        self.must_change_password
    }

    /// Whether `password` is the one this credential holds the hash of.
    pub open spec fn accepts(self, password: Seq<u8>) -> bool {
        salted_hash(self.salt_view(), password) == self.hash_view()
    }

    /// Builds a credential for `password` salted with `salt`, with the
    /// force-change flag set (used for the shipped default password).
    pub fn new_requiring_change(salt: [u8; SALT_LENGTH_IN_BYTES], password: &[u8]) -> (credential:
        Self)
        ensures
            credential.salt_view() == salt@,
            credential.hash_view() == salted_hash(salt@, password@),
            credential.change_required(),
            credential.accepts(password@),
    {
        Self {
            salt,
            password_hash: hash_password_with_salt(&salt, password),
            must_change_password: true,
        }
    }

    /// True if `password` matches this credential. The hash comparison does not
    /// stop at the first difference, so its timing does not reveal how many
    /// bytes matched.
    pub fn verify_password(&self, password: &[u8]) -> (matches: bool)
        ensures
            matches == self.accepts(password@),
    {
        let candidate = hash_password_with_salt(&self.salt, password);
        constant_time_bytes_equal(candidate.as_slice(), self.password_hash.as_slice())
    }

    /// Replaces the password with `new_password` salted with `new_salt`, and
    /// clears the force-change flag. The caller supplies a fresh random salt.
    pub fn change_password(&mut self, new_salt: [u8; SALT_LENGTH_IN_BYTES], new_password: &[u8])
        ensures
            final(self).salt_view() == new_salt@,
            final(self).hash_view() == salted_hash(new_salt@, new_password@),
            !final(self).change_required(),
            final(self).accepts(new_password@),
    {
        self.salt = new_salt;
        self.password_hash = hash_password_with_salt(&new_salt, new_password);
        self.must_change_password = false;
    }

    /// True if the password must be changed before the account is usable.
    pub fn must_change_password(&self) -> (required: bool)
        ensures
            required == self.change_required(),
    {
        self.must_change_password
    }

    /// The stored salted hash.
    pub fn password_hash(&self) -> (hash: [u8; PASSWORD_HASH_LENGTH_IN_BYTES])
        ensures
            hash@ == self.hash_view(),
    {
        self.password_hash
    }
}

/// The complete set of provisioned users and their credentials.
#[derive(Copy, Clone, Debug)]
pub struct CredentialStore {
    root_credential: Credential,
    jbrahy_credential: Credential,
}

impl CredentialStore {
    /// A user's credential.
    pub closed spec fn credential(self, user: UserIdentity) -> Credential {
        match user {
            UserIdentity::Root => self.root_credential,
            UserIdentity::Jbrahy => self.jbrahy_credential,
        }
    }

    /// Provisions both users with [`INITIAL_DEFAULT_PASSWORD`] and the
    /// force-change flag set, each with its own salt.
    pub fn with_default_passwords(
        root_salt: [u8; SALT_LENGTH_IN_BYTES],
        jbrahy_salt: [u8; SALT_LENGTH_IN_BYTES],
    ) -> (store: Self)
        ensures
            store.credential(UserIdentity::Root).salt_view() == root_salt@,
            store.credential(UserIdentity::Jbrahy).salt_view() == jbrahy_salt@,
            forall|user: UserIdentity|
                #![trigger store.credential(user)]
                store.credential(user).change_required() && store.credential(user).accepts(
                    default_password(),
                ) && store.credential(user).hash_view() == salted_hash(
                    store.credential(user).salt_view(),
                    default_password(),
                ),
    {
        let password = INITIAL_DEFAULT_PASSWORD;
        assert(password@ =~= default_password());
        let store = Self {
            root_credential: Credential::new_requiring_change(root_salt, password.as_slice()),
            jbrahy_credential: Credential::new_requiring_change(jbrahy_salt, password.as_slice()),
        };
        assert forall|user: UserIdentity|
            #![trigger store.credential(user)]
            store.credential(user).change_required() && store.credential(user).accepts(
                default_password(),
            ) && store.credential(user).hash_view() == salted_hash(
                store.credential(user).salt_view(),
                default_password(),
            ) by {
            match user {
                UserIdentity::Root => {},
                UserIdentity::Jbrahy => {},
            }
        }
        store
    }

    /// A user's credential.
    pub fn credential_for(&self, user: UserIdentity) -> (credential: &Credential)
        ensures
            *credential == self.credential(user),
    {
        match user {
            UserIdentity::Root => &self.root_credential,
            UserIdentity::Jbrahy => &self.jbrahy_credential,
        }
    }

    /// Mutable access to a user's credential, for changing its password.
    pub fn credential_for_mut(&mut self, user: UserIdentity) -> (credential: &mut Credential)
        ensures
            *credential == old(self).credential(user),
            final(self).credential(user) == *final(credential),
            forall|other: UserIdentity|
                other != user ==> final(self).credential(other) == old(self).credential(other),
    {
        match user {
            UserIdentity::Root => &mut self.root_credential,
            UserIdentity::Jbrahy => &mut self.jbrahy_credential,
        }
    }

    /// Verifies a login attempt: the user, when the name is a provisioned one
    /// and the password is that user's.
    pub fn verify_login(&self, name: &[u8], password: &[u8]) -> (user: Option<UserIdentity>)
        ensures
            user == (match user_named(name@) {
                Some(named) => if self.credential(named).accepts(password@) {
                    Some(named)
                } else {
                    None
                },
                None => None,
            }),
    {
        let user = match UserIdentity::from_login_name(name) {
            Some(user) => user,
            None => {
                return None;
            },
        };
        if self.credential_for(user).verify_password(password) {
            Some(user)
        } else {
            None
        }
    }
}

/// Computes `SHA-256(salt || password)`.
fn hash_password_with_salt(salt: &[u8; SALT_LENGTH_IN_BYTES], password: &[u8]) -> (hash: [u8;
    PASSWORD_HASH_LENGTH_IN_BYTES])
    ensures
        hash@ == salted_hash(salt@, password@),
{
    let mut message: Vec<u8> = Vec::new();
    append_bytes(&mut message, salt.as_slice());
    append_bytes(&mut message, password);
    assert(message@ =~= salt@ + password@);
    sha256_digest(message.as_slice())
}

/// Compares two byte strings without an early exit over their contents, so the
/// time taken does not depend on how many leading bytes match.
pub fn constant_time_bytes_equal(left: &[u8], right: &[u8]) -> (equal: bool)
    ensures
        equal == (left@ == right@),
{
    if left.len() != right.len() {
        return false;
    }
    let mut difference_accumulator: u8 = 0;
    let mut index: usize = 0;
    while index < left.len()
        invariant
            left@.len() == right@.len(),
            index <= left@.len(),
            (difference_accumulator == 0) == (forall|i: int|
                0 <= i < index ==> left@[i] == right@[i]),
        decreases left@.len() - index,
    {
        let l = left[index];
        let r = right[index];
        proof {
            lemma_accumulate_difference(difference_accumulator, l, r);
        }
        difference_accumulator = difference_accumulator | (l ^ r);
        index = index + 1;
        assert((difference_accumulator == 0) == (forall|i: int|
            0 <= i < index ==> left@[i] == right@[i])) by {
            if difference_accumulator == 0 {
                assert forall|i: int| 0 <= i < index implies left@[i] == right@[i] by {
                    if i < index - 1 {
                    }
                }
            }
        }
    }
    assert(left@ =~= right@ <==> difference_accumulator == 0);
    difference_accumulator == 0
}

/// Or-ing in the difference of two bytes leaves zero exactly when it was zero
/// and the bytes agree.
proof fn lemma_accumulate_difference(accumulator: u8, left: u8, right: u8)
    by (bit_vector)
    ensures
        ((accumulator | (left ^ right)) == 0) == (accumulator == 0 && left == right),
{
}

/// Law: starting from the default passwords, changing one user's password
/// (a new salt and password written through
/// [`CredentialStore::credential_for_mut`] and
/// [`Credential::change_password`]) leaves every other user still on the
/// default password and still required to change it, while the changed user
/// accepts the new password and is no longer required to change it.
pub proof fn lemma_change_leaves_other_users(
    before: CredentialStore,
    after: CredentialStore,
    changed: UserIdentity,
    salt: Seq<u8>,
    password: Seq<u8>,
)
    requires
        forall|user: UserIdentity|
            #![trigger before.credential(user)]
            before.credential(user).change_required() && before.credential(user).accepts(
                default_password(),
            ),
        after.credential(changed).salt_view() == salt,
        after.credential(changed).hash_view() == salted_hash(salt, password),
        !after.credential(changed).change_required(),
        forall|other: UserIdentity|
            other != changed ==> #[trigger] after.credential(other) == before.credential(other),
    ensures
        after.credential(changed).accepts(password),
        !after.credential(changed).change_required(),
        forall|other: UserIdentity|
            other != changed ==> (#[trigger] after.credential(other)).accepts(default_password())
                && after.credential(other).change_required(),
{
}

/// Law: a credential is checked against the digest of its salt followed by
/// the whole password typed, every byte of it: it accepts `password`
/// exactly when `SHA-256(salt || password)` is the stored hash. So two
/// passwords it both accepts hash alike behind its salt, and where the
/// digest tells the two salted messages apart (no collision), they are the
/// same password: a longer or shorter password sharing a prefix with the
/// right one is refused.
pub proof fn lemma_credential_checks_the_whole_password(
    credential: Credential,
    password: Seq<u8>,
    other: Seq<u8>,
)
    requires
        sha256(credential.salt_view() + password) == sha256(credential.salt_view() + other)
            ==> password == other,
    ensures
        credential.accepts(password) == (sha256(credential.salt_view() + password)
            == credential.hash_view()),
        credential.accepts(password) && credential.accepts(other) ==> password == other,
{
}

/// Law: changing a password to `password` under `salt` makes the credential
/// accept exactly the passwords whose salted digest is that of `password`,
/// every byte of both counted; so, where the digest has no collision there,
/// the new password and no other, the old one included.
pub proof fn lemma_changed_password_is_the_only_one(
    before: Credential,
    after: Credential,
    salt: Seq<u8>,
    password: Seq<u8>,
    attempt: Seq<u8>,
)
    requires
        after.salt_view() == salt,
        after.hash_view() == salted_hash(salt, password),
        sha256(salt + attempt) == sha256(salt + password) ==> attempt == password,
    ensures
        after.accepts(attempt) == (sha256(salt + attempt) == sha256(salt + password)),
        after.accepts(attempt) ==> attempt == password,
{
}

} // verus!
