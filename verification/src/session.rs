//! The session of one user: login, the unlocked vault, rotation of the
//! master passphrase, and logout.
//!
//! A session is unauthenticated, then waits for the passphrase of a known
//! account, then is unlocked. Too many wrong passphrases, or a logout, take
//! it back to unauthenticated with every secret cleared.

use crate::encryption_algorithms::{hash_master, master_hash, MAX_HASH_INPUT_LEN};
use crate::error::VaultError;
use crate::key_derivation::{derive_secrets, SaltPair};
use crate::password_generator::{
    check_password_safety, is_listed, safety_messages, safety_rating,
};
use crate::credentials::{
    Triplet, accounts_of, add_password, find_entry_id, find_in, get_accounts, listing, open_row,
    passwords_of, remove_password, rows_of, seals, websites_of, without_entry,
};
use crate::rotation::{change_master_password, rotated_rows, rotated_user, rotated_users};
use crate::store::{
    RecordStore, UserView, account_of, entry_ids, has_account, has_user, lemma_user_of, next_id,
    user_ids, user_of, users_well_formed,
};
use crate::users::{add_user_id, get_account, get_user, new_user};
use crate::text::{same_bytes, views};
use vstd::prelude::*;
use vstd::utf8::encode_utf8;

verus! {

/// The number of wrong passphrases after which the next one ends the login.
pub const DEFAULT_ATTEMPT_LIMIT: u32 = 20;

/// The rating below which the master passphrase should be changed.
pub const ROTATION_THRESHOLD: u32 = 30;

/// Where a session stands.
#[derive(Clone, Copy, Debug, PartialEq, Eq, Structural)]
pub enum SessionState {
    /// No account has been named.
    Unauthenticated,
    /// An account has been named and its passphrase is awaited.
    AwaitingPassphrase,
    /// The passphrase was right and the vault key is held.
    Unlocked,
}

/// The session of one user.
pub struct Session {
    state: SessionState,
    user_id: i32,
    vault_key: [u8; 32],
    password_attempts: u32,
    attempt_limit: u32,
    master_safe: (u32, Vec<String>),
}

/// What a `Session` holds.
pub struct SessionView {
    pub state: SessionState,
    pub user_id: int,
    pub vault_key: Seq<u8>,
    pub attempts: nat,
    pub attempt_limit: nat,
    pub rating: nat,
    pub findings: Seq<Seq<char>>,
}

impl View for Session {
    type V = SessionView;

    closed spec fn view(&self) -> SessionView {
        SessionView {
            state: self.state,
            user_id: self.user_id as int,
            vault_key: self.vault_key@,
            attempts: self.password_attempts as nat,
            attempt_limit: self.attempt_limit as nat,
            rating: self.master_safe.0 as nat,
            findings: views(self.master_safe.1@),
        }
    }
}

/// The key that a session holds while it is not unlocked: 32 zero bytes.
pub open spec fn cleared_key() -> Seq<u8> {
    Seq::new(32, |i: int| 0u8)
}

/// The session that holds nothing: unauthenticated, with every secret
/// cleared.
pub open spec fn cleared(attempt_limit: nat) -> SessionView {
    SessionView {
        state: SessionState::Unauthenticated,
        user_id: 0,
        vault_key: cleared_key(),
        attempts: 0,
        attempt_limit,
        rating: 0,
        findings: seq![],
    }
}

/// Whether a session is consistent: it holds a key only while unlocked, and
/// counts attempts, never beyond the limit, only while it waits for a
/// passphrase.
pub open spec fn session_well_formed(session: SessionView) -> bool {
    &&& session.vault_key.len() == 32
    &&& session.attempts <= session.attempt_limit
    &&& session.state == SessionState::Unauthenticated ==> session == cleared(
        session.attempt_limit,
    )
    &&& session.state == SessionState::AwaitingPassphrase ==> session.vault_key == cleared_key()
        && session.rating == 0 && session.findings.len() == 0
    &&& session.state == SessionState::Unlocked ==> session.attempts == 0
}

/// What a passphrase given for `user` leads to: the vault key where its hash
/// with the verification salt is the stored one, else the reason of the
/// failure.
pub open spec fn passphrase_outcome(user: UserView, passphrase: Seq<char>) -> Result<
    Seq<u8>,
    VaultError,
> {
    if encode_utf8(passphrase).len() > MAX_HASH_INPUT_LEN {
        Err(VaultError::InputTooLarge)
    } else if master_hash(passphrase, user.verification_salt) != user.verification_hash {
        Err(VaultError::IncorrectPassphrase)
    } else {
        Ok(master_hash(passphrase, user.kdf_salt))
    }
}

/// The session after a wrong passphrase: one more attempt is counted, or,
/// where the limit was reached already, the session is cleared.
pub open spec fn after_failure(session: SessionView) -> SessionView {
    if session.attempts >= session.attempt_limit {
        cleared(session.attempt_limit)
    } else {
        SessionView { attempts: session.attempts + 1, ..session }
    }
}

/// The session after the right passphrase.
pub open spec fn after_success(
    session: SessionView,
    vault_key: Seq<u8>,
    rating: nat,
    findings: Seq<Seq<char>>,
) -> SessionView {
    SessionView {
        state: SessionState::Unlocked,
        user_id: session.user_id,
        vault_key,
        attempts: 0,
        attempt_limit: session.attempt_limit,
        rating,
        findings,
    }
}

/// Checks `passphrase` against the stored hash of `user` and derives the vault
/// key where it matches.
pub fn check_passphrase(
    verification_hash: &[u8; 32],
    verification_salt: [u8; 32],
    kdf_salt: [u8; 32],
    passphrase: &str,
) -> (result: Result<[u8; 32], VaultError>)
    ensures
        encode_utf8(passphrase@).len() > MAX_HASH_INPUT_LEN ==> result is Err && result->Err_0
            == VaultError::InputTooLarge,
        encode_utf8(passphrase@).len() <= MAX_HASH_INPUT_LEN && master_hash(
            passphrase@,
            verification_salt@,
        ) != verification_hash@ ==> result is Err && result->Err_0
            == VaultError::IncorrectPassphrase,
        encode_utf8(passphrase@).len() <= MAX_HASH_INPUT_LEN && master_hash(
            passphrase@,
            verification_salt@,
        ) == verification_hash@ ==> result is Ok && result->Ok_0@ == master_hash(
            passphrase@,
            kdf_salt@,
        ),
{
    let hashed_master = match hash_master(passphrase, verification_salt) {
        Ok(hash) => hash,
        Err(e) => {
            return Err(e);
        },
    };
    if !same_bytes(hashed_master.as_slice(), verification_hash.as_slice()) {
        return Err(VaultError::IncorrectPassphrase);
    }
    hash_master(passphrase, kdf_salt)
}

/// A key of 32 zero bytes.
fn zero_key() -> (key: [u8; 32])
    ensures
        key@ == cleared_key(),
{
    let key: [u8; 32] = vstd::array::array_fill_for_copy_types(0u8);
    assert(key@ =~= cleared_key());
    key
}

impl Session {
    /// Whether the session is consistent. Every operation asks for it and
    /// keeps it.
    pub open spec fn wf(&self) -> bool {
        session_well_formed(self@)
    }

    /// An unauthenticated session that ends a login after `attempt_limit`
    /// wrong passphrases are followed by one more.
    pub fn new(attempt_limit: u32) -> (session: Session)
        ensures
            session.wf(),
            session@ == cleared(attempt_limit as nat),
    {
        let session = Session {
            state: SessionState::Unauthenticated,
            user_id: 0,
            vault_key: zero_key(),
            password_attempts: 0,
            attempt_limit,
            master_safe: (0, Vec::new()),
        };
        assert(session@.findings =~= Seq::<Seq<char>>::empty());
        session
    }

    /// Clears every secret and takes the session back to unauthenticated.
    pub fn logout(&mut self)
        ensures
            final(self).wf(),
            final(self)@ == cleared(old(self)@.attempt_limit),
    {
        self.state = SessionState::Unauthenticated;
        self.user_id = 0;
        self.vault_key = zero_key();
        self.password_attempts = 0;
        self.master_safe = (0, Vec::new());
        assert(self@.findings =~= Seq::<Seq<char>>::empty());
    }

    /// Where the session stands.
    pub fn state(&self) -> (state: SessionState)
        ensures
            state == self@.state,
    {
        self.state
    }

    /// The id of the user that the session belongs to, or 0 while it is
    /// unauthenticated.
    pub fn user_id(&self) -> (user_id: i32)
        ensures
            user_id == self@.user_id,
    {
        self.user_id
    }

    /// The vault key, or 32 zero bytes while the session is not unlocked.
    pub fn vault_key(&self) -> (key: &[u8; 32])
        ensures
            key@ == self@.vault_key,
    {
        &self.vault_key
    }

    /// The number of wrong passphrases since the account was named.
    pub fn password_attempts(&self) -> (attempts: u32)
        ensures
            attempts == self@.attempts,
    {
        self.password_attempts
    }

    /// The rating that the master passphrase got at login or at its last
    /// change.
    pub fn master_rating(&self) -> (rating: u32)
        ensures
            rating == self@.rating,
    {
        self.master_safe.0
    }

    /// The findings on the master passphrase that go with its rating.
    pub fn master_findings(&self) -> (findings: &Vec<String>)
        ensures
            views(findings@) == self@.findings,
    {
        &self.master_safe.1
    }

    /// Whether the user should be asked to change the master passphrase: the
    /// session is unlocked and the rating is below `ROTATION_THRESHOLD`.
    pub fn needs_rotation(&self) -> (needed: bool)
        ensures
            needed == (self@.state == SessionState::Unlocked && self@.rating
                < ROTATION_THRESHOLD),
    {
        self.state == SessionState::Unlocked && self.master_safe.0 < ROTATION_THRESHOLD
    }

    /// Names the account to log in to. Where it exists, the session waits for
    /// its passphrase; where it does not, the session stays as it is.
    pub fn login(&mut self, store: &RecordStore, account_name: &str) -> (result: Result<
        (),
        VaultError,
    >)
        requires
            old(self).wf(),
            old(self)@.state == SessionState::Unauthenticated,
            store.wf(),
        ensures
            final(self).wf(),
            has_account(store@.users, account_name@) ==> result == Ok::<(), VaultError>(())
                && final(self)@ == (SessionView {
                state: SessionState::AwaitingPassphrase,
                user_id: account_of(store@.users, account_name@).user_id,
                ..old(self)@
            }),
            !has_account(store@.users, account_name@) ==> result == Err::<(), VaultError>(
                VaultError::AccountNotFound,
            ) && final(self)@ == old(self)@,
    {
        match get_account(store, account_name) {
            Some(user) => {
                self.user_id = user.user_id;
                self.state = SessionState::AwaitingPassphrase;
                Ok(())
            },
            None => Err(VaultError::AccountNotFound),
        }
    }

    /// Counts a wrong passphrase, or clears the session where the limit was
    /// reached already.
    fn record_failure(&mut self)
        requires
            old(self).wf(),
            old(self)@.state == SessionState::AwaitingPassphrase,
        ensures
            final(self).wf(),
            final(self)@ == after_failure(old(self)@),
    {
        if self.password_attempts >= self.attempt_limit {
            self.logout();
        } else {
            self.password_attempts += 1;
        }
    }

    /// Takes the passphrase of the account named before.
    ///
    /// The right passphrase unlocks the session: the vault key is derived
    /// with the user's second salt, the count of attempts is reset and the
    /// passphrase is rated against `common_passwords`. A wrong one, or one too
    /// long to hash, is counted; once `attempt_limit` of them were counted,
    /// the next clears the session. Where the user is gone from the store, the
    /// session is cleared.
    pub fn submit_passphrase(
        &mut self,
        store: &RecordStore,
        passphrase: &str,
        common_passwords: &Vec<String>,
    ) -> (result: Result<(), VaultError>)
        requires
            old(self).wf(),
            old(self)@.state == SessionState::AwaitingPassphrase,
            store.wf(),
        ensures
            final(self).wf(),
            !has_user(store@.users, old(self)@.user_id) ==> result == Err::<(), VaultError>(
                VaultError::AccountNotFound,
            ) && final(self)@ == cleared(old(self)@.attempt_limit),
            has_user(store@.users, old(self)@.user_id) ==> match passphrase_outcome(
                user_of(store@.users, old(self)@.user_id),
                passphrase@,
            ) {
                Ok(vault_key) => result == Ok::<(), VaultError>(()) && final(self)@
                    == after_success(
                    old(self)@,
                    vault_key,
                    safety_rating(passphrase@, is_listed(views(common_passwords@), passphrase@)),
                    safety_messages(
                        passphrase@,
                        is_listed(views(common_passwords@), passphrase@),
                    ),
                ),
                Err(e) => result == Err::<(), VaultError>(e) && final(self)@ == after_failure(
                    old(self)@,
                ),
            },
    {
        let user = match get_user(store, self.user_id) {
            Some(user) => user,
            None => {
                self.logout();
                return Err(VaultError::AccountNotFound);
            },
        };
        match check_passphrase(
            &user.verification_hash,
            user.verification_salt,
            user.kdf_salt,
            passphrase,
        ) {
            Ok(vault_key) => {
                self.master_safe = check_password_safety(passphrase, common_passwords);
                self.password_attempts = 0;
                self.vault_key = vault_key;
                self.state = SessionState::Unlocked;
                Ok(())
            },
            Err(e) => {
                self.record_failure();
                Err(e)
            },
        }
    }
}

impl Session {
    /// Stores a credential for the session's user, encrypted under the vault
    /// key, as `credentials::add_password` does.
    pub fn add(&self, store: &mut RecordStore, account: &str, website: &str, password: &str) -> (result:
        Result<(), VaultError>)
        requires
            self.wf(),
            self@.state == SessionState::Unlocked,
            old(store).wf(),
        ensures
            final(store).wf(),
            final(store)@.users == old(store)@.users,
            next_id(entry_ids(old(store)@.credentials)) > i32::MAX ==> result == Err::<
                (),
                VaultError,
            >(VaultError::StoreUnavailable) && final(store)@ == old(store)@,
            next_id(entry_ids(old(store)@.credentials)) <= i32::MAX ==> {
                let row = final(store)@.credentials.last();
                let triplet = Triplet {
                    account: account@,
                    website: website@,
                    password: password@,
                };
                &&& result == Ok::<(), VaultError>(())
                &&& final(store)@.credentials == old(store)@.credentials.push(row)
                &&& row.entry_id == next_id(entry_ids(old(store)@.credentials))
                &&& row.user_id == self@.user_id
                &&& seals(row, self@.vault_key, triplet)
                &&& open_row(row, self@.vault_key) == Some(triplet)
            },
    {
        add_password(store, self.user_id, account, password, &self.vault_key, website)
    }

    /// Decrypts every credential of the session's user, as
    /// `credentials::get_accounts` does: account names, website names and
    /// passwords, each in the order of the rows.
    pub fn list(&self, store: &RecordStore) -> (result: Result<[Vec<String>; 3], VaultError>)
        requires
            self.wf(),
            self@.state == SessionState::Unlocked,
        ensures
            match listing(rows_of(store@.credentials, self@.user_id), self@.vault_key) {
                Some(triplets) => result is Ok && views(result->Ok_0@[0]@) == accounts_of(
                    triplets,
                ) && views(result->Ok_0@[1]@) == websites_of(triplets) && views(
                    result->Ok_0@[2]@,
                ) == passwords_of(triplets),
                None => result is Err && result->Err_0 == VaultError::DecryptionError,
            },
    {
        get_accounts(store, &self.vault_key, self.user_id)
    }

    /// Finds the entry id of the credential of the session's user that
    /// decrypts to exactly these three fields, as `credentials::find_entry_id`
    /// does.
    pub fn find(&self, store: &RecordStore, account: &str, website: &str, password: &str) -> (result:
        Result<i32, VaultError>)
        requires
            self.wf(),
            self@.state == SessionState::Unlocked,
        ensures
            match find_in(
                rows_of(store@.credentials, self@.user_id),
                self@.vault_key,
                Triplet { account: account@, website: website@, password: password@ },
            ) {
                Ok(entry_id) => result is Ok && result->Ok_0 == entry_id,
                Err(e) => result == Err::<i32, VaultError>(e),
            },
    {
        find_entry_id(store, self.user_id, account, password, website, &self.vault_key)
    }

    /// Deletes the credential with the entry id `entry_id`, where there is
    /// one.
    pub fn remove(&self, store: &mut RecordStore, entry_id: i32) -> (result: Result<
        (),
        VaultError,
    >)
        requires
            self.wf(),
            self@.state == SessionState::Unlocked,
            old(store).wf(),
        ensures
            final(store).wf(),
            result == Ok::<(), VaultError>(()),
            final(store)@.users == old(store)@.users,
            final(store)@.credentials == without_entry(old(store)@.credentials, entry_id as int),
    {
        remove_password(store, entry_id)
    }

    /// Changes the master passphrase of the session's user to
    /// `new_passphrase`, with the new salts `new_salts`.
    ///
    /// The new hash and the new vault key are derived from the new passphrase
    /// with the two salts. The user's row takes the new hash and salts and
    /// every credential of the user is re-encrypted from the old key to the
    /// new one, as `rotation::change_master_password` does. The session then
    /// holds the new key and the rating of the new passphrase. On any failure
    /// neither the store nor the session changes.
    pub fn rotate(
        &mut self,
        store: &mut RecordStore,
        new_passphrase: &str,
        new_salts: &SaltPair,
        common_passwords: &Vec<String>,
    ) -> (result: Result<(), VaultError>)
        requires
            old(self).wf(),
            old(self)@.state == SessionState::Unlocked,
            old(store).wf(),
        ensures
            final(self).wf(),
            final(store).wf(),
            result is Err ==> final(store)@ == old(store)@ && final(self)@ == old(self)@,
            encode_utf8(new_passphrase@).len() > MAX_HASH_INPUT_LEN ==> result == Err::<
                (),
                VaultError,
            >(VaultError::InputTooLarge),
            encode_utf8(new_passphrase@).len() <= MAX_HASH_INPUT_LEN && !has_user(
                old(store)@.users,
                old(self)@.user_id,
            ) ==> result == Err::<(), VaultError>(VaultError::AccountNotFound),
            encode_utf8(new_passphrase@).len() <= MAX_HASH_INPUT_LEN && has_user(
                old(store)@.users,
                old(self)@.user_id,
            ) && listing(
                rows_of(old(store)@.credentials, old(self)@.user_id),
                old(self)@.vault_key,
            ) is None ==> result == Err::<(), VaultError>(VaultError::DecryptionError),
            encode_utf8(new_passphrase@).len() <= MAX_HASH_INPUT_LEN && has_user(
                old(store)@.users,
                old(self)@.user_id,
            ) && listing(
                rows_of(old(store)@.credentials, old(self)@.user_id),
                old(self)@.vault_key,
            ) is Some ==> {
                let new_key = master_hash(new_passphrase@, new_salts.kdf());
                &&& result == Ok::<(), VaultError>(())
                &&& final(self)@ == after_success(
                    old(self)@,
                    new_key,
                    safety_rating(
                        new_passphrase@,
                        is_listed(views(common_passwords@), new_passphrase@),
                    ),
                    safety_messages(
                        new_passphrase@,
                        is_listed(views(common_passwords@), new_passphrase@),
                    ),
                )
                &&& final(store)@.users == rotated_users(
                    old(store)@.users,
                    old(self)@.user_id,
                    master_hash(new_passphrase@, new_salts.verification()),
                    *new_salts,
                )
                &&& rotated_rows(
                    old(store)@.credentials,
                    final(store)@.credentials,
                    old(self)@.user_id,
                    old(self)@.vault_key,
                    new_key,
                )
                &&& listing(rows_of(final(store)@.credentials, old(self)@.user_id), new_key)
                    == listing(
                    rows_of(old(store)@.credentials, old(self)@.user_id),
                    old(self)@.vault_key,
                )
            },
    {
        let secrets = match derive_secrets(new_passphrase, new_salts) {
            Ok(secrets) => secrets,
            Err(e) => {
                return Err(e);
            },
        };
        match change_master_password(
            store,
            self.user_id,
            &self.vault_key,
            &secrets.vault_key,
            &secrets.verification_hash,
            new_salts,
        ) {
            Ok(()) => {
                self.master_safe = check_password_safety(new_passphrase, common_passwords);
                self.vault_key = secrets.vault_key;
                Ok(())
            },
            Err(e) => Err(e),
        }
    }
}

/// What logging in to `account_name` with `passphrase` leads to: the user's
/// id and vault key, or the reason of the failure.
pub open spec fn login_outcome(
    users: Seq<UserView>,
    account_name: Seq<char>,
    passphrase: Seq<char>,
) -> Result<(int, Seq<u8>), VaultError> {
    if !has_account(users, account_name) {
        Err(VaultError::AccountNotFound)
    } else {
        match passphrase_outcome(account_of(users, account_name), passphrase) {
            Ok(vault_key) => Ok((account_of(users, account_name).user_id, vault_key)),
            Err(e) => Err(e),
        }
    }
}

/// Logs in to `account_name` with `passphrase` in one step and returns the
/// unlocked session.
pub fn authenticate(
    store: &RecordStore,
    account_name: &str,
    passphrase: &str,
    common_passwords: &Vec<String>,
) -> (result: Result<Session, VaultError>)
    requires
        store.wf(),
    ensures
        match login_outcome(store@.users, account_name@, passphrase@) {
            Ok((user_id, vault_key)) => result is Ok && result->Ok_0.wf() && result->Ok_0@
                == after_success(
                SessionView { user_id, ..cleared(DEFAULT_ATTEMPT_LIMIT as nat) },
                vault_key,
                safety_rating(passphrase@, is_listed(views(common_passwords@), passphrase@)),
                safety_messages(passphrase@, is_listed(views(common_passwords@), passphrase@)),
            ),
            Err(e) => result is Err && result->Err_0 == e,
        },
{
    let mut session = Session::new(DEFAULT_ATTEMPT_LIMIT);
    match session.login(store, account_name) {
        Ok(()) => {},
        Err(e) => {
            return Err(e);
        },
    }
    proof {
        let i = choose|i: int|
            #![trigger store@.users[i]]
            0 <= i < store@.users.len() && store@.users[i].account_name == account_name@;
        lemma_user_of(store@.users, i);
    }
    match session.submit_passphrase(store, passphrase, common_passwords) {
        Ok(()) => Ok(session),
        Err(e) => Err(e),
    }
}

/// Registers a user under `account_name` with the master passphrase
/// `passphrase` and the salts `salts`, and returns the new user's id.
///
/// Only the hash derived with the verification salt is stored. Fails with
/// `InputTooLarge` for a passphrase too long to hash, and else as
/// `users::add_user_id` does; the store is then unchanged.
pub fn register(store: &mut RecordStore, account_name: &str, passphrase: &str, salts: &SaltPair) -> (result:
    Result<i32, VaultError>)
    requires
        old(store).wf(),
    ensures
        final(store).wf(),
        final(store)@.credentials == old(store)@.credentials,
        result is Err ==> final(store)@ == old(store)@,
        encode_utf8(passphrase@).len() > MAX_HASH_INPUT_LEN ==> result == Err::<i32, VaultError>(
            VaultError::InputTooLarge,
        ),
        encode_utf8(passphrase@).len() <= MAX_HASH_INPUT_LEN && next_id(
            user_ids(old(store)@.users),
        ) > i32::MAX ==> result == Err::<i32, VaultError>(VaultError::StoreUnavailable),
        encode_utf8(passphrase@).len() <= MAX_HASH_INPUT_LEN && next_id(
            user_ids(old(store)@.users),
        ) <= i32::MAX && has_account(old(store)@.users, account_name@) ==> result == Err::<
            i32,
            VaultError,
        >(VaultError::AccountExists),
        encode_utf8(passphrase@).len() <= MAX_HASH_INPUT_LEN && next_id(
            user_ids(old(store)@.users),
        ) <= i32::MAX && !has_account(old(store)@.users, account_name@) ==> result is Ok
            && result->Ok_0 == next_id(user_ids(old(store)@.users)) && final(store)@.users
            == old(store)@.users.push(
            new_user(
                next_id(user_ids(old(store)@.users)),
                account_name@,
                master_hash(passphrase@, salts.verification()),
                *salts,
            ),
        ),
{
    let secrets = match derive_secrets(passphrase, salts) {
        Ok(secrets) => secrets,
        Err(e) => {
            return Err(e);
        },
    };
    add_user_id(store, account_name, &secrets.verification_hash, salts)
}

/// After a change of the master passphrase the new passphrase logs in: in the
/// user table that the change leaves, the account of the user `user_id`
/// opens with `new_passphrase` and yields the key derived with the new
/// second salt. The table stays consistent.
pub proof fn lemma_new_passphrase_authenticates(
    users: Seq<UserView>,
    user_id: int,
    new_passphrase: Seq<char>,
    salts: SaltPair,
)
    requires
        users_well_formed(users),
        has_user(users, user_id),
        salts.verification() != salts.kdf(),
        encode_utf8(new_passphrase).len() <= MAX_HASH_INPUT_LEN,
    ensures
        users_well_formed(
            rotated_users(
                users,
                user_id,
                master_hash(new_passphrase, salts.verification()),
                salts,
            ),
        ),
        login_outcome(
            rotated_users(
                users,
                user_id,
                master_hash(new_passphrase, salts.verification()),
                salts,
            ),
            user_of(users, user_id).account_name,
            new_passphrase,
        ) == Ok::<(int, Seq<u8>), VaultError>(
            (user_id, master_hash(new_passphrase, salts.kdf())),
        ),
{
    let hash = master_hash(new_passphrase, salts.verification());
    let after = rotated_users(users, user_id, hash, salts);
    let i = choose|i: int| #![trigger users[i]] 0 <= i < users.len() && users[i].user_id == user_id;
    lemma_user_of(users, i);
    assert forall|a: int, b: int| 0 <= a < b < after.len() implies after[a].user_id
        != after[b].user_id && after[a].account_name != after[b].account_name by {
        assert(users[a].user_id != users[b].user_id);
        assert(users[a].account_name != users[b].account_name);
    }
    assert forall|a: int| 0 <= a < after.len() implies after[a].verification_salt
        != after[a].kdf_salt by {
        assert(users[a].verification_salt != users[a].kdf_salt);
    }
    assert(after[i] == rotated_user(users[i], hash, salts));
    lemma_user_of(after, i);
}

/// After a registration the passphrase logs in: in the user table with the
/// new user's row, the new account opens with `passphrase` and yields the key
/// derived with the second salt. The table stays consistent.
pub proof fn lemma_registered_passphrase_authenticates(
    users: Seq<UserView>,
    user_id: int,
    account_name: Seq<char>,
    passphrase: Seq<char>,
    salts: SaltPair,
)
    requires
        users_well_formed(users),
        !has_user(users, user_id),
        !has_account(users, account_name),
        salts.verification() != salts.kdf(),
        encode_utf8(passphrase).len() <= MAX_HASH_INPUT_LEN,
    ensures
        users_well_formed(
            users.push(
                new_user(
                    user_id,
                    account_name,
                    master_hash(passphrase, salts.verification()),
                    salts,
                ),
            ),
        ),
        login_outcome(
            users.push(
                new_user(
                    user_id,
                    account_name,
                    master_hash(passphrase, salts.verification()),
                    salts,
                ),
            ),
            account_name,
            passphrase,
        ) == Ok::<(int, Seq<u8>), VaultError>((user_id, master_hash(passphrase, salts.kdf()))),
{
    let added = new_user(user_id, account_name, master_hash(passphrase, salts.verification()), salts);
    let after = users.push(added);
    assert forall|a: int, b: int| 0 <= a < b < after.len() implies after[a].user_id
        != after[b].user_id && after[a].account_name != after[b].account_name by {
        if b < users.len() {
            assert(users[a].user_id != users[b].user_id);
            assert(users[a].account_name != users[b].account_name);
        } else {
            assert(users[a].user_id != user_id);
            assert(users[a].account_name != account_name);
        }
    }
    assert forall|a: int| 0 <= a < after.len() implies after[a].verification_salt
        != after[a].kdf_salt by {
        if a < users.len() {
            assert(users[a].verification_salt != users[a].kdf_salt);
        }
    }
    assert(after[users.len() as int] == added);
    lemma_user_of(after, users.len() as int);
}

/// After a change of the master passphrase the old passphrase no longer
/// logs in, unless SHA-256 gives it, with the new verification salt, the
/// digest of the new passphrase.
pub proof fn lemma_old_passphrase_fails(
    users: Seq<UserView>,
    user_id: int,
    old_passphrase: Seq<char>,
    new_passphrase: Seq<char>,
    salts: SaltPair,
)
    requires
        users_well_formed(users),
        has_user(users, user_id),
        salts.verification() != salts.kdf(),
        encode_utf8(old_passphrase).len() <= MAX_HASH_INPUT_LEN,
        master_hash(old_passphrase, salts.verification()) != master_hash(
            new_passphrase,
            salts.verification(),
        ),
    ensures
        login_outcome(
            rotated_users(
                users,
                user_id,
                master_hash(new_passphrase, salts.verification()),
                salts,
            ),
            user_of(users, user_id).account_name,
            old_passphrase,
        ) == Err::<(int, Seq<u8>), VaultError>(VaultError::IncorrectPassphrase),
{
    let hash = master_hash(new_passphrase, salts.verification());
    let after = rotated_users(users, user_id, hash, salts);
    let i = choose|i: int| #![trigger users[i]] 0 <= i < users.len() && users[i].user_id == user_id;
    lemma_user_of(users, i);
    assert forall|a: int, b: int| 0 <= a < b < after.len() implies after[a].user_id
        != after[b].user_id && after[a].account_name != after[b].account_name by {
        assert(users[a].user_id != users[b].user_id);
        assert(users[a].account_name != users[b].account_name);
    }
    assert forall|a: int| 0 <= a < after.len() implies after[a].verification_salt
        != after[a].kdf_salt by {
        assert(users[a].verification_salt != users[a].kdf_salt);
    }
    assert(after[i] == rotated_user(users[i], hash, salts));
    lemma_user_of(after, i);
}

} // verus!
