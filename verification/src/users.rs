//! The table of users: registration and lookup.

use crate::error::VaultError;
use crate::key_derivation::SaltPair;
use crate::store::{
    RecordStore, UserRecord, UserView, account_of, has_account, has_user, lemma_next_id_is_fresh,
    next_id, user_ids, user_of,
};
use vstd::prelude::*;
use vstd::slice::slice_to_vec;

verus! {

/// The row that registration adds for a user.
pub open spec fn new_user(
    user_id: int,
    account_name: Seq<char>,
    verification_hash: Seq<u8>,
    salts: SaltPair,
) -> UserView {
    UserView {
        user_id,
        account_name,
        verification_hash,
        verification_salt: salts.verification(),
        kdf_salt: salts.kdf(),
    }
}

/// Registers a user under `user_account` and returns the new id, which is
/// one more than the largest id in the table, and 1 where the table is empty.
///
/// Fails with `StoreUnavailable` where no larger id exists, and with
/// `AccountExists` where the account name is taken; the store is then
/// unchanged.
pub fn add_user_id(
    store: &mut RecordStore,
    user_account: &str,
    hashed_master: &[u8; 32],
    salts: &SaltPair,
) -> (result: Result<i32, VaultError>)
    requires
        old(store).wf(),
    ensures
        final(store).wf(),
        final(store)@.credentials == old(store)@.credentials,
        next_id(user_ids(old(store)@.users)) > i32::MAX ==> result == Err::<i32, VaultError>(
            VaultError::StoreUnavailable,
        ),
        next_id(user_ids(old(store)@.users)) <= i32::MAX && has_account(
            old(store)@.users,
            user_account@,
        ) ==> result == Err::<i32, VaultError>(VaultError::AccountExists),
        next_id(user_ids(old(store)@.users)) <= i32::MAX && !has_account(
            old(store)@.users,
            user_account@,
        ) ==> result is Ok && result->Ok_0 == next_id(user_ids(old(store)@.users)),
        result is Err ==> final(store)@ == old(store)@,
        result is Ok ==> final(store)@.users == old(store)@.users.push(
            new_user(result->Ok_0 as int, user_account@, hashed_master@, *salts),
        ),
{
    let user_id = match store.next_user_id() {
        Some(user_id) => user_id,
        None => {
            return Err(VaultError::StoreUnavailable);
        },
    };
    if store.find_account(user_account).is_some() {
        return Err(VaultError::AccountExists);
    }
    let user = UserRecord {
        user_id,
        account_name: user_account.to_owned(),
        verification_hash: *hashed_master,
        verification_salt: salts.verification_salt(),
        kdf_salt: salts.kdf_salt(),
    };
    let ghost before = store@.users;
    store.push_user(user);
    proof {
        let after = store@.users;
        let added = new_user(user_id as int, user_account@, hashed_master@, *salts);
        assert(after =~= before.push(added));
        lemma_next_id_is_fresh(user_ids(before));
        assert forall|i: int, j: int| 0 <= i < j < after.len() implies after[i].user_id
            != after[j].user_id && after[i].account_name != after[j].account_name by {
            if j < before.len() {
                assert(before[i].user_id != before[j].user_id);
                assert(before[i].account_name != before[j].account_name);
            } else {
                assert(user_ids(before)[i] == before[i].user_id);
                assert(before[i].account_name != user_account@);
            }
        }
        assert forall|i: int| 0 <= i < after.len() implies after[i].verification_salt
            != after[i].kdf_salt by {
            if i < before.len() {
                assert(before[i].verification_salt != before[i].kdf_salt);
            }
        }
    }
    Ok(user_id)
}

/// Looks up the id of the user registered under `user_account`.
pub fn get_user_id(store: &RecordStore, user_account: &str) -> (result: Result<i32, VaultError>)
    requires
        store.wf(),
    ensures
        has_account(store@.users, user_account@) ==> result is Ok && result->Ok_0 == account_of(
            store@.users,
            user_account@,
        ).user_id,
        !has_account(store@.users, user_account@) ==> result == Err::<i32, VaultError>(
            VaultError::AccountNotFound,
        ),
{
    match store.find_account(user_account) {
        Some(i) => Ok(store.users()[i].user_id),
        None => Err(VaultError::AccountNotFound),
    }
}

/// The verification salt of the user `user_id`, or no bytes where there is
/// no such user.
pub fn get_salt(store: &RecordStore, user_id: i32) -> (salt: Vec<u8>)
    requires
        store.wf(),
    ensures
        has_user(store@.users, user_id as int) ==> salt@ == user_of(
            store@.users,
            user_id as int,
        ).verification_salt,
        !has_user(store@.users, user_id as int) ==> salt@.len() == 0,
{
    match store.find_user(user_id) {
        Some(i) => slice_to_vec(store.users()[i].verification_salt.as_slice()),
        None => Vec::new(),
    }
}

/// The salt of the vault key of the user `user_id`, or no bytes where there
/// is no such user.
pub fn get_kdf_salt(store: &RecordStore, user_id: i32) -> (salt: Vec<u8>)
    requires
        store.wf(),
    ensures
        has_user(store@.users, user_id as int) ==> salt@ == user_of(
            store@.users,
            user_id as int,
        ).kdf_salt,
        !has_user(store@.users, user_id as int) ==> salt@.len() == 0,
{
    match store.find_user(user_id) {
        Some(i) => slice_to_vec(store.users()[i].kdf_salt.as_slice()),
        None => Vec::new(),
    }
}

/// The stored verification hash of the user `user_id`, or no bytes where
/// there is no such user.
pub fn get_hashed_master(store: &RecordStore, user_id: i32) -> (hash: Vec<u8>)
    requires
        store.wf(),
    ensures
        has_user(store@.users, user_id as int) ==> hash@ == user_of(
            store@.users,
            user_id as int,
        ).verification_hash,
        !has_user(store@.users, user_id as int) ==> hash@.len() == 0,
{
    match store.find_user(user_id) {
        Some(i) => slice_to_vec(store.users()[i].verification_hash.as_slice()),
        None => Vec::new(),
    }
}

/// The row of the user `user_id`, where there is one.
pub fn get_user(store: &RecordStore, user_id: i32) -> (user: Option<&UserRecord>)
    requires
        store.wf(),
    ensures
        user is Some <==> has_user(store@.users, user_id as int),
        user is Some ==> user->0@ == user_of(store@.users, user_id as int) && user->0@.user_id
            == user_id,
{
    match store.find_user(user_id) {
        Some(i) => Some(&store.users()[i]),
        None => None,
    }
}

/// The row of the user registered under `user_account`, where there is one.
pub fn get_account<'a>(store: &'a RecordStore, user_account: &str) -> (user: Option<
    &'a UserRecord,
>)
    requires
        store.wf(),
    ensures
        user is Some <==> has_account(store@.users, user_account@),
        user is Some ==> user->0@ == account_of(store@.users, user_account@)
            && user->0@.account_name == user_account@,
{
    match store.find_account(user_account) {
        Some(i) => Some(&store.users()[i]),
        None => None,
    }
}

} // verus!
