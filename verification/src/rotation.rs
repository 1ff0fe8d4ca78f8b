//! The change of a master passphrase: the user's row takes the new hash and
//! salts, and every credential of the user moves from the old key to the
//! new one, all of it or none.

use crate::credentials::{
    decrypt_row, lemma_rows_of_members, lemma_rows_of_push, listing, open_row, rows_of, seal_row,
    seals,
};
use crate::error::VaultError;
use crate::key_derivation::SaltPair;
use crate::store::{
    CredentialRecord, CredentialView, RecordStore, UserRecord, UserView, credential_views,
    credentials_well_formed, entry_ids, has_user,
};
use vstd::prelude::*;
use vstd::slice::slice_to_vec;

verus! {

/// A user row after a change of the master passphrase: the id and the
/// account name stay, the hash and both salts are replaced together.
pub open spec fn rotated_user(user: UserView, hash: Seq<u8>, salts: SaltPair) -> UserView {
    UserView {
        user_id: user.user_id,
        account_name: user.account_name,
        verification_hash: hash,
        verification_salt: salts.verification(),
        kdf_salt: salts.kdf(),
    }
}

/// The user table after the user `user_id` changed the master passphrase.
pub open spec fn rotated_users(
    users: Seq<UserView>,
    user_id: int,
    hash: Seq<u8>,
    salts: SaltPair,
) -> Seq<UserView> {
    users.map_values(
        |user: UserView|
            if user.user_id == user_id {
                rotated_user(user, hash, salts)
            } else {
                user
            },
    )
}

/// Whether `after` is what a change of the master passphrase of the user
/// `user_id` makes of the row `before`: a row of another user is left as it
/// is; a row of the user keeps its ids and holds, sealed under the new key,
/// what it decrypted to under the old one.
pub open spec fn rotated_row(
    before: CredentialView,
    after: CredentialView,
    user_id: int,
    old_key: Seq<u8>,
    new_key: Seq<u8>,
) -> bool {
    if before.user_id == user_id {
        &&& after.entry_id == before.entry_id
        &&& after.user_id == before.user_id
        &&& open_row(before, old_key) is Some
        &&& open_row(after, new_key) == open_row(before, old_key)
        &&& seals(after, new_key, open_row(before, old_key)->0)
    } else {
        after == before
    }
}

/// Whether every row of `after` is the rotated row of `before` at the same
/// position.
pub open spec fn rotated_rows(
    before: Seq<CredentialView>,
    after: Seq<CredentialView>,
    user_id: int,
    old_key: Seq<u8>,
    new_key: Seq<u8>,
) -> bool {
    &&& after.len() == before.len()
    &&& forall|i: int|
        #![trigger after[i]]
        #![trigger before[i]]
        0 <= i < before.len() ==> rotated_row(before[i], after[i], user_id, old_key, new_key)
}

/// A change of the master passphrase keeps what the user's credentials
/// decrypt to: listing them under the new key afterwards gives what listing
/// them under the old key gave before. The credentials of every other user
/// are untouched.
pub proof fn lemma_rotation_keeps_listing(
    before: Seq<CredentialView>,
    after: Seq<CredentialView>,
    user_id: int,
    old_key: Seq<u8>,
    new_key: Seq<u8>,
)
    requires
        rotated_rows(before, after, user_id, old_key, new_key),
    ensures
        rows_of(after, user_id).len() == rows_of(before, user_id).len(),
        listing(rows_of(before, user_id), old_key) is Some,
        listing(rows_of(after, user_id), new_key) == listing(rows_of(before, user_id), old_key),
        forall|other: int| other != user_id ==> rows_of(after, other) == rows_of(before, other),
    decreases before.len(),
{
    reveal(Seq::filter);
    if before.len() == 0 {
        assert(after =~= before);
        assert(listing(rows_of(after, user_id), new_key)->0 =~= listing(
            rows_of(before, user_id),
            old_key,
        )->0);
    } else {
        let b = before.drop_last();
        let a = after.drop_last();
        assert forall|i: int| 0 <= i < b.len() implies rotated_row(
            b[i],
            #[trigger] a[i],
            user_id,
            old_key,
            new_key,
        ) by {
            assert(b[i] == before[i]);
            assert(a[i] == after[i]);
        }
        lemma_rotation_keeps_listing(b, a, user_id, old_key, new_key);
        let last_b = before.last();
        let last_a = after.last();
        assert(last_b == before[before.len() - 1]);
        assert(last_a == after[after.len() - 1]);
        assert(rotated_row(last_b, last_a, user_id, old_key, new_key));
        assert(before =~= b.push(last_b));
        assert(after =~= a.push(last_a));
        lemma_rows_of_push(b, last_b, user_id);
        lemma_rows_of_push(a, last_a, user_id);
        let rb = rows_of(b, user_id);
        let ra = rows_of(a, user_id);
        if last_b.user_id == user_id {
            let rows_b = rb.push(last_b);
            let rows_a = ra.push(last_a);
            assert forall|k: int| 0 <= k < rows_b.len() implies open_row(
                #[trigger] rows_b[k],
                old_key,
            ) is Some by {
                if k < rb.len() {
                    assert(rows_b[k] == rb[k]);
                }
            }
            assert forall|k: int| 0 <= k < rows_a.len() implies open_row(
                #[trigger] rows_a[k],
                new_key,
            ) is Some by {
                if k < ra.len() {
                    assert(rows_a[k] == ra[k]);
                }
            }
            assert(listing(rows_b, old_key)->0 =~= listing(rb, old_key)->0.push(
                open_row(last_b, old_key)->0,
            ));
            assert(listing(rows_a, new_key)->0 =~= listing(ra, new_key)->0.push(
                open_row(last_a, new_key)->0,
            ));
        }
        assert forall|other: int| other != user_id implies rows_of(after, other) == rows_of(
            before,
            other,
        ) by {
            lemma_rows_of_push(b, last_b, other);
            lemma_rows_of_push(a, last_a, other);
        }
    }
}

/// Re-encrypts the credentials of the user `user_id`: each row of the user
/// is decrypted under `old_key` and encrypted again under `new_key`, with
/// fresh vectors; each row of another user is copied.
///
/// Fails with `DecryptionError`, before anything is written, where a row of
/// the user does not decrypt under `old_key`.
pub fn reencrypt_rows(
    credentials: &Vec<CredentialRecord>,
    user_id: i32,
    old_key: &[u8; 32],
    new_key: &[u8; 32],
) -> (result: Result<Vec<CredentialRecord>, VaultError>)
    ensures
        match listing(rows_of(credential_views(credentials@), user_id as int), old_key@) {
            Some(_) => result is Ok && rotated_rows(
                credential_views(credentials@),
                credential_views(result->Ok_0@),
                user_id as int,
                old_key@,
                new_key@,
            ),
            None => result is Err && result->Err_0 == VaultError::DecryptionError,
        },
{
    let ghost table = credential_views(credentials@);
    let mut rows: Vec<CredentialRecord> = Vec::new();
    let mut i: usize = 0;
    while i < credentials.len()
        invariant
            i <= credentials@.len(),
            table == credential_views(credentials@),
            rotated_rows(
                table.take(i as int),
                credential_views(rows@),
                user_id as int,
                old_key@,
                new_key@,
            ),
        decreases credentials@.len() - i,
    {
        let row = &credentials[i];
        let ghost done = credential_views(rows@);
        proof {
            assert(table[i as int] == row@);
        }
        let next = if row.user_id == user_id {
            match decrypt_row(row, old_key) {
                Ok((account, website, password)) => seal_row(
                    row.entry_id,
                    row.user_id,
                    account.as_str(),
                    website.as_str(),
                    password.as_str(),
                    new_key,
                ),
                Err(e) => {
                    proof {
                        lemma_rows_of_members(table, user_id as int);
                        let mine = rows_of(table, user_id as int);
                        assert(mine.contains(table[i as int]));
                        let k = choose|k: int| 0 <= k < mine.len() && mine[k] == table[i as int];
                        assert(open_row(mine[k], old_key@) is None);
                    }
                    return Err(e);
                },
            }
        } else {
            CredentialRecord {
                entry_id: row.entry_id,
                user_id: row.user_id,
                account: slice_to_vec(row.account.as_slice()),
                password: slice_to_vec(row.password.as_slice()),
                website: slice_to_vec(row.website.as_slice()),
            }
        };
        proof {
            assert(rotated_row(row@, next@, user_id as int, old_key@, new_key@));
        }
        let ghost added = next@;
        rows.push(next);
        proof {
            let after = credential_views(rows@);
            let before = table.take(i + 1);
            assert(after =~= done.push(added));
            assert forall|k: int| 0 <= k < before.len() implies rotated_row(
                before[k],
                #[trigger] after[k],
                user_id as int,
                old_key@,
                new_key@,
            ) by {
                if k < i {
                    assert(before[k] == table.take(i as int)[k]);
                    assert(after[k] == done[k]);
                }
            }
        }
        i += 1;
    }
    proof {
        assert(table.take(credentials@.len() as int) =~= table);
        lemma_rotation_keeps_listing(
            table,
            credential_views(rows@),
            user_id as int,
            old_key@,
            new_key@,
        );
    }
    Ok(rows)
}

/// Rotated rows keep their entry ids, so a consistent table stays
/// consistent.
pub proof fn lemma_rotation_keeps_ids(
    before: Seq<CredentialView>,
    after: Seq<CredentialView>,
    user_id: int,
    old_key: Seq<u8>,
    new_key: Seq<u8>,
)
    requires
        rotated_rows(before, after, user_id, old_key, new_key),
        credentials_well_formed(before),
    ensures
        credentials_well_formed(after),
        entry_ids(after) == entry_ids(before),
{
    assert forall|i: int| 0 <= i < before.len() implies (#[trigger] after[i]).entry_id
        == before[i].entry_id by {
        assert(rotated_row(before[i], after[i], user_id, old_key, new_key));
    }
    assert forall|i: int, j: int| 0 <= i < j < after.len() implies after[i].entry_id
        != after[j].entry_id by {
        assert(before[i].entry_id != before[j].entry_id);
    }
    assert(entry_ids(after) =~= entry_ids(before));
}

/// Changes the master passphrase of the user `user_id`: replaces the stored
/// hash and both salts, and re-encrypts every credential of the user from
/// `old_key` to `new_key`.
///
/// Either all of it happens or none: it fails with `AccountNotFound` where
/// there is no such user, and with `DecryptionError` where one of the user's
/// credentials does not decrypt under `old_key`, and the store is then
/// unchanged.
pub fn change_master_password(
    store: &mut RecordStore,
    user_id: i32,
    old_key: &[u8; 32],
    new_key: &[u8; 32],
    new_master_hashed: &[u8; 32],
    new_salts: &SaltPair,
) -> (result: Result<(), VaultError>)
    requires
        old(store).wf(),
    ensures
        final(store).wf(),
        result is Err ==> final(store)@ == old(store)@,
        !has_user(old(store)@.users, user_id as int) ==> result == Err::<(), VaultError>(
            VaultError::AccountNotFound,
        ),
        has_user(old(store)@.users, user_id as int) && listing(
            rows_of(old(store)@.credentials, user_id as int),
            old_key@,
        ) is None ==> result == Err::<(), VaultError>(VaultError::DecryptionError),
        has_user(old(store)@.users, user_id as int) && listing(
            rows_of(old(store)@.credentials, user_id as int),
            old_key@,
        ) is Some ==> {
            &&& result == Ok::<(), VaultError>(())
            &&& final(store)@.users == rotated_users(
                old(store)@.users,
                user_id as int,
                new_master_hashed@,
                *new_salts,
            )
            &&& rotated_rows(
                old(store)@.credentials,
                final(store)@.credentials,
                user_id as int,
                old_key@,
                new_key@,
            )
            &&& listing(rows_of(final(store)@.credentials, user_id as int), new_key@) == listing(
                rows_of(old(store)@.credentials, user_id as int),
                old_key@,
            )
            &&& forall|other: int|
                other != user_id ==> #[trigger] rows_of(final(store)@.credentials, other)
                    == rows_of(old(store)@.credentials, other)
        },
{
    let position = match store.find_user(user_id) {
        Some(position) => position,
        None => {
            return Err(VaultError::AccountNotFound);
        },
    };
    let rows = match reencrypt_rows(store.credentials(), user_id, old_key, new_key) {
        Ok(rows) => rows,
        Err(e) => {
            return Err(e);
        },
    };
    let ghost users = store@.users;
    let ghost table = store@.credentials;
    let user = UserRecord {
        user_id,
        account_name: store.users()[position].account_name.clone(),
        verification_hash: *new_master_hashed,
        verification_salt: new_salts.verification_salt(),
        kdf_salt: new_salts.kdf_salt(),
    };
    store.set_user(position, user);
    store.set_credentials(rows);
    proof {
        let after = store@.users;
        let expected = rotated_users(users, user_id as int, new_master_hashed@, *new_salts);
        assert forall|i: int| 0 <= i < users.len() implies after[i] == expected[i] by {
            if i != position {
                if i < position {
                    assert(users[i].user_id != users[position as int].user_id);
                } else {
                    assert(users[position as int].user_id != users[i].user_id);
                }
            }
        }
        assert(after =~= expected);
        assert forall|i: int, j: int| 0 <= i < j < after.len() implies after[i].user_id
            != after[j].user_id && after[i].account_name != after[j].account_name by {
            assert(users[i].user_id != users[j].user_id);
            assert(users[i].account_name != users[j].account_name);
        }
        assert forall|i: int| 0 <= i < after.len() implies after[i].verification_salt
            != after[i].kdf_salt by {
            assert(users[i].verification_salt != users[i].kdf_salt);
        }
        lemma_rotation_keeps_ids(table, store@.credentials, user_id as int, old_key@, new_key@);
        lemma_rotation_keeps_listing(
            table,
            store@.credentials,
            user_id as int,
            old_key@,
            new_key@,
        );
    }
    Ok(())
}

} // verus!
