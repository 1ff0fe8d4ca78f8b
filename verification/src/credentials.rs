//! The table of credentials: storing, listing, finding and removing the
//! encrypted triplets of a user.

use crate::encryption_algorithms::{decrypt_password, encrypt_password, opened, sealed};
use crate::error::VaultError;
use crate::store::{
    CredentialRecord, CredentialView, RecordStore, credential_views, credentials_well_formed, entry_ids, lemma_next_id_is_fresh, next_id, users_well_formed,
};
use crate::text::{same_text, views};
use vstd::prelude::*;

verus! {

/// The three fields of a credential in the clear.
pub struct Triplet {
    pub account: Seq<char>,
    pub website: Seq<char>,
    pub password: Seq<char>,
}

/// The rows that belong to the user `user_id`, in the order of the table.
pub open spec fn rows_of(credentials: Seq<CredentialView>, user_id: int) -> Seq<CredentialView> {
    credentials.filter(|row: CredentialView| row.user_id == user_id)
}

/// The fields of `row` decrypted under `key`, or `None` where one of them
/// does not decrypt.
pub open spec fn open_row(row: CredentialView, key: Seq<u8>) -> Option<Triplet> {
    if opened(row.account, key) is Some && opened(row.website, key) is Some && opened(
        row.password,
        key,
    ) is Some {
        Some(
            Triplet {
                account: opened(row.account, key)->0,
                website: opened(row.website, key)->0,
                password: opened(row.password, key)->0,
            },
        )
    } else {
        None
    }
}

/// Whether every row of `rows` decrypts under `key`.
pub open spec fn all_open(rows: Seq<CredentialView>, key: Seq<u8>) -> bool {
    forall|i: int| 0 <= i < rows.len() ==> open_row(#[trigger] rows[i], key) is Some
}

/// The rows of `rows` decrypted under `key`, in their order, or `None` where
/// one of them does not decrypt.
pub open spec fn listing(rows: Seq<CredentialView>, key: Seq<u8>) -> Option<Seq<Triplet>> {
    if all_open(rows, key) {
        Some(rows.map_values(|row: CredentialView| open_row(row, key)->0))
    } else {
        None
    }
}

/// The account names of `triplets`.
pub open spec fn accounts_of(triplets: Seq<Triplet>) -> Seq<Seq<char>> {
    triplets.map_values(|triplet: Triplet| triplet.account)
}

/// The website names of `triplets`.
pub open spec fn websites_of(triplets: Seq<Triplet>) -> Seq<Seq<char>> {
    triplets.map_values(|triplet: Triplet| triplet.website)
}

/// The passwords of `triplets`.
pub open spec fn passwords_of(triplets: Seq<Triplet>) -> Seq<Seq<char>> {
    triplets.map_values(|triplet: Triplet| triplet.password)
}

/// The user's rows of a table with one more row are the user's rows of the
/// table, followed by the new row where it is the user's.
pub proof fn lemma_rows_of_push(credentials: Seq<CredentialView>, row: CredentialView, user_id: int)
    ensures
        rows_of(credentials.push(row), user_id) == if row.user_id == user_id {
            rows_of(credentials, user_id).push(row)
        } else {
            rows_of(credentials, user_id)
        },
{
    reveal(Seq::filter);
    assert(credentials.push(row).drop_last() =~= credentials);
}

/// Every row among a user's rows is a row of the table with that user's id,
/// and every such row of the table is among them.
pub proof fn lemma_rows_of_members(credentials: Seq<CredentialView>, user_id: int)
    ensures
        forall|k: int|
            0 <= k < rows_of(credentials, user_id).len() ==> (#[trigger] rows_of(
                credentials,
                user_id,
            )[k]).user_id == user_id && credentials.contains(rows_of(credentials, user_id)[k]),
        forall|i: int|
            0 <= i < credentials.len() && (#[trigger] credentials[i]).user_id == user_id
                ==> rows_of(credentials, user_id).contains(credentials[i]),
{
    let pred = |row: CredentialView| row.user_id == user_id;
    let rows = credentials.filter(pred);
    assert forall|k: int| 0 <= k < rows.len() implies (#[trigger] rows[k]).user_id == user_id
        && credentials.contains(rows[k]) by {
        credentials.lemma_filter_pred(pred, k);
        assert(rows.contains(rows[k]));
        credentials.lemma_filter_contains_rev(pred, rows[k]);
    }
    assert forall|i: int|
        0 <= i < credentials.len() && (#[trigger] credentials[i]).user_id == user_id implies rows.contains(
        credentials[i],
    ) by {
        credentials.lemma_filter_contains(pred, i);
    }
}

/// Decrypts the three fields of `row` under `key`.
pub fn decrypt_row(row: &CredentialRecord, key: &[u8; 32]) -> (result: Result<
    (String, String, String),
    VaultError,
>)
    ensures
        match open_row(row@, key@) {
            Some(triplet) => result is Ok && result->Ok_0.0@ == triplet.account && result->Ok_0.1@
                == triplet.website && result->Ok_0.2@ == triplet.password,
            None => result is Err && result->Err_0 == VaultError::DecryptionError,
        },
{
    let account = match decrypt_password(row.account.as_slice(), key.as_slice()) {
        Ok(text) => text,
        Err(e) => {
            return Err(e);
        },
    };
    let website = match decrypt_password(row.website.as_slice(), key.as_slice()) {
        Ok(text) => text,
        Err(e) => {
            return Err(e);
        },
    };
    let password = match decrypt_password(row.password.as_slice(), key.as_slice()) {
        Ok(text) => text,
        Err(e) => {
            return Err(e);
        },
    };
    Ok((account, website, password))
}

/// Decrypts every credential of the user `user_id` and returns the account
/// names, the website names and the passwords, in this order, each in the
/// order of the rows.
///
/// Fails with `DecryptionError` where a field of one of the user's rows does
/// not decrypt under `hashed_master`.
pub fn get_accounts(store: &RecordStore, hashed_master: &[u8; 32], user_id: i32) -> (result:
    Result<[Vec<String>; 3], VaultError>)
    ensures
        match listing(rows_of(store@.credentials, user_id as int), hashed_master@) {
            Some(triplets) => result is Ok && views(result->Ok_0@[0]@) == accounts_of(triplets)
                && views(result->Ok_0@[1]@) == websites_of(triplets) && views(result->Ok_0@[2]@)
                == passwords_of(triplets),
            None => result is Err && result->Err_0 == VaultError::DecryptionError,
        },
{
    let mut accounts: Vec<String> = Vec::new();
    let mut websites: Vec<String> = Vec::new();
    let mut passwords: Vec<String> = Vec::new();
    let rows = store.credentials();
    let ghost table = store@.credentials;
    let ghost key = hashed_master@;
    let mut i: usize = 0;
    proof {
        reveal(Seq::filter);
        assert(table.take(0) =~= Seq::<CredentialView>::empty());
        assert(rows_of(table.take(0), user_id as int) =~= Seq::<CredentialView>::empty());
    }
    while i < rows.len()
        invariant
            i <= rows@.len(),
            table == credential_views(rows@),
            table == store@.credentials,
            key == hashed_master@,
            all_open(rows_of(table.take(i as int), user_id as int), key),
            views(accounts@) == accounts_of(
                listing(rows_of(table.take(i as int), user_id as int), key)->0,
            ),
            views(websites@) == websites_of(
                listing(rows_of(table.take(i as int), user_id as int), key)->0,
            ),
            views(passwords@) == passwords_of(
                listing(rows_of(table.take(i as int), user_id as int), key)->0,
            ),
        decreases rows@.len() - i,
    {
        let row = &rows[i];
        let ghost before = rows_of(table.take(i as int), user_id as int);
        proof {
            assert(table[i as int] == row@);
            assert(table.take(i + 1) =~= table.take(i as int).push(row@));
            lemma_rows_of_push(table.take(i as int), row@, user_id as int);
        }
        if row.user_id == user_id {
            match decrypt_row(row, hashed_master) {
                Ok((account, website, password)) => {
                    let ghost old_accounts = views(accounts@);
                    let ghost old_websites = views(websites@);
                    let ghost old_passwords = views(passwords@);
                    accounts.push(account);
                    websites.push(website);
                    passwords.push(password);
                    proof {
                        let after = before.push(row@);
                        assert forall|k: int| 0 <= k < after.len() implies open_row(
                            #[trigger] after[k],
                            key,
                        ) is Some by {
                            if k < before.len() {
                                assert(after[k] == before[k]);
                            }
                        }
                        let triplet = open_row(row@, key)->0;
                        assert(listing(after, key)->0 =~= listing(before, key)->0.push(triplet));
                        assert(views(accounts@) =~= old_accounts.push(triplet.account));
                        assert(views(websites@) =~= old_websites.push(triplet.website));
                        assert(views(passwords@) =~= old_passwords.push(triplet.password));
                        assert(accounts_of(listing(after, key)->0) =~= old_accounts.push(
                            triplet.account,
                        ));
                        assert(websites_of(listing(after, key)->0) =~= old_websites.push(
                            triplet.website,
                        ));
                        assert(passwords_of(listing(after, key)->0) =~= old_passwords.push(
                            triplet.password,
                        ));
                    }
                },
                Err(e) => {
                    proof {
                        lemma_rows_of_members(table, user_id as int);
                        let mine = rows_of(table, user_id as int);
                        assert(mine.contains(table[i as int]));
                        let k = choose|k: int| 0 <= k < mine.len() && mine[k] == table[i as int];
                        assert(open_row(mine[k], key) is None);
                    }
                    return Err(e);
                },
            }
        }
        i += 1;
    }
    proof {
        assert(table.take(rows@.len() as int) =~= table);
    }
    Ok([accounts, websites, passwords])
}

/// Whether the three fields of `row` are `triplet` sealed under `key`, each
/// with the vector that it starts with.
pub open spec fn seals(row: CredentialView, key: Seq<u8>, triplet: Triplet) -> bool {
    &&& row.account == sealed(key, row.account.take(16), triplet.account)
    &&& row.website == sealed(key, row.website.take(16), triplet.website)
    &&& row.password == sealed(key, row.password.take(16), triplet.password)
}

/// Encrypts a triplet under `key` into a row with the given ids.
pub fn seal_row(
    entry_id: i32,
    user_id: i32,
    account: &str,
    website: &str,
    password: &str,
    key: &[u8; 32],
) -> (row: CredentialRecord)
    ensures
        row@.entry_id == entry_id,
        row@.user_id == user_id,
        seals(row@, key@, Triplet { account: account@, website: website@, password: password@ }),
        open_row(row@, key@) == Some(
            Triplet { account: account@, website: website@, password: password@ },
        ),
{
    let encrypted_password = encrypt_password(password, key);
    let encrypted_account = encrypt_password(account, key);
    let encrypted_website = encrypt_password(website, key);
    CredentialRecord {
        entry_id,
        user_id,
        account: encrypted_account,
        password: encrypted_password,
        website: encrypted_website,
    }
}

/// Stores a credential for the user `user_id`: encrypts the three fields
/// under `hashed_master`, each with a vector of its own, and appends them as
/// a row whose entry id is one more than the largest in the table, and 1
/// where the table is empty.
///
/// Fails with `StoreUnavailable` where no larger id exists; the store is then
/// unchanged.
pub fn add_password(
    store: &mut RecordStore,
    user_id: i32,
    account: &str,
    password: &str,
    hashed_master: &[u8; 32],
    website: &str,
) -> (result: Result<(), VaultError>)
    requires
        old(store).wf(),
    ensures
        final(store).wf(),
        final(store)@.users == old(store)@.users,
        next_id(entry_ids(old(store)@.credentials)) > i32::MAX ==> result == Err::<(), VaultError>(
            VaultError::StoreUnavailable,
        ) && final(store)@ == old(store)@,
        next_id(entry_ids(old(store)@.credentials)) <= i32::MAX ==> {
            let row = final(store)@.credentials.last();
            let triplet = Triplet { account: account@, website: website@, password: password@ };
            &&& result == Ok::<(), VaultError>(())
            &&& final(store)@.credentials == old(store)@.credentials.push(row)
            &&& row.entry_id == next_id(entry_ids(old(store)@.credentials))
            &&& row.user_id == user_id
            &&& seals(row, hashed_master@, triplet)
            &&& open_row(row, hashed_master@) == Some(triplet)
        },
{
    let entry_id = match store.next_entry_id() {
        Some(entry_id) => entry_id,
        None => {
            return Err(VaultError::StoreUnavailable);
        },
    };
    let row = seal_row(entry_id, user_id, account, website, password, hashed_master);
    let ghost before = store@.credentials;
    let ghost added = row@;
    store.push_credential(row);
    proof {
        let after = store@.credentials;
        assert(after =~= before.push(added));
        lemma_next_id_is_fresh(entry_ids(before));
        assert forall|i: int, j: int| 0 <= i < j < after.len() implies after[i].entry_id
            != after[j].entry_id by {
            if j < before.len() {
                assert(before[i].entry_id != before[j].entry_id);
            } else {
                assert(entry_ids(before)[i] == before[i].entry_id);
            }
        }
    }
    Ok(())
}

/// The outcome of looking for `target` among `rows`, from the first row on:
/// the entry id of the first row that decrypts to `target`; `DecryptionError`
/// where a row before it does not decrypt; `EntryNotFound` where every row
/// decrypts and none is `target`.
pub open spec fn find_in(rows: Seq<CredentialView>, key: Seq<u8>, target: Triplet) -> Result<
    int,
    VaultError,
>
    decreases rows.len(),
{
    if rows.len() == 0 {
        Err(VaultError::EntryNotFound)
    } else if open_row(rows[0], key) is None {
        Err(VaultError::DecryptionError)
    } else if open_row(rows[0], key)->0 == target {
        Ok(rows[0].entry_id)
    } else {
        find_in(rows.drop_first(), key, target)
    }
}

/// The user's rows of a table are the first row, where it is the user's,
/// followed by the user's rows of the rest.
pub proof fn lemma_rows_of_first(credentials: Seq<CredentialView>, user_id: int)
    requires
        credentials.len() > 0,
    ensures
        rows_of(credentials, user_id) == if credentials[0].user_id == user_id {
            seq![credentials[0]] + rows_of(credentials.drop_first(), user_id)
        } else {
            rows_of(credentials.drop_first(), user_id)
        },
{
    let pred = |row: CredentialView| row.user_id == user_id;
    let first = seq![credentials[0]];
    assert(credentials =~= first + credentials.drop_first());
    Seq::filter_distributes_over_add(first, credentials.drop_first(), pred);
    reveal(Seq::filter);
    assert(first.drop_last() =~= Seq::<CredentialView>::empty());
    assert(first.drop_last().filter(pred) =~= Seq::<CredentialView>::empty());
    if credentials[0].user_id == user_id {
        assert(first.filter(pred) =~= first);
    } else {
        assert(first.filter(pred) =~= Seq::<CredentialView>::empty());
        assert(Seq::<CredentialView>::empty() + rows_of(credentials.drop_first(), user_id)
            =~= rows_of(credentials.drop_first(), user_id));
    }
}

/// Finds the entry id of the credential of the user `user_id` whose three
/// fields decrypt to exactly `account`, `website` and `password`: the first
/// such row in the order of the table.
///
/// Fails with `DecryptionError` where one of the user's rows before it does
/// not decrypt, and with `EntryNotFound` where all of them decrypt and none
/// matches.
pub fn find_entry_id(
    store: &RecordStore,
    user_id: i32,
    account: &str,
    password: &str,
    website: &str,
    hashed_master: &[u8; 32],
) -> (result: Result<i32, VaultError>)
    ensures
        match find_in(
            rows_of(store@.credentials, user_id as int),
            hashed_master@,
            Triplet { account: account@, website: website@, password: password@ },
        ) {
            Ok(entry_id) => result is Ok && result->Ok_0 == entry_id,
            Err(e) => result == Err::<i32, VaultError>(e),
        },
{
    let rows = store.credentials();
    let ghost table = store@.credentials;
    let ghost key = hashed_master@;
    let ghost target = Triplet { account: account@, website: website@, password: password@ };
    let mut i: usize = 0;
    proof {
        assert(table.skip(0) =~= table);
    }
    while i < rows.len()
        invariant
            i <= rows@.len(),
            table == credential_views(rows@),
            table == store@.credentials,
            key == hashed_master@,
            target == (Triplet { account: account@, website: website@, password: password@ }),
            find_in(rows_of(table, user_id as int), key, target) == find_in(
                rows_of(table.skip(i as int), user_id as int),
                key,
                target,
            ),
        decreases rows@.len() - i,
    {
        let row = &rows[i];
        proof {
            let rest = table.skip(i as int);
            assert(rest[0] == row@);
            assert(rest.drop_first() =~= table.skip(i + 1));
            lemma_rows_of_first(rest, user_id as int);
            if row@.user_id == user_id {
                let rows = rows_of(rest, user_id as int);
                assert(rows[0] == row@);
                assert(rows.drop_first() =~= rows_of(table.skip(i + 1), user_id as int));
            }
        }
        if row.user_id == user_id {
            match decrypt_row(row, hashed_master) {
                Ok((decrypted_account, decrypted_website, decrypted_password)) => {
                    if same_text(decrypted_account.as_str(), account) && same_text(
                        decrypted_website.as_str(),
                        website,
                    ) && same_text(decrypted_password.as_str(), password) {
                        return Ok(row.entry_id);
                    }
                },
                Err(e) => {
                    return Err(e);
                },
            }
        }
        i += 1;
    }
    proof {
        reveal(Seq::filter);
        assert(table.skip(rows@.len() as int) =~= Seq::<CredentialView>::empty());
    }
    Err(VaultError::EntryNotFound)
}

/// The table without the row whose entry id is `entry_id`.
pub open spec fn without_entry(credentials: Seq<CredentialView>, entry_id: int) -> Seq<
    CredentialView,
> {
    credentials.filter(|row: CredentialView| row.entry_id != entry_id)
}

/// Where no row has the entry id, taking it out changes nothing.
pub proof fn lemma_without_absent(credentials: Seq<CredentialView>, entry_id: int)
    requires
        forall|k: int| 0 <= k < credentials.len() ==> (#[trigger] credentials[k]).entry_id != entry_id,
    ensures
        without_entry(credentials, entry_id) == credentials,
    decreases credentials.len(),
{
    reveal(Seq::filter);
    if credentials.len() > 0 {
        let shorter = credentials.drop_last();
        assert forall|k: int| 0 <= k < shorter.len() implies (#[trigger] shorter[k]).entry_id
            != entry_id by {
            assert(shorter[k] == credentials[k]);
        }
        lemma_without_absent(shorter, entry_id);
        assert(credentials.last() == credentials[credentials.len() - 1]);
        assert(shorter.push(credentials.last()) =~= credentials);
    }
}

/// Where exactly the row at `i` has the entry id, taking the id out removes
/// that row.
pub proof fn lemma_without_present(credentials: Seq<CredentialView>, entry_id: int, i: int)
    requires
        0 <= i < credentials.len(),
        credentials[i].entry_id == entry_id,
        forall|k: int|
            0 <= k < credentials.len() && k != i ==> (#[trigger] credentials[k]).entry_id != entry_id,
    ensures
        without_entry(credentials, entry_id) == credentials.remove(i),
    decreases credentials.len(),
{
    reveal(Seq::filter);
    let shorter = credentials.drop_last();
    if i == credentials.len() - 1 {
        assert forall|k: int| 0 <= k < shorter.len() implies (#[trigger] shorter[k]).entry_id
            != entry_id by {
            assert(shorter[k] == credentials[k]);
        }
        lemma_without_absent(shorter, entry_id);
        assert(credentials.remove(i) =~= shorter);
    } else {
        assert(shorter[i] == credentials[i]);
        assert forall|k: int| 0 <= k < shorter.len() && k != i implies (#[trigger] shorter[k]).entry_id
            != entry_id by {
            assert(shorter[k] == credentials[k]);
        }
        lemma_without_present(shorter, entry_id, i);
        assert(credentials.last() == credentials[credentials.len() - 1]);
        assert(credentials.remove(i) =~= shorter.remove(i).push(credentials.last()));
    }
}

/// Deletes the credential with the entry id `entry_id`. Where there is none,
/// nothing changes and the call still succeeds.
pub fn remove_password(store: &mut RecordStore, entry_id: i32) -> (result: Result<(), VaultError>)
    requires
        old(store).wf(),
    ensures
        final(store).wf(),
        result == Ok::<(), VaultError>(()),
        final(store)@.users == old(store)@.users,
        final(store)@.credentials == without_entry(old(store)@.credentials, entry_id as int),
{
    let ghost table = store@.credentials;
    match store.find_entry(entry_id) {
        Some(i) => {
            store.remove_credential(i);
            proof {
                assert forall|k: int| 0 <= k < table.len() && k != i implies (#[trigger] table[k]).entry_id
                    != entry_id by {
                    if i < k {
                        assert(table[i as int].entry_id != table[k].entry_id);
                    }
                }
                lemma_without_present(table, entry_id as int, i as int);
                let after = table.remove(i as int);
                assert forall|a: int, b: int| 0 <= a < b < after.len() implies after[a].entry_id
                    != after[b].entry_id by {
                    let a0 = if a < i { a } else { a + 1 };
                    let b0 = if b < i { b } else { b + 1 };
                    assert(after[a] == table[a0]);
                    assert(after[b] == table[b0]);
                    assert(table[a0].entry_id != table[b0].entry_id);
                }
            }
            Ok(())
        },
        None => {
            proof {
                lemma_without_absent(table, entry_id as int);
            }
            Ok(())
        },
    }
}

/// Looking for `target` among rows that all decrypt and of which none is
/// `target`, followed by one more row that decrypts to `target`, finds that
/// last row.
pub proof fn lemma_find_appended(
    rows: Seq<CredentialView>,
    row: CredentialView,
    key: Seq<u8>,
    target: Triplet,
)
    requires
        all_open(rows, key),
        forall|k: int| 0 <= k < rows.len() ==> open_row(#[trigger] rows[k], key)->0 != target,
        open_row(row, key) == Some(target),
    ensures
        find_in(rows.push(row), key, target) == Ok::<int, VaultError>(row.entry_id),
    decreases rows.len(),
{
    let longer = rows.push(row);
    if rows.len() == 0 {
        assert(longer[0] == row);
    } else {
        assert(longer[0] == rows[0]);
        let rest = rows.drop_first();
        assert forall|k: int| 0 <= k < rest.len() implies open_row(#[trigger] rest[k], key) is Some
            && open_row(rest[k], key)->0 != target by {
            assert(rest[k] == rows[k + 1]);
        }
        lemma_find_appended(rest, row, key, target);
        assert(longer.drop_first() =~= rest.push(row));
    }
}

/// The round trip of one credential through the store.
///
/// Let `row` hold `triplet` encrypted under `key` for the user `user_id`,
/// with an entry id that the table does not use yet, and let `listed` be what
/// listing the user's credentials gives. Then, once `row` is appended,
/// listing gives `listed` followed by `triplet`; looking for `triplet` finds
/// the entry id of `row`, unless `listed` holds the same triplet already; and
/// once that entry id is removed, the user's rows are what they were before.
/// For a user without credentials that is: the listing is exactly `triplet`,
/// and after the removal it is empty.
pub proof fn lemma_vault_round_trip(
    credentials: Seq<CredentialView>,
    row: CredentialView,
    user_id: int,
    key: Seq<u8>,
    triplet: Triplet,
    listed: Seq<Triplet>,
)
    requires
        row.user_id == user_id,
        open_row(row, key) == Some(triplet),
        forall|k: int|
            0 <= k < credentials.len() ==> (#[trigger] credentials[k]).entry_id != row.entry_id,
        listing(rows_of(credentials, user_id), key) == Some(listed),
    ensures
        listing(rows_of(credentials.push(row), user_id), key) == Some(listed.push(triplet)),
        !listed.contains(triplet) ==> find_in(rows_of(credentials.push(row), user_id), key, triplet)
            == Ok::<int, VaultError>(row.entry_id),
        without_entry(credentials.push(row), row.entry_id) == credentials,
        listing(rows_of(without_entry(credentials.push(row), row.entry_id), user_id), key) == Some(
            listed,
        ),
        listed.len() == 0 ==> listing(rows_of(credentials.push(row), user_id), key) == Some(
            seq![triplet],
        ),
{
    let before = rows_of(credentials, user_id);
    let after = before.push(row);
    lemma_rows_of_push(credentials, row, user_id);
    assert forall|k: int| 0 <= k < after.len() implies open_row(#[trigger] after[k], key) is Some by {
        if k < before.len() {
            assert(after[k] == before[k]);
        }
    }
    assert(listing(after, key)->0 =~= listed.push(triplet));
    if !listed.contains(triplet) {
        assert forall|k: int| 0 <= k < before.len() implies open_row(#[trigger] before[k], key)->0
            != triplet by {
            assert(listed[k] == open_row(before[k], key)->0);
        }
        lemma_find_appended(before, row, key, triplet);
    }
    assert(without_entry(credentials.push(row), row.entry_id) == credentials) by {
        reveal(Seq::filter);
        assert(credentials.push(row).drop_last() =~= credentials);
        lemma_without_absent(credentials, row.entry_id);
    }
    if listed.len() == 0 {
        assert(listed.push(triplet) =~= seq![triplet]);
    }
}

/// The credentials of one user never show among those of another: no row
/// among the rows of `other` belongs to `user_id`, and storing a credential
/// for `user_id` leaves the rows of `other` as they are.
pub proof fn lemma_users_are_separate(
    credentials: Seq<CredentialView>,
    row: CredentialView,
    user_id: int,
    other: int,
)
    requires
        user_id != other,
        row.user_id == user_id,
    ensures
        forall|k: int|
            0 <= k < rows_of(credentials, other).len() ==> (#[trigger] rows_of(
                credentials,
                other,
            )[k]).user_id != user_id,
        rows_of(credentials.push(row), other) == rows_of(credentials, other),
{
    lemma_rows_of_members(credentials, other);
    lemma_rows_of_push(credentials, row, other);
}

/// A listing comes whole or not at all: where one row of the user does not
/// decrypt under the key, there is no list.
pub proof fn lemma_no_partial_listing(
    credentials: Seq<CredentialView>,
    user_id: int,
    key: Seq<u8>,
    i: int,
)
    requires
        0 <= i < credentials.len(),
        credentials[i].user_id == user_id,
        open_row(credentials[i], key) is None,
    ensures
        listing(rows_of(credentials, user_id), key) is None,
{
    lemma_rows_of_members(credentials, user_id);
    let mine = rows_of(credentials, user_id);
    assert(mine.contains(credentials[i]));
    let k = choose|k: int| 0 <= k < mine.len() && mine[k] == credentials[i];
    assert(open_row(mine[k], key) is None);
}

} // verus!
