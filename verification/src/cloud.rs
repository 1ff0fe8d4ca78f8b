//! The form in which encrypted credentials travel to and from a remote
//! mirror: every blob as base64 text.
//!
//! Nothing here is decrypted or sent. The functions turn rows of the store
//! into items of text and back.

use crate::error::VaultError;
use crate::store::{
    CredentialRecord, CredentialView, RecordStore, credential_views, credentials_well_formed,
};
use base64::engine::general_purpose::STANDARD;
use base64::{DecodeError, Engine};
use vstd::prelude::*;

verus! {

/// The most bytes that can be encoded at once: three for every four bytes
/// of the longest text that can be allocated, which has `isize::MAX` bytes.
pub const MAX_ENCODABLE_LEN: usize = usize::MAX / 8 * 3;

/// Why base64 text could not be decoded.
#[verifier::external_type_specification]
#[verifier::external_body]
pub struct ExDecodeError(DecodeError);

/// The standard base64 text of a byte string, with padding.
pub uninterp spec fn base64_text(data: Seq<u8>) -> Seq<char>;

/// The bytes that a standard base64 text stands for, or `None` where the
/// text is malformed.
pub uninterp spec fn base64_bytes(text: Seq<char>) -> Option<Seq<u8>>;

/// Calls `base64::Engine::encode` of the standard engine, which panics where
/// the text would be too long to allocate. Trusted: the text is the base64
/// encoding of `data`, a function of `data` alone, and decoding it gives
/// `data` back.
#[verifier::external_body]
fn base64_encode(data: &[u8]) -> (text: String)
    requires
        data@.len() <= MAX_ENCODABLE_LEN,
    ensures
        text@ == base64_text(data@),
        base64_bytes(text@) == Some(data@),
{
    STANDARD.encode(data)
}

/// Calls `base64::Engine::decode` of the standard engine. Trusted: whether it
/// succeeds, and the bytes it yields, depend on `text` alone.
#[verifier::external_body]
fn base64_decode(text: &str) -> (result: Result<Vec<u8>, DecodeError>)
    ensures
        result is Ok <==> base64_bytes(text@) is Some,
        result is Ok ==> result->Ok_0@ == base64_bytes(text@)->0,
{
    STANDARD.decode(text)
}

/// Encodes `data` as base64 text.
///
/// Fails with `InputTooLarge` for more than `MAX_ENCODABLE_LEN` bytes.
pub fn encode_base64(data: &[u8]) -> (result: Result<String, VaultError>)
    ensures
        data@.len() > MAX_ENCODABLE_LEN ==> result is Err && result->Err_0
            == VaultError::InputTooLarge,
        data@.len() <= MAX_ENCODABLE_LEN ==> result is Ok && result->Ok_0@ == base64_text(data@)
            && base64_bytes(result->Ok_0@) == Some(data@),
{
    if data.len() > MAX_ENCODABLE_LEN {
        Err(VaultError::InputTooLarge)
    } else {
        Ok(base64_encode(data))
    }
}

/// Decodes base64 text.
///
/// Fails with `StoreUnavailable` where the text is malformed.
pub fn decode_base64(encoded: &str) -> (result: Result<Vec<u8>, VaultError>)
    ensures
        match base64_bytes(encoded@) {
            Some(data) => result is Ok && result->Ok_0@ == data,
            None => result is Err && result->Err_0 == VaultError::StoreUnavailable,
        },
{
    match base64_decode(encoded) {
        Ok(data) => Ok(data),
        Err(_) => Err(VaultError::StoreUnavailable),
    }
}

/// One credential as it travels: the ids, and the three blobs as base64
/// text.
#[derive(Clone, Debug, PartialEq, Eq)]
pub struct PasswordItem {
    /// The entry's id.
    pub entry_id: i32,
    /// The id of the user that the entry belongs to.
    pub user_id: i32,
    /// The encrypted account name, as base64 text.
    pub account: String,
    /// The encrypted password, as base64 text.
    pub password: String,
    /// The encrypted website name, as base64 text.
    pub website: String,
}

/// What a `PasswordItem` holds.
pub struct ItemView {
    pub entry_id: int,
    pub user_id: int,
    pub account: Seq<char>,
    pub password: Seq<char>,
    pub website: Seq<char>,
}

impl View for PasswordItem {
    type V = ItemView;

    open spec fn view(&self) -> ItemView {
        ItemView {
            entry_id: self.entry_id as int,
            user_id: self.user_id as int,
            account: self.account@,
            password: self.password@,
            website: self.website@,
        }
    }
}

/// The views of the items, in their order.
pub open spec fn item_views(items: Seq<PasswordItem>) -> Seq<ItemView> {
    items.map_values(|item: PasswordItem| item@)
}

/// The item that carries `row`.
pub open spec fn encoded_row(row: CredentialView) -> ItemView {
    ItemView {
        entry_id: row.entry_id,
        user_id: row.user_id,
        account: base64_text(row.account),
        password: base64_text(row.password),
        website: base64_text(row.website),
    }
}

/// The row that `item` carries, or `None` where one of its texts is
/// malformed.
pub open spec fn decoded_item(item: ItemView) -> Option<CredentialView> {
    if base64_bytes(item.account) is Some && base64_bytes(item.password) is Some && base64_bytes(
        item.website,
    ) is Some {
        Some(
            CredentialView {
                entry_id: item.entry_id,
                user_id: item.user_id,
                account: base64_bytes(item.account)->0,
                password: base64_bytes(item.password)->0,
                website: base64_bytes(item.website)->0,
            },
        )
    } else {
        None
    }
}

/// Whether every blob of `row` is short enough to be encoded.
pub open spec fn encodable(row: CredentialView) -> bool {
    row.account.len() <= MAX_ENCODABLE_LEN && row.password.len() <= MAX_ENCODABLE_LEN
        && row.website.len() <= MAX_ENCODABLE_LEN
}

/// Whether every row of `rows` can be encoded.
pub open spec fn all_encodable(rows: Seq<CredentialView>) -> bool {
    forall|i: int| 0 <= i < rows.len() ==> encodable(#[trigger] rows[i])
}

/// The items that carry `rows`, in their order.
pub open spec fn encoded_rows(rows: Seq<CredentialView>) -> Seq<ItemView> {
    rows.map_values(|row: CredentialView| encoded_row(row))
}

/// Whether every item of `items` carries a row.
pub open spec fn all_decodable(items: Seq<ItemView>) -> bool {
    forall|i: int| 0 <= i < items.len() ==> decoded_item(#[trigger] items[i]) is Some
}

/// The rows that `items` carry, in their order, or `None` where one of the
/// items is malformed.
pub open spec fn decoded_items(items: Seq<ItemView>) -> Option<Seq<CredentialView>> {
    if all_decodable(items) {
        Some(items.map_values(|item: ItemView| decoded_item(item)->0))
    } else {
        None
    }
}

/// Turns a row into the item that carries it.
///
/// Fails with `InputTooLarge` where a blob is too long to be encoded.
pub fn encode_item(row: &CredentialRecord) -> (result: Result<PasswordItem, VaultError>)
    ensures
        encodable(row@) ==> result is Ok && result->Ok_0@ == encoded_row(row@) && decoded_item(
            result->Ok_0@,
        ) == Some(row@),
        !encodable(row@) ==> result is Err && result->Err_0 == VaultError::InputTooLarge,
{
    let account = match encode_base64(row.account.as_slice()) {
        Ok(text) => text,
        Err(e) => {
            return Err(e);
        },
    };
    let password = match encode_base64(row.password.as_slice()) {
        Ok(text) => text,
        Err(e) => {
            return Err(e);
        },
    };
    let website = match encode_base64(row.website.as_slice()) {
        Ok(text) => text,
        Err(e) => {
            return Err(e);
        },
    };
    Ok(PasswordItem { entry_id: row.entry_id, user_id: row.user_id, account, password, website })
}

/// Turns an item back into the row that it carries.
///
/// Fails with `StoreUnavailable` where one of its texts is malformed.
pub fn decode_item(item: &PasswordItem) -> (result: Result<CredentialRecord, VaultError>)
    ensures
        match decoded_item(item@) {
            Some(row) => result is Ok && result->Ok_0@ == row,
            None => result is Err && result->Err_0 == VaultError::StoreUnavailable,
        },
{
    let account = match decode_base64(item.account.as_str()) {
        Ok(data) => data,
        Err(e) => {
            return Err(e);
        },
    };
    let password = match decode_base64(item.password.as_str()) {
        Ok(data) => data,
        Err(e) => {
            return Err(e);
        },
    };
    let website = match decode_base64(item.website.as_str()) {
        Ok(data) => data,
        Err(e) => {
            return Err(e);
        },
    };
    Ok(
        CredentialRecord {
            entry_id: item.entry_id,
            user_id: item.user_id,
            account,
            password,
            website,
        },
    )
}

/// Turns every credential of the store into the item that carries it, in the
/// order of the table.
///
/// Fails with `InputTooLarge` where a blob is too long to be encoded. What
/// is returned decodes to the table again.
pub fn prepare_sync_data(store: &RecordStore) -> (result: Result<Vec<PasswordItem>, VaultError>)
    ensures
        all_encodable(store@.credentials) ==> result is Ok && item_views(result->Ok_0@)
            == encoded_rows(store@.credentials) && decoded_items(item_views(result->Ok_0@))
            == Some(store@.credentials),
        !all_encodable(store@.credentials) ==> result is Err && result->Err_0
            == VaultError::InputTooLarge,
{
    let rows = store.credentials();
    let ghost table = store@.credentials;
    let mut items: Vec<PasswordItem> = Vec::new();
    let mut i: usize = 0;
    while i < rows.len()
        invariant
            i <= rows@.len(),
            table == credential_views(rows@),
            table == store@.credentials,
            forall|k: int| 0 <= k < i ==> encodable(#[trigger] table[k]),
            item_views(items@) == encoded_rows(table.take(i as int)),
            forall|k: int|
                0 <= k < i ==> decoded_item(#[trigger] item_views(items@)[k]) == Some(table[k]),
        decreases rows@.len() - i,
    {
        assert(table[i as int] == rows@[i as int]@);
        let item = match encode_item(&rows[i]) {
            Ok(item) => item,
            Err(e) => {
                assert(!encodable(table[i as int]));
                return Err(e);
            },
        };
        let ghost before = item_views(items@);
        let ghost added = item@;
        items.push(item);
        proof {
            let after = item_views(items@);
            assert(after =~= before.push(added));
            assert(after =~= encoded_rows(table.take(i + 1)));
            assert forall|k: int| 0 <= k < i + 1 implies decoded_item(#[trigger] after[k]) == Some(
                table[k],
            ) by {
                if k < i {
                    assert(after[k] == before[k]);
                }
            }
        }
        i += 1;
    }
    proof {
        assert(table.take(rows@.len() as int) =~= table);
        let views = item_views(items@);
        assert(decoded_items(views)->0 =~= table);
    }
    Ok(items)
}

/// Turns received items back into rows, in their order.
///
/// Fails with `StoreUnavailable` where one of the items is malformed.
pub fn convert_items(items: &Vec<PasswordItem>) -> (result: Result<
    Vec<CredentialRecord>,
    VaultError,
>)
    ensures
        match decoded_items(item_views(items@)) {
            Some(rows) => result is Ok && credential_views(result->Ok_0@) == rows,
            None => result is Err && result->Err_0 == VaultError::StoreUnavailable,
        },
{
    let ghost views = item_views(items@);
    let mut rows: Vec<CredentialRecord> = Vec::new();
    let mut i: usize = 0;
    while i < items.len()
        invariant
            i <= items@.len(),
            views == item_views(items@),
            all_decodable(views.take(i as int)),
            credential_views(rows@) == decoded_items(views.take(i as int))->0,
        decreases items@.len() - i,
    {
        assert(views[i as int] == items@[i as int]@);
        let row = match decode_item(&items[i]) {
            Ok(row) => row,
            Err(e) => {
                assert(decoded_item(views[i as int]) is None);
                return Err(e);
            },
        };
        let ghost before = credential_views(rows@);
        let ghost added = row@;
        rows.push(row);
        proof {
            let shorter = views.take(i as int);
            let longer = views.take(i + 1);
            assert forall|k: int| 0 <= k < longer.len() implies decoded_item(
                #[trigger] longer[k],
            ) is Some by {
                if k < i {
                    assert(longer[k] == shorter[k]);
                }
            }
            assert(credential_views(rows@) =~= before.push(added));
            assert(decoded_items(longer)->0 =~= decoded_items(shorter)->0.push(added));
        }
        i += 1;
    }
    proof {
        assert(views.take(items@.len() as int) =~= views);
    }
    Ok(rows)
}

/// Makes a store that holds `password_items` as its credentials and no user.
///
/// Fails with `StoreUnavailable` where two of the items have the same entry
/// id.
pub fn password_items_to_sql(password_items: Vec<CredentialRecord>) -> (result: Result<
    RecordStore,
    VaultError,
>)
    ensures
        credentials_well_formed(credential_views(password_items@)) ==> result is Ok
            && result->Ok_0.wf() && result->Ok_0@.users.len() == 0 && result->Ok_0@.credentials
            == credential_views(password_items@),
        !credentials_well_formed(credential_views(password_items@)) ==> result is Err
            && result->Err_0 == VaultError::StoreUnavailable,
{
    match RecordStore::from_rows(Vec::new(), password_items) {
        Some(store) => Ok(store),
        None => Err(VaultError::StoreUnavailable),
    }
}

/// The three secrets of a registration as base64 text: the verification
/// hash, the verification salt and the salt of the vault key, in this order.
pub fn encode_registration(hashed_master: &[u8; 32], salt: &[u8; 32], kdf_salt: &[u8; 32]) -> (fields:
    (String, String, String))
    ensures
        fields.0@ == base64_text(hashed_master@),
        fields.1@ == base64_text(salt@),
        fields.2@ == base64_text(kdf_salt@),
{
    (
        base64_encode(hashed_master.as_slice()),
        base64_encode(salt.as_slice()),
        base64_encode(kdf_salt.as_slice()),
    )
}

/// Decodes the two salts of a user as they are received: the verification
/// salt and the salt of the vault key, in this order.
///
/// Fails with `StoreUnavailable` where one of the texts is malformed.
pub fn decode_salts(salt: &str, kdf_salt: &str) -> (result: Result<(Vec<u8>, Vec<u8>), VaultError>)
    ensures
        base64_bytes(salt@) is Some && base64_bytes(kdf_salt@) is Some ==> result is Ok
            && result->Ok_0.0@ == base64_bytes(salt@)->0 && result->Ok_0.1@ == base64_bytes(
            kdf_salt@,
        )->0,
        base64_bytes(salt@) is None || base64_bytes(kdf_salt@) is None ==> result is Err
            && result->Err_0 == VaultError::StoreUnavailable,
{
    let salt = match decode_base64(salt) {
        Ok(data) => data,
        Err(e) => {
            return Err(e);
        },
    };
    let kdf_salt = match decode_base64(kdf_salt) {
        Ok(data) => data,
        Err(e) => {
            return Err(e);
        },
    };
    Ok((salt, kdf_salt))
}

} // verus!
