use password_vault::cloud::{
    convert_items, decode_base64, decode_item, decode_salts, encode_base64, encode_item,
    encode_registration, password_items_to_sql, prepare_sync_data, PasswordItem,
    MAX_ENCODABLE_LEN,
};
use password_vault::error::VaultError;
use password_vault::credentials::{add_password, get_accounts, seal_row};
use password_vault::store::{CredentialRecord, RecordStore};

fn row(entry_id: i32, user_id: i32, account: &[u8], password: &[u8], website: &[u8]) -> CredentialRecord {
    CredentialRecord {
        entry_id,
        user_id,
        account: account.to_vec(),
        password: password.to_vec(),
        website: website.to_vec(),
    }
}

#[test]
fn base64_encoding_is_the_standard_one() {
    assert_eq!(encode_base64(b""), Ok("".to_string()));
    assert_eq!(encode_base64(b"f"), Ok("Zg==".to_string()));
    assert_eq!(encode_base64(b"fo"), Ok("Zm8=".to_string()));
    assert_eq!(encode_base64(b"foo"), Ok("Zm9v".to_string()));
    assert_eq!(encode_base64(b"foobar"), Ok("Zm9vYmFy".to_string()));
    assert_eq!(encode_base64(&[0xfb, 0xff]), Ok("+/8=".to_string()));
}

#[test]
fn base64_decoding_inverts_encoding() {
    assert_eq!(decode_base64(""), Ok(vec![]));
    assert_eq!(decode_base64("Zg=="), Ok(b"f".to_vec()));
    assert_eq!(decode_base64("Zm9vYmFy"), Ok(b"foobar".to_vec()));
    assert_eq!(decode_base64("+/8="), Ok(vec![0xfb, 0xff]));
    let data: Vec<u8> = (0..=255u8).collect();
    assert_eq!(decode_base64(&encode_base64(&data).unwrap()), Ok(data));
}

#[test]
fn malformed_base64_is_refused() {
    assert_eq!(decode_base64("Zg"), Err(VaultError::StoreUnavailable));
    assert_eq!(decode_base64("Zg==\n"), Err(VaultError::StoreUnavailable));
    assert_eq!(decode_base64("Z m9v"), Err(VaultError::StoreUnavailable));
    assert_eq!(decode_base64("-_8="), Err(VaultError::StoreUnavailable));
    assert_eq!(decode_base64("Zh=="), Err(VaultError::StoreUnavailable));
}

#[test]
fn an_item_carries_a_row() {
    let stored = row(4, 9, b"foo", b"", &[0xfb, 0xff]);
    let item = encode_item(&stored).unwrap();
    assert_eq!(
        item,
        PasswordItem {
            entry_id: 4,
            user_id: 9,
            account: "Zm9v".to_string(),
            password: "".to_string(),
            website: "+/8=".to_string(),
        }
    );
    assert_eq!(decode_item(&item), Ok(stored));
}

#[test]
fn a_malformed_item_is_refused() {
    let mut item = encode_item(&row(1, 1, b"a", b"b", b"c")).unwrap();
    item.password = "not base64!".to_string();
    assert_eq!(decode_item(&item), Err(VaultError::StoreUnavailable));
    let good = encode_item(&row(2, 1, b"a", b"b", b"c")).unwrap();
    assert_eq!(convert_items(&vec![good.clone(), item]), Err(VaultError::StoreUnavailable));
    assert_eq!(convert_items(&vec![good]), Ok(vec![row(2, 1, b"a", b"b", b"c")]));
    assert_eq!(convert_items(&Vec::new()), Ok(Vec::new()));
}

#[test]
fn sync_data_decodes_to_the_table() {
    let mut store = RecordStore::new();
    let key = [6u8; 32];
    add_password(&mut store, 1, "a1", "p1", &key, "w1").unwrap();
    add_password(&mut store, 2, "b1", "q1", &key, "v1").unwrap();
    let items = prepare_sync_data(&store).unwrap();
    assert_eq!(items.len(), 2);
    assert_eq!((items[0].entry_id, items[0].user_id), (1, 1));
    assert_eq!((items[1].entry_id, items[1].user_id), (2, 2));
    assert_eq!(items[0].account, encode_base64(&store.credentials()[0].account).unwrap());
    assert_eq!(items[1].website, encode_base64(&store.credentials()[1].website).unwrap());
    assert_ne!(items[0].account.as_bytes(), &store.credentials()[0].account[..]);

    let rows = convert_items(&items).unwrap();
    assert_eq!(&rows, store.credentials());
    assert_eq!(prepare_sync_data(&RecordStore::new()), Ok(Vec::new()));
}

#[test]
fn received_items_make_a_store() {
    let key = [6u8; 32];
    let rows = vec![seal_row(3, 1, "a", "w", "p", &key), seal_row(8, 1, "b", "v", "q", &key)];
    let store = password_items_to_sql(rows.clone()).unwrap();
    assert!(store.users().is_empty());
    assert_eq!(store.credentials(), &rows);
    assert_eq!(
        get_accounts(&store, &key, 1),
        Ok([
            vec!["a".to_string(), "b".to_string()],
            vec!["w".to_string(), "v".to_string()],
            vec!["p".to_string(), "q".to_string()]
        ])
    );
    let twice = vec![seal_row(3, 1, "a", "w", "p", &key), seal_row(3, 2, "b", "v", "q", &key)];
    assert_eq!(password_items_to_sql(twice).err(), Some(VaultError::StoreUnavailable));
    assert!(password_items_to_sql(Vec::new()).unwrap().credentials().is_empty());
}

#[test]
fn registration_fields_are_encoded_in_order() {
    let (hash, salt, kdf_salt) = encode_registration(&[0; 32], &[1; 32], &[255; 32]);
    assert_eq!(hash, "AAAAAAAAAAAAAAAAAAAAAAAAAAAAAAAAAAAAAAAAAAA=");
    assert_eq!(salt, "AQEBAQEBAQEBAQEBAQEBAQEBAQEBAQEBAQEBAQEBAQE=");
    assert_eq!(kdf_salt, "//////////////////////////////////////////8=");
    assert_eq!(decode_salts(&salt, &kdf_salt), Ok((vec![1u8; 32], vec![255u8; 32])));
    assert_eq!(decode_salts(&salt, "?"), Err(VaultError::StoreUnavailable));
    assert_eq!(decode_salts("?", &kdf_salt), Err(VaultError::StoreUnavailable));
}

#[test]
fn the_limit_is_where_the_text_no_longer_fits() {
    let longest = isize::MAX as usize;
    let text_len = |bytes: usize| (bytes / 3 + if bytes % 3 == 0 { 0 } else { 1 }).checked_mul(4);
    assert!(text_len(MAX_ENCODABLE_LEN).unwrap() <= longest);
    assert!(text_len(MAX_ENCODABLE_LEN + 1).map_or(true, |len| len > longest));
    // A mebibyte and a half is far below it.
    let data = vec![0xa5u8; 3 << 19];
    let text = encode_base64(&data).unwrap();
    assert_eq!(text.len(), 4 << 19);
    assert_eq!(decode_base64(&text), Ok(data));
}
