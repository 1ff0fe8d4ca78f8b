//! The record store: the table of users and the table of their encrypted
//! credentials.
//!
//! The store holds both tables in memory. Whatever keeps them on disk loads
//! them with `RecordStore::from_rows` and reads them back with the getters.

use crate::text::{same_bytes, same_text};
use vstd::prelude::*;

verus! {

/// One registered user.
#[derive(Clone, Debug, PartialEq, Eq)]
pub struct UserRecord {
    /// The user's id, unique in the table.
    pub user_id: i32,
    /// The user's account name, unique in the table.
    pub account_name: String,
    /// The digest of the master passphrase and the verification salt.
    pub verification_hash: [u8; 32],
    /// The salt of the verification hash.
    pub verification_salt: [u8; 32],
    /// The salt of the vault key.
    pub kdf_salt: [u8; 32],
}

/// What a `UserRecord` holds.
pub struct UserView {
    pub user_id: int,
    pub account_name: Seq<char>,
    pub verification_hash: Seq<u8>,
    pub verification_salt: Seq<u8>,
    pub kdf_salt: Seq<u8>,
}

impl View for UserRecord {
    type V = UserView;

    open spec fn view(&self) -> UserView {
        UserView {
            user_id: self.user_id as int,
            account_name: self.account_name@,
            verification_hash: self.verification_hash@,
            verification_salt: self.verification_salt@,
            kdf_salt: self.kdf_salt@,
        }
    }
}

/// One stored credential: three encrypted fields that belong to a user.
#[derive(Clone, Debug, PartialEq, Eq)]
pub struct CredentialRecord {
    /// The entry's id, unique in the table.
    pub entry_id: i32,
    /// The id of the user that the entry belongs to.
    pub user_id: i32,
    /// The encrypted account name.
    pub account: Vec<u8>,
    /// The encrypted password.
    pub password: Vec<u8>,
    /// The encrypted website name.
    pub website: Vec<u8>,
}

/// What a `CredentialRecord` holds.
pub struct CredentialView {
    pub entry_id: int,
    pub user_id: int,
    pub account: Seq<u8>,
    pub password: Seq<u8>,
    pub website: Seq<u8>,
}

impl View for CredentialRecord {
    type V = CredentialView;

    open spec fn view(&self) -> CredentialView {
        CredentialView {
            entry_id: self.entry_id as int,
            user_id: self.user_id as int,
            account: self.account@,
            password: self.password@,
            website: self.website@,
        }
    }
}

/// The views of the user rows, in their order.
pub open spec fn user_views(users: Seq<UserRecord>) -> Seq<UserView> {
    users.map_values(|user: UserRecord| user@)
}

/// The views of the credential rows, in their order.
pub open spec fn credential_views(credentials: Seq<CredentialRecord>) -> Seq<CredentialView> {
    credentials.map_values(|row: CredentialRecord| row@)
}

/// Whether the user table is consistent: no id and no account name occurs
/// twice, and the two salts of each user differ.
pub open spec fn users_well_formed(users: Seq<UserView>) -> bool {
    &&& forall|i: int, j: int|
        #![trigger users[i], users[j]]
        0 <= i < j < users.len() ==> users[i].user_id != users[j].user_id
    &&& forall|i: int, j: int|
        #![trigger users[i], users[j]]
        0 <= i < j < users.len() ==> users[i].account_name != users[j].account_name
    &&& forall|i: int|
        #![trigger users[i]]
        0 <= i < users.len() ==> users[i].verification_salt != users[i].kdf_salt
}

/// Whether the credential table is consistent: no entry id occurs twice.
pub open spec fn credentials_well_formed(credentials: Seq<CredentialView>) -> bool {
    forall|i: int, j: int|
        #![trigger credentials[i], credentials[j]]
        0 <= i < j < credentials.len() ==> credentials[i].entry_id != credentials[j].entry_id
}

/// Whether some user has the id `user_id`.
pub open spec fn has_user(users: Seq<UserView>, user_id: int) -> bool {
    exists|i: int| #![trigger users[i]] 0 <= i < users.len() && users[i].user_id == user_id
}

/// Whether some user has the account name `name`.
pub open spec fn has_account(users: Seq<UserView>, name: Seq<char>) -> bool {
    exists|i: int| #![trigger users[i]] 0 <= i < users.len() && users[i].account_name == name
}

/// The user with the id `user_id`, where there is one.
pub open spec fn user_of(users: Seq<UserView>, user_id: int) -> UserView {
    users[choose|i: int| #![trigger users[i]] 0 <= i < users.len() && users[i].user_id == user_id]
}

/// The user with the account name `name`, where there is one.
pub open spec fn account_of(users: Seq<UserView>, name: Seq<char>) -> UserView {
    users[choose|i: int|
        #![trigger users[i]]
        0 <= i < users.len() && users[i].account_name == name]
}

/// The largest of `ids`, of which there is at least one.
pub open spec fn max_id(ids: Seq<int>) -> int
    recommends
        ids.len() > 0,
    decreases ids.len(),
{
    if ids.len() <= 1 {
        ids[0]
    } else if ids.last() > max_id(ids.drop_last()) {
        ids.last()
    } else {
        max_id(ids.drop_last())
    }
}

/// The id that the next row of a table gets: one more than the largest id in
/// the table, and 1 where the table is empty.
pub open spec fn next_id(ids: Seq<int>) -> int {
    if ids.len() == 0 {
        1
    } else {
        max_id(ids) + 1
    }
}

/// The ids of the users, in the order of the table.
pub open spec fn user_ids(users: Seq<UserView>) -> Seq<int> {
    users.map_values(|user: UserView| user.user_id)
}

/// The ids of the entries, in the order of the table.
pub open spec fn entry_ids(credentials: Seq<CredentialView>) -> Seq<int> {
    credentials.map_values(|row: CredentialView| row.entry_id)
}

/// The largest id is one of the ids, and none exceeds it.
pub proof fn lemma_max_id_bounds(ids: Seq<int>)
    requires
        ids.len() > 0,
    ensures
        ids.contains(max_id(ids)),
        forall|i: int| 0 <= i < ids.len() ==> ids[i] <= max_id(ids),
    decreases ids.len(),
{
    if ids.len() == 1 {
        assert(ids[0] == max_id(ids));
    } else {
        let shorter = ids.drop_last();
        lemma_max_id_bounds(shorter);
        assert forall|i: int| 0 <= i < ids.len() implies ids[i] <= max_id(ids) by {
            if i < ids.len() - 1 {
                assert(shorter[i] == ids[i]);
            }
        }
        if ids.last() > max_id(shorter) {
            assert(ids[ids.len() - 1] == max_id(ids));
        } else {
            let k = choose|k: int| 0 <= k < shorter.len() && shorter[k] == max_id(shorter);
            assert(ids[k] == max_id(ids));
        }
    }
}

/// The next id is larger than every id in the table, so no row has it.
pub proof fn lemma_next_id_is_fresh(ids: Seq<int>)
    ensures
        forall|i: int| 0 <= i < ids.len() ==> ids[i] < next_id(ids),
{
    if ids.len() > 0 {
        lemma_max_id_bounds(ids);
    }
}

/// In a consistent table the user found at a position is the user of its
/// id and of its account name.
pub proof fn lemma_user_of(users: Seq<UserView>, i: int)
    requires
        0 <= i < users.len(),
    ensures
        has_user(users, users[i].user_id),
        has_account(users, users[i].account_name),
        users_well_formed(users) ==> user_of(users, users[i].user_id) == users[i] && account_of(
            users,
            users[i].account_name,
        ) == users[i],
{
    let id = users[i].user_id;
    let name = users[i].account_name;
    if users_well_formed(users) {
        let k = choose|k: int| #![trigger users[k]] 0 <= k < users.len() && users[k].user_id == id;
        if k < i {
            assert(users[k].user_id != users[i].user_id);
        } else if i < k {
            assert(users[i].user_id != users[k].user_id);
        }
        let n = choose|n: int|
            #![trigger users[n]]
            0 <= n < users.len() && users[n].account_name == name;
        if n < i {
            assert(users[n].account_name != users[i].account_name);
        } else if i < n {
            assert(users[i].account_name != users[n].account_name);
        }
    }
}

/// The two tables.
pub struct RecordStore {
    users: Vec<UserRecord>,
    credentials: Vec<CredentialRecord>,
}

/// What a `RecordStore` holds.
pub struct StoreView {
    pub users: Seq<UserView>,
    pub credentials: Seq<CredentialView>,
}

impl View for RecordStore {
    type V = StoreView;

    closed spec fn view(&self) -> StoreView {
        StoreView {
            users: user_views(self.users@),
            credentials: credential_views(self.credentials@),
        }
    }
}

/// Whether both tables of `store` are consistent.
pub open spec fn well_formed(store: StoreView) -> bool {
    users_well_formed(store.users) && credentials_well_formed(store.credentials)
}

/// Whether the user rows are consistent.
pub fn users_valid(users: &Vec<UserRecord>) -> (valid: bool)
    ensures
        valid == users_well_formed(user_views(users@)),
{
    let ghost views = user_views(users@);
    let mut j: usize = 0;
    while j < users.len()
        invariant
            j <= users@.len(),
            views == user_views(users@),
            users_well_formed(views.take(j as int)),
        decreases users@.len() - j,
    {
        assert(views[j as int] == users@[j as int]@);
        if same_bytes(users[j].verification_salt.as_slice(), users[j].kdf_salt.as_slice()) {
            assert(views[j as int].verification_salt == views[j as int].kdf_salt);
            return false;
        }
        let mut i: usize = 0;
        while i < j
            invariant
                i <= j,
                j < users@.len(),
                views == user_views(users@),
                forall|k: int|
                    #![trigger views[k]]
                    0 <= k < i ==> views[k].user_id != views[j as int].user_id
                        && views[k].account_name != views[j as int].account_name,
            decreases j - i,
        {
            assert(views[i as int] == users@[i as int]@);
            assert(views[j as int] == users@[j as int]@);
            if users[i].user_id == users[j].user_id || same_text(
                users[i].account_name.as_str(),
                users[j].account_name.as_str(),
            ) {
                assert(views[i as int].user_id == views[j as int].user_id || views[i as int].account_name
                    == views[j as int].account_name);
                return false;
            }
            i += 1;
        }
        assert(users_well_formed(views.take(j + 1))) by {
            let longer = views.take(j + 1);
            let shorter = views.take(j as int);
            assert forall|a: int, b: int| 0 <= a < b < longer.len() implies longer[a].user_id
                != longer[b].user_id && longer[a].account_name != longer[b].account_name by {
                if b < j {
                    assert(shorter[a].user_id != shorter[b].user_id);
                    assert(shorter[a].account_name != shorter[b].account_name);
                }
            }
            assert forall|a: int| 0 <= a < longer.len() implies longer[a].verification_salt
                != longer[a].kdf_salt by {
                if a < j {
                    assert(shorter[a].verification_salt != shorter[a].kdf_salt);
                }
            }
        }
        j += 1;
    }
    assert(views.take(users@.len() as int) =~= views);
    true
}

/// Whether the credential rows are consistent.
pub fn credentials_valid(credentials: &Vec<CredentialRecord>) -> (valid: bool)
    ensures
        valid == credentials_well_formed(credential_views(credentials@)),
{
    let ghost views = credential_views(credentials@);
    let mut j: usize = 0;
    while j < credentials.len()
        invariant
            j <= credentials@.len(),
            views == credential_views(credentials@),
            credentials_well_formed(views.take(j as int)),
        decreases credentials@.len() - j,
    {
        let mut i: usize = 0;
        while i < j
            invariant
                i <= j,
                j < credentials@.len(),
                views == credential_views(credentials@),
                forall|k: int|
                    #![trigger views[k]]
                    0 <= k < i ==> views[k].entry_id != views[j as int].entry_id,
            decreases j - i,
        {
            assert(views[i as int] == credentials@[i as int]@);
            assert(views[j as int] == credentials@[j as int]@);
            if credentials[i].entry_id == credentials[j].entry_id {
                assert(views[i as int].entry_id == views[j as int].entry_id);
                return false;
            }
            i += 1;
        }
        assert(credentials_well_formed(views.take(j + 1))) by {
            let longer = views.take(j + 1);
            let shorter = views.take(j as int);
            assert forall|a: int, b: int| 0 <= a < b < longer.len() implies longer[a].entry_id
                != longer[b].entry_id by {
                if b < j {
                    assert(shorter[a].entry_id != shorter[b].entry_id);
                }
            }
        }
        j += 1;
    }
    assert(views.take(credentials@.len() as int) =~= views);
    true
}

impl RecordStore {
    /// Whether both tables are consistent. Every operation asks for it and
    /// keeps it.
    pub open spec fn wf(&self) -> bool {
        well_formed(self@)
    }

    /// A store with no user and no credential.
    pub fn new() -> (store: RecordStore)
        ensures
            store.wf(),
            store@.users.len() == 0,
            store@.credentials.len() == 0,
    {
        RecordStore { users: Vec::new(), credentials: Vec::new() }
    }

    /// A store of the given rows, unless they are inconsistent.
    pub fn from_rows(users: Vec<UserRecord>, credentials: Vec<CredentialRecord>) -> (store:
        Option<RecordStore>)
        ensures
            store is Some <==> users_well_formed(user_views(users@)) && credentials_well_formed(
                credential_views(credentials@),
            ),
            store is Some ==> store->0.wf() && store->0@.users == user_views(users@)
                && store->0@.credentials == credential_views(credentials@),
    {
        if users_valid(&users) && credentials_valid(&credentials) {
            Some(RecordStore { users, credentials })
        } else {
            None
        }
    }

    /// The user rows.
    pub fn users(&self) -> (rows: &Vec<UserRecord>)
        ensures
            user_views(rows@) == self@.users,
    {
        &self.users
    }

    /// The credential rows.
    pub fn credentials(&self) -> (rows: &Vec<CredentialRecord>)
        ensures
            credential_views(rows@) == self@.credentials,
    {
        &self.credentials
    }

    /// The position of the user with the id `user_id`.
    pub(crate) fn find_user(&self, user_id: i32) -> (position: Option<usize>)
        ensures
            position is Some <==> has_user(self@.users, user_id as int),
            position is Some ==> position->0 < self@.users.len() && self@.users[position->0 as int].user_id
                == user_id,
            position is Some && self.wf() ==> self@.users[position->0 as int] == user_of(
                self@.users,
                user_id as int,
            ),
    {
        let mut i: usize = 0;
        while i < self.users.len()
            invariant
                i <= self.users@.len(),
                forall|k: int| 0 <= k < i ==> (#[trigger] self@.users[k]).user_id != user_id,
            decreases self.users@.len() - i,
        {
            assert(self@.users[i as int] == self.users@[i as int]@);
            if self.users[i].user_id == user_id {
                proof {
                    lemma_user_of(self@.users, i as int);
                }
                return Some(i);
            }
            i += 1;
        }
        None
    }

    /// The position of the user with the account name `name`.
    pub(crate) fn find_account(&self, name: &str) -> (position: Option<usize>)
        ensures
            position is Some <==> has_account(self@.users, name@),
            position is Some ==> position->0 < self@.users.len() && self@.users[position->0 as int].account_name
                == name@,
            position is Some && self.wf() ==> self@.users[position->0 as int] == account_of(
                self@.users,
                name@,
            ),
    {
        let mut i: usize = 0;
        while i < self.users.len()
            invariant
                i <= self.users@.len(),
                forall|k: int| 0 <= k < i ==> (#[trigger] self@.users[k]).account_name != name@,
            decreases self.users@.len() - i,
        {
            assert(self@.users[i as int] == self.users@[i as int]@);
            if same_text(self.users[i].account_name.as_str(), name) {
                proof {
                    lemma_user_of(self@.users, i as int);
                }
                return Some(i);
            }
            i += 1;
        }
        None
    }

    /// The id for the next user, or `None` where the largest id is the
    /// largest there is.
    pub(crate) fn next_user_id(&self) -> (next: Option<i32>)
        ensures
            next_id(user_ids(self@.users)) <= i32::MAX ==> next is Some && next->0 == next_id(
                user_ids(self@.users),
            ),
            next_id(user_ids(self@.users)) > i32::MAX ==> next is None,
    {
        if self.users.len() == 0 {
            return Some(1);
        }
        let ghost ids = user_ids(self@.users);
        let mut max: i32 = self.users[0].user_id;
        let mut i: usize = 1;
        assert(ids.take(1)[0] == self.users@[0].user_id);
        while i < self.users.len()
            invariant
                1 <= i <= self.users@.len(),
                ids == user_ids(self@.users),
                max == max_id(ids.take(i as int)),
            decreases self.users@.len() - i,
        {
            assert(ids.take(i + 1).drop_last() =~= ids.take(i as int));
            assert(ids[i as int] == self.users@[i as int].user_id);
            if self.users[i].user_id > max {
                max = self.users[i].user_id;
            }
            i += 1;
        }
        assert(ids.take(self.users@.len() as int) =~= ids);
        if max == i32::MAX {
            None
        } else {
            Some(max + 1)
        }
    }

    /// The id for the next credential, or `None` where the largest id is the
    /// largest there is.
    pub(crate) fn next_entry_id(&self) -> (next: Option<i32>)
        ensures
            next_id(entry_ids(self@.credentials)) <= i32::MAX ==> next is Some && next->0
                == next_id(entry_ids(self@.credentials)),
            next_id(entry_ids(self@.credentials)) > i32::MAX ==> next is None,
    {
        if self.credentials.len() == 0 {
            return Some(1);
        }
        let ghost ids = entry_ids(self@.credentials);
        let mut max: i32 = self.credentials[0].entry_id;
        let mut i: usize = 1;
        assert(ids.take(1)[0] == self.credentials@[0].entry_id);
        while i < self.credentials.len()
            invariant
                1 <= i <= self.credentials@.len(),
                ids == entry_ids(self@.credentials),
                max == max_id(ids.take(i as int)),
            decreases self.credentials@.len() - i,
        {
            assert(ids.take(i + 1).drop_last() =~= ids.take(i as int));
            assert(ids[i as int] == self.credentials@[i as int].entry_id);
            if self.credentials[i].entry_id > max {
                max = self.credentials[i].entry_id;
            }
            i += 1;
        }
        assert(ids.take(self.credentials@.len() as int) =~= ids);
        if max == i32::MAX {
            None
        } else {
            Some(max + 1)
        }
    }
}

impl RecordStore {
    /// Appends a user row.
    pub(crate) fn push_user(&mut self, user: UserRecord)
        ensures
            final(self)@.users == old(self)@.users.push(user@),
            final(self)@.credentials == old(self)@.credentials,
    {
        self.users.push(user);
        assert(self@.users =~= old(self)@.users.push(user@));
    }

    /// Replaces the user row at `position`.
    pub(crate) fn set_user(&mut self, position: usize, user: UserRecord)
        requires
            position < old(self)@.users.len(),
        ensures
            final(self)@.users == old(self)@.users.update(position as int, user@),
            final(self)@.credentials == old(self)@.credentials,
    {
        self.users.set(position, user);
        assert(self@.users =~= old(self)@.users.update(position as int, user@));
    }

    /// Appends a credential row.
    pub(crate) fn push_credential(&mut self, row: CredentialRecord)
        ensures
            final(self)@.users == old(self)@.users,
            final(self)@.credentials == old(self)@.credentials.push(row@),
    {
        self.credentials.push(row);
        assert(self@.credentials =~= old(self)@.credentials.push(row@));
    }

    /// Takes the credential row at `position` out.
    pub(crate) fn remove_credential(&mut self, position: usize)
        requires
            position < old(self)@.credentials.len(),
        ensures
            final(self)@.users == old(self)@.users,
            final(self)@.credentials == old(self)@.credentials.remove(position as int),
    {
        self.credentials.remove(position);
        assert(self@.credentials =~= old(self)@.credentials.remove(position as int));
    }

    /// The position of the credential with the entry id `entry_id`: the first
    /// one, where there is any.
    pub(crate) fn find_entry(&self, entry_id: i32) -> (position: Option<usize>)
        ensures
            position is Some ==> position->0 < self@.credentials.len()
                && self@.credentials[position->0 as int].entry_id == entry_id && forall|k: int|
                0 <= k < position->0 ==> (#[trigger] self@.credentials[k]).entry_id != entry_id,
            position is None ==> forall|k: int|
                0 <= k < self@.credentials.len() ==> (#[trigger] self@.credentials[k]).entry_id
                    != entry_id,
    {
        let mut i: usize = 0;
        while i < self.credentials.len()
            invariant
                i <= self.credentials@.len(),
                forall|k: int| 0 <= k < i ==> (#[trigger] self@.credentials[k]).entry_id != entry_id,
            decreases self.credentials@.len() - i,
        {
            assert(self@.credentials[i as int] == self.credentials@[i as int]@);
            if self.credentials[i].entry_id == entry_id {
                return Some(i);
            }
            i += 1;
        }
        None
    }

    /// Replaces the table of credentials.
    pub(crate) fn set_credentials(&mut self, credentials: Vec<CredentialRecord>)
        ensures
            final(self)@.users == old(self)@.users,
            final(self)@.credentials == credential_views(credentials@),
    {
        self.credentials = credentials;
    }
}

} // verus!
