//! The account and state store: users, accounts, which users reach which
//! accounts, and a counter per user from which state tokens are made.
//!
//! The store is organised as five namespaces, each keyed on its own:
//! users by id, user ids by username, accounts by id, access levels by
//! (user, account), and counters by user. A counter is held as eight
//! big-endian bytes and is only ever changed through the merge operator.
use vstd::prelude::*;

use crate::credentials::{
    hash_password, hex_of, password_hash_of, password_verifies, to_hex, verify_password,
};
use crate::merge::{be_value, lemma_be_value_bound, pow256, rocksdb_merger};

verus! {

/// The access a user has to an account.
#[derive(Clone, Copy, Debug, PartialEq, Eq, Structural)]
pub enum AccountAccessLevel {
    Owner,
}

/// A person who can log in. Objects are stored under accounts, which users
/// are given access to.
pub struct User {
    pub id: u128,
    pub username: String,
    password: String,
}

/// The model of a user.
pub struct UserView {
    pub id: u128,
    pub username: Seq<char>,
    pub credential: Seq<char>,
}

impl View for User {
    type V = UserView;

    closed spec fn view(&self) -> UserView {
        UserView { id: self.id, username: self.username@, credential: self.password@ }
    }
}

impl User {
    /// A user whose credential is the Argon2 hash of `password` under the
    /// base64 `salt`; `None` where the salt is not valid.
    pub fn new(username: String, password: &str, salt: &str, id: u128) -> (r: Option<User>)
        ensures
            r matches Some(u) ==> password_hash_of(password@, salt@) == Some(u@.credential)
                && u@.id == id && u@.username == username@,
            r is None <==> password_hash_of(password@, salt@) is None,
    {
        match hash_password(password, salt) {
            Some(hash) => Some(User { id, username, password: hash }),
            None => None,
        }
    }

    /// A user as stored earlier, with its credential hash.
    pub fn from_parts(id: u128, username: String, credential: String) -> (r: User)
        ensures
            r@ == (UserView { id, username: username@, credential: credential@ }),
    {
        User { id, username, password: credential }
    }

    /// The id of this user.
    pub fn id(&self) -> (r: u128)
        ensures
            r == self@.id,
    {
        self.id
    }

    /// The name this user logs in with.
    pub fn username(&self) -> (r: &String)
        ensures
            r@ == self@.username,
    {
        &self.username
    }

    /// The stored credential hash.
    pub fn credential(&self) -> (r: &String)
        ensures
            r@ == self@.credential,
    {
        &self.password
    }

    /// Whether `password` is this user's password.
    pub fn verify_password(&self, password: &str) -> (r: bool)
        ensures
            r == password_verifies(self@.credential, password@),
    {
        verify_password(self.password.as_str(), password)
    }

    /// A copy of this user.
    pub fn copy(&self) -> (r: User)
        ensures
            r@ == self@,
    {
        User { id: self.id, username: self.username.clone(), password: self.password.clone() }
    }
}

/// An entity that holds objects; accounts can be shared among users.
pub struct Account {
    pub id: u128,
    /// A user-friendly name.
    pub name: String,
    /// Whether this is a user's own primary account.
    pub is_personal: bool,
    /// Whether the whole account is read-only.
    pub is_read_only: bool,
}

/// The model of an account.
pub struct AccountView {
    pub id: u128,
    pub name: Seq<char>,
    pub is_personal: bool,
    pub is_read_only: bool,
}

impl View for Account {
    type V = AccountView;

    open spec fn view(&self) -> AccountView {
        AccountView {
            id: self.id,
            name: self.name@,
            is_personal: self.is_personal,
            is_read_only: self.is_read_only,
        }
    }
}

impl Account {
    pub fn new(name: String, is_personal: bool, is_read_only: bool, id: u128) -> (r: Account)
        ensures
            r@ == (AccountView { id, name: name@, is_personal, is_read_only }),
    {
        Account { id, name, is_personal, is_read_only }
    }

    /// A copy of this account.
    pub fn copy(&self) -> (r: Account)
        ensures
            r@ == self@,
    {
        Account {
            id: self.id,
            name: self.name.clone(),
            is_personal: self.is_personal,
            is_read_only: self.is_read_only,
        }
    }
}

/// The model of the store: each namespace as the list of its entries.
/// Writing a key replaces its entry where there is one and appends one
/// where not, so each key has at most one entry. Counters are modelled by
/// the number their bytes denote.
pub struct StoreView {
    pub users: Seq<UserView>,
    pub usernames: Seq<(Seq<char>, u128)>,
    pub accounts: Seq<AccountView>,
    pub access: Seq<(u128, u128, AccountAccessLevel)>,
    pub counters: Seq<(u128, nat)>,
}

/// The first position in `s` where `p` holds.
pub open spec fn index_where<T>(s: Seq<T>, p: spec_fn(T) -> bool) -> Option<nat>
    decreases s.len(),
{
    if s.len() == 0 {
        None
    } else if p(s[0]) {
        Some(0)
    } else {
        match index_where(s.drop_first(), p) {
            Some(i) => Some(i + 1),
            None => None,
        }
    }
}

/// Writes `v` over the first entry where `p` holds, or appends it.
pub open spec fn put_where<T>(s: Seq<T>, p: spec_fn(T) -> bool, v: T) -> Seq<T> {
    match index_where(s, p) {
        Some(i) => s.update(i as int, v),
        None => s.push(v),
    }
}

/// The entry found by `index_where`.
pub open spec fn find_where<T>(s: Seq<T>, p: spec_fn(T) -> bool) -> Option<T> {
    match index_where(s, p) {
        Some(i) => Some(s[i as int]),
        None => None,
    }
}

/// Where `index_where` finds an entry, `p` holds of it and of none before.
pub proof fn lemma_index_where<T>(s: Seq<T>, p: spec_fn(T) -> bool)
    ensures
        index_where(s, p) matches Some(i) ==> i < s.len() && p(s[i as int]) && forall|j: int|
            0 <= j < i ==> !p(#[trigger] s[j]),
        index_where(s, p) is None ==> forall|j: int| 0 <= j < s.len() ==> !p(#[trigger] s[j]),
    decreases s.len(),
{
    if s.len() > 0 {
        let rest = s.drop_first();
        lemma_index_where(rest, p);
        assert forall|j: int| 1 <= j < s.len() implies s[j] == rest[j - 1] by {}
    }
}

/// The step of a search loop: past an entry where `p` fails, the search
/// of the whole list is the search of the rest, shifted.
proof fn lemma_index_where_skip<T>(s: Seq<T>, p: spec_fn(T) -> bool, i: int)
    requires
        0 <= i < s.len(),
        !p(s[i]),
        index_where(s, p) == match index_where(s.subrange(i, s.len() as int), p) {
            Some(k) => Some((k + i) as nat),
            None => None,
        },
    ensures
        index_where(s, p) == match index_where(s.subrange(i + 1, s.len() as int), p) {
            Some(k) => Some((k + i + 1) as nat),
            None => None,
        },
{
    let rest = s.subrange(i, s.len() as int);
    assert(rest[0] == s[i]);
    assert(rest.drop_first() =~= s.subrange(i + 1, s.len() as int));
}

pub open spec fn user_key(id: u128) -> spec_fn(UserView) -> bool {
    |u: UserView| u.id == id
}

pub open spec fn username_key(name: Seq<char>) -> spec_fn((Seq<char>, u128)) -> bool {
    |e: (Seq<char>, u128)| e.0 == name
}

pub open spec fn account_key(id: u128) -> spec_fn(AccountView) -> bool {
    |a: AccountView| a.id == id
}

pub open spec fn access_key(user: u128, account: u128) -> spec_fn((u128, u128, AccountAccessLevel)) -> bool {
    |e: (u128, u128, AccountAccessLevel)| e.0 == user && e.1 == account
}

pub open spec fn counter_key(user: u128) -> spec_fn((u128, nat)) -> bool {
    |e: (u128, nat)| e.0 == user
}

/// The largest counter value plus one. A counter never reaches it: an
/// increment that would is refused.
pub open spec fn counter_modulus() -> nat {
    pow256(8)
}

/// The counter of `user`; zero where it was never written.
pub open spec fn counter_of(s: StoreView, user: u128) -> nat {
    match find_where(s.counters, counter_key(user)) {
        Some(e) => e.1,
        None => 0,
    }
}

/// Whether `user`'s counter can still go up by one.
pub open spec fn can_increment(s: StoreView, user: u128) -> bool {
    counter_of(s, user) + 1 < counter_modulus()
}

/// The store after `user`'s counter went up by one.
pub open spec fn incremented(s: StoreView, user: u128) -> StoreView {
    StoreView {
        counters: put_where(s.counters, counter_key(user), (user, counter_of(s, user) + 1)),
        ..s
    }
}

/// The store after `u` was written under its id and its username.
pub open spec fn with_user(s: StoreView, u: UserView) -> StoreView {
    StoreView {
        users: put_where(s.users, user_key(u.id), u),
        usernames: put_where(s.usernames, username_key(u.username), (u.username, u.id)),
        ..s
    }
}

/// The store after `a` was written under its id.
pub open spec fn with_account(s: StoreView, a: AccountView) -> StoreView {
    StoreView { accounts: put_where(s.accounts, account_key(a.id), a), ..s }
}

/// The store after `user` was given `level` on `account`; the user's
/// counter goes up with it, since the accounts a user sees are part of
/// what the state token covers.
pub open spec fn with_access(
    s: StoreView,
    account: u128,
    user: u128,
    level: AccountAccessLevel,
) -> StoreView {
    incremented(
        StoreView {
            access: put_where(s.access, access_key(user, account), (user, account, level)),
            ..s
        },
        user,
    )
}

/// The user that `username` names: through the username namespace, then
/// the users namespace.
pub open spec fn user_by_username(s: StoreView, username: Seq<char>) -> Option<UserView> {
    match find_where(s.usernames, username_key(username)) {
        Some(e) => find_where(s.users, user_key(e.1)),
        None => None,
    }
}

/// Whether one of `access` links `user` to account `id`.
pub open spec fn linked_in(access: Seq<(u128, u128, AccountAccessLevel)>, user: u128, id: u128) -> bool {
    exists|i: int| 0 <= i < access.len() && #[trigger] access[i] == (user, id, access[i].2)
}

/// `r` lists, by ascending account id and each once, the accounts that
/// `access` links to `user` and that have a record in `accounts`.
pub open spec fn lists_accounts(
    access: Seq<(u128, u128, AccountAccessLevel)>,
    accounts: Seq<AccountView>,
    user: u128,
    r: Seq<AccountView>,
) -> bool {
    &&& forall|i: int, j: int| 0 <= i < j < r.len() ==> r[i].id < r[j].id
    &&& forall|i: int|
        0 <= i < r.len() ==> linked_in(access, user, #[trigger] r[i].id) && find_where(
            accounts,
            account_key(r[i].id),
        ) == Some(r[i])
    &&& forall|id: u128|
        linked_in(access, user, id) && (#[trigger] find_where(accounts, account_key(id))) is Some
            ==> exists|i: int| 0 <= i < r.len() && r[i].id == id
}

/// `r` is the list of accounts linked to `user` in `s`, by ascending
/// account id; a link to an account that has no record is skipped.
pub open spec fn lists_accounts_of(s: StoreView, user: u128, r: Seq<AccountView>) -> bool {
    lists_accounts(s.access, s.accounts, user, r)
}

/// A link that adds no account leaves a listing as it is.
proof fn lemma_listing_keeps(
    links: Seq<(u128, u128, AccountAccessLevel)>,
    accounts: Seq<AccountView>,
    user: u128,
    r: Seq<AccountView>,
    e: (u128, u128, AccountAccessLevel),
)
    requires
        lists_accounts(links, accounts, user, r),
        e.0 != user || find_where(accounts, account_key(e.1)) is None || exists|k: int|
            0 <= k < r.len() && r[k].id == e.1,
    ensures
        lists_accounts(links.push(e), accounts, user, r),
{
    let more = links.push(e);
    assert forall|id: u128| #[trigger] linked_in(links, user, id) implies linked_in(more, user, id) by {
        let x = choose|x: int| 0 <= x < links.len() && #[trigger] links[x] == (user, id, links[x].2);
        assert(more[x] == links[x]);
    }
    assert forall|id: u128|
        linked_in(more, user, id) && (#[trigger] find_where(accounts, account_key(id))) is Some implies exists|
        k: int,
    | 0 <= k < r.len() && r[k].id == id by {
        let x = choose|x: int| 0 <= x < more.len() && #[trigger] more[x] == (user, id, more[x].2);
        if x < links.len() {
            assert(links[x] == more[x]);
            assert(linked_in(links, user, id));
        } else {
            assert(more[x] == e);
        }
    }
    assert forall|k: int| 0 <= k < r.len() implies linked_in(more, user, #[trigger] r[k].id) by {
        assert(linked_in(links, user, r[k].id));
    }
}

/// A link to an account that the listing lacks puts it in its place.
proof fn lemma_listing_inserts(
    links: Seq<(u128, u128, AccountAccessLevel)>,
    accounts: Seq<AccountView>,
    user: u128,
    r: Seq<AccountView>,
    e: (u128, u128, AccountAccessLevel),
    rv: AccountView,
    pos: int,
)
    requires
        lists_accounts(links, accounts, user, r),
        e.0 == user,
        rv.id == e.1,
        find_where(accounts, account_key(e.1)) == Some(rv),
        0 <= pos <= r.len(),
        forall|k: int| 0 <= k < pos ==> (#[trigger] r[k]).id < e.1,
        pos < r.len() ==> r[pos].id != e.1 && !(r[pos].id < e.1),
    ensures
        lists_accounts(links.push(e), accounts, user, r.insert(pos, rv)),
{
    let more = links.push(e);
    let n = r.insert(pos, rv);
    assert(more[links.len() as int] == e);
    assert(linked_in(more, user, e.1)) by {
        assert(more[links.len() as int] == (user, e.1, more[links.len() as int].2));
    }
    assert forall|id: u128| #[trigger] linked_in(links, user, id) implies linked_in(more, user, id) by {
        let x = choose|x: int| 0 <= x < links.len() && #[trigger] links[x] == (user, id, links[x].2);
        assert(more[x] == links[x]);
    }
    assert forall|i: int, j: int| 0 <= i < j < n.len() implies n[i].id < n[j].id by {
        if pos < r.len() {
            assert(r[pos].id > e.1);
        }
        if j < pos {
        } else if j == pos {
            assert(n[i] == r[i]);
        } else if i < pos {
            assert(n[j] == r[j - 1]);
            assert(r[i].id < e.1);
            if j - 1 > pos {
                assert(r[pos].id < r[j - 1].id);
            }
        } else if i == pos {
            assert(n[j] == r[j - 1]);
            if j - 1 > pos {
                assert(r[pos].id < r[j - 1].id);
            }
        } else {
            assert(n[i] == r[i - 1] && n[j] == r[j - 1]);
        }
    }
    assert forall|k: int| 0 <= k < n.len() implies linked_in(more, user, #[trigger] n[k].id)
        && find_where(accounts, account_key(n[k].id)) == Some(n[k]) by {
        if k < pos {
            assert(n[k] == r[k]);
            assert(linked_in(links, user, r[k].id));
        } else if k > pos {
            assert(n[k] == r[k - 1]);
            assert(linked_in(links, user, r[k - 1].id));
        }
    }
    assert forall|id: u128|
        linked_in(more, user, id) && (#[trigger] find_where(accounts, account_key(id))) is Some implies exists|
        k: int,
    | 0 <= k < n.len() && n[k].id == id by {
        let x = choose|x: int| 0 <= x < more.len() && #[trigger] more[x] == (user, id, more[x].2);
        if x < links.len() {
            assert(links[x] == more[x]);
            assert(linked_in(links, user, id));
            let k = choose|k: int| 0 <= k < r.len() && r[k].id == id;
            if k < pos {
                assert(n[k] == r[k]);
            } else {
                assert(n[k + 1] == r[k]);
            }
        } else {
            assert(n[pos].id == id);
        }
    }
}

/// The error of a store operation.
#[derive(Clone, Copy, Debug, PartialEq, Eq, Structural)]
pub enum Error {
    /// A credential could not be hashed.
    CredentialHash,
    /// A counter is at its largest value and cannot go up again.
    CounterExhausted,
}

/// Which backend holds the store.
#[derive(Clone, Copy, Debug, PartialEq, Eq, Structural)]
pub enum StoreConfig {
    /// The namespaces live in memory for the life of the process.
    Memory,
}

/// An in-memory key-value backend with the store's five namespaces.
pub struct Store {
    users_by_id: Vec<User>,
    users_by_username: Vec<(String, u128)>,
    accounts_by_id: Vec<Account>,
    account_access: Vec<(u128, u128, AccountAccessLevel)>,
    seq_numbers: Vec<(u128, Vec<u8>)>,
}

impl View for Store {
    type V = StoreView;

    closed spec fn view(&self) -> StoreView {
        StoreView {
            users: Seq::new(self.users_by_id@.len(), |i: int| self.users_by_id@[i]@),
            usernames: Seq::new(
                self.users_by_username@.len(),
                |i: int| (self.users_by_username@[i].0@, self.users_by_username@[i].1),
            ),
            accounts: Seq::new(self.accounts_by_id@.len(), |i: int| self.accounts_by_id@[i]@),
            access: self.account_access@,
            counters: Seq::new(
                self.seq_numbers@.len(),
                |i: int| (self.seq_numbers@[i].0, be_value(self.seq_numbers@[i].1@)),
            ),
        }
    }
}

impl Store {
    /// Every counter is held in eight bytes.
    pub closed spec fn wf(&self) -> bool {
        forall|i: int| 0 <= i < self.seq_numbers@.len() ==> (#[trigger] self.seq_numbers@[i]).1@.len() == 8
    }

    /// An empty store.
    pub fn new() -> (r: Store)
        ensures
            r.wf(),
            r@ == (StoreView {
                users: Seq::empty(),
                usernames: Seq::empty(),
                accounts: Seq::empty(),
                access: Seq::empty(),
                counters: Seq::empty(),
            }),
    {
        let r = Store {
            users_by_id: Vec::new(),
            users_by_username: Vec::new(),
            accounts_by_id: Vec::new(),
            account_access: Vec::new(),
            seq_numbers: Vec::new(),
        };
        assert(r@.users =~= Seq::empty());
        assert(r@.usernames =~= Seq::empty());
        assert(r@.accounts =~= Seq::empty());
        assert(r@.counters =~= Seq::empty());
        r
    }

    fn user_index(&self, id: u128) -> (r: Option<usize>)
        ensures
            r matches Some(i) ==> index_where(self@.users, user_key(id)) == Some(i as nat) && i
                < self@.users.len(),
            r is None ==> index_where(self@.users, user_key(id)) is None,
    {
        let ghost model = self@.users;
        assert(model.subrange(0, model.len() as int) =~= model);
        let mut i: usize = 0;
        while i < self.users_by_id.len()
            invariant
                model == self@.users,
                i <= model.len(),
                index_where(model, user_key(id)) == match index_where(
                    model.subrange(i as int, model.len() as int),
                    user_key(id),
                ) {
                    Some(k) => Some((k + i) as nat),
                    None => None,
                },
            decreases self.users_by_id.len() - i,
        {
            if self.users_by_id[i].id == id {
                assert(model.subrange(i as int, model.len() as int)[0] == model[i as int]);
                return Some(i);
            }
            proof {
                lemma_index_where_skip(model, user_key(id), i as int);
            }
            i = i + 1;
        }
        assert(model.subrange(i as int, model.len() as int) =~= Seq::empty());
        None
    }

    fn username_index(&self, name: &String) -> (r: Option<usize>)
        ensures
            r matches Some(i) ==> index_where(self@.usernames, username_key(name@)) == Some(i as nat)
                && i < self@.usernames.len(),
            r is None ==> index_where(self@.usernames, username_key(name@)) is None,
    {
        let ghost model = self@.usernames;
        let ghost p = username_key(name@);
        assert(model.subrange(0, model.len() as int) =~= model);
        let mut i: usize = 0;
        while i < self.users_by_username.len()
            invariant
                model == self@.usernames,
                p == username_key(name@),
                i <= model.len(),
                index_where(model, p) == match index_where(model.subrange(i as int, model.len() as int), p) {
                    Some(k) => Some((k + i) as nat),
                    None => None,
                },
            decreases self.users_by_username.len() - i,
        {
            if self.users_by_username[i].0 == *name {
                assert(model.subrange(i as int, model.len() as int)[0] == model[i as int]);
                return Some(i);
            }
            proof {
                lemma_index_where_skip(model, p, i as int);
            }
            i = i + 1;
        }
        assert(model.subrange(i as int, model.len() as int) =~= Seq::empty());
        None
    }

    fn account_index(&self, id: u128) -> (r: Option<usize>)
        ensures
            r matches Some(i) ==> index_where(self@.accounts, account_key(id)) == Some(i as nat) && i
                < self@.accounts.len(),
            r is None ==> index_where(self@.accounts, account_key(id)) is None,
    {
        let ghost model = self@.accounts;
        assert(model.subrange(0, model.len() as int) =~= model);
        let mut i: usize = 0;
        while i < self.accounts_by_id.len()
            invariant
                model == self@.accounts,
                i <= model.len(),
                index_where(model, account_key(id)) == match index_where(
                    model.subrange(i as int, model.len() as int),
                    account_key(id),
                ) {
                    Some(k) => Some((k + i) as nat),
                    None => None,
                },
            decreases self.accounts_by_id.len() - i,
        {
            if self.accounts_by_id[i].id == id {
                assert(model.subrange(i as int, model.len() as int)[0] == model[i as int]);
                return Some(i);
            }
            proof {
                lemma_index_where_skip(model, account_key(id), i as int);
            }
            i = i + 1;
        }
        assert(model.subrange(i as int, model.len() as int) =~= Seq::empty());
        None
    }

    fn access_index(&self, user: u128, account: u128) -> (r: Option<usize>)
        ensures
            r matches Some(i) ==> index_where(self@.access, access_key(user, account)) == Some(
                i as nat,
            ) && i < self@.access.len(),
            r is None ==> index_where(self@.access, access_key(user, account)) is None,
    {
        let ghost model = self@.access;
        assert(model.subrange(0, model.len() as int) =~= model);
        let mut i: usize = 0;
        while i < self.account_access.len()
            invariant
                model == self@.access,
                i <= model.len(),
                index_where(model, access_key(user, account)) == match index_where(
                    model.subrange(i as int, model.len() as int),
                    access_key(user, account),
                ) {
                    Some(k) => Some((k + i) as nat),
                    None => None,
                },
            decreases self.account_access.len() - i,
        {
            if self.account_access[i].0 == user && self.account_access[i].1 == account {
                assert(model.subrange(i as int, model.len() as int)[0] == model[i as int]);
                return Some(i);
            }
            proof {
                lemma_index_where_skip(model, access_key(user, account), i as int);
            }
            i = i + 1;
        }
        assert(model.subrange(i as int, model.len() as int) =~= Seq::empty());
        None
    }

    fn counter_index(&self, user: u128) -> (r: Option<usize>)
        ensures
            r matches Some(i) ==> index_where(self@.counters, counter_key(user)) == Some(i as nat) && i
                < self@.counters.len(),
            r is None ==> index_where(self@.counters, counter_key(user)) is None,
    {
        let ghost model = self@.counters;
        assert(model.subrange(0, model.len() as int) =~= model);
        let mut i: usize = 0;
        while i < self.seq_numbers.len()
            invariant
                model == self@.counters,
                i <= model.len(),
                index_where(model, counter_key(user)) == match index_where(
                    model.subrange(i as int, model.len() as int),
                    counter_key(user),
                ) {
                    Some(k) => Some((k + i) as nat),
                    None => None,
                },
            decreases self.seq_numbers.len() - i,
        {
            if self.seq_numbers[i].0 == user {
                assert(model.subrange(i as int, model.len() as int)[0] == model[i as int]);
                return Some(i);
            }
            proof {
                lemma_index_where_skip(model, counter_key(user), i as int);
            }
            i = i + 1;
        }
        assert(model.subrange(i as int, model.len() as int) =~= Seq::empty());
        None
    }

    /// The store that `config` describes, empty.
    pub fn from_config(config: StoreConfig) -> (r: Store)
        ensures
            r.wf(),
            r@.users.len() == 0,
            r@.usernames.len() == 0,
            r@.accounts.len() == 0,
            r@.access.len() == 0,
            r@.counters.len() == 0,
    {
        match config {
            StoreConfig::Memory => Store::new(),
        }
    }

    /// Whether any user exists; decides at startup whether a root user
    /// must be made.
    pub fn has_any_users(&self) -> (r: bool)
        ensures
            r == (self@.users.len() > 0),
    {
        self.users_by_id.len() > 0
    }

    /// Writes `user` under its id and under its username.
    pub fn create_user(&mut self, user: User)
        requires
            old(self).wf(),
        ensures
            final(self).wf(),
            final(self)@ == with_user(old(self)@, user@),
    {
        let ghost before = self@;
        let ghost u = user@;
        let name = user.username.clone();
        let id = user.id;
        match self.user_index(id) {
            Some(i) => {
                self.users_by_id.set(i, user);
            },
            None => {
                self.users_by_id.push(user);
            },
        }
        assert(self@.users =~= put_where(before.users, user_key(u.id), u));
        let ghost middle = self@;
        match self.username_index(&name) {
            Some(i) => {
                self.users_by_username.set(i, (name, id));
            },
            None => {
                self.users_by_username.push((name, id));
            },
        }
        assert(self@.usernames =~= put_where(middle.usernames, username_key(u.username), (u.username, u.id)));
        assert(self@.accounts =~= before.accounts);
        assert(self@.counters =~= before.counters);
        assert(self@ == with_user(before, u));
    }

    /// The user that `username` names, where there is one.
    pub fn get_by_username(&self, username: &str) -> (r: Option<User>)
        ensures
            r matches Some(u) ==> user_by_username(self@, username@) == Some(u@),
            r is None ==> user_by_username(self@, username@) is None,
    {
        let name = String::from_str(username);
        match self.username_index(&name) {
            Some(i) => {
                let id = self.users_by_username[i].1;
                match self.user_index(id) {
                    Some(j) => Some(self.users_by_id[j].copy()),
                    None => None,
                }
            },
            None => None,
        }
    }

    /// Writes `account` under its id.
    pub fn create_account(&mut self, account: Account)
        requires
            old(self).wf(),
        ensures
            final(self).wf(),
            final(self)@ == with_account(old(self)@, account@),
    {
        let ghost before = self@;
        let ghost a = account@;
        match self.account_index(account.id) {
            Some(i) => {
                self.accounts_by_id.set(i, account);
            },
            None => {
                self.accounts_by_id.push(account);
            },
        }
        assert(self@.accounts =~= put_where(before.accounts, account_key(a.id), a));
        assert(self@.users =~= before.users);
        assert(self@.usernames =~= before.usernames);
        assert(self@.counters =~= before.counters);
    }

    /// Adds one to the counter of `user`, through the merge operator. A
    /// counter never goes back or repeats a value: at its largest value the
    /// increment is refused and the store stays as it was.
    pub fn increment_seq_number_for_user(&mut self, user: u128) -> (r: Result<(), Error>)
        requires
            old(self).wf(),
        ensures
            final(self).wf(),
            can_increment(old(self)@, user) ==> (r is Ok && final(self)@ == incremented(
                old(self)@,
                user,
            )),
            !can_increment(old(self)@, user) ==> (r matches Err(Error::CounterExhausted)
                && final(self)@ == old(self)@),
    {
        let ghost before = self@;
        let key: [u8; 0] = [];
        let mut operands: Vec<Vec<u8>> = Vec::new();
        let mut incr: Vec<u8> = Vec::new();
        incr.push(73);
        incr.push(78);
        incr.push(67);
        incr.push(82);
        assert(incr@ =~= crate::merge::increment_operand());
        operands.push(incr);
        proof {
            reveal_with_fuel(pow256, 9);
        }
        match self.counter_index(user) {
            Some(i) => {
                proof {
                    lemma_index_where(before.counters, counter_key(user));
                }
                let merged = rocksdb_merger(
                    &key,
                    Some(self.seq_numbers[i].1.as_slice()),
                    operands.as_slice(),
                );
                match merged {
                    Some(v) => {
                        self.seq_numbers.set(i, (user, v));
                    },
                    None => {
                        return Err(Error::CounterExhausted);
                    },
                }
                assert(self@.counters =~= put_where(
                    before.counters,
                    counter_key(user),
                    (user, counter_of(before, user) + 1),
                ));
            },
            None => {
                let merged = rocksdb_merger(&key, None, operands.as_slice());
                match merged {
                    Some(v) => {
                        self.seq_numbers.push((user, v));
                    },
                    None => {
                        return Err(Error::CounterExhausted);
                    },
                }
                assert(self@.counters =~= put_where(
                    before.counters,
                    counter_key(user),
                    (user, counter_of(before, user) + 1),
                ));
            },
        }
        assert(self@.users =~= before.users);
        assert(self@.usernames =~= before.usernames);
        assert(self@.accounts =~= before.accounts);
        Ok(())
    }

    /// Gives `user` the access `access` to `account`, and raises the user's
    /// counter in the same step. Where the counter cannot go up, neither
    /// happens.
    pub fn attach_account_to_user(&mut self, account: u128, user: u128, access: AccountAccessLevel) -> (r:
        Result<(), Error>)
        requires
            old(self).wf(),
        ensures
            final(self).wf(),
            can_increment(old(self)@, user) ==> (r is Ok && final(self)@ == with_access(
                old(self)@,
                account,
                user,
                access,
            )),
            !can_increment(old(self)@, user) ==> (r matches Err(Error::CounterExhausted)
                && final(self)@ == old(self)@),
    {
        let ghost before = self@;
        proof {
            reveal_with_fuel(pow256, 9);
        }
        if self.fetch_seq_number_for_user(user) == u64::MAX {
            return Err(Error::CounterExhausted);
        }
        match self.access_index(user, account) {
            Some(i) => {
                self.account_access.set(i, (user, account, access));
            },
            None => {
                self.account_access.push((user, account, access));
            },
        }
        assert(self@.access =~= put_where(before.access, access_key(user, account), (user, account, access)));
        assert(self@.users =~= before.users);
        assert(self@.usernames =~= before.usernames);
        assert(self@.accounts =~= before.accounts);
        assert(self@.counters =~= before.counters);
        self.increment_seq_number_for_user(user)
    }

    /// The accounts linked to `user`, by ascending account id, each once;
    /// a link to an account without a record is skipped.
    pub fn get_accounts_for_user(&self, user_id: u128) -> (r: Vec<Account>)
        ensures
            lists_accounts_of(self@, user_id, Seq::new(r@.len(), |i: int| r@[i]@)),
    {
        let ghost model = self@;
        let mut out: Vec<Account> = Vec::new();
        let mut i: usize = 0;
        while i < self.account_access.len()
            invariant
                model == self@,
                i <= self.account_access.len(),
                lists_accounts(
                    model.access.take(i as int),
                    model.accounts,
                    user_id,
                    Seq::new(out@.len(), |k: int| out@[k]@),
                ),
            decreases self.account_access.len() - i,
        {
            let ghost prev = Seq::new(out@.len(), |k: int| out@[k]@);
            let ghost old_links = model.access.take(i as int);
            let entry = self.account_access[i];
            assert(model.access.take(i + 1) =~= old_links.push(entry));
            let mut inserted = false;
            if entry.0 == user_id {
                match self.account_index(entry.1) {
                    Some(j) => {
                        proof {
                            lemma_index_where(model.accounts, account_key(entry.1));
                        }
                        let id = entry.1;
                        let mut pos: usize = 0;
                        while pos < out.len() && out[pos].id < id
                            invariant
                                pos <= out@.len(),
                                prev == Seq::new(out@.len(), |k: int| out@[k]@),
                                forall|k: int| 0 <= k < pos ==> (#[trigger] prev[k]).id < id,
                            decreases out.len() - pos,
                        {
                            assert(prev[pos as int].id == out@[pos as int].id);
                            pos = pos + 1;
                        }
                        if pos < out.len() && out[pos].id == id {
                            proof {
                                assert(prev[pos as int].id == id);
                                lemma_listing_keeps(old_links, model.accounts, user_id, prev, entry);
                            }
                        } else {
                            let rec = self.accounts_by_id[j].copy();
                            let ghost rv = rec@;
                            assert(rv == model.accounts[j as int]);
                            proof {
                                if pos < prev.len() {
                                    assert(prev[pos as int].id == out@[pos as int].id);
                                }
                                lemma_listing_inserts(
                                    old_links,
                                    model.accounts,
                                    user_id,
                                    prev,
                                    entry,
                                    rv,
                                    pos as int,
                                );
                            }
                            out.insert(pos, rec);
                            assert(Seq::new(out@.len(), |k: int| out@[k]@) =~= prev.insert(pos as int, rv));
                            inserted = true;
                        }
                    },
                    None => {
                        proof {
                            lemma_listing_keeps(old_links, model.accounts, user_id, prev, entry);
                        }
                    },
                }
            } else {
                proof {
                    lemma_listing_keeps(old_links, model.accounts, user_id, prev, entry);
                }
            }
            i = i + 1;
        }
        assert(model.access.take(i as int) =~= model.access);
        out
    }

    /// The counter of `user`; zero where it was never written.
    pub fn fetch_seq_number_for_user(&self, user: u128) -> (r: u64)
        requires
            self.wf(),
        ensures
            r == counter_of(self@, user),
    {
        match self.counter_index(user) {
            Some(i) => {
                proof {
                    lemma_index_where(self@.counters, counter_key(user));
                }
                let bytes = &self.seq_numbers[i].1;
                let mut value: u64 = 0;
                let mut j: usize = 0;
                assert(bytes@.take(0) =~= Seq::<u8>::empty());
                while j < 8
                    invariant
                        bytes@.len() == 8,
                        j <= 8,
                        value == be_value(bytes@.take(j as int)),
                    decreases 8 - j,
                {
                    assert(bytes@.take(j + 1).drop_last() =~= bytes@.take(j as int));
                    proof {
                        lemma_be_value_bound(bytes@.take(j + 1));
                        crate::merge::lemma_pow256_le((j + 1) as nat, 8);
                        reveal_with_fuel(pow256, 9);
                        assert(pow256(8) == 0x1_0000_0000_0000_0000);
                        assert(bytes@.take(j + 1).last() == bytes@[j as int]);
                        assert(be_value(bytes@.take(j + 1)) == value * 256 + bytes@[j as int]);
                    }
                    value = value * 256 + bytes[j] as u64;
                    j = j + 1;
                }
                assert(bytes@.take(8) =~= bytes@);
                value
            },
            None => 0,
        }
    }
}


/// Writing `v` where `p` holds, then searching for `p`, finds `v`.
pub proof fn lemma_put_then_find<T>(s: Seq<T>, p: spec_fn(T) -> bool, v: T)
    requires
        p(v),
    ensures
        find_where(put_where(s, p, v), p) == Some(v),
{
    lemma_index_where(s, p);
    let t = put_where(s, p, v);
    let i: int = match index_where(s, p) {
        Some(i) => i as int,
        None => s.len() as int,
    };
    assert(t[i] == v);
    assert(forall|j: int| 0 <= j < i ==> t[j] == s[j]);
    lemma_index_where(t, p);
    match index_where(t, p) {
        Some(j) => {
            if (j as int) < i {
                assert(!p(s[j as int]));
            } else if (j as int) > i {
                assert(!p(t[i]));
            }
        },
        None => {
            assert(!p(t[i]));
        },
    }
}

/// A counter held by the store lies below 2^64.
pub proof fn lemma_counter_in_range(store: &Store, user: u128)
    requires
        store.wf(),
    ensures
        counter_of(store@, user) < counter_modulus(),
{
    let s = store@;
    lemma_index_where(s.counters, counter_key(user));
    match index_where(s.counters, counter_key(user)) {
        Some(i) => {
            lemma_be_value_bound(store.seq_numbers@[i as int].1@);
        },
        None => {
            crate::merge::lemma_pow256_positive(8);
        },
    }
}

/// The store after `k` increments of `user`'s counter, one after another.
pub open spec fn after_increments(s: StoreView, user: u128, k: nat) -> StoreView
    decreases k,
{
    if k == 0 {
        s
    } else {
        incremented(after_increments(s, user, (k - 1) as nat), user)
    }
}

/// No increment is lost: after `k` increments a counter that stood at `n`
/// stands at exactly `n + k`, where that stays below 2^64; each of the `k`
/// increments is then allowed.
pub proof fn lemma_increments_add_up(s: StoreView, user: u128, k: nat)
    requires
        counter_of(s, user) + k < counter_modulus(),
    ensures
        counter_of(after_increments(s, user, k), user) == counter_of(s, user) + k,
        forall|j: nat| j < k ==> #[trigger] can_increment(after_increments(s, user, j), user),
    decreases k,
{
    if k > 0 {
        let prev = after_increments(s, user, (k - 1) as nat);
        lemma_increments_add_up(s, user, (k - 1) as nat);
        lemma_put_then_find(prev.counters, counter_key(user), (user, counter_of(prev, user) + 1));
        assert forall|j: nat| j < k implies #[trigger] can_increment(
            after_increments(s, user, j),
            user,
        ) by {
            if j == k - 1 {
                assert(can_increment(prev, user));
            }
        }
    }
}


/// The name of the user and of the account made at the first start.
pub open spec fn root_name() -> Seq<char> {
    "root"@
}

/// The store after a start: where it holds no user, a root user with
/// `credential`, a personal, writable account named root, and the root
/// user's ownership of it; where it holds a user, the store as it was.
pub open spec fn bootstrapped(
    s: StoreView,
    credential: Seq<char>,
    user_id: u128,
    account_id: u128,
) -> StoreView {
    if s.users.len() > 0 {
        s
    } else {
        with_access(
            with_account(
                with_user(s, UserView { id: user_id, username: root_name(), credential }),
                AccountView { id: account_id, name: root_name(), is_personal: true, is_read_only: false },
            ),
            account_id,
            user_id,
            AccountAccessLevel::Owner,
        )
    }
}

/// Makes the root user and account where the store has no user yet. The
/// password is the hexadecimal text of `password_bytes`, hashed under
/// `salt`; it is returned, once, so that it can be shown. Where the store
/// already has a user nothing changes and nothing is returned.
pub fn create_root_if_none_exists(
    store: &mut Store,
    password_bytes: &Vec<u8>,
    salt: &str,
    user_id: u128,
    account_id: u128,
) -> (r: Result<Option<String>, Error>)
    requires
        old(store).wf(),
    ensures
        final(store).wf(),
        old(store)@.users.len() > 0 ==> (r matches Ok(None) && final(store)@ == old(store)@),
        old(store)@.users.len() == 0 ==> match password_hash_of(hex_of(password_bytes@), salt@) {
            Some(h) => if can_increment(old(store)@, user_id) {
                r matches Ok(Some(p)) && p@ == hex_of(password_bytes@) && final(store)@
                    == bootstrapped(old(store)@, h, user_id, account_id)
            } else {
                r matches Err(Error::CounterExhausted) && final(store)@ == old(store)@
            },
            None => (r matches Err(Error::CredentialHash) && final(store)@ == old(store)@),
        },
{
    if store.has_any_users() {
        return Ok(None);
    }
    let password = to_hex(password_bytes);
    let root = match User::new(String::from_str("root"), password.as_str(), salt, user_id) {
        Some(u) => u,
        None => return Err(Error::CredentialHash),
    };
    proof {
        reveal_strlit("root");
        reveal_with_fuel(pow256, 9);
    }
    if store.fetch_seq_number_for_user(user_id) == u64::MAX {
        return Err(Error::CounterExhausted);
    }
    store.create_user(root);
    store.create_account(Account::new(String::from_str("root"), true, false, account_id));
    match store.attach_account_to_user(account_id, user_id, AccountAccessLevel::Owner) {
        Ok(()) => Ok(Some(password)),
        Err(e) => Err(e),
    }
}

/// Starting again on a store that was bootstrapped from empty makes no
/// second root user: the store then has a user, so it stays as it is.
pub proof fn lemma_bootstrap_idempotent(
    s: StoreView,
    credential: Seq<char>,
    user_id: u128,
    account_id: u128,
    later_credential: Seq<char>,
    later_user_id: u128,
    later_account_id: u128,
)
    requires
        s.users.len() == 0,
    ensures
        bootstrapped(s, credential, user_id, account_id).users.len() == 1,
        bootstrapped(
            bootstrapped(s, credential, user_id, account_id),
            later_credential,
            later_user_id,
            later_account_id,
        ) == bootstrapped(s, credential, user_id, account_id),
{
    assert(index_where(s.users, user_key(user_id)) is None);
}

/// A store with nothing in it.
pub open spec fn empty_store() -> StoreView {
    StoreView {
        users: Seq::empty(),
        usernames: Seq::empty(),
        accounts: Seq::empty(),
        access: Seq::empty(),
        counters: Seq::empty(),
    }
}

/// A start on an empty store leaves exactly one user, named root, found
/// by that name; exactly one account, named root, personal and writable;
/// the root user's ownership of it, so that it is the user's only account;
/// and the root user's counter at one.
pub proof fn lemma_bootstrap_from_empty(credential: Seq<char>, user_id: u128, account_id: u128)
    ensures
        ({
            let b = bootstrapped(empty_store(), credential, user_id, account_id);
            let root = UserView { id: user_id, username: root_name(), credential };
            let account = AccountView {
                id: account_id,
                name: root_name(),
                is_personal: true,
                is_read_only: false,
            };
            &&& b.users == seq![root]
            &&& b.usernames == seq![(root_name(), user_id)]
            &&& b.accounts == seq![account]
            &&& b.access == seq![(user_id, account_id, AccountAccessLevel::Owner)]
            &&& user_by_username(b, root_name()) == Some(root)
            &&& lists_accounts_of(b, user_id, seq![account])
            &&& counter_of(b, user_id) == 1
        }),
{
    let e = empty_store();
    let b = bootstrapped(e, credential, user_id, account_id);
    let root = UserView { id: user_id, username: root_name(), credential };
    let account = AccountView { id: account_id, name: root_name(), is_personal: true, is_read_only: false };
    assert(index_where(e.users, user_key(user_id)) is None);
    assert(index_where(e.usernames, username_key(root_name())) is None);
    assert(index_where(e.accounts, account_key(account_id)) is None);
    assert(index_where(e.access, access_key(user_id, account_id)) is None);
    assert(index_where(e.counters, counter_key(user_id)) is None);
    assert(b.users =~= seq![root]);
    assert(b.usernames =~= seq![(root_name(), user_id)]);
    assert(b.accounts =~= seq![account]);
    assert(b.access =~= seq![(user_id, account_id, AccountAccessLevel::Owner)]);
    assert(b.counters =~= seq![(user_id, 1nat)]);
    reveal_with_fuel(index_where, 2);
    assert(find_where(b.usernames, username_key(root_name())) == Some((root_name(), user_id)));
    assert(find_where(b.users, user_key(user_id)) == Some(root));
    assert(find_where(b.accounts, account_key(account_id)) == Some(account));
    assert(counter_of(b, user_id) == 1);
    let r = seq![account];
    assert(linked_in(b.access, user_id, account_id)) by {
        assert(b.access[0] == (user_id, account_id, b.access[0].2));
    }
    assert forall|id: u128|
        linked_in(b.access, user_id, id) && (#[trigger] find_where(b.accounts, account_key(id)))
            is Some implies exists|k: int| 0 <= k < r.len() && r[k].id == id by {
        let x = choose|x: int| 0 <= x < b.access.len() && #[trigger] b.access[x] == (user_id, id, b.access[x].2);
        assert(x == 0);
        assert(r[0].id == id);
    }
}

} // verus!
