//! The capability objects of the session resource.
use vstd::prelude::*;
use vstd::string::*;

use crate::common::UnsignedInt;
use crate::credentials::hex_digit;
use crate::extensions::{session_capabilities, ExtensionRegistry};
use crate::json::{lemma_object_members, members_model, Json, JsonView, Member, MemberView};
use crate::store::{counter_of, lists_accounts_of, user_by_username, Account, AccountView, Store};
use crate::util::{decimal_digits, decimal_text};

verus! {

/// The server's core capability: the limits it works within.
pub struct CoreCapability {
    pub max_size_upload: UnsignedInt,
    pub max_concurrent_upload: UnsignedInt,
    pub max_size_request: UnsignedInt,
    pub max_concurrent_requests: UnsignedInt,
    pub max_calls_in_request: UnsignedInt,
    pub max_objects_in_get: UnsignedInt,
    pub max_objects_in_set: UnsignedInt,
    /// The collation algorithms the server can sort with.
    pub collation_algorithms: Vec<String>,
}

/// A number member of a JSON object.
pub open spec fn number_member(key: Seq<char>, n: u64) -> MemberView {
    MemberView { key, value: JsonView::Number(decimal_digits(n as nat)) }
}

/// The JSON form of a core capability.
pub open spec fn core_capability_json(c: CoreCapability) -> JsonView {
    JsonView::Object(
        seq![
            number_member("maxSizeUpload"@, c.max_size_upload.0),
            number_member("maxConcurrentUpload"@, c.max_concurrent_upload.0),
            number_member("maxSizeRequest"@, c.max_size_request.0),
            number_member("maxConcurrentRequests"@, c.max_concurrent_requests.0),
            number_member("maxCallsInRequest"@, c.max_calls_in_request.0),
            number_member("maxObjectsInGet"@, c.max_objects_in_get.0),
            number_member("maxObjectsInSet"@, c.max_objects_in_set.0),
            MemberView {
                key: "collationAlgorithms"@,
                value: JsonView::Array(
                    Seq::new(
                        c.collation_algorithms@.len(),
                        |i: int| JsonView::Str(c.collation_algorithms@[i]@),
                    ),
                ),
            },
        ],
    )
}

fn number(key: &str, n: UnsignedInt) -> (r: Member)
    ensures
        r@ == number_member(key@, n.0),
{
    Member { key: String::from_str(key), value: Json::Number(decimal_text(n.0)) }
}

impl CoreCapability {
    /// This capability as JSON.
    pub fn to_json(&self) -> (r: Json)
        ensures
            r@ == core_capability_json(*self),
    {
        let mut names: Vec<Json> = Vec::new();
        let mut i: usize = 0;
        while i < self.collation_algorithms.len()
            invariant
                i <= self.collation_algorithms.len(),
                names@.len() == i,
                forall|k: int|
                    0 <= k < i ==> (#[trigger] names@[k])@ == JsonView::Str(
                        self.collation_algorithms@[k]@,
                    ),
            decreases self.collation_algorithms.len() - i,
        {
            names.push(Json::Str(self.collation_algorithms[i].clone()));
            i = i + 1;
        }
        let names = Json::Array(names);
        proof {
            crate::json::lemma_array_view(names);
            assert(names@->Array_0 =~= Seq::new(
                self.collation_algorithms@.len(),
                |k: int| JsonView::Str(self.collation_algorithms@[k]@),
            ));
        }
        let mut ms: Vec<Member> = Vec::new();
        ms.push(number("maxSizeUpload", self.max_size_upload));
        ms.push(number("maxConcurrentUpload", self.max_concurrent_upload));
        ms.push(number("maxSizeRequest", self.max_size_request));
        ms.push(number("maxConcurrentRequests", self.max_concurrent_requests));
        ms.push(number("maxCallsInRequest", self.max_calls_in_request));
        ms.push(number("maxObjectsInGet", self.max_objects_in_get));
        ms.push(number("maxObjectsInSet", self.max_objects_in_set));
        ms.push(Member { key: String::from_str("collationAlgorithms"), value: names });
        proof {
            lemma_object_members(ms);
            assert(members_model(ms@) =~= core_capability_json(*self)->Object_0);
        }
        Json::Object(ms)
    }
}

/// The capabilities object of the session resource.
pub struct ServerCapabilities {
    pub core: CoreCapability,
}

/// The capabilities of one account; none are defined yet.
pub struct AccountCapabilities {}


/// The 32 lower-case hexadecimal digits of `id`, most significant first.
pub open spec fn hex32(id: u128) -> Seq<char> {
    Seq::new(
        32,
        |i: int| hex_digit(((id as int / vstd::arithmetic::power::pow(16, (31 - i) as nat)) % 16) as u8),
    )
}

/// The hyphenated text of a UUID: 8, 4, 4, 4 and 12 digits.
pub open spec fn uuid_text_of(id: u128) -> Seq<char> {
    let h = hex32(id);
    h.subrange(0, 8) + seq!['-'] + h.subrange(8, 12) + seq!['-'] + h.subrange(12, 16) + seq!['-']
        + h.subrange(16, 20) + seq!['-'] + h.subrange(20, 32)
}

/// Relies on `Uuid::from_u128` and the `Display` of `uuid::Uuid`: the
/// hyphenated lower-case form of the big-endian value.
#[verifier::external_body]
fn uuid_text(id: u128) -> (r: String)
    ensures
        r@ == uuid_text_of(id),
{
    uuid::Uuid::from_u128(id).to_string()
}

/// The URLs a session advertises, fixed at startup.
pub struct SessionUrls {
    pub api_url: String,
    pub download_url: String,
    pub upload_url: String,
    pub event_source_url: String,
}

/// An account as the session resource lists it.
pub open spec fn account_json(a: AccountView) -> JsonView {
    JsonView::Object(
        seq![
            MemberView { key: "name"@, value: JsonView::Str(a.name) },
            MemberView { key: "isPersonal"@, value: JsonView::Bool(a.is_personal) },
            MemberView { key: "isReadOnly"@, value: JsonView::Bool(a.is_read_only) },
            MemberView { key: "accountCapabilities"@, value: JsonView::Object(Seq::empty()) },
        ],
    )
}

/// The session resource: the capabilities, the user's accounts by id, no
/// primary accounts, the username, the URLs, and the state.
pub open spec fn session_json(
    capabilities: Seq<(Seq<char>, JsonView)>,
    accounts: Seq<AccountView>,
    username: Seq<char>,
    urls: SessionUrls,
    state: nat,
) -> JsonView {
    JsonView::Object(
        seq![
            MemberView {
                key: "capabilities"@,
                value: JsonView::Object(
                    Seq::new(
                        capabilities.len(),
                        |i: int| MemberView { key: capabilities[i].0, value: capabilities[i].1 },
                    ),
                ),
            },
            MemberView {
                key: "accounts"@,
                value: JsonView::Object(
                    Seq::new(
                        accounts.len(),
                        |i: int| MemberView {
                            key: uuid_text_of(accounts[i].id),
                            value: account_json(accounts[i]),
                        },
                    ),
                ),
            },
            MemberView { key: "primaryAccounts"@, value: JsonView::Object(Seq::empty()) },
            MemberView { key: "username"@, value: JsonView::Str(username) },
            MemberView { key: "apiUrl"@, value: JsonView::Str(urls.api_url@) },
            MemberView { key: "downloadUrl"@, value: JsonView::Str(urls.download_url@) },
            MemberView { key: "uploadUrl"@, value: JsonView::Str(urls.upload_url@) },
            MemberView { key: "eventSourceUrl"@, value: JsonView::Str(urls.event_source_url@) },
            MemberView { key: "state"@, value: JsonView::Str(decimal_digits(state)) },
        ],
    )
}

fn empty_object() -> (r: Json)
    ensures
        r@ == JsonView::Object(Seq::empty()),
{
    let ms: Vec<Member> = Vec::new();
    proof {
        lemma_object_members(ms);
        assert(members_model(ms@) =~= Seq::empty());
    }
    Json::Object(ms)
}

fn account_member(a: &Account) -> (r: Member)
    ensures
        r@ == (MemberView { key: uuid_text_of(a@.id), value: account_json(a@) }),
{
    let mut ms: Vec<Member> = Vec::new();
    ms.push(Member { key: String::from_str("name"), value: Json::Str(a.name.clone()) });
    ms.push(Member { key: String::from_str("isPersonal"), value: Json::Bool(a.is_personal) });
    ms.push(Member { key: String::from_str("isReadOnly"), value: Json::Bool(a.is_read_only) });
    ms.push(Member { key: String::from_str("accountCapabilities"), value: empty_object() });
    proof {
        lemma_object_members(ms);
        assert(members_model(ms@) =~= account_json(a@)->Object_0);
    }
    Member { key: uuid_text(a.id), value: Json::Object(ms) }
}

/// The session resource for the user called `username`; `None` where no
/// such user exists.
pub fn get(store: &Store, registry: &ExtensionRegistry, urls: &SessionUrls, username: &str) -> (r:
    Option<Json>)
    requires
        store.wf(),
    ensures
        user_by_username(store@, username@) is None ==> r is None,
        user_by_username(store@, username@) matches Some(u) ==> (r is Some && exists|
            accounts: Seq<AccountView>,
        |
            #[trigger] lists_accounts_of(store@, u.id, accounts) && r->Some_0@ == session_json(
                session_capabilities(registry.core.core_capabilities),
                accounts,
                username@,
                *urls,
                counter_of(store@, u.id),
            )),
{
    let user = match store.get_by_username(username) {
        Some(u) => u,
        None => return None,
    };
    let id = user.id();
    let caps = registry.build_session_capabilities(id);
    let ghost caps_model = Seq::new(caps@.len(), |i: int| (caps@[i].0@, caps@[i].1@));
    let mut cap_members: Vec<Member> = Vec::new();
    let mut i: usize = 0;
    while i < caps.len()
        invariant
            caps_model == Seq::new(caps@.len(), |k: int| (caps@[k].0@, caps@[k].1@)),
            i <= caps.len(),
            cap_members@.len() == i,
            forall|k: int|
                0 <= k < i ==> (#[trigger] cap_members@[k])@ == (MemberView {
                    key: caps_model[k].0,
                    value: caps_model[k].1,
                }),
        decreases caps.len() - i,
    {
        cap_members.push(Member { key: caps[i].0.clone(), value: caps[i].1.copy() });
        i = i + 1;
    }
    proof {
        lemma_object_members(cap_members);
        assert(members_model(cap_members@) =~= Seq::new(
            caps_model.len(),
            |k: int| MemberView { key: caps_model[k].0, value: caps_model[k].1 },
        ));
    }
    let accounts = store.get_accounts_for_user(id);
    let ghost accounts_model = Seq::new(accounts@.len(), |k: int| accounts@[k]@);
    assert(lists_accounts_of(store@, id, accounts_model));
    let mut account_members: Vec<Member> = Vec::new();
    let mut j: usize = 0;
    while j < accounts.len()
        invariant
            accounts_model == Seq::new(accounts@.len(), |k: int| accounts@[k]@),
            j <= accounts.len(),
            account_members@.len() == j,
            forall|k: int|
                0 <= k < j ==> (#[trigger] account_members@[k])@ == (MemberView {
                    key: uuid_text_of(accounts_model[k].id),
                    value: account_json(accounts_model[k]),
                }),
        decreases accounts.len() - j,
    {
        account_members.push(account_member(&accounts[j]));
        j = j + 1;
    }
    proof {
        lemma_object_members(account_members);
        assert(members_model(account_members@) =~= Seq::new(
            accounts_model.len(),
            |k: int| MemberView {
                key: uuid_text_of(accounts_model[k].id),
                value: account_json(accounts_model[k]),
            },
        ));
    }
    let state = store.fetch_seq_number_for_user(id);
    let mut ms: Vec<Member> = Vec::new();
    ms.push(Member { key: String::from_str("capabilities"), value: Json::Object(cap_members) });
    ms.push(Member { key: String::from_str("accounts"), value: Json::Object(account_members) });
    ms.push(Member { key: String::from_str("primaryAccounts"), value: empty_object() });
    ms.push(Member { key: String::from_str("username"), value: Json::Str(String::from_str(username)) });
    ms.push(Member { key: String::from_str("apiUrl"), value: Json::Str(urls.api_url.clone()) });
    ms.push(Member { key: String::from_str("downloadUrl"), value: Json::Str(urls.download_url.clone()) });
    ms.push(Member { key: String::from_str("uploadUrl"), value: Json::Str(urls.upload_url.clone()) });
    ms.push(
        Member { key: String::from_str("eventSourceUrl"), value: Json::Str(urls.event_source_url.clone()) },
    );
    ms.push(Member { key: String::from_str("state"), value: Json::Str(decimal_text(state)) });
    let r = Json::Object(ms);
    proof {
        lemma_object_members(ms);
        let expected = session_json(
            session_capabilities(registry.core.core_capabilities),
            accounts_model,
            username@,
            *urls,
            counter_of(store@, id),
        );
        assert(members_model(ms@) =~= expected->Object_0);
        assert(lists_accounts_of(store@, id, accounts_model) && r@ == expected);
        assert(user_by_username(store@, username@) == Some(user@));
        assert(user_by_username(store@, username@) matches Some(u) ==> (exists|
            accounts: Seq<AccountView>,
        |
            #[trigger] lists_accounts_of(store@, u.id, accounts) && r@ == session_json(
                session_capabilities(registry.core.core_capabilities),
                accounts,
                username@,
                *urls,
                counter_of(store@, u.id),
            )));
    }
    Some(r)
}

} // verus!
