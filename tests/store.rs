use jogre::config::CoreCapabilities;
use jogre::extensions::ExtensionRegistry;
use jogre::json::Json;
use jogre::session::{get, SessionUrls};
use jogre::merge::{increment_be, rocksdb_merger, MergeOperation};
use jogre::store::{
    create_root_if_none_exists, Account, AccountAccessLevel, Error, Store, StoreConfig, User,
};

const SALT: &str = "c2FsdHNhbHRzYWx0";

fn user(name: &str, id: u128) -> User {
    User::new(name.to_string(), "pw", SALT, id).expect("a valid salt")
}

#[test]
fn empty_store_has_no_users() {
    let store = Store::from_config(StoreConfig::Memory);
    assert!(!store.has_any_users());
    assert_eq!(store.fetch_seq_number_for_user(1), 0);
    assert!(store.get_by_username("root").is_none());
    assert!(store.get_accounts_for_user(1).is_empty());
}

#[test]
fn users_are_found_by_username() {
    let mut store = Store::new();
    store.create_user(user("alice", 1));
    store.create_user(user("bob", 2));
    assert!(store.has_any_users());
    let found = store.get_by_username("bob").unwrap();
    assert_eq!(found.id(), 2);
    assert_eq!(found.username(), "bob");
    assert!(store.get_by_username("carol").is_none());
}

#[test]
fn rewriting_a_user_replaces_it() {
    let mut store = Store::new();
    store.create_user(user("alice", 1));
    store.create_user(User::new("alice".to_string(), "other", SALT, 1).unwrap());
    let found = store.get_by_username("alice").unwrap();
    assert!(found.verify_password("other"));
    assert!(!found.verify_password("pw"));
}

#[test]
fn password_verification() {
    let u = user("alice", 1);
    assert!(u.verify_password("pw"));
    assert!(!u.verify_password("wrong"));
    assert!(u.credential().starts_with("$argon2id$"));
    assert_ne!(u.credential(), "pw");
    let stored = User::from_parts(1, "alice".to_string(), "not a hash".to_string());
    assert!(!stored.verify_password("pw"));
}

#[test]
fn invalid_salt_is_refused() {
    assert!(User::new("alice".to_string(), "pw", "", 1).is_none());
    assert!(User::new("alice".to_string(), "pw", "not base64!", 1).is_none());
}

#[test]
fn accounts_follow_their_links() {
    let mut store = Store::new();
    store.create_user(user("alice", 1));
    store.create_account(Account::new("home".to_string(), true, false, 10));
    store.create_account(Account::new("shared".to_string(), false, true, 11));
    store.create_account(Account::new("other".to_string(), false, false, 12));
    store.attach_account_to_user(10, 1, AccountAccessLevel::Owner).unwrap();
    store.attach_account_to_user(11, 1, AccountAccessLevel::Owner).unwrap();
    store.attach_account_to_user(12, 2, AccountAccessLevel::Owner).unwrap();
    store.attach_account_to_user(99, 1, AccountAccessLevel::Owner).unwrap();
    let accounts = store.get_accounts_for_user(1);
    let names: Vec<&str> = accounts.iter().map(|a| a.name.as_str()).collect();
    assert_eq!(names, vec!["home", "shared"]);
    assert!(accounts[1].is_read_only);
    assert_eq!(store.fetch_seq_number_for_user(1), 3);
    assert_eq!(store.fetch_seq_number_for_user(2), 1);
}

#[test]
fn counter_keeps_every_increment() {
    let mut store = Store::new();
    for _ in 0..5 {
        store.increment_seq_number_for_user(4).unwrap();
    }
    let start = store.fetch_seq_number_for_user(4);
    assert_eq!(start, 5);
    for _ in 0..1000 {
        store.increment_seq_number_for_user(4).unwrap();
    }
    assert_eq!(store.fetch_seq_number_for_user(4), start + 1000);
    assert_eq!(store.fetch_seq_number_for_user(5), 0);
}

#[test]
fn bootstrap_runs_once() {
    let mut store = Store::new();
    assert!(!store.has_any_users());
    let bytes: Vec<u8> = (0u8..32).collect();
    let password = create_root_if_none_exists(&mut store, &bytes, SALT, 100, 200)
        .unwrap()
        .expect("a root user was made");
    assert_eq!(password, "000102030405060708090a0b0c0d0e0f101112131415161718191a1b1c1d1e1f");
    assert!(store.has_any_users());
    let root = store.get_by_username("root").unwrap();
    assert_eq!(root.id(), 100);
    assert!(root.verify_password(&password));
    let accounts = store.get_accounts_for_user(100);
    assert_eq!(accounts.len(), 1);
    assert_eq!(accounts[0].name, "root");
    assert!(accounts[0].is_personal);
    assert!(!accounts[0].is_read_only);
    assert_eq!(store.fetch_seq_number_for_user(100), 1);

    let again = create_root_if_none_exists(&mut store, &vec![255u8; 32], SALT, 101, 201).unwrap();
    assert!(again.is_none());
    assert_eq!(store.get_by_username("root").unwrap().id(), 100);
    assert!(store.get_accounts_for_user(101).is_empty());
    assert_eq!(store.fetch_seq_number_for_user(100), 1);
}

#[test]
fn bootstrap_with_bad_salt_changes_nothing() {
    let mut store = Store::new();
    let r = create_root_if_none_exists(&mut store, &vec![1u8; 32], "", 1, 2);
    assert!(matches!(r, Err(Error::CredentialHash)));
    assert!(!store.has_any_users());
}

#[test]
fn parse_recognises_increment() {
    let (op, rest) = MergeOperation::parse(b"INCR");
    assert_eq!(op, Some(MergeOperation::Increment));
    assert!(rest.is_empty());
    let (op, rest) = MergeOperation::parse(b"DECR");
    assert_eq!(op, None);
    assert_eq!(rest, b"DECR");
    let (op, _) = MergeOperation::parse(b"INC");
    assert_eq!(op, None);
}

#[test]
fn merger_counts_from_absent_value() {
    let ops = vec![b"INCR".to_vec(), b"INCR".to_vec(), b"INCR".to_vec()];
    assert_eq!(rocksdb_merger(b"k", None, &ops), Some(vec![0, 0, 0, 0, 0, 0, 0, 3]));
    assert_eq!(rocksdb_merger(b"k", None, &[]), Some(vec![]));
    assert_eq!(rocksdb_merger(b"k", Some(&[]), &ops[..1]), Some(vec![0, 0, 0, 0, 0, 0, 0, 1]));
}

#[test]
fn merger_carries_between_bytes() {
    let ops = vec![b"INCR".to_vec()];
    let start = [0u8, 0, 0, 0, 0, 0, 0, 255];
    assert_eq!(rocksdb_merger(b"k", Some(&start), &ops), Some(vec![0, 0, 0, 0, 0, 0, 1, 0]));
    let start = [0u8, 0, 0, 0, 1, 255, 255, 255];
    assert_eq!(rocksdb_merger(b"k", Some(&start), &ops), Some(vec![0, 0, 0, 0, 2, 0, 0, 0]));
}

#[test]
fn merger_refuses_to_pass_the_top() {
    let ops = vec![b"INCR".to_vec(), b"INCR".to_vec()];
    assert_eq!(rocksdb_merger(b"k", Some(&[255u8; 8]), &ops[..1]), None);
    let almost = [255u8, 255, 255, 255, 255, 255, 255, 253];
    assert_eq!(rocksdb_merger(b"k", Some(&almost), &ops), Some(vec![255u8; 8]));
    let short = [255u8, 254];
    assert_eq!(rocksdb_merger(b"k", Some(&short), &ops), None);
}

#[test]
fn accounts_come_back_by_ascending_id() {
    let mut store = Store::new();
    store.create_user(user("alice", 1));
    store.create_account(Account::new("one".to_string(), true, false, 1));
    store.create_account(Account::new("two".to_string(), false, false, 2));
    store.create_account(Account::new("three".to_string(), false, false, 3));
    store.attach_account_to_user(3, 1, AccountAccessLevel::Owner).unwrap();
    store.attach_account_to_user(2, 1, AccountAccessLevel::Owner).unwrap();
    store.attach_account_to_user(1, 1, AccountAccessLevel::Owner).unwrap();
    store.attach_account_to_user(2, 1, AccountAccessLevel::Owner).unwrap();
    let ids: Vec<u128> = store.get_accounts_for_user(1).iter().map(|a| a.id).collect();
    assert_eq!(ids, vec![1, 2, 3]);
    assert_eq!(store.fetch_seq_number_for_user(1), 4);
}

#[test]
fn increment_keeps_width() {
    assert_eq!(increment_be(vec![1, 2]), vec![1, 3]);
    assert_eq!(increment_be(vec![255]), vec![0]);
    assert_eq!(increment_be(vec![]), Vec::<u8>::new());
}

#[test]
fn session_lists_accounts_by_uuid() {
    let mut store = Store::new();
    store.create_user(user("alice", 1));
    let id: u128 = 0x0123_4567_89ab_cdef_0123_4567_89ab_cdef;
    store.create_account(Account::new("home".to_string(), true, false, id));
    store.attach_account_to_user(id, 1, AccountAccessLevel::Owner).unwrap();
    let registry = ExtensionRegistry::new(CoreCapabilities::default());
    let urls = SessionUrls {
        api_url: "https://example.org/api/".to_string(),
        download_url: "https://example.org/download/".to_string(),
        upload_url: "https://example.org/upload/".to_string(),
        event_source_url: "https://example.org/eventsource/".to_string(),
    };
    assert!(get(&store, &registry, &urls, "bob").is_none());
    let session = get(&store, &registry, &urls, "alice").unwrap();
    let Json::Object(members) = session else { panic!("the session is an object") };
    let keys: Vec<&str> = members.iter().map(|m| m.key.as_str()).collect();
    assert_eq!(
        keys,
        vec![
            "capabilities",
            "accounts",
            "primaryAccounts",
            "username",
            "apiUrl",
            "downloadUrl",
            "uploadUrl",
            "eventSourceUrl",
            "state"
        ]
    );
    let Json::Object(accounts) = &members[1].value else { panic!("accounts is an object") };
    assert_eq!(accounts.len(), 1);
    assert_eq!(accounts[0].key, "01234567-89ab-cdef-0123-456789abcdef");
    let Json::Object(fields) = &accounts[0].value else { panic!("an account is an object") };
    assert!(matches!(&fields[0].value, Json::Str(name) if name == "home"));
    assert!(matches!(fields[1].value, Json::Bool(true)));
    assert!(matches!(fields[2].value, Json::Bool(false)));
    assert!(matches!(&members[3].value, Json::Str(name) if name == "alice"));
    assert!(matches!(&members[8].value, Json::Str(state) if state == "1"));
}
