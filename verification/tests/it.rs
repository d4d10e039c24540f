use kv_storage::balance::Balance;
use kv_storage::codec::Bincode;
use kv_storage::map::StoreMap;
use kv_storage::memory::MemoryRepo;
use kv_storage::store::KvStore;

#[test]
fn it_works() {
    let mut storage: KvStore<Bincode, MemoryRepo> = KvStore::default();

    assert!(!Balance::account_exists(&storage, "alice").unwrap());

    let mut alice = Balance::load_account(&storage, "alice").unwrap();

    assert_eq!(alice.balance(), 0);
    assert_eq!(alice.total(), 0);

    alice
        .deposit(1000)
        .unwrap()
        .withdraw(500)
        .unwrap()
        .save(&mut storage)
        .unwrap();

    assert_eq!(
        Balance::load_account(&storage, "alice").unwrap().balance(),
        500
    );

    assert_eq!(Balance::load_total(&storage).unwrap(), 500);
}

#[test]
fn composite_keys_work() {
    let double: StoreMap<1024, (&str, &str), String> = StoreMap::new(b"it::test::double_key::");
    let triple: StoreMap<1024, (&str, &str, &str), String> =
        StoreMap::new(b"it::test::triple_key::");

    let mut storage: KvStore<Bincode, MemoryRepo> = KvStore::default();

    double
        .save(&mut storage, &("alice", "bob"), &"hello".to_owned())
        .unwrap();

    triple
        .save(&mut storage, &("alice", "bob", "eve"), &"hello".to_owned())
        .unwrap();

    assert_eq!(
        double
            .may_load(&storage, &("alice", "bob"))
            .unwrap()
            .unwrap(),
        "hello"
    );

    assert_eq!(
        triple
            .may_load(&storage, &("alice", "bob", "eve"))
            .unwrap()
            .unwrap(),
        "hello"
    );
}
