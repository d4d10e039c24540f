use kv_storage::capability::{
    Backend, Deserializer, Fallible, HasKey, Read, Remove, Serializer, Write,
};
use kv_storage::codec::Bincode;
use kv_storage::item::{absent, Item};
use kv_storage::map::StoreMap;
use kv_storage::memory::{Infallible, MemoryRepo};
use kv_storage::storage::{MutStorage, Storage};
use kv_storage::store::{Error, GenericStorage, KvStore};

type Store = KvStore<Bincode, MemoryRepo>;

#[derive(Debug, PartialEq)]
struct Down;

/// A repo whose every operation fails.
struct DownRepo;

impl Fallible for DownRepo {
    type Error = Down;
}

impl Backend for DownRepo {}

impl Read for DownRepo {
    fn read(&self, _key: &[u8]) -> Result<Option<Vec<u8>>, Down> {
        Err(Down)
    }
}

impl HasKey for DownRepo {
    fn has_key(&self, _key: &[u8]) -> Result<bool, Down> {
        Err(Down)
    }
}

impl Write for DownRepo {
    fn write(&mut self, _key: &[u8], _bytes: &[u8]) -> Result<(), Down> {
        Err(Down)
    }
}

impl Remove for DownRepo {
    fn remove(&mut self, _key: &[u8]) -> Result<(), Down> {
        Err(Down)
    }
}

#[derive(Debug, PartialEq)]
struct Refused(u128);

/// A serializer that refuses every number, and says which.
#[derive(Default)]
struct Refusing;

impl Fallible for Refusing {
    type Error = Refused;
}

impl Serializer<u128> for Refusing {
    fn serialize(&mut self, item: &u128) -> Result<&[u8], Refused> {
        Err(Refused(*item))
    }
}

impl Deserializer<u128> for Refusing {
    fn deserialize(bytes: Vec<u8>) -> Result<u128, Refused> {
        Err(Refused(bytes.len() as u128))
    }
}

#[test]
fn text_under_a_pair_of_texts() {
    let map: StoreMap<1024, (&str, &str), String> = StoreMap::new(b"texts::");
    let mut store = Store::default();
    map.save(&mut store, &("alice", "bob"), &"hello".to_owned())
        .unwrap();
    assert_eq!(
        map.may_load(&store, &("alice", "bob")).unwrap(),
        Some("hello".to_owned())
    );
    assert_eq!(map.may_load(&store, &("alice", "cob")).unwrap(), None);
}

#[test]
fn slot_is_absent_then_saved_then_cleared() {
    let item: Item<u128> = Item::new(b"total_balance");
    let mut store = Store::default();
    assert_eq!(item.may_load(&store).unwrap(), None);
    item.save(&mut store, &500).unwrap();
    assert_eq!(item.may_load(&store).unwrap(), Some(500));
    item.clear(&mut store).unwrap();
    assert_eq!(item.may_load(&store).unwrap(), None);
}

#[test]
fn save_then_load_round_trips() {
    let numbers: StoreMap<16, u64, u128> = StoreMap::new(b"n::");
    let texts: StoreMap<16, (u8, String), String> = StoreMap::new(b"t::");
    let mut store = Store::default();
    for (key, value) in [(0u64, 0u128), (1, u128::MAX), (u64::MAX, 1 << 100), (7, 500)] {
        numbers.save(&mut store, &key, &value).unwrap();
        assert_eq!(numbers.may_load(&store, &key).unwrap(), Some(value));
    }
    for (key, value) in [
        ((1u8, "a".to_owned()), "".to_owned()),
        ((2, "b".to_owned()), "hello".to_owned()),
        ((3, "".to_owned()), "h\u{e9}llo \u{1f980}".to_owned()),
    ] {
        texts.save(&mut store, &key, &value).unwrap();
        assert_eq!(texts.may_load(&store, &key).unwrap(), Some(value));
    }
    // the first values are still there
    assert_eq!(numbers.may_load(&store, &0).unwrap(), Some(0));
    assert_eq!(numbers.may_load(&store, &7).unwrap(), Some(500));
}

#[test]
fn resave_replaces_the_value() {
    let item: Item<String> = Item::new(b"slot");
    let mut store = Store::default();
    item.save(&mut store, &"a long first value".to_owned()).unwrap();
    item.save(&mut store, &"second".to_owned()).unwrap();
    assert_eq!(item.may_load(&store).unwrap(), Some("second".to_owned()));
}

#[test]
fn remove_of_absent_key_succeeds() {
    let map: StoreMap<8, &str, u128> = StoreMap::new(b"m::");
    let mut store = Store::default();
    assert!(!map.has_key(&store, &"k").unwrap());
    map.remove(&mut store, &"k").unwrap();
    assert!(!map.has_key(&store, &"k").unwrap());
    map.remove(&mut store, &"k").unwrap();
    assert!(!map.has_key(&store, &"k").unwrap());
}

#[test]
fn key_exists_from_save_until_remove() {
    let map: StoreMap<8, &str, u128> = StoreMap::new(b"m::");
    let mut store = Store::default();
    assert!(!map.has_key(&store, &"k").unwrap());
    map.save(&mut store, &"k", &1).unwrap();
    assert!(map.has_key(&store, &"k").unwrap());
    assert!(!map.has_key(&store, &"other").unwrap());
    map.save(&mut store, &"k", &2).unwrap();
    assert!(map.has_key(&store, &"k").unwrap());
    map.remove(&mut store, &"k").unwrap();
    assert!(!map.has_key(&store, &"k").unwrap());
    assert_eq!(map.may_load(&store, &"k").unwrap(), None);
    map.save(&mut store, &"k", &3).unwrap();
    assert!(map.has_key(&store, &"k").unwrap());
    assert_eq!(map.may_load(&store, &"k").unwrap(), Some(3));
}

#[test]
fn inline_and_allocated_keys_reach_the_same_slots() {
    let small: StoreMap<4, (&str, &str), String> = StoreMap::new(b"shared::");
    let large: StoreMap<1024, (&str, &str), String> = StoreMap::new(b"shared::");
    let mut store = Store::default();
    assert!(!small.key(&("alice", "bob")).inline());
    assert!(large.key(&("alice", "bob")).inline());
    small
        .save(&mut store, &("alice", "bob"), &"hello".to_owned())
        .unwrap();
    assert_eq!(
        large.may_load(&store, &("alice", "bob")).unwrap(),
        Some("hello".to_owned())
    );
    assert!(small.has_key(&store, &("alice", "bob")).unwrap());
    large.remove(&mut store, &("alice", "bob")).unwrap();
    assert!(!small.has_key(&store, &("alice", "bob")).unwrap());
    assert_eq!(small.may_load(&store, &("alice", "bob")).unwrap(), None);
}

#[test]
fn map_key_is_prefix_then_key() {
    let map: StoreMap<64, (&str, u16), u128> = StoreMap::new(b"ns::balances::");
    let key = map.key(&("alice", 0x0102));
    assert_eq!(key.as_ref(), &b"ns::balances::alice:\x01\x02"[..]);
}

#[test]
fn item_uses_its_key_verbatim() {
    let item: Item<u128> = Item::new(b"ns::total");
    let mut store = Store::default();
    item.save(&mut store, &9).unwrap();
    assert_eq!(
        store.repo().read(b"ns::total").unwrap(),
        Some(9u128.to_le_bytes().to_vec())
    );
    assert!(!item.is_empty(&store).unwrap());
    item.clear(&mut store).unwrap();
    assert!(item.is_empty(&store).unwrap());
    assert_eq!(store.repo().read(b"ns::total").unwrap(), None);
}

#[test]
fn item_copies_share_the_slot() {
    let item: Item<u128> = Item::new(b"slot");
    let copy = item;
    let clone = item.clone();
    let mut store = Store::default();
    item.save(&mut store, &4).unwrap();
    assert_eq!(copy.may_load(&store).unwrap(), Some(4));
    assert_eq!(clone.may_load(&store).unwrap(), Some(4));
    let map: StoreMap<8, u8, u128> = StoreMap::new(b"m");
    let other = map;
    map.save(&mut store, &1, &5).unwrap();
    assert_eq!(other.clone().may_load(&store, &1).unwrap(), Some(5));
}

#[test]
fn undecodable_value_is_a_serde_error() {
    let item: Item<u128> = Item::new(b"slot");
    let mut store = Store::default();
    store.mut_repo().write(b"slot", &[1, 2, 3]).unwrap();
    assert!(matches!(item.may_load(&store), Err(Error::Serde(_))));
    assert!(!item.is_empty(&store).unwrap());

    let text: Item<String> = Item::new(b"text");
    store
        .mut_repo()
        .write(b"text", &[1, 0, 0, 0, 0, 0, 0, 0, 0xff])
        .unwrap();
    assert!(matches!(text.may_load(&store), Err(Error::Serde(_))));
}

#[test]
fn repo_failure_is_a_repo_error() {
    let item: Item<u128> = Item::new(b"slot");
    let mut store: KvStore<Bincode, DownRepo> = KvStore::new(Bincode::new(), DownRepo);
    assert!(matches!(item.may_load(&store), Err(Error::Repo(Down))));
    assert!(matches!(item.is_empty(&store), Err(Error::Repo(Down))));
    assert!(matches!(item.save(&mut store, &1), Err(Error::Repo(Down))));
    assert!(matches!(item.clear(&mut store), Err(Error::Repo(Down))));
    assert!(matches!(store.has_key(b"slot"), Err(Error::Repo(Down))));
}

#[test]
fn error_tags_keep_the_cause() {
    let tagged: Result<u8, Error<&str, u32>> = Error::from_serde(Err("bad"));
    assert!(matches!(tagged, Err(Error::Serde("bad"))));
    let tagged: Result<u8, Error<&str, u32>> = Error::from_repo(Err(7));
    assert!(matches!(tagged, Err(Error::Repo(7))));
    let passed: Result<u8, Error<&str, u32>> = Error::from_serde(Ok(1));
    assert!(matches!(passed, Ok(1)));
    let passed: Result<u8, Error<&str, u32>> = Error::from_repo(Ok(2));
    assert!(matches!(passed, Ok(2)));
}

#[test]
fn loaded_decodes_what_was_read() {
    let absent: Result<Option<u128>, _> = Store::loaded(Ok(None));
    assert!(matches!(absent, Ok(None)));
    let present: Result<Option<u128>, _> = Store::loaded(Ok(Some(5u128.to_le_bytes().to_vec())));
    assert!(matches!(present, Ok(Some(5))));
    let short: Result<Option<u128>, _> = Store::loaded(Ok(Some(vec![5])));
    assert!(matches!(short, Err(Error::Serde(_))));
    let failed: Result<Option<u128>, _> = Store::loaded(Err(Infallible));
    assert!(matches!(failed, Err(Error::Repo(Infallible))));
}

#[test]
fn store_hands_out_its_parts() {
    let mut repo = MemoryRepo::new();
    repo.write(b"k", b"v").unwrap();
    let mut store: Store = KvStore::new(Bincode::new_with_capacity(64), repo);
    assert_eq!(store.repo().read(b"k").unwrap(), Some(b"v".to_vec()));
    store.mut_repo().remove(b"k").unwrap();
    assert!(!store.repo().has_key(b"k").unwrap());
    assert!(!store.has_key(b"k").unwrap());
    let _serde: &Bincode = store.serde();
    *store.mut_serde() = Bincode::new_with_buffer(vec![1, 2, 3]);
    store.save(b"n", &1u128).unwrap();
    assert_eq!(store.may_load::<u128>(b"n").unwrap(), Some(1));
}

#[test]
fn store_from_repo_keeps_the_repo() {
    let mut repo = MemoryRepo::default();
    repo.write(b"k", &7u128.to_le_bytes()).unwrap();
    let store: Store = KvStore::from_repo(repo);
    assert_eq!(store.may_load::<u128>(b"k").unwrap(), Some(7));
}

fn load<S: Storage>(store: S, item: &Item<u128>) -> Option<u128>
where
    S::Serde: Deserializer<u128>,
    S::Error: std::fmt::Debug,
{
    item.may_load(&store).unwrap()
}

fn save<S: MutStorage>(mut store: S, item: &Item<u128>, value: u128)
where
    S::Serde: Serializer<u128>,
    S::Error: std::fmt::Debug,
{
    item.save(&mut store, &value).unwrap();
    assert!(store.has_key(b"slot").unwrap());
    store.remove(b"gone").unwrap();
}

#[test]
fn references_to_a_store_are_stores() {
    let item: Item<u128> = Item::new(b"slot");
    let mut store = Store::default();
    save(&mut store, &item, 11);
    assert_eq!(load(&store, &item), Some(11));
    assert_eq!(load(&mut store, &item), Some(11));
    assert!((&store).has_key(b"slot").unwrap());
    assert!((&mut store).has_key(b"slot").unwrap());
    assert_eq!((&store).may_load::<u128>(b"slot").unwrap(), Some(11));
}

#[test]
fn memory_repo_holds_what_was_written() {
    let mut repo = MemoryRepo::new();
    assert_eq!(repo.read(b"a").unwrap(), None);
    assert!(!repo.has_key(b"a").unwrap());
    repo.write(b"a", b"1").unwrap();
    repo.write(b"b", b"2").unwrap();
    repo.write(b"", b"empty key").unwrap();
    repo.write(b"ab", b"").unwrap();
    assert_eq!(repo.read(b"a").unwrap(), Some(b"1".to_vec()));
    assert_eq!(repo.read(b"b").unwrap(), Some(b"2".to_vec()));
    assert_eq!(repo.read(b"").unwrap(), Some(b"empty key".to_vec()));
    assert_eq!(repo.read(b"ab").unwrap(), Some(vec![]));
    assert!(repo.has_key(b"ab").unwrap());
    repo.write(b"a", b"3").unwrap();
    assert_eq!(repo.read(b"a").unwrap(), Some(b"3".to_vec()));
    assert_eq!(repo.read(b"b").unwrap(), Some(b"2".to_vec()));
    repo.remove(b"a").unwrap();
    assert_eq!(repo.read(b"a").unwrap(), None);
    assert_eq!(repo.read(b"b").unwrap(), Some(b"2".to_vec()));
    assert_eq!(repo.read(b"ab").unwrap(), Some(vec![]));
    repo.remove(b"a").unwrap();
    repo.remove(b"never").unwrap();
    assert!(repo.has_key(b"b").unwrap());
    assert!(repo.has_key(b"").unwrap());
}

#[test]
fn serializer_failure_is_a_serde_error_with_its_cause() {
    let item: Item<u128> = Item::new(b"slot");
    let mut repo = MemoryRepo::new();
    repo.write(b"slot", b"old").unwrap();
    let mut store: KvStore<Refusing, MemoryRepo> = KvStore::new(Refusing, repo);
    assert!(matches!(
        item.save(&mut store, &41),
        Err(Error::Serde(Refused(41)))
    ));
    // nothing was written
    assert_eq!(store.repo().read(b"slot").unwrap(), Some(b"old".to_vec()));
    assert!(matches!(
        store.save(b"other", &7u128),
        Err(Error::Serde(Refused(7)))
    ));
    assert!(!store.has_key(b"other").unwrap());
}

#[test]
fn deserializer_failure_is_a_serde_error_with_its_cause() {
    let item: Item<u128> = Item::new(b"slot");
    let mut repo = MemoryRepo::new();
    repo.write(b"slot", b"five!").unwrap();
    let store: KvStore<Refusing, MemoryRepo> = KvStore::new(Refusing, repo);
    assert!(matches!(
        item.may_load(&store),
        Err(Error::Serde(Refused(5)))
    ));
    assert!(matches!(item.may_load(&&store), Err(Error::Serde(Refused(5)))));
}

#[test]
fn decoded_tags_the_deserializers_outcome() {
    let found: Result<Option<u128>, _> = KvStore::<Refusing, MemoryRepo>::decoded(Ok(3));
    assert!(matches!(found, Ok(Some(3))));
    let failed: Result<Option<u128>, _> =
        KvStore::<Refusing, MemoryRepo>::decoded(Err(Refused(9)));
    assert!(matches!(failed, Err(Error::Serde(Refused(9)))));
}

#[test]
fn stored_writes_what_was_serialized() {
    let mut repo = MemoryRepo::new();
    let done = KvStore::<Refusing, MemoryRepo>::stored(&mut repo, b"k", Ok(b"bytes"));
    assert!(done.is_ok());
    assert_eq!(repo.read(b"k").unwrap(), Some(b"bytes".to_vec()));
    let failed = KvStore::<Refusing, MemoryRepo>::stored(&mut repo, b"k", Err(Refused(1)));
    assert!(matches!(failed, Err(Error::Serde(Refused(1)))));
    assert_eq!(repo.read(b"k").unwrap(), Some(b"bytes".to_vec()));
    let mut down = DownRepo;
    let failed = KvStore::<Refusing, DownRepo>::stored(&mut down, b"k", Ok(b"bytes"));
    assert!(matches!(failed, Err(Error::Repo(Down))));
}

#[test]
fn absent_negates_and_passes_failures_on() {
    assert_eq!(absent::<Down>(Ok(true)), Ok(false));
    assert_eq!(absent::<Down>(Ok(false)), Ok(true));
    assert_eq!(absent(Err(Down)), Err(Down));
}

#[test]
fn store_from_repo_keeps_what_the_repo_holds() {
    let mut repo = MemoryRepo::new();
    repo.write(b"k", &500u128.to_le_bytes()).unwrap();
    repo.write(b"other", b"x").unwrap();
    let store: Store = KvStore::from_repo(repo);
    assert!(store.has_key(b"k").unwrap());
    assert_eq!(store.may_load::<u128>(b"k").unwrap(), Some(500));
    assert_eq!(store.repo().read(b"other").unwrap(), Some(b"x".to_vec()));
}

#[test]
fn generic_storage_loads_what_it_saved() {
    let mut store: GenericStorage<Bincode, MemoryRepo> = GenericStorage::default();
    assert!(!store.has_key(b"k").unwrap());
    assert_eq!(store.may_load::<u128>(b"k").unwrap(), None);
    store.save(b"k", &500u128).unwrap();
    store.save(b"t", &"hello".to_owned()).unwrap();
    assert!(store.has_key(b"k").unwrap());
    assert_eq!(store.may_load::<u128>(b"k").unwrap(), Some(500));
    assert_eq!(store.may_load::<String>(b"t").unwrap(), Some("hello".to_owned()));
    assert!(matches!(
        store.may_load::<u128>(b"t"),
        Err(Error::Serde(_))
    ));
    let item: Item<u128> = Item::new(b"k");
    assert_eq!(item.may_load(&store).unwrap(), Some(500));
    assert!(!item.is_empty(&store).unwrap());

    let mut failing: GenericStorage<Refusing, MemoryRepo> = GenericStorage::default();
    assert!(matches!(
        failing.save(b"k", &3u128),
        Err(Error::Serde(Refused(3)))
    ));
    assert!(!failing.has_key(b"k").unwrap());
}
