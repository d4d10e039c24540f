//! Account balances kept in a store: one balance for each account, and their total.

use vstd::prelude::*;
use vstd::utf8::{encode_utf8, encode_utf8_decode_utf8, is_ascii_chars, is_ascii_chars_encode_utf8};
use crate::capability::{Deserializer, Serializer};
use crate::codec::{lemma_number_round_trip, number_bytes, Bincode};
use crate::distinct::lemma_composed_distinct;
use crate::key::composed;
use crate::item::Item;
use crate::map::StoreMap;
use crate::storage::{undecodable, MutStorage, Storage};

verus! {

/// Why an operation on a balance failed.
#[derive(Debug)]
pub enum Error<S = ()> {
    /// The store failed.
    Storage(S),
    /// The item is not there.
    NotFound,
    /// The balance is less than the amount to withdraw.
    InsufficientFunds,
    /// The balance or the total would exceed what a number can hold.
    BalanceOverflow,
}

/// The balance of one account and the total of all balances, as loaded or as changed
/// since.
pub struct Balance<'a> {
    account: &'a str,
    total: u128,
    balance: u128,
}

/// A value that was changed and waits to be saved.
#[must_use]
pub struct Modified<T>(T);

/// A balance that was changed and waits to be saved.
pub type ModifiedBalance<'a> = Modified<&'a mut Balance<'a>>;

impl<T> Modified<T> {
    /// The value that was changed.
    pub closed spec fn inner(&self) -> T {
        self.0
    }
}

impl<'a> Balance<'a> {
    /// The name of the account.
    pub closed spec fn account(&self) -> Seq<char> {
        self.account@
    }

    /// The total of all balances.
    pub closed spec fn spec_total(&self) -> u128 {
        self.total
    }

    /// The balance of the account.
    pub closed spec fn spec_balance(&self) -> u128 {
        self.balance
    }

    /// The balance of the account.
    #[verifier::when_used_as_spec(spec_balance)]
    pub fn balance(&self) -> (balance: u128)
        ensures
            balance == self.spec_balance(),
    {
        self.balance
    }

    /// The total of all balances.
    #[verifier::when_used_as_spec(spec_total)]
    pub fn total(&self) -> (total: u128)
        ensures
            total == self.spec_total(),
    {
        self.total
    }

    /// Takes `amount` from the balance and from the total. Fails, and changes nothing,
    /// where the balance is less than `amount`. The total must cover what the balance
    /// covers.
    pub fn withdraw(&'a mut self, amount: u128) -> (result: Result<ModifiedBalance<'a>, Error>)
        requires
            amount <= old(self).spec_balance() ==> amount <= old(self).spec_total(),
        ensures
            match result {
                Ok(modified) => {
                    &&& amount <= old(self).spec_balance()
                    &&& modified.inner().account() == old(self).account()
                    &&& modified.inner().spec_balance() == old(self).spec_balance() - amount
                    &&& modified.inner().spec_total() == old(self).spec_total() - amount
                    &&& *final(self) == *final(modified.inner())
                },
                Err(cause) => {
                    &&& amount > old(self).spec_balance()
                    &&& cause is InsufficientFunds
                    &&& *final(self) == *old(self)
                },
            },
    {
        if amount > self.balance {
            return Err(Error::InsufficientFunds);
        }
        self.balance -= amount;
        self.total -= amount;
        Ok(Modified(self))
    }

    /// Adds `amount` to the balance and to the total. Fails, and changes nothing,
    /// where either would exceed what a number can hold.
    pub fn deposit(&'a mut self, amount: u128) -> (result: Result<ModifiedBalance<'a>, Error>)
        ensures
            match result {
                Ok(modified) => {
                    &&& modified.inner().account() == old(self).account()
                    &&& modified.inner().spec_balance() == old(self).spec_balance() + amount
                    &&& modified.inner().spec_total() == old(self).spec_total() + amount
                    &&& *final(self) == *final(modified.inner())
                },
                Err(cause) => {
                    &&& old(self).spec_balance() + amount > u128::MAX || old(self).spec_total()
                        + amount > u128::MAX
                    &&& cause is BalanceOverflow
                    &&& *final(self) == *old(self)
                },
            },
    {
        let balance = match self.balance.checked_add(amount) {
            Some(balance) => balance,
            None => { return Err(Error::BalanceOverflow); },
        };
        let total = match self.total.checked_add(amount) {
            Some(total) => total,
            None => { return Err(Error::BalanceOverflow); },
        };
        self.balance = balance;
        self.total = total;
        Ok(Modified(self))
    }
}

/// The prefix under which the balances lie.
pub open spec fn balances_prefix() -> Seq<u8> {
    encode_utf8("kv_storage::balance::balances::"@)
}

/// The key under which the total lies.
pub open spec fn total_key() -> Seq<u8> {
    encode_utf8("kv_storage::balance::total_balance"@)
}

/// The key under which the balance of `account` lies.
pub open spec fn balance_key(account: Seq<char>) -> Seq<u8> {
    composed(balances_prefix(), encode_utf8(account))
}

/// Whether the balance of `account` has a key that a buffer can hold.
pub open spec fn nameable(account: Seq<char>) -> bool {
    balance_key(account).len() <= isize::MAX
}

/// Whether `number` is what `key` holds in `entries`, or zero where the key is absent.
pub open spec fn holds_or_zero<D: Deserializer<u128>>(
    entries: Map<Seq<u8>, Seq<u8>>,
    key: Seq<u8>,
    number: u128,
) -> bool {
    if entries.contains_key(key) {
        D::decodes(entries[key], number)
    } else {
        number == 0
    }
}

/// The number that was found, or zero where none was.
fn or_zero(found: Option<u128>) -> (number: u128)
    ensures
        number == (match found {
            Some(number) => number,
            None => 0,
        }),
{
    match found {
        Some(number) => number,
        None => 0,
    }
}

impl<'a> Balance<'a> {
    /// The collection of balances, by account.
    fn balances() -> (map: StoreMap<1024, &'a str, u128>)
        ensures
            map.prefix() == balances_prefix(),
    {
        StoreMap::new("kv_storage::balance::balances::".as_bytes())
    }

    /// The slot of the total.
    fn total_slot() -> (item: Item<u128>)
        ensures
            item.key() == total_key(),
    {
        Item::new("kv_storage::balance::total_balance".as_bytes())
    }

    /// Saves the total, then the balance of the account.
    pub fn save<Store: MutStorage>(&self, store: &mut Store) -> (result: Result<
        (),
        Error<Store::Error>,
    >) where Store::Serde: Serializer<u128>
        requires
            nameable(self.account()),
        ensures
            result is Ok ==> (*final(store)).entries() == (*old(store)).entries().insert(
                total_key(),
                <Store::Serde as Serializer<u128>>::encoding(self.spec_total()),
            ).insert(
                balance_key(self.account()),
                <Store::Serde as Serializer<u128>>::encoding(self.spec_balance()),
            ),
            result matches Err(cause) ==> cause is Storage,
            Store::infallible() ==> result is Ok,
    {
        match Self::total_slot().save(store, &self.total) {
            Err(cause) => { return Err(Error::Storage(cause)); },
            Ok(()) => {},
        }
        match Self::balances().save(store, &self.account, &self.balance) {
            Err(cause) => Err(Error::Storage(cause)),
            Ok(()) => Ok(()),
        }
    }

    /// Whether `account` has a balance in the store.
    pub fn account_exists<Store: Storage>(store: &Store, account: &'a str) -> (result: Result<
        bool,
        Error<Store::Error>,
    >)
        requires
            nameable(account@),
        ensures
            match result {
                Ok(exists) => exists == store.entries().contains_key(balance_key(account@)),
                Err(cause) => cause is Storage,
            },
            Store::infallible() ==> result is Ok,
    {
        match Self::balances().has_key(store, &account) {
            Err(cause) => Err(Error::Storage(cause)),
            Ok(exists) => Ok(exists),
        }
    }

    /// The total of all balances: zero where none was saved.
    pub fn load_total<Store: Storage>(store: &Store) -> (result: Result<
        u128,
        Error<Store::Error>,
    >) where Store::Serde: Deserializer<u128>
        ensures
            match result {
                Ok(total) => holds_or_zero::<Store::Serde>(store.entries(), total_key(), total),
                Err(cause) => cause is Storage,
            },
            Store::infallible() ==> (result is Err <==> undecodable::<u128, Store::Serde>(
                store.entries(),
                total_key(),
            )),
    {
        match Self::total_slot().may_load(store) {
            Err(cause) => Err(Error::Storage(cause)),
            Ok(found) => Ok(or_zero(found)),
        }
    }

    /// The balance of `account` and the total: each zero where none was saved.
    pub fn load_account<Store: Storage>(store: &Store, account: &'a str) -> (result: Result<
        Balance<'a>,
        Error<Store::Error>,
    >) where Store::Serde: Deserializer<u128>
        requires
            nameable(account@),
        ensures
            match result {
                Ok(loaded) => {
                    &&& loaded.account() == account@
                    &&& holds_or_zero::<Store::Serde>(
                        store.entries(),
                        balance_key(account@),
                        loaded.spec_balance(),
                    )
                    &&& holds_or_zero::<Store::Serde>(
                        store.entries(),
                        total_key(),
                        loaded.spec_total(),
                    )
                },
                Err(cause) => cause is Storage,
            },
            Store::infallible() ==> (result is Err <==> undecodable::<u128, Store::Serde>(
                store.entries(),
                balance_key(account@),
            ) || undecodable::<u128, Store::Serde>(store.entries(), total_key())),
    {
        let maybe_balance = match Self::balances().may_load(store, &account) {
            Err(cause) => { return Err(Error::Storage(cause)); },
            Ok(found) => found,
        };
        let maybe_total = match Self::total_slot().may_load(store) {
            Err(cause) => { return Err(Error::Storage(cause)); },
            Ok(found) => found,
        };
        Ok(Balance { account, total: or_zero(maybe_total), balance: or_zero(maybe_balance) })
    }
}

impl<'a> std::ops::Deref for Modified<&'a mut Balance<'a>> {
    type Target = Balance<'a>;

    fn deref(&self) -> (balance: &Balance<'a>)
        ensures
            *balance == *self.inner(),
    {
        &*self.0
    }
}

impl<'a> Modified<&'a mut Balance<'a>> {
    /// Takes `amount` more from the balance: see [`Balance::withdraw`].
    pub fn withdraw(self, amount: u128) -> (result: Result<ModifiedBalance<'a>, Error>)
        requires
            amount <= self.inner().spec_balance() ==> amount <= self.inner().spec_total(),
        ensures
            match result {
                Ok(modified) => {
                    &&& amount <= self.inner().spec_balance()
                    &&& modified.inner().account() == self.inner().account()
                    &&& modified.inner().spec_balance() == self.inner().spec_balance() - amount
                    &&& modified.inner().spec_total() == self.inner().spec_total() - amount
                    &&& *final(self.inner()) == *final(modified.inner())
                },
                Err(cause) => {
                    &&& amount > self.inner().spec_balance()
                    &&& cause is InsufficientFunds
                    &&& *final(self.inner()) == *self.inner()
                },
            },
    {
        let balance = self.0;
        balance.withdraw(amount)
    }

    /// Adds `amount` more to the balance: see [`Balance::deposit`].
    pub fn deposit(self, amount: u128) -> (result: Result<ModifiedBalance<'a>, Error>)
        ensures
            match result {
                Ok(modified) => {
                    &&& modified.inner().account() == self.inner().account()
                    &&& modified.inner().spec_balance() == self.inner().spec_balance() + amount
                    &&& modified.inner().spec_total() == self.inner().spec_total() + amount
                    &&& *final(self.inner()) == *final(modified.inner())
                },
                Err(cause) => {
                    &&& self.inner().spec_balance() + amount > u128::MAX
                        || self.inner().spec_total() + amount > u128::MAX
                    &&& cause is BalanceOverflow
                    &&& *final(self.inner()) == *self.inner()
                },
            },
    {
        let balance = self.0;
        balance.deposit(amount)
    }

    /// Saves the changed balance and hands it back.
    pub fn save<Store: MutStorage>(self, store: &mut Store) -> (result: Result<
        &'a mut Balance<'a>,
        Error<Store::Error>,
    >) where Store::Serde: Serializer<u128>
        requires
            nameable(self.inner().account()),
        ensures
            result is Ok ==> (*final(store)).entries() == (*old(store)).entries().insert(
                total_key(),
                <Store::Serde as Serializer<u128>>::encoding(self.inner().spec_total()),
            ).insert(
                balance_key(self.inner().account()),
                <Store::Serde as Serializer<u128>>::encoding(self.inner().spec_balance()),
            ),
            match result {
                Ok(balance) => *balance == *self.inner() && *final(balance) == *final(self.inner()),
                Err(cause) => cause is Storage && *final(self.inner()) == *self.inner(),
            },
            Store::infallible() ==> result is Ok,
    {
        let balance = self.0;
        match balance.save(store) {
            Err(cause) => Err(cause),
            Ok(()) => Ok(balance),
        }
    }
}

/// The entries after the total and the balance of `account` were saved in the bincode
/// format.
pub open spec fn saved(
    before: Map<Seq<u8>, Seq<u8>>,
    account: Seq<char>,
    balance: u128,
    total: u128,
) -> Map<Seq<u8>, Seq<u8>> {
    before.insert(total_key(), number_bytes(total)).insert(
        balance_key(account),
        number_bytes(balance),
    )
}

/// The balance of an account never lies under the key of the total, and the balances
/// of two accounts never lie under one key.
pub proof fn lemma_keys_apart(account: Seq<char>, other: Seq<char>)
    ensures
        balance_key(account) != total_key(),
        balance_key(account) == balance_key(other) ==> account == other,
{
    let prefix = "kv_storage::balance::balances::"@;
    let total = "kv_storage::balance::total_balance"@;
    reveal_strlit("kv_storage::balance::balances::");
    reveal_strlit("kv_storage::balance::total_balance");
    assert(is_ascii_chars(prefix));
    assert(is_ascii_chars(total));
    is_ascii_chars_encode_utf8(prefix);
    is_ascii_chars_encode_utf8(total);
    assert(prefix[21] == 'b');
    assert(total[21] == 't');
    assert(balance_key(account)[21] == encode_utf8(prefix)[21]);
    assert(total_key()[21] == encode_utf8(total)[21]);
    if balance_key(account) == balance_key(other) {
        lemma_composed_distinct(balances_prefix(), encode_utf8(account), encode_utf8(other));
        encode_utf8_decode_utf8(account);
        encode_utf8_decode_utf8(other);
    }
}

/// A balance saved in the bincode format is the balance then loaded: the account's
/// balance and the total are the ones saved, and the balance of every other account
/// is as it was.
pub proof fn lemma_saved_is_loaded(
    before: Map<Seq<u8>, Seq<u8>>,
    account: Seq<char>,
    balance: u128,
    total: u128,
    other: Seq<char>,
    loaded_balance: u128,
    loaded_total: u128,
)
    requires
        holds_or_zero::<Bincode>(
            saved(before, account, balance, total),
            balance_key(account),
            loaded_balance,
        ),
        holds_or_zero::<Bincode>(
            saved(before, account, balance, total),
            total_key(),
            loaded_total,
        ),
    ensures
        loaded_balance == balance,
        loaded_total == total,
        other != account ==> saved(before, account, balance, total).contains_key(
            balance_key(other),
        ) == before.contains_key(balance_key(other)),
        other != account && before.contains_key(balance_key(other)) ==> saved(
            before,
            account,
            balance,
            total,
        )[balance_key(other)] == before[balance_key(other)],
{
    lemma_keys_apart(account, other);
    lemma_keys_apart(other, account);
    lemma_number_round_trip(balance);
    lemma_number_round_trip(total);
}

} // verus!
