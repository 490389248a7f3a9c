//! Fetching accounts through a cache.
//!
//! The fetcher itself is whatever reaches the chain; what is decided here
//! is when it is asked and what is remembered of its answers.

use vstd::prelude::*;
use crate::types::AccountKey;

verus! {

/// An account as it is stored on chain.
pub struct AccountData {
    pub lamports: u64,
    pub data: Vec<u8>,
    pub owner: AccountKey,
    pub executable: bool,
    pub rent_epoch: u64,
}

/// An account as contracts see it.
pub struct AccountDataView {
    pub lamports: u64,
    pub data: Seq<u8>,
    pub owner: AccountKey,
    pub executable: bool,
    pub rent_epoch: u64,
}

impl View for AccountData {
    type V = AccountDataView;

    open spec fn view(&self) -> AccountDataView {
        AccountDataView {
            lamports: self.lamports,
            data: self.data@,
            owner: self.owner,
            executable: self.executable,
            rent_epoch: self.rent_epoch,
        }
    }
}

/// Why an account could not be had.
#[derive(Clone, Copy, Debug, PartialEq, Eq, Structural)]
pub enum FetchError {
    /// No account lives at the address.
    AccountNotFound,
    /// The request did not get through.
    Transport,
    /// The account's data is shorter than its header.
    Malformed,
}

/// The length of the tag that leads every account's data.
pub const DISCRIMINATOR_LEN: usize = 8;

impl AccountData {
    /// A copy of the account.
    pub fn duplicate(&self) -> (r: AccountData)
        ensures
            r@ == self@,
    {
        let mut data: Vec<u8> = Vec::new();
        let mut i: usize = 0;
        while i < self.data.len()
            invariant
                i <= self.data@.len(),
                data@ == self.data@.take(i as int),
            decreases self.data@.len() - i,
        {
            data.push(self.data[i]);
            i = i + 1;
        }
        assert(data@ =~= self.data@);
        AccountData {
            lamports: self.lamports,
            data,
            owner: self.owner,
            executable: self.executable,
            rent_epoch: self.rent_epoch,
        }
    }

    /// The account's data after its leading tag.
    pub fn payload(&self) -> (r: Result<Vec<u8>, FetchError>)
        ensures
            match r {
                Ok(bytes) => self@.data.len() >= DISCRIMINATOR_LEN && bytes@ == self@.data.skip(
                    DISCRIMINATOR_LEN as int,
                ),
                Err(e) => self@.data.len() < DISCRIMINATOR_LEN && e == FetchError::Malformed,
            },
    {
        if self.data.len() < DISCRIMINATOR_LEN {
            return Err(FetchError::Malformed);
        }
        let mut bytes: Vec<u8> = Vec::new();
        let mut i: usize = DISCRIMINATOR_LEN;
        while i < self.data.len()
            invariant
                DISCRIMINATOR_LEN <= i <= self.data@.len(),
                bytes@ == self.data@.subrange(DISCRIMINATOR_LEN as int, i as int),
            decreases self.data@.len() - i,
        {
            bytes.push(self.data[i]);
            i = i + 1;
        }
        Ok(bytes)
    }
}

/// What reaches the chain. Nothing is promised of what it returns.
pub trait AccountFetcher: Sync + Send {
    fn fetch_raw_account(&self, address: &AccountKey) -> Result<AccountData, FetchError>;

    fn fetch_program_accounts(&self, program: &AccountKey, discriminator: [u8; 8]) -> Result<
        Vec<(AccountKey, AccountData)>,
        FetchError,
    >;
}

/// The bytes of a margin account in what a fetcher returned: the fetcher's
/// error if it failed, else the account's data after its tag, or
/// `Malformed` if the data is shorter than the tag.
pub open spec fn mango_bytes(fetched: Result<AccountData, FetchError>) -> Result<
    Seq<u8>,
    FetchError,
> {
    match fetched {
        Ok(account) => if account@.data.len() >= DISCRIMINATOR_LEN {
            Ok(account@.data.skip(DISCRIMINATOR_LEN as int))
        } else {
            Err(FetchError::Malformed)
        },
        Err(e) => Err(e),
    }
}

/// The bytes handed back, as contracts see them.
pub open spec fn bytes_of(r: Result<Vec<u8>, FetchError>) -> Result<Seq<u8>, FetchError> {
    match r {
        Ok(bytes) => Ok(bytes@),
        Err(e) => Err(e),
    }
}

/// The bytes of a margin account in what a fetcher returned: the fetcher's
/// error if it failed, else the account's data after its tag, or
/// `Malformed` if the data is shorter than the tag.
pub fn mango_account_bytes(fetched: Result<AccountData, FetchError>) -> (r: Result<
    Vec<u8>,
    FetchError,
>)
    ensures
        bytes_of(r) == mango_bytes(fetched),
        match fetched {
            Ok(account) => match r {
                Ok(bytes) => account@.data.len() >= DISCRIMINATOR_LEN && bytes@
                    == account@.data.skip(DISCRIMINATOR_LEN as int),
                Err(e) => account@.data.len() < DISCRIMINATOR_LEN && e == FetchError::Malformed,
            },
            Err(e) => r == Err::<Vec<u8>, FetchError>(e),
        },
{
    match fetched {
        Ok(account) => account.payload(),
        Err(e) => Err(e),
    }
}

/// Asks the fetcher for the account at `address`, once, and hands back the
/// bytes of the margin account in what it returned: some answer that the
/// fetcher can give for this address, taken as `mango_bytes` takes it.
pub fn account_fetcher_fetch_mango_account<T: AccountFetcher>(fetcher: &T, address: &AccountKey) -> (r:
    Result<Vec<u8>, FetchError>)
    ensures
        exists|fetched: Result<AccountData, FetchError>|
            #[trigger] call_ensures(T::fetch_raw_account, (fetcher, address), fetched) && bytes_of(r)
                == mango_bytes(fetched),
{
    let fetched = fetcher.fetch_raw_account(address);
    mango_account_bytes(fetched)
}

/// The first place in `keys` that holds `key`, or the length if none does.
pub open spec fn place_of<K>(keys: Seq<K>, key: K) -> int
    decreases keys.len(),
{
    if keys.len() == 0 || keys[0] == key {
        0
    } else {
        1 + place_of(keys.skip(1), key)
    }
}

/// The first place of a key is a place or the length; if a place, it holds
/// the key; no place before it does.
pub proof fn lemma_place_of<K>(keys: Seq<K>, key: K)
    ensures
        0 <= place_of(keys, key) <= keys.len(),
        place_of(keys, key) < keys.len() ==> keys[place_of(keys, key)] == key,
        forall|i: int| 0 <= i < place_of(keys, key) ==> #[trigger] keys[i] != key,
    decreases keys.len(),
{
    if keys.len() == 0 || keys[0] == key {
    } else {
        let rest = keys.skip(1);
        lemma_place_of(rest, key);
        let at = place_of(rest, key);
        assert forall|i: int| 0 <= i < at + 1 implies #[trigger] keys[i] != key by {
            if i > 0 {
                assert(rest[i - 1] == keys[i]);
            }
        }
    }
}

/// A place that holds the key, with none before it that does, is its first
/// place.
pub proof fn lemma_place_of_is<K>(keys: Seq<K>, key: K, at: int)
    requires
        0 <= at <= keys.len(),
        forall|i: int| 0 <= i < at ==> #[trigger] keys[i] != key,
        at < keys.len() ==> keys[at] == key,
    ensures
        place_of(keys, key) == at,
    decreases keys.len(),
{
    if at > 0 {
        let rest = keys.skip(1);
        lemma_place_of_is(rest, key, at - 1);
    }
}

/// Appending a key moves the first place of another key only if that key
/// was absent: then it stays absent.
pub proof fn lemma_place_of_push<K>(keys: Seq<K>, added: K, key: K)
    requires
        key != added,
    ensures
        place_of(keys.push(added), key) == if place_of(keys, key) < keys.len() {
            place_of(keys, key)
        } else {
            (keys.len() + 1) as int
        },
{
    let more = keys.push(added);
    lemma_place_of(keys, key);
    let was = place_of(keys, key);
    if was < keys.len() {
        lemma_place_of_is(more, key, was);
    } else {
        lemma_place_of_is(more, key, (keys.len() + 1) as int);
    }
}

/// Appending a key that was absent puts its first place at the end.
pub proof fn lemma_place_of_pushed<K>(keys: Seq<K>, added: K)
    requires
        place_of(keys, added) >= keys.len(),
    ensures
        place_of(keys.push(added), added) == keys.len(),
{
    let more = keys.push(added);
    lemma_place_of(keys, added);
    lemma_place_of_is(more, added, keys.len() as int);
}

/// Whether two tags are the same, byte for byte.
pub fn same_tag(a: &[u8; 8], b: &[u8; 8]) -> (r: bool)
    ensures
        r == (a@ == b@),
{
    let mut i: usize = 0;
    while i < 8
        invariant
            i <= 8,
            forall|k: int| 0 <= k < i ==> a@[k] == b@[k],
        decreases 8 - i,
    {
        if a[i] != b[i] {
            return false;
        }
        i = i + 1;
    }
    assert(a@ =~= b@);
    true
}

/// No key stands at two places.
pub open spec fn no_key_twice<K>(keys: Seq<K>) -> bool {
    forall|i: int, j: int| 0 <= i < j < keys.len() ==> keys[i] != keys[j]
}

/// Appending a key that was absent leaves no key at two places.
pub proof fn lemma_no_key_twice_push<K>(keys: Seq<K>, added: K)
    requires
        no_key_twice(keys),
        place_of(keys, added) >= keys.len(),
    ensures
        no_key_twice(keys.push(added)),
{
    lemma_place_of(keys, added);
    let more = keys.push(added);
    assert forall|i: int, j: int| 0 <= i < j < more.len() implies more[i] != more[j] by {
        assert(more[i] == keys[i]);
        if j < keys.len() {
            assert(more[j] == keys[j]);
        }
    }
}

/// What is remembered of one program's accounts.
pub struct ProgramAccounts {
    pub program: AccountKey,
    pub discriminator: [u8; 8],
    pub keys: Vec<AccountKey>,
}

/// The accounts and the program listings fetched so far.
pub struct AccountCache {
    accounts: Vec<(AccountKey, AccountData)>,
    programs: Vec<ProgramAccounts>,
}

/// The cache as contracts see it.
pub struct CacheView {
    /// The accounts remembered, by address.
    pub accounts: Map<AccountKey, AccountDataView>,
    /// The addresses remembered for a program and a tag, in the order the
    /// fetcher gave them.
    pub programs: Map<(AccountKey, Seq<u8>), Seq<AccountKey>>,
}

/// The accounts after remembering `fetched` one after the other.
pub open spec fn stored_all(
    accounts: Map<AccountKey, AccountDataView>,
    fetched: Seq<(AccountKey, AccountDataView)>,
) -> Map<AccountKey, AccountDataView>
    decreases fetched.len(),
{
    if fetched.len() == 0 {
        accounts
    } else {
        stored_all(accounts, fetched.drop_last()).insert(fetched.last().0, fetched.last().1)
    }
}

/// The fetched accounts as contracts see them.
pub open spec fn views_of(fetched: Seq<(AccountKey, AccountData)>) -> Seq<(AccountKey, AccountDataView)> {
    Seq::new(fetched.len(), |i: int| (fetched[i].0, fetched[i].1@))
}

/// The addresses of the fetched accounts.
pub open spec fn keys_in(fetched: Seq<(AccountKey, AccountData)>) -> Seq<AccountKey> {
    Seq::new(fetched.len(), |i: int| fetched[i].0)
}

impl CacheView {
    /// Every address of every program listing is a remembered account.
    pub open spec fn wf(self) -> bool {
        forall|p: (AccountKey, Seq<u8>), i: int|
            self.programs.dom().contains(p) && 0 <= i < self.programs[p].len()
                ==> self.accounts.dom().contains(#[trigger] self.programs[p][i])
    }

    /// The accounts of a remembered program listing, with their addresses.
    pub open spec fn listing(self, program: AccountKey, discriminator: Seq<u8>) -> Seq<
        (AccountKey, AccountDataView),
    > {
        let keys = self.programs[(program, discriminator)];
        Seq::new(keys.len(), |i: int| (keys[i], self.accounts[keys[i]]))
    }
}

impl AccountCache {
    /// The addresses of the remembered accounts, in the order they came.
    pub closed spec fn account_keys(&self) -> Seq<AccountKey> {
        Seq::new(self.accounts@.len(), |i: int| self.accounts@[i].0)
    }

    /// The program and tag of each remembered listing, in the order they
    /// came.
    pub closed spec fn program_keys(&self) -> Seq<(AccountKey, Seq<u8>)> {
        Seq::new(
            self.programs@.len(),
            |i: int| (self.programs@[i].program, self.programs@[i].discriminator@),
        )
    }
}

impl View for AccountCache {
    type V = CacheView;

    closed spec fn view(&self) -> CacheView {
        CacheView {
            accounts: Map::new(
                |k: AccountKey| place_of(self.account_keys(), k) < self.accounts@.len(),
                |k: AccountKey| self.accounts@[place_of(self.account_keys(), k)].1@,
            ),
            programs: Map::new(
                |p: (AccountKey, Seq<u8>)| place_of(self.program_keys(), p) < self.programs@.len(),
                |p: (AccountKey, Seq<u8>)| self.programs@[place_of(self.program_keys(), p)].keys@,
            ),
        }
    }
}

impl AccountCache {
    /// No address is remembered twice, and no program and tag is listed
    /// twice: what is kept is a map, as a hash map would keep it.
    pub closed spec fn distinct(&self) -> bool {
        &&& no_key_twice(self.account_keys())
        &&& no_key_twice(self.program_keys())
    }

    /// The invariant of the cache: nothing is remembered twice, and every
    /// address of every listing is a remembered account.
    pub open spec fn wf(&self) -> bool {
        self.distinct() && self@.wf()
    }

    /// A cache that remembers nothing.
    pub fn new() -> (cache: AccountCache)
        ensures
            cache.wf(),
            cache@.accounts == Map::<AccountKey, AccountDataView>::empty(),
            cache@.programs == Map::<(AccountKey, Seq<u8>), Seq<AccountKey>>::empty(),
    {
        let cache = AccountCache { accounts: Vec::new(), programs: Vec::new() };
        cache
    }

    /// Forgets everything.
    pub fn clear(&mut self)
        ensures
            final(self).wf(),
            final(self)@.accounts == Map::<AccountKey, AccountDataView>::empty(),
            final(self)@.programs == Map::<(AccountKey, Seq<u8>), Seq<AccountKey>>::empty(),
    {
        self.accounts.clear();
        self.programs.clear();
    }

    fn account_place(&self, address: &AccountKey) -> (r: usize)
        ensures
            r == place_of(self.account_keys(), *address),
            r <= self.accounts@.len(),
            r < self.accounts@.len() <==> self@.accounts.dom().contains(*address),
            r < self.accounts@.len() ==> self.accounts@[r as int].0 == *address
                && self.accounts@[r as int].1@ == self@.accounts[*address],
    {
        let mut i: usize = 0;
        while i < self.accounts.len()
            invariant
                i <= self.accounts@.len(),
                forall|k: int| 0 <= k < i ==> #[trigger] self.account_keys()[k] != *address,
            decreases self.accounts@.len() - i,
        {
            if self.accounts[i].0 == *address {
                proof {
                    lemma_place_of_is(self.account_keys(), *address, i as int);
                }
                return i;
            }
            i = i + 1;
        }
        proof {
            lemma_place_of_is(self.account_keys(), *address, i as int);
        }
        i
    }

    fn program_place(&self, program: &AccountKey, discriminator: [u8; 8]) -> (r: usize)
        ensures
            r == place_of(self.program_keys(), (*program, discriminator@)),
            r <= self.programs@.len(),
            r < self.programs@.len() <==> self@.programs.dom().contains((*program, discriminator@)),
            r < self.programs@.len() ==> self.programs@[r as int].keys@ == self@.programs[(
                *program,
                discriminator@,
            )],
    {
        let mut i: usize = 0;
        while i < self.programs.len()
            invariant
                i <= self.programs@.len(),
                forall|k: int|
                    0 <= k < i ==> #[trigger] self.program_keys()[k] != (*program, discriminator@),
            decreases self.programs@.len() - i,
        {
            if self.programs[i].program == *program && same_tag(
                &self.programs[i].discriminator,
                &discriminator,
            ) {
                proof {
                    lemma_place_of_is(self.program_keys(), (*program, discriminator@), i as int);
                }
                return i;
            }
            i = i + 1;
        }
        proof {
            lemma_place_of_is(self.program_keys(), (*program, discriminator@), i as int);
        }
        i
    }

    /// The remembered account at `address`, if there is one.
    pub fn get(&self, address: &AccountKey) -> (r: Option<AccountData>)
        ensures
            match r {
                Some(account) => self@.accounts.dom().contains(*address) && account@
                    == self@.accounts[*address],
                None => !self@.accounts.dom().contains(*address),
            },
    {
        let at: usize = self.account_place(address);
        if at < self.accounts.len() {
            Some(self.accounts[at].1.duplicate())
        } else {
            None
        }
    }

    /// Remembers `account` at `address`, in place of what was remembered
    /// there.
    pub fn insert(&mut self, address: AccountKey, account: AccountData)
        requires
            old(self).wf(),
        ensures
            final(self).wf(),
            final(self)@.accounts == old(self)@.accounts.insert(address, account@),
            final(self)@.programs == old(self)@.programs,
    {
        let at: usize = self.account_place(&address);
        let ghost before = self.account_keys();
        if at < self.accounts.len() {
            self.accounts.set(at, (address, account));
            assert(self.account_keys() =~= before);
        } else {
            self.accounts.push((address, account));
            assert(self.account_keys() =~= before.push(address));
            proof {
                lemma_place_of_pushed(before, address);
                lemma_no_key_twice_push(before, address);
            }
        }
        proof {
            let want = old(self)@.accounts.insert(address, account@);
            assert forall|k: AccountKey| #[trigger]
                self@.accounts.dom().contains(k) == want.dom().contains(k) && (want.dom().contains(
                    k,
                ) ==> self@.accounts[k] == want[k]) by {
                lemma_place_of(before, k);
                if k != address && at >= before.len() {
                    lemma_place_of_push(before, address, k);
                }
            }
            assert(self.program_keys() =~= old(self).program_keys());
            assert(self@.programs =~= old(self)@.programs);
        }
    }

    /// The accounts of a remembered program listing.
    pub fn get_program_accounts(&self, program: &AccountKey, discriminator: [u8; 8]) -> (r: Option<
        Vec<(AccountKey, AccountData)>,
    >)
        requires
            self.wf(),
        ensures
            match r {
                Some(list) => self@.programs.dom().contains((*program, discriminator@)) && views_of(
                    list@,
                ) == self@.listing(*program, discriminator@),
                None => !self@.programs.dom().contains((*program, discriminator@)),
            },
    {
        let at: usize = self.program_place(program, discriminator);
        if at >= self.programs.len() {
            return None;
        }
        let ghost keys = self@.programs[(*program, discriminator@)];
        let mut list: Vec<(AccountKey, AccountData)> = Vec::new();
        let mut i: usize = 0;
        while i < self.programs[at].keys.len()
            invariant
                self.wf(),
                at < self.programs@.len(),
                self@.programs.dom().contains((*program, discriminator@)),
                keys == self@.programs[(*program, discriminator@)],
                keys == self.programs@[at as int].keys@,
                i <= keys.len(),
                list@.len() == i,
                forall|k: int|
                    0 <= k < i ==> (#[trigger] list@[k]).0 == keys[k] && list@[k].1@
                        == self@.accounts[keys[k]],
            decreases keys.len() - i,
        {
            let key: AccountKey = self.programs[at].keys[i];
            match self.get(&key) {
                Some(account) => {
                    list.push((key, account));
                },
                None => {},
            }
            i = i + 1;
        }
        Some(list)
    }

    /// Remembers the accounts a fetcher listed for a program and a tag:
    /// each account at its address, and their addresses as the listing.
    pub fn insert_program_accounts(
        &mut self,
        program: AccountKey,
        discriminator: [u8; 8],
        fetched: &Vec<(AccountKey, AccountData)>,
    )
        requires
            old(self).wf(),
        ensures
            final(self).wf(),
            final(self)@.accounts == stored_all(old(self)@.accounts, views_of(fetched@)),
            final(self)@.programs == old(self)@.programs.insert(
                (program, discriminator@),
                keys_in(fetched@),
            ),
    {
        let mut keys: Vec<AccountKey> = Vec::new();
        let mut i: usize = 0;
        while i < fetched.len()
            invariant
                self.wf(),
                i <= fetched@.len(),
                keys@.len() == i,
                forall|k: int| 0 <= k < i ==> #[trigger] keys@[k] == fetched@[k].0,
                forall|k: int| 0 <= k < i ==> self@.accounts.dom().contains(#[trigger] fetched@[k].0),
                self@.programs == old(self)@.programs,
                self@.accounts == stored_all(
                    old(self)@.accounts,
                    views_of(fetched@).take(i as int),
                ),
            decreases fetched@.len() - i,
        {
            let key: AccountKey = fetched[i].0;
            let account: AccountData = fetched[i].1.duplicate();
            proof {
                let v = views_of(fetched@);
                assert(v.take(i + 1).drop_last() =~= v.take(i as int));
            }
            self.insert(key, account);
            keys.push(key);
            i = i + 1;
        }
        assert(views_of(fetched@).take(fetched@.len() as int) =~= views_of(fetched@));
        let at: usize = self.program_place(&program, discriminator);
        let ghost before = self.program_keys();
        let ghost programs = self@.programs;
        let ghost p = (program, discriminator@);
        let listing = ProgramAccounts { program, discriminator, keys };
        proof {
            lemma_place_of(before, p);
        }
        if at < self.programs.len() {
            self.programs.set(at, listing);
            assert(self.program_keys() =~= before);
        } else {
            self.programs.push(listing);
            assert(self.program_keys() =~= before.push(p));
            proof {
                lemma_place_of_pushed(before, p);
                lemma_no_key_twice_push(before, p);
            }
        }
        proof {
            let want = programs.insert(p, keys_in(fetched@));
            assert forall|k: (AccountKey, Seq<u8>)| #[trigger]
                self@.programs.dom().contains(k) == want.dom().contains(k) && (want.dom().contains(
                    k,
                ) ==> self@.programs[k] == want[k]) by {
                lemma_place_of(before, k);
                if k != p && at >= before.len() {
                    lemma_place_of_push(before, p, k);
                }
            }
        }
    }

    /// Takes what the fetcher returned for `address`: an account is
    /// remembered and handed on, an error is handed on and nothing changes.
    pub fn remember(&mut self, address: AccountKey, fetched: Result<AccountData, FetchError>) -> (r:
        Result<AccountData, FetchError>)
        requires
            old(self).wf(),
        ensures
            final(self).wf(),
            r == fetched,
            final(self)@.programs == old(self)@.programs,
            final(self)@.accounts == match fetched {
                Ok(account) => old(self)@.accounts.insert(address, account@),
                Err(_) => old(self)@.accounts,
            },
    {
        match fetched {
            Ok(account) => {
                let copy = account.duplicate();
                self.insert(address, copy);
                Ok(account)
            },
            Err(e) => Err(e),
        }
    }

    /// Takes what the fetcher returned for a program and a tag: a listing
    /// is remembered, with its accounts, and handed on; an error is handed
    /// on and nothing changes.
    pub fn remember_program_accounts(
        &mut self,
        program: AccountKey,
        discriminator: [u8; 8],
        fetched: Result<Vec<(AccountKey, AccountData)>, FetchError>,
    ) -> (r: Result<Vec<(AccountKey, AccountData)>, FetchError>)
        requires
            old(self).wf(),
        ensures
            final(self).wf(),
            r == fetched,
            final(self)@.accounts == match fetched {
                Ok(list) => stored_all(old(self)@.accounts, views_of(list@)),
                Err(_) => old(self)@.accounts,
            },
            final(self)@.programs == match fetched {
                Ok(list) => old(self)@.programs.insert((program, discriminator@), keys_in(list@)),
                Err(_) => old(self)@.programs,
            },
    {
        match fetched {
            Ok(list) => {
                self.insert_program_accounts(program, discriminator, &list);
                Ok(list)
            },
            Err(e) => Err(e),
        }
    }
}

/// What a fetch through the cache comes to, for what the fetcher returned
/// (if it was asked): a remembered account is returned as it is; else the
/// fetcher's answer is returned, and remembered if it is an account.
pub open spec fn fetch_outcome(
    cache: CacheView,
    address: AccountKey,
    fetched: Result<AccountDataView, FetchError>,
) -> (Result<AccountDataView, FetchError>, CacheView) {
    if cache.accounts.dom().contains(address) {
        (Ok(cache.accounts[address]), cache)
    } else {
        match fetched {
            Ok(account) => (
                Ok(account),
                CacheView { accounts: cache.accounts.insert(address, account), ..cache },
            ),
            Err(e) => (Err(e), cache),
        }
    }
}

/// A fetcher with a cache in front of it.
pub struct CachedAccountFetcher<T: AccountFetcher> {
    fetcher: T,
    cache: AccountCache,
}

impl<T: AccountFetcher> CachedAccountFetcher<T> {
    /// What is remembered.
    pub closed spec fn cache(&self) -> CacheView {
        self.cache@
    }

    /// The fetcher that is asked on a miss.
    pub closed spec fn inner(&self) -> T {
        self.fetcher
    }

    /// The invariant of the cache behind it.
    pub closed spec fn wf(&self) -> bool {
        self.cache.wf()
    }

    /// A cache with nothing remembered in front of `fetcher`.
    pub fn new(fetcher: T) -> (r: Self)
        ensures
            r.wf(),
            r.inner() == fetcher,
            r.cache().accounts == Map::<AccountKey, AccountDataView>::empty(),
            r.cache().programs == Map::<(AccountKey, Seq<u8>), Seq<AccountKey>>::empty(),
    {
        CachedAccountFetcher { fetcher, cache: AccountCache::new() }
    }

    /// Forgets every account and every listing.
    pub fn clear_cache(&mut self)
        ensures
            final(self).wf(),
            final(self).inner() == old(self).inner(),
            final(self).cache().accounts == Map::<AccountKey, AccountDataView>::empty(),
            final(self).cache().programs == Map::<(AccountKey, Seq<u8>), Seq<AccountKey>>::empty(),
    {
        self.cache.clear();
    }

    /// The account at `address`: the remembered one, or else what the
    /// fetcher returns when it is asked for this address, remembered from
    /// then on if it is an account.
    pub fn fetch_raw_account(&mut self, address: &AccountKey) -> (r: Result<
        AccountData,
        FetchError,
    >)
        requires
            old(self).wf(),
        ensures
            final(self).wf(),
            final(self).inner() == old(self).inner(),
            !old(self).cache().accounts.dom().contains(*address) ==> exists|
                fetched: Result<AccountData, FetchError>,
            |
                #[trigger] call_ensures(
                    T::fetch_raw_account,
                    (&old(self).inner(), address),
                    fetched,
                ) && r == fetched,
            ({
                let was = old(self).cache();
                let now = final(self).cache();
                if was.accounts.dom().contains(*address) {
                    &&& now == was
                    &&& r matches Ok(account)
                    &&& account@ == was.accounts[*address]
                } else {
                    match r {
                        Ok(account) => now == fetch_outcome(was, *address, Ok(account@)).1,
                        Err(e) => now == was,
                    }
                }
            }),
    {
        match self.cache.get(address) {
            Some(account) => Ok(account),
            None => {
                let fetched = self.fetcher.fetch_raw_account(address);
                self.cache.remember(*address, fetched)
            },
        }
    }

    /// The accounts of `program` with the tag `discriminator`: the
    /// remembered listing, or else what the fetcher returns when it is
    /// asked for this program and tag, remembered from then on if it is a
    /// listing.
    pub fn fetch_program_accounts(&mut self, program: &AccountKey, discriminator: [u8; 8]) -> (r:
        Result<Vec<(AccountKey, AccountData)>, FetchError>)
        requires
            old(self).wf(),
        ensures
            final(self).wf(),
            final(self).inner() == old(self).inner(),
            !old(self).cache().programs.dom().contains((*program, discriminator@)) ==> exists|
                fetched: Result<Vec<(AccountKey, AccountData)>, FetchError>,
            |
                #[trigger] call_ensures(
                    T::fetch_program_accounts,
                    (&old(self).inner(), program, discriminator),
                    fetched,
                ) && r == fetched,
            ({
                let was = old(self).cache();
                let now = final(self).cache();
                if was.programs.dom().contains((*program, discriminator@)) {
                    &&& now == was
                    &&& r matches Ok(list)
                    &&& views_of(list@) == was.listing(*program, discriminator@)
                } else {
                    match r {
                        Ok(list) => now.accounts == stored_all(was.accounts, views_of(list@))
                            && now.programs == was.programs.insert(
                            (*program, discriminator@),
                            keys_in(list@),
                        ),
                        Err(e) => now == was,
                    }
                }
            }),
    {
        match self.cache.get_program_accounts(program, discriminator) {
            Some(list) => Ok(list),
            None => {
                let fetched = self.fetcher.fetch_program_accounts(program, discriminator);
                self.cache.remember_program_accounts(*program, discriminator, fetched)
            },
        }
    }
}

} // verus!
