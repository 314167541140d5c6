//! A verified model of the sample domain-name-service contract the fuzzer
//! ships with: the storage, every message, and the invariant messages the
//! fuzzer calls after each sequence.
//!
//! The real contract runs as a WASM blob inside the contracts pallet; this
//! model gives the harness a deterministic in-memory executor with the same
//! observable behaviour, so the whole fuzzing loop can be verified and
//! exercised end to end.

use vstd::prelude::*;

use crate::bytesutil::bytes_eq;
use crate::bytesutil::copy_bytes;

verus! {

/// A 32-byte account identifier.
pub struct AccountId {
    pub bytes: Vec<u8>,
}

/// A 32-byte domain name hash.
pub struct DomainHash {
    pub bytes: Vec<u8>,
}

/// The account made of 32 copies of one byte: how the runtime turns a
/// caller origin byte into an account.
pub open spec fn broadcast_seq(b: u8) -> Seq<u8> {
    Seq::new(32, |i: int| b)
}

/// The forbidden domain: 31 zero bytes then a one.
pub open spec fn forbidden_domain() -> Seq<u8> {
    Seq::new(32, |i: int| if i == 31 { 1u8 } else { 0u8 })
}

/// Builds the account broadcast from one origin byte.
pub fn broadcast_account(b: u8) -> (r: AccountId)
    ensures
        r.bytes@ == broadcast_seq(b),
{
    let mut v: Vec<u8> = Vec::new();
    let mut i: usize = 0;
    while i < 32
        invariant
            0 <= i <= 32,
            v@ =~= Seq::new(i as nat, |k: int| b),
        decreases 32 - i,
    {
        v.push(b);
        proof {
            assert(v@ =~= Seq::new((i + 1) as nat, |k: int| b));
        }
        i = i + 1;
    }
    proof {
        assert(v@ =~= broadcast_seq(b));
    }
    AccountId { bytes: v }
}

/// The zero address `0x00…00`. It is not treated specially by the runtime;
/// the sample contract uses it as its default address.
pub fn zero_address() -> (r: AccountId)
    ensures
        r.bytes@ == broadcast_seq(0),
{
    broadcast_account(0)
}

/// The all-zero domain hash the sample contract registers at deployment.
pub fn zero_hash() -> (r: DomainHash)
    ensures
        r.bytes@ == broadcast_seq(0),
{
    let a = broadcast_account(0);
    DomainHash { bytes: a.bytes }
}

/// The forbidden domain hash as a value.
pub fn forbidden_domain_hash() -> (r: DomainHash)
    ensures
        r.bytes@ == forbidden_domain(),
{
    let mut v: Vec<u8> = Vec::new();
    let mut i: usize = 0;
    while i < 31
        invariant
            0 <= i <= 31,
            v@ =~= Seq::new(i as nat, |k: int| 0u8),
        decreases 31 - i,
    {
        v.push(0);
        proof {
            assert(v@ =~= Seq::new((i + 1) as nat, |k: int| 0u8));
        }
        i = i + 1;
    }
    v.push(1);
    proof {
        assert(v@ =~= forbidden_domain());
    }
    DomainHash { bytes: v }
}

/// Emitted whenever a new name is registered.
pub struct Register {
    pub name: DomainHash,
    pub from: AccountId,
}

/// Emitted whenever an address changes.
pub struct SetAddress {
    pub name: DomainHash,
    pub from: AccountId,
    pub old_address: Option<AccountId>,
    pub new_address: AccountId,
}

/// Emitted whenever a name is transferred.
pub struct Transfer {
    pub name: DomainHash,
    pub from: AccountId,
    pub old_owner: Option<AccountId>,
    pub new_owner: AccountId,
}

/// One event record collected from a call.
pub enum Event {
    Register(Register),
    SetAddress(SetAddress),
    Transfer(Transfer),
}

/// Errors the contract returns.
#[derive(Clone, Copy, PartialEq, Eq, Structural, Debug)]
pub enum Error {
    /// Returned when the name already exists upon registration.
    NameAlreadyExists,
    /// Returned when the caller is not the owner while required to be.
    CallerIsNotOwner,
    /// The domain nobody may register.
    ForbiddenDomain,
}

/// One name-to-account entry of the contract storage.
pub struct MapEntry {
    pub key: DomainHash,
    pub value: AccountId,
}

/// The first value stored under `k`, scanning in storage order.
pub open spec fn lookup(m: Seq<(Seq<u8>, Seq<u8>)>, k: Seq<u8>) -> Option<Seq<u8>>
    decreases m.len(),
{
    if m.len() == 0 {
        None
    } else if m[0].0 == k {
        Some(m[0].1)
    } else {
        lookup(m.drop_first(), k)
    }
}

/// The storage after writing `v` under `k`: the first entry holding `k` is
/// replaced, or the pair is appended.
pub open spec fn store(m: Seq<(Seq<u8>, Seq<u8>)>, k: Seq<u8>, v: Seq<u8>) -> Seq<
    (Seq<u8>, Seq<u8>),
>
    decreases m.len(),
{
    if m.len() == 0 {
        seq![(k, v)]
    } else if m[0].0 == k {
        seq![(k, v)] + m.drop_first()
    } else {
        seq![m[0]] + store(m.drop_first(), k, v)
    }
}

pub open spec fn entries_view(entries: Seq<MapEntry>) -> Seq<(Seq<u8>, Seq<u8>)> {
    entries.map_values(|e: MapEntry| (e.key.bytes@, e.value.bytes@))
}

/// The domain list as plain byte sequences.
pub open spec fn hashes_view(hs: Seq<DomainHash>) -> Seq<Seq<u8>> {
    hs.map_values(|h: DomainHash| h.bytes@)
}

proof fn lemma_store_found(m: Seq<(Seq<u8>, Seq<u8>)>, k: Seq<u8>, v: Seq<u8>, i: int)
    requires
        0 <= i < m.len(),
        m[i].0 == k,
        forall|j: int| 0 <= j < i ==> m[j].0 != k,
    ensures
        store(m, k, v) == m.update(i, (k, v)),
    decreases i,
{
    if i == 0 {
        assert(store(m, k, v) =~= m.update(0, (k, v)));
    } else {
        let rest = m.drop_first();
        assert(forall|j: int| 0 <= j < i - 1 ==> rest[j].0 != k);
        assert(rest[i - 1].0 == k);
        lemma_store_found(rest, k, v, i - 1);
        assert(store(m, k, v) =~= m.update(i, (k, v)));
    }
}

proof fn lemma_store_absent(m: Seq<(Seq<u8>, Seq<u8>)>, k: Seq<u8>, v: Seq<u8>)
    requires
        forall|j: int| 0 <= j < m.len() ==> m[j].0 != k,
    ensures
        store(m, k, v) == m.push((k, v)),
    decreases m.len(),
{
    if m.len() == 0 {
        assert(store(m, k, v) =~= m.push((k, v)));
    } else {
        lemma_store_absent(m.drop_first(), k, v);
        assert(store(m, k, v) =~= m.push((k, v)));
    }
}

/// Reads the first value stored under `key`.
pub fn map_get(entries: &Vec<MapEntry>, key: &DomainHash) -> (r: Option<AccountId>)
    ensures
        match r {
            Some(a) => lookup(entries_view(entries@), key.bytes@) == Some(a.bytes@),
            None => lookup(entries_view(entries@), key.bytes@) is None,
        },
{
    let ghost m = entries_view(entries@);
    proof {
        assert(m.skip(0) =~= m);
    }
    let mut i: usize = 0;
    while i < entries.len()
        invariant
            0 <= i <= entries@.len(),
            m == entries_view(entries@),
            lookup(m, key.bytes@) == lookup(m.skip(i as int), key.bytes@),
        decreases entries@.len() - i,
    {
        proof {
            assert(m.skip(i as int)[0] == m[i as int]);
            assert(m.skip(i as int).drop_first() =~= m.skip(i + 1));
        }
        if bytes_eq(entries[i].key.bytes.as_slice(), key.bytes.as_slice()) {
            let a = AccountId { bytes: copy_bytes(&entries[i].value.bytes) };
            return Some(a);
        }
        i = i + 1;
    }
    proof {
        assert(m.skip(m.len() as int) =~= Seq::<(Seq<u8>, Seq<u8>)>::empty());
    }
    None
}

/// Whether any value is stored under `key`.
pub fn map_contains(entries: &Vec<MapEntry>, key: &DomainHash) -> (r: bool)
    ensures
        r == (lookup(entries_view(entries@), key.bytes@) is Some),
{
    match map_get(entries, key) {
        Some(_) => true,
        None => false,
    }
}

/// Writes `value` under `key`, replacing the first entry holding `key` or
/// appending.
pub fn map_insert(entries: &mut Vec<MapEntry>, key: &DomainHash, value: &AccountId)
    ensures
        entries_view(final(entries)@) == store(
            entries_view(old(entries)@),
            key.bytes@,
            value.bytes@,
        ),
{
    let ghost m = entries_view(old(entries)@);
    let mut i: usize = 0;
    while i < entries.len()
        invariant
            0 <= i <= entries@.len(),
            entries@ == old(entries)@,
            m == entries_view(entries@),
            forall|j: int| 0 <= j < i ==> m[j].0 != key.bytes@,
        decreases entries@.len() - i,
    {
        if bytes_eq(entries[i].key.bytes.as_slice(), key.bytes.as_slice()) {
            let e = MapEntry {
                key: DomainHash { bytes: copy_bytes(&key.bytes) },
                value: AccountId { bytes: copy_bytes(&value.bytes) },
            };
            proof {
                lemma_store_found(m, key.bytes@, value.bytes@, i as int);
            }
            entries[i] = e;
            proof {
                assert(entries_view(entries@) =~= m.update(i as int, (key.bytes@, value.bytes@)));
            }
            return ;
        }
        i = i + 1;
    }
    let e = MapEntry {
        key: DomainHash { bytes: copy_bytes(&key.bytes) },
        value: AccountId { bytes: copy_bytes(&value.bytes) },
    };
    proof {
        lemma_store_absent(m, key.bytes@, value.bytes@);
    }
    entries.push(e);
    proof {
        assert(entries_view(entries@) =~= m.push((key.bytes@, value.bytes@)));
    }
}

/// The mathematical model of the contract storage.
pub ghost struct DnsView {
    pub name_to_address: Seq<(Seq<u8>, Seq<u8>)>,
    pub name_to_owner: Seq<(Seq<u8>, Seq<u8>)>,
    pub default_address: Seq<u8>,
    pub domains: Seq<Seq<u8>>,
    pub dangerous_number: i32,
    pub should_panic_after_three_calls: bool,
    pub leet_transfered: bool,
}

/// The storage of the sample domain-name-service contract.
pub struct DomainNameService {
    pub name_to_address: Vec<MapEntry>,
    pub name_to_owner: Vec<MapEntry>,
    pub default_address: AccountId,
    pub domains: Vec<DomainHash>,
    pub dangerous_number: i32,
    pub should_panic_after_three_calls: bool,
    pub leet_transfered: bool,
}

impl View for DomainNameService {
    type V = DnsView;

    open spec fn view(&self) -> DnsView {
        DnsView {
            name_to_address: entries_view(self.name_to_address@),
            name_to_owner: entries_view(self.name_to_owner@),
            default_address: self.default_address.bytes@,
            domains: hashes_view(self.domains@),
            dangerous_number: self.dangerous_number,
            should_panic_after_three_calls: self.should_panic_after_three_calls,
            leet_transfered: self.leet_transfered,
        }
    }
}

/// The storage the constructor builds: the zero hash mapped to the zero
/// address in both maps, the zero hash registered, and the dangerous
/// number at 42.
pub open spec fn initial_dns() -> DnsView {
    DnsView {
        name_to_address: seq![(broadcast_seq(0), broadcast_seq(0))],
        name_to_owner: seq![(broadcast_seq(0), broadcast_seq(0))],
        default_address: broadcast_seq(0),
        domains: seq![broadcast_seq(0)],
        dangerous_number: 42,
        should_panic_after_three_calls: false,
        leet_transfered: false,
    }
}

/// The owner stored under `name`, or the default address.
pub open spec fn owner_or_default(v: DnsView, name: Seq<u8>) -> Seq<u8> {
    match lookup(v.name_to_owner, name) {
        Some(a) => a,
        None => v.default_address,
    }
}

/// The address stored under `name`, or the default address.
pub open spec fn address_or_default(v: DnsView, name: Seq<u8>) -> Seq<u8> {
    match lookup(v.name_to_address, name) {
        Some(a) => a,
        None => v.default_address,
    }
}

/// The remainder of `a` divided by `m` with truncation toward zero, as the
/// contract's source language computes it.
pub open spec fn trunc_rem(a: int, m: int) -> int {
    if a >= 0 {
        a % m
    } else {
        -((-a) % m)
    }
}

impl DomainNameService {
    /// Creates a new domain name service contract.
    pub fn new() -> (r: DomainNameService)
        ensures
            r@ == initial_dns(),
    {
        let mut name_to_address: Vec<MapEntry> = Vec::new();
        name_to_address.push(MapEntry { key: zero_hash(), value: zero_address() });
        let mut name_to_owner: Vec<MapEntry> = Vec::new();
        name_to_owner.push(MapEntry { key: zero_hash(), value: zero_address() });
        let mut domains: Vec<DomainHash> = Vec::new();
        domains.push(zero_hash());
        let r = DomainNameService {
            name_to_address,
            name_to_owner,
            default_address: zero_address(),
            domains,
            dangerous_number: 42,
            should_panic_after_three_calls: false,
            leet_transfered: false,
        };
        proof {
            assert(entries_view(r.name_to_address@) =~= initial_dns().name_to_address);
            assert(entries_view(r.name_to_owner@) =~= initial_dns().name_to_owner);
            assert(hashes_view(r.domains@) =~= initial_dns().domains);
        }
        r
    }

    /// Registers `name` with `caller` as owner.
    pub fn register(&mut self, name: &DomainHash, caller: &AccountId) -> (r: Result<(), Error>)
        ensures
            lookup(old(self)@.name_to_owner, name.bytes@) is Some ==> r == Result::<(), Error>::Err(
                Error::NameAlreadyExists,
            ) && final(self)@ == old(self)@,
            lookup(old(self)@.name_to_owner, name.bytes@) is None ==> r == Result::<(), Error>::Ok(
                (),
            ) && final(self)@ == (DnsView {
                name_to_owner: store(old(self)@.name_to_owner, name.bytes@, caller.bytes@),
                domains: old(self)@.domains.push(name.bytes@),
                dangerous_number: if old(self)@.dangerous_number == 80 && name.bytes@
                    == forbidden_domain() {
                    120
                } else {
                    old(self)@.dangerous_number
                },
                ..old(self)@
            }),
    {
        if map_contains(&self.name_to_owner, name) {
            return Err(Error::NameAlreadyExists);
        }
        if self.dangerous_number == 80 {
            let fd = forbidden_domain_hash();
            if bytes_eq(name.bytes.as_slice(), fd.bytes.as_slice()) {
                self.dangerous_number = 120;
            }
        }
        map_insert(&mut self.name_to_owner, name, caller);
        self.domains.push(DomainHash { bytes: copy_bytes(&name.bytes) });
        proof {
            assert(self@.domains =~= old(self)@.domains.push(name.bytes@));
        }
        Ok(())
    }

    /// Marks the leet transfer when exactly 1377 units arrive.
    pub fn pay_me(&mut self, transferred: u128) -> (r: Result<(), Error>)
        ensures
            r == Result::<(), Error>::Ok(()),
            final(self)@ == (DnsView {
                leet_transfered: old(self)@.leet_transfered || transferred == 1377,
                ..old(self)@
            }),
    {
        if transferred == 1377 {
            self.leet_transfered = true;
        }
        Ok(())
    }

    /// Sets the address for `name`; only its owner may.
    pub fn set_address(&mut self, name: &DomainHash, new_address: &AccountId, caller: &AccountId)
        -> (r: Result<(), Error>)
        ensures
            caller.bytes@ != owner_or_default(old(self)@, name.bytes@) ==> r == Result::<
                (),
                Error,
            >::Err(Error::CallerIsNotOwner) && final(self)@ == old(self)@,
            caller.bytes@ == owner_or_default(old(self)@, name.bytes@) ==> r == Result::<
                (),
                Error,
            >::Ok(()) && final(self)@ == (DnsView {
                name_to_address: store(
                    old(self)@.name_to_address,
                    name.bytes@,
                    new_address.bytes@,
                ),
                should_panic_after_three_calls: old(self)@.should_panic_after_three_calls || old(
                    self,
                )@.dangerous_number == 120,
                ..old(self)@
            }),
    {
        let owner = self.get_owner_or_default(name);
        if !bytes_eq(caller.bytes.as_slice(), owner.bytes.as_slice()) {
            return Err(Error::CallerIsNotOwner);
        }
        map_insert(&mut self.name_to_address, name, new_address);
        if self.dangerous_number == 120 {
            self.should_panic_after_three_calls = true;
        }
        Ok(())
    }

    /// Transfers the owner of `name`; also stores a derived dangerous
    /// number. The forbidden-domain guard was forgotten: the error is
    /// declared yet never returned for the forbidden name.
    pub fn transfer(&mut self, name: &DomainHash, to: &AccountId, number: i32, caller: &AccountId)
        -> (r: Result<(), Error>)
        ensures
            caller.bytes@ != owner_or_default(old(self)@, name.bytes@) ==> r == Result::<
                (),
                Error,
            >::Err(Error::CallerIsNotOwner) && final(self)@ == old(self)@,
            caller.bytes@ == owner_or_default(old(self)@, name.bytes@) && number == 69 ==> r
                == Result::<(), Error>::Err(Error::ForbiddenDomain) && final(self)@ == old(self)@,
            caller.bytes@ == owner_or_default(old(self)@, name.bytes@) && number != 69 ==> r
                == Result::<(), Error>::Ok(()) && final(self)@ == (DnsView {
                name_to_owner: store(old(self)@.name_to_owner, name.bytes@, to.bytes@),
                domains: old(self)@.domains.push(name.bytes@),
                dangerous_number: if number == 80 {
                    80
                } else {
                    trunc_rem(number as int, 70) as i32
                },
                ..old(self)@
            }),
    {
        let owner = self.get_owner_or_default(name);
        if !bytes_eq(caller.bytes.as_slice(), owner.bytes.as_slice()) {
            return Err(Error::CallerIsNotOwner);
        }
        if number == 69 {
            return Err(Error::ForbiddenDomain);
        }
        let n64: i64 = number as i64;
        let m64: i64 = if n64 >= 0 {
            n64 % 70
        } else {
            -((-n64) % 70)
        };
        self.dangerous_number = m64 as i32;
        if number == 80 {
            self.dangerous_number = 80;
        }
        map_insert(&mut self.name_to_owner, name, to);
        self.domains.push(DomainHash { bytes: copy_bytes(&name.bytes) });
        proof {
            assert(self@.domains =~= old(self)@.domains.push(name.bytes@));
        }
        Ok(())
    }

    /// The address for `name`, or the default address.
    pub fn get_address(&self, name: &DomainHash) -> (r: AccountId)
        ensures
            r.bytes@ == address_or_default(self@, name.bytes@),
    {
        match map_get(&self.name_to_address, name) {
            Some(a) => a,
            None => AccountId { bytes: copy_bytes(&self.default_address.bytes) },
        }
    }

    /// The owner of `name`, or the default address.
    pub fn get_owner(&self, name: &DomainHash) -> (r: AccountId)
        ensures
            r.bytes@ == owner_or_default(self@, name.bytes@),
    {
        self.get_owner_or_default(name)
    }

    fn get_owner_or_default(&self, name: &DomainHash) -> (r: AccountId)
        ensures
            r.bytes@ == owner_or_default(self@, name.bytes@),
    {
        match map_get(&self.name_to_owner, name) {
            Some(a) => a,
            None => AccountId { bytes: copy_bytes(&self.default_address.bytes) },
        }
    }

    /// The invariant that the forbidden domain is never registered: true
    /// iff no registered domain equals it.
    pub fn phink_assert_hash42_cant_be_registered(&self) -> (r: bool)
        ensures
            r == (forall|i: int|
                0 <= i < self@.domains.len() ==> #[trigger] self@.domains[i]
                    != forbidden_domain()),
    {
        let fd = forbidden_domain_hash();
        let mut i: usize = 0;
        while i < self.domains.len()
            invariant
                0 <= i <= self.domains@.len(),
                fd.bytes@ == forbidden_domain(),
                forall|j: int| 0 <= j < i ==> #[trigger] self@.domains[j] != forbidden_domain(),
            decreases self.domains@.len() - i,
        {
            if bytes_eq(self.domains[i].bytes.as_slice(), fd.bytes.as_slice()) {
                proof {
                    assert(self@.domains[i as int] == forbidden_domain());
                }
                return false;
            }
            proof {
                assert(self@.domains[i as int] == self.domains@[i as int].bytes@);
            }
            i = i + 1;
        }
        true
    }

    /// The invariant that the dangerous number never reaches 69.
    pub fn phink_assert_dangerous_number(&self) -> (r: bool)
        ensures
            r == (self@.dangerous_number != 69),
    {
        self.dangerous_number != 69
    }

    /// The invariant that nobody ever transfers exactly 1377 units.
    pub fn phink_assert_cannot_transfer_1337(&self) -> (r: bool)
        ensures
            r == !self@.leet_transfered,
    {
        !self.leet_transfered
    }

    /// The invariant that the three-call crash flag never rises.
    pub fn phink_assert_three_message_calls_required_to_crash(&self) -> (r: bool)
        ensures
            r == !self@.should_panic_after_three_calls,
    {
        !self.should_panic_after_three_calls
    }

    /// A deep copy of the storage, for forking the genesis snapshot.
    pub fn duplicate(&self) -> (r: DomainNameService)
        ensures
            r@ == self@,
    {
        let r = DomainNameService {
            name_to_address: copy_entries(&self.name_to_address),
            name_to_owner: copy_entries(&self.name_to_owner),
            default_address: AccountId { bytes: copy_bytes(&self.default_address.bytes) },
            domains: copy_hashes(&self.domains),
            dangerous_number: self.dangerous_number,
            should_panic_after_three_calls: self.should_panic_after_three_calls,
            leet_transfered: self.leet_transfered,
        };
        r
    }
}

fn copy_entries(v: &Vec<MapEntry>) -> (r: Vec<MapEntry>)
    ensures
        entries_view(r@) == entries_view(v@),
{
    let mut r: Vec<MapEntry> = Vec::new();
    let mut i: usize = 0;
    while i < v.len()
        invariant
            0 <= i <= v@.len(),
            r@.len() == i,
            forall|j: int|
                0 <= j < i ==> #[trigger] r@[j].key.bytes@ == v@[j].key.bytes@
                    && r@[j].value.bytes@ == v@[j].value.bytes@,
        decreases v@.len() - i,
    {
        let e = MapEntry {
            key: DomainHash { bytes: copy_bytes(&v[i].key.bytes) },
            value: AccountId { bytes: copy_bytes(&v[i].value.bytes) },
        };
        r.push(e);
        i = i + 1;
    }
    proof {
        assert forall|j: int| 0 <= j < v@.len() implies entries_view(r@)[j] == entries_view(
            v@,
        )[j] by {
            assert(r@[j].key.bytes@ == v@[j].key.bytes@);
        }
        assert(entries_view(r@) =~= entries_view(v@));
    }
    r
}

fn copy_hashes(v: &Vec<DomainHash>) -> (r: Vec<DomainHash>)
    ensures
        hashes_view(r@) == hashes_view(v@),
{
    let mut r: Vec<DomainHash> = Vec::new();
    let mut i: usize = 0;
    while i < v.len()
        invariant
            0 <= i <= v@.len(),
            r@.len() == i,
            forall|j: int| 0 <= j < i ==> #[trigger] r@[j].bytes@ == v@[j].bytes@,
        decreases v@.len() - i,
    {
        let h = DomainHash { bytes: copy_bytes(&v[i].bytes) };
        r.push(h);
        i = i + 1;
    }
    proof {
        assert forall|j: int| 0 <= j < v@.len() implies hashes_view(r@)[j] == hashes_view(
            v@,
        )[j] by {
            assert(r@[j].bytes@ == v@[j].bytes@);
        }
        assert(hashes_view(r@) =~= hashes_view(v@));
    }
    r
}

} // verus!
