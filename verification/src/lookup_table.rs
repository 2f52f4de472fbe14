//! Address-table resolution: deserializing on-chain lookup-table accounts
//! and expanding a message's table references into concrete account keys.

use vstd::prelude::*;

use crate::errors::{AddressLoaderError, Error};
use crate::keys::{key_views, Pubkey, PUBKEY_BYTES};
use crate::message::MessageAddressTableLookup;

verus! {

/// Number of bytes of metadata ahead of the address array in a lookup
/// table's raw account data.
pub const LOOKUP_TABLE_META_SIZE: usize = 56;

/// Raw lookup-table account bytes are well formed when they hold the full
/// metadata header, an initialized-table discriminator, and a whole number
/// of fixed-width addresses after the header.
pub open spec fn table_bytes_wf(s: Seq<u8>) -> bool {
    &&& s.len() >= LOOKUP_TABLE_META_SIZE
    &&& (s.len() - LOOKUP_TABLE_META_SIZE) % (PUBKEY_BYTES as int) == 0
    &&& s[0] == 1u8
    &&& s[1] == 0u8
    &&& s[2] == 0u8
    &&& s[3] == 0u8
}

/// Number of addresses stored after the metadata header.
pub open spec fn table_addr_count(s: Seq<u8>) -> int {
    (s.len() - LOOKUP_TABLE_META_SIZE) / (PUBKEY_BYTES as int)
}

/// Bytes of the `i`-th stored address.
pub open spec fn table_addr_at(s: Seq<u8>, i: int) -> Seq<u8> {
    s.subrange(
        LOOKUP_TABLE_META_SIZE + i * PUBKEY_BYTES,
        LOOKUP_TABLE_META_SIZE + i * PUBKEY_BYTES + PUBKEY_BYTES,
    )
}

/// All stored addresses of a well-formed raw payload, in order.
pub open spec fn parsed_addr_views(s: Seq<u8>) -> Seq<Seq<u8>> {
    Seq::new(table_addr_count(s) as nat, |i: int| table_addr_at(s, i))
}

/// An on-chain lookup table: an ordered, index-addressable address list,
/// fixed at fetch time and never mutated.
#[derive(Debug)]
pub struct AddressLookupTable {
    pub addresses: Vec<Pubkey>,
}

impl AddressLookupTable {
    /// Every stored address has the fixed width.
    pub open spec fn wf(&self) -> bool {
        forall|i: int| 0 <= i < self.addresses@.len() ==> (#[trigger] self.addresses@[i]).wf()
    }
}

/// A lookup table paired with its on-chain address, the form handed to the
/// recompiler.
#[derive(Debug)]
pub struct AddressLookupTableAccount {
    pub key: Pubkey,
    pub addresses: Vec<Pubkey>,
}

/// A fetched account's raw data paired with the address it was fetched from.
#[derive(Debug)]
pub struct KeyedAccount {
    pub key: Pubkey,
    pub data: Vec<u8>,
}

/// The concrete keys a message's lookups resolve to: all writable-loaded
/// keys in lookup order, then all readonly-loaded keys in lookup order.
#[derive(Debug)]
pub struct LoadedAddresses {
    pub writable: Vec<Pubkey>,
    pub readonly: Vec<Pubkey>,
}

/// Deserializes a lookup table from its raw on-chain account bytes.
///
/// Accepts exactly the payloads that hold the full metadata header with the
/// initialized-table discriminator and a whole number of addresses; on any
/// other payload it fails, and it never truncates.
pub fn deserialize_lookup_table(data: &Vec<u8>) -> (r: Result<AddressLookupTable, Error>)
    ensures
        r is Ok <==> table_bytes_wf(data@),
        r matches Err(e) ==> e == Error::LookupTableDeserialize,
        r matches Ok(t) ==> {
            &&& t.wf()
            &&& t.addresses@.len() == table_addr_count(data@)
            &&& key_views(t.addresses@) == parsed_addr_views(data@)
        },
{
    if data.len() < LOOKUP_TABLE_META_SIZE {
        return Err(Error::LookupTableDeserialize);
    }
    if !(data[0] == 1u8 && data[1] == 0u8 && data[2] == 0u8 && data[3] == 0u8) {
        return Err(Error::LookupTableDeserialize);
    }
    if (data.len() - LOOKUP_TABLE_META_SIZE) % PUBKEY_BYTES != 0 {
        return Err(Error::LookupTableDeserialize);
    }
    let n = data.len();
    let mut addresses: Vec<Pubkey> = Vec::new();
    let mut start: usize = LOOKUP_TABLE_META_SIZE;
    while start < n
        invariant
            n == data@.len(),
            table_bytes_wf(data@),
            LOOKUP_TABLE_META_SIZE <= start <= n,
            start == LOOKUP_TABLE_META_SIZE + addresses@.len() * PUBKEY_BYTES,
            (n - start) % (PUBKEY_BYTES as int) == 0,
            forall|j: int|
                0 <= j < addresses@.len() ==> (#[trigger] addresses@[j])@ == table_addr_at(
                    data@,
                    j,
                ),
        decreases n - start,
    {
        assert(start + PUBKEY_BYTES <= n) by {
            assert((n - start) % (PUBKEY_BYTES as int) == 0);
            assert(n - start > 0);
            assert(n - start >= PUBKEY_BYTES) by {
                if n - start < PUBKEY_BYTES {
                    assert((n - start) % (PUBKEY_BYTES as int) == n - start);
                }
            }
        }
        let mut chunk: Vec<u8> = Vec::new();
        let mut j: usize = 0;
        while j < PUBKEY_BYTES
            invariant
                n == data@.len(),
                start + PUBKEY_BYTES <= n,
                j <= PUBKEY_BYTES,
                chunk@ =~= data@.subrange(start as int, start + j),
            decreases PUBKEY_BYTES - j,
        {
            chunk.push(data[start + j]);
            assert(chunk@ =~= data@.subrange(start as int, start + j + 1));
            j += 1;
        }
        let ghost k = addresses@.len() as int;
        addresses.push(Pubkey::new(chunk));
        assert(addresses@[k]@ == table_addr_at(data@, k)) by {
            assert(addresses@[k]@ =~= data@.subrange(
                LOOKUP_TABLE_META_SIZE + k * PUBKEY_BYTES,
                LOOKUP_TABLE_META_SIZE + k * PUBKEY_BYTES + PUBKEY_BYTES,
            ));
        }
        start += PUBKEY_BYTES;
    }
    proof {
        let k = addresses@.len() as int;
        assert(k * PUBKEY_BYTES == n - LOOKUP_TABLE_META_SIZE);
        assert(k == table_addr_count(data@)) by (nonlinear_arith)
            requires
                k * PUBKEY_BYTES == n - LOOKUP_TABLE_META_SIZE,
                table_addr_count(data@) == (n - LOOKUP_TABLE_META_SIZE) / (PUBKEY_BYTES as int),
                n >= LOOKUP_TABLE_META_SIZE,
        ;
        assert(key_views(addresses@) =~= parsed_addr_views(data@));
    }
    Ok(AddressLookupTable { addresses })
}

/// One resolved table held by a loader.
#[derive(Debug)]
pub struct TableEntry {
    pub key: Pubkey,
    pub table: AddressLookupTable,
}

/// Index of the first entry whose key bytes are `k`; `-1` if absent.
pub open spec fn find_table(es: Seq<TableEntry>, k: Seq<u8>) -> int
    decreases es.len(),
{
    if es.len() == 0 {
        -1
    } else if es[0].key@ == k {
        0
    } else {
        let rest = find_table(es.drop_first(), k);
        if rest == -1 {
            -1
        } else {
            rest + 1
        }
    }
}

/// If position `i` holds key `k` and no earlier position does, `i` is the
/// first entry index for `k`.
pub proof fn lemma_find_table_first(es: Seq<TableEntry>, k: Seq<u8>, i: int)
    requires
        0 <= i < es.len(),
        es[i].key@ == k,
        forall|j: int| 0 <= j < i ==> es[j].key@ != k,
    ensures
        find_table(es, k) == i,
    decreases es.len(),
{
    if i > 0 {
        lemma_find_table_first(es.drop_first(), k, i - 1);
    }
}

/// A simple address loader: a read-only mapping from table address to the
/// table's resolved address list, built once per call and never mutated.
#[derive(Debug)]
pub struct BasicAddressLoader {
    pub tables: Vec<TableEntry>,
}

impl BasicAddressLoader {
    /// The key bytes of the held tables, in storage order.
    pub open spec fn entry_keys(&self) -> Seq<Seq<u8>> {
        self.tables@.map_values(|e: TableEntry| e.key@)
    }

    /// Whether a table with address bytes `k` was resolved.
    pub open spec fn has_table(&self, k: Seq<u8>) -> bool {
        exists|i: int| 0 <= i < self.tables@.len() && (#[trigger] self.tables@[i]).key@ == k
    }

    /// The address views of the table stored under `k`.
    pub open spec fn table_for(&self, k: Seq<u8>) -> Seq<Seq<u8>> {
        key_views(self.tables@[find_table(self.tables@, k)].table.addresses@)
    }

    /// Distinct table keys, every stored address of fixed width.
    pub open spec fn wf(&self) -> bool {
        &&& forall|i: int, j: int|
            0 <= i < j < self.tables@.len() ==> (#[trigger] self.tables@[i]).key@ != (
            #[trigger] self.tables@[j]).key@
        &&& forall|i: int| 0 <= i < self.tables@.len() ==> (#[trigger] self.tables@[i]).table.wf()
    }

    /// An empty loader, for messages without lookup references.
    pub fn empty() -> (r: BasicAddressLoader)
        ensures
            r.wf(),
            r.tables@.len() == 0,
            forall|k: Seq<u8>| !r.has_table(k),
    {
        BasicAddressLoader { tables: Vec::new() }
    }

    /// Looks a resolved table up by its address.
    pub fn get_table(&self, key: &Pubkey) -> (r: Option<&AddressLookupTable>)
        ensures
            match r {
                Some(t) => self.has_table(key@) && key_views(t.addresses@) == self.table_for(key@),
                None => !self.has_table(key@),
            },
    {
        let n = self.tables.len();
        let mut i: usize = 0;
        while i < n
            invariant
                n == self.tables@.len(),
                i <= n,
                forall|j: int| 0 <= j < i ==> (#[trigger] self.tables@[j]).key@ != key@,
            decreases n - i,
        {
            if self.tables[i].key.eq_key(key) {
                proof {
                    lemma_find_table_first(self.tables@, key@, i as int);
                }
                return Some(&self.tables[i].table);
            }
            i += 1;
        }
        None
    }

    /// Resolves one (table address, table index) pair to a concrete key,
    /// failing when the table is absent from the resolved set or when the
    /// index is not below the table's address count.
    pub fn lookup(&self, key: &Pubkey, index: usize) -> (r: Result<Pubkey, AddressLoaderError>)
        ensures
            !self.has_table(key@) ==> r == Err::<Pubkey, AddressLoaderError>(
                AddressLoaderError::LookupTableAccountNotFound,
            ),
            self.has_table(key@) && index >= self.table_for(key@).len() ==> r == Err::<
                Pubkey,
                AddressLoaderError,
            >(AddressLoaderError::InvalidLookupIndex),
            self.has_table(key@) && index < self.table_for(key@).len() ==> (r matches Ok(p) && p@
                == self.table_for(key@)[index as int]),
    {
        match self.get_table(key) {
            None => Err(AddressLoaderError::LookupTableAccountNotFound),
            Some(t) => {
                if index < t.addresses.len() {
                    Ok(t.addresses[index].clone())
                } else {
                    Err(AddressLoaderError::InvalidLookupIndex)
                }
            },
        }
    }

    /// The flat (table address, address list) pairs of every resolved table,
    /// in storage order, for downstream reuse.
    pub fn to_address_lookup_table_accounts(&self) -> (r: Vec<AddressLookupTableAccount>)
        ensures
            r@.len() == self.tables@.len(),
            forall|i: int|
                0 <= i < r@.len() ==> (#[trigger] r@[i]).key@ == self.tables@[i].key@ && key_views(
                    r@[i].addresses@,
                ) == key_views(self.tables@[i].table.addresses@),
    {
        let mut r: Vec<AddressLookupTableAccount> = Vec::new();
        let n = self.tables.len();
        let mut i: usize = 0;
        while i < n
            invariant
                n == self.tables@.len(),
                i <= n,
                r@.len() == i,
                forall|j: int|
                    0 <= j < i ==> (#[trigger] r@[j]).key@ == self.tables@[j].key@ && key_views(
                        r@[j].addresses@,
                    ) == key_views(self.tables@[j].table.addresses@),
            decreases n - i,
        {
            let e = &self.tables[i];
            let mut addresses: Vec<Pubkey> = Vec::new();
            let m = e.table.addresses.len();
            let mut j: usize = 0;
            while j < m
                invariant
                    m == e.table.addresses@.len(),
                    j <= m,
                    addresses@.len() == j,
                    forall|a: int|
                        0 <= a < j ==> (#[trigger] addresses@[a])@ == e.table.addresses@[a]@,
                decreases m - j,
            {
                addresses.push(e.table.addresses[j].clone());
                j += 1;
            }
            assert(key_views(addresses@) =~= key_views(e.table.addresses@));
            r.push(AddressLookupTableAccount { key: e.key.clone(), addresses });
            i += 1;
        }
        r
    }
}

/// The index bytes a lookup loads as writable or as readonly.
pub open spec fn idxs_of(l: MessageAddressTableLookup, writable: bool) -> Seq<u8> {
    if writable {
        l.writable_indexes@
    } else {
        l.readonly_indexes@
    }
}

/// Every index is below the table's address count.
pub open spec fn idxs_in_bounds(t: Seq<Seq<u8>>, idxs: Seq<u8>) -> bool {
    forall|i: int| 0 <= i < idxs.len() ==> (idxs[i] as int) < t.len()
}

/// The table addresses selected by `idxs`, in index order.
pub open spec fn selected(t: Seq<Seq<u8>>, idxs: Seq<u8>) -> Seq<Seq<u8>> {
    idxs.map_values(|i: u8| t[i as int])
}

/// Selects the addresses of one table named by `idxs`, failing on the first
/// index not below the table's address count.
fn select_from_table(t: &AddressLookupTable, idxs: &Vec<u8>) -> (r: Result<
    Vec<Pubkey>,
    AddressLoaderError,
>)
    ensures
        r is Ok <==> idxs_in_bounds(key_views(t.addresses@), idxs@),
        r matches Err(e) ==> e == AddressLoaderError::InvalidLookupIndex,
        r matches Ok(v) ==> key_views(v@) == selected(key_views(t.addresses@), idxs@),
{
    let mut out: Vec<Pubkey> = Vec::new();
    let n = idxs.len();
    let mut i: usize = 0;
    while i < n
        invariant
            n == idxs@.len(),
            i <= n,
            out@.len() == i,
            forall|j: int| 0 <= j < i ==> (idxs@[j] as int) < t.addresses@.len(),
            forall|j: int| 0 <= j < i ==> (#[trigger] out@[j])@ == t.addresses@[idxs@[j] as int]@,
        decreases n - i,
    {
        let idx = idxs[i] as usize;
        if idx >= t.addresses.len() {
            return Err(AddressLoaderError::InvalidLookupIndex);
        }
        out.push(t.addresses[idx].clone());
        i += 1;
    }
    assert(key_views(out@) =~= selected(key_views(t.addresses@), idxs@));
    Ok(out)
}

impl BasicAddressLoader {
    /// One lookup resolves cleanly: its table is held and every writable and
    /// readonly index is below the table's address count.
    pub open spec fn lookup_ok(&self, l: MessageAddressTableLookup) -> bool {
        &&& self.has_table(l.account_key@)
        &&& idxs_in_bounds(self.table_for(l.account_key@), idxs_of(l, true))
        &&& idxs_in_bounds(self.table_for(l.account_key@), idxs_of(l, false))
    }

    /// Concatenation of the selected addresses of `lookups`, writable or
    /// readonly side, in lookup order.
    pub open spec fn sel_concat(&self, lookups: Seq<MessageAddressTableLookup>, writable: bool) -> Seq<
        Seq<u8>,
    >
        decreases lookups.len(),
    {
        if lookups.len() == 0 {
            Seq::empty()
        } else {
            self.sel_concat(lookups.drop_last(), writable) + selected(
                self.table_for(lookups.last().account_key@),
                idxs_of(lookups.last(), writable),
            )
        }
    }

    /// Expands the message's table references into concrete keys: all
    /// writable-loaded keys in lookup order, then all readonly-loaded keys in
    /// lookup order. Fails when a referenced table is absent from the
    /// resolved set or an index is not below its table's address count; it
    /// never clamps or skips.
    pub fn load_addresses(&self, lookups: &Vec<MessageAddressTableLookup>) -> (r: Result<
        LoadedAddresses,
        AddressLoaderError,
    >)
        ensures
            r is Ok <==> (forall|j: int|
                0 <= j < lookups@.len() ==> self.lookup_ok(#[trigger] lookups@[j])),
            r matches Ok(la) ==> key_views(la.writable@) == self.sel_concat(lookups@, true)
                && key_views(la.readonly@) == self.sel_concat(lookups@, false),
            r matches Err(e) ==> e == AddressLoaderError::LookupTableAccountNotFound || e
                == AddressLoaderError::InvalidLookupIndex,
            r == Err::<LoadedAddresses, AddressLoaderError>(
                AddressLoaderError::LookupTableAccountNotFound,
            ) ==> exists|j: int|
                0 <= j < lookups@.len() && !self.has_table(
                    (#[trigger] lookups@[j]).account_key@,
                ),
            r == Err::<LoadedAddresses, AddressLoaderError>(
                AddressLoaderError::InvalidLookupIndex,
            ) ==> exists|j: int|
                0 <= j < lookups@.len() && self.has_table((#[trigger] lookups@[j]).account_key@)
                    && !(idxs_in_bounds(
                    self.table_for(lookups@[j].account_key@),
                    idxs_of(lookups@[j], true),
                ) && idxs_in_bounds(
                    self.table_for(lookups@[j].account_key@),
                    idxs_of(lookups@[j], false),
                )),
    {
        let mut writable: Vec<Pubkey> = Vec::new();
        let mut readonly: Vec<Pubkey> = Vec::new();
        let n = lookups.len();
        let mut i: usize = 0;
        while i < n
            invariant
                n == lookups@.len(),
                i <= n,
                forall|j: int| 0 <= j < i ==> self.lookup_ok(#[trigger] lookups@[j]),
                key_views(writable@) =~= self.sel_concat(lookups@.take(i as int), true),
                key_views(readonly@) =~= self.sel_concat(lookups@.take(i as int), false),
            decreases n - i,
        {
            let l = &lookups[i];
            match self.get_table(&l.account_key) {
                None => {
                    return Err(AddressLoaderError::LookupTableAccountNotFound);
                },
                Some(t) => {
                    let ghost tv = self.table_for(l.account_key@);
                    let mut w = match select_from_table(t, &l.writable_indexes) {
                        Ok(w) => w,
                        Err(e) => {
                            return Err(e);
                        },
                    };
                    let mut ro = match select_from_table(t, &l.readonly_indexes) {
                        Ok(ro) => ro,
                        Err(e) => {
                            return Err(e);
                        },
                    };
                    let ghost old_w = writable@;
                    let ghost old_r = readonly@;
                    let ghost wv = w@;
                    let ghost rv = ro@;
                    writable.append(&mut w);
                    readonly.append(&mut ro);
                    proof {
                        assert(lookups@.take(i + 1).drop_last() =~= lookups@.take(i as int));
                        assert(lookups@.take(i + 1).last() == lookups@[i as int]);
                        assert(key_views(writable@) =~= key_views(old_w) + key_views(wv));
                        assert(key_views(readonly@) =~= key_views(old_r) + key_views(rv));
                    }
                },
            }
            i += 1;
        }
        assert(lookups@.take(n as int) =~= lookups@);
        Ok(LoadedAddresses { writable, readonly })
    }
}

/// There is some position at or after `i` whose key bytes equal `k`.
pub open spec fn key_in_suffix(accounts: Seq<KeyedAccount>, i: int, k: Seq<u8>) -> bool {
    exists|j: int| i <= j < accounts.len() && (#[trigger] accounts[j]).key@ == k
}

/// Position `i` holds the last occurrence of its key.
pub open spec fn last_occurrence(accounts: Seq<KeyedAccount>, i: int) -> bool {
    forall|j: int| i < j < accounts.len() ==> (#[trigger] accounts[j]).key@ != accounts[i].key@
}

impl BasicAddressLoader {
    /// Builds a loader from already-fetched (address, raw data) pairs,
    /// deserializing each payload. Every payload is validated; when one
    /// address appears more than once, its last payload is kept.
    ///
    /// Relied on downstream: the result holds exactly the input addresses,
    /// each mapped to the addresses parsed from its (last) payload.
    #[verifier::rlimit(60)]
    pub fn from_loaded_accounts(accounts: &Vec<KeyedAccount>) -> (r: Result<
        BasicAddressLoader,
        Error,
    >)
        ensures
            r is Ok <==> (forall|i: int|
                0 <= i < accounts@.len() ==> table_bytes_wf((#[trigger] accounts@[i]).data@)),
            r matches Err(e) ==> e == Error::LookupTableDeserialize,
            r matches Ok(l) ==> {
                &&& l.wf()
                &&& forall|k: Seq<u8>| l.has_table(k) <==> key_in_suffix(accounts@, 0, k)
                &&& forall|i: int|
                    0 <= i < accounts@.len() && last_occurrence(accounts@, i) ==> l.table_for(
                        (#[trigger] accounts@[i]).key@,
                    ) == parsed_addr_views(accounts@[i].data@)
            },
    {
        let mut loader = BasicAddressLoader { tables: Vec::new() };
        let n = accounts.len();
        let mut i: usize = n;
        while i > 0
            invariant
                n == accounts@.len(),
                i <= n,
                loader.wf(),
                forall|k: Seq<u8>| loader.has_table(k) <==> key_in_suffix(accounts@, i as int, k),
                forall|j: int|
                    i <= j < n ==> table_bytes_wf((#[trigger] accounts@[j]).data@),
                forall|j: int|
                    i <= j < n && last_occurrence(accounts@, j) ==> loader.table_for(
                        (#[trigger] accounts@[j]).key@,
                    ) == parsed_addr_views(accounts@[j].data@),
            decreases i,
        {
            i -= 1;
            let acct = &accounts[i];
            let table = match deserialize_lookup_table(&acct.data) {
                Ok(t) => t,
                Err(e) => {
                    return Err(e);
                },
            };
            let ghost old_loader = loader;
            match loader.get_table(&acct.key) {
                Some(_) => {
                    proof {
                        assert forall|k: Seq<u8>| loader.has_table(k) <==> key_in_suffix(
                            accounts@,
                            i as int,
                            k,
                        ) by {
                            if key_in_suffix(accounts@, i as int, k) {
                                let j = choose|j: int|
                                    i <= j < n && (#[trigger] accounts@[j]).key@ == k;
                                if j == i {
                                    assert(loader.has_table(accounts@[i as int].key@));
                                } else {
                                    assert(key_in_suffix(accounts@, i + 1, k));
                                }
                            }
                        }
                    }
                },
                None => {
                    let entry = TableEntry { key: acct.key.clone(), table };
                    let ghost old_tables = loader.tables@;
                    loader.tables.push(entry);
                    proof {
                        assert(forall|j: int|
                            0 <= j < old_tables.len() ==> loader.tables@[j] == old_tables[j]);
                        assert(loader.tables@[old_tables.len() as int].key@ == accounts@[
                            i as int
                        ].key@);
                        assert forall|k: Seq<u8>| loader.has_table(k) <==> key_in_suffix(
                            accounts@,
                            i as int,
                            k,
                        ) by {
                            if loader.has_table(k) {
                                let j = choose|j: int|
                                    0 <= j < loader.tables@.len() && (
                                    #[trigger] loader.tables@[j]).key@ == k;
                                if j < old_tables.len() {
                                    assert(old_loader.has_table(k));
                                } else {
                                    assert(accounts@[i as int].key@ == k);
                                }
                            }
                            if key_in_suffix(accounts@, i as int, k) {
                                let j = choose|j: int|
                                    i <= j < n && (#[trigger] accounts@[j]).key@ == k;
                                if j == i {
                                    assert(loader.tables@[old_tables.len() as int].key@ == k);
                                } else {
                                    assert(key_in_suffix(accounts@, i + 1, k));
                                    assert(old_loader.has_table(k));
                                    let w = choose|w: int|
                                        0 <= w < old_tables.len() && (
                                        #[trigger] old_tables[w]).key@ == k;
                                    assert(loader.tables@[w].key@ == k);
                                }
                            }
                        }
                        assert(loader.wf()) by {
                            assert forall|a: int, b: int|
                                0 <= a < b < loader.tables@.len() implies (
                            #[trigger] loader.tables@[a]).key@ != (
                            #[trigger] loader.tables@[b]).key@ by {
                                if b == old_tables.len() {
                                    if loader.tables@[a].key@ == loader.tables@[b].key@ {
                                        assert(old_loader.has_table(accounts@[i as int].key@));
                                    }
                                }
                            }
                        }
                        lemma_find_table_first(
                            loader.tables@,
                            accounts@[i as int].key@,
                            old_tables.len() as int,
                        );
                        assert(loader.table_for(accounts@[i as int].key@) == parsed_addr_views(
                            accounts@[i as int].data@,
                        ));
                        assert forall|k: Seq<u8>| old_loader.has_table(k) implies loader.table_for(
                            k,
                        ) == old_loader.table_for(k) by {
                            let w = choose|w: int|
                                0 <= w < old_tables.len() && (#[trigger] old_tables[w]).key@ == k;
                            let f = find_table(old_tables, k);
                            lemma_find_table_found(old_tables, k);
                            lemma_find_table_first(loader.tables@, k, f);
                        }
                    }
                },
            }
            proof {
                assert forall|j: int|
                    i <= j < n && last_occurrence(accounts@, j) implies loader.table_for(
                    (#[trigger] accounts@[j]).key@,
                ) == parsed_addr_views(accounts@[j].data@) by {
                    if j > i {
                        assert(old_loader.table_for(accounts@[j].key@) == parsed_addr_views(
                            accounts@[j].data@,
                        ));
                        assert(old_loader.has_table(accounts@[j].key@)) by {
                            assert(key_in_suffix(accounts@, i + 1, accounts@[j].key@));
                        }
                        if old_loader == loader {
                        } else {
                            assert(loader.table_for(accounts@[j].key@) == old_loader.table_for(
                                accounts@[j].key@,
                            ));
                        }
                    }
                }
            }
        }
        Ok(loader)
    }

    /// Builds a loader from the outcome of one batched account fetch:
    /// `accounts[i]` is the raw data fetched for `keys[i]`, or nothing when
    /// that account does not exist on chain. Any missing account is fatal;
    /// any undeserializable payload is fatal.
    pub fn from_fetched_accounts(keys: &Vec<Pubkey>, accounts: Vec<Option<Vec<u8>>>) -> (r: Result<
        BasicAddressLoader,
        Error,
    >)
        requires
            keys@.len() == accounts@.len(),
        ensures
            r == Err::<BasicAddressLoader, Error>(Error::LookupTableAccountNotFound) <==> exists|
                i: int,
            | 0 <= i < accounts@.len() && accounts@[i] is None,
            r == Err::<BasicAddressLoader, Error>(Error::LookupTableDeserialize) <==> ((forall|
                i: int,
            | 0 <= i < accounts@.len() ==> accounts@[i] is Some) && exists|i: int|
                0 <= i < accounts@.len() && !table_bytes_wf(
                    (#[trigger] accounts@[i])->Some_0@,
                )),
            r is Ok <==> (forall|i: int|
                0 <= i < accounts@.len() ==> (#[trigger] accounts@[i]) is Some && table_bytes_wf(
                    accounts@[i]->Some_0@,
                )),
            r matches Ok(l) ==> {
                &&& l.wf()
                &&& forall|k: Seq<u8>|
                    l.has_table(k) <==> exists|i: int|
                        0 <= i < keys@.len() && (#[trigger] keys@[i])@ == k
                &&& forall|i: int|
                    0 <= i < keys@.len() && (forall|j: int|
                        i < j < keys@.len() ==> (#[trigger] keys@[j])@ != keys@[i]@)
                        ==> l.table_for((#[trigger] keys@[i])@) == parsed_addr_views(
                        accounts@[i]->Some_0@,
                    )
            },
    {
        let n = keys.len();
        let mut pairs: Vec<KeyedAccount> = Vec::new();
        let mut i: usize = 0;
        while i < n
            invariant
                n == keys@.len(),
                n == accounts@.len(),
                i <= n,
                pairs@.len() == i,
                forall|j: int| 0 <= j < i ==> (#[trigger] accounts@[j]) is Some,
                forall|j: int|
                    0 <= j < i ==> (#[trigger] pairs@[j]).key@ == keys@[j]@ && pairs@[j].data@
                        == accounts@[j]->Some_0@,
            decreases n - i,
        {
            let data = match &accounts[i] {
                Some(d) => {
                    let c = d.clone();
                    assert(c@ =~= accounts@[i as int]->Some_0@);
                    c
                },
                None => {
                    return Err(Error::LookupTableAccountNotFound);
                },
            };
            pairs.push(KeyedAccount { key: keys[i].clone(), data });
            i += 1;
        }
        let r = Self::from_loaded_accounts(&pairs);
        proof {
            match &r {
                Ok(l) => {
                    assert forall|k: Seq<u8>| l.has_table(k) <==> exists|i: int|
                        0 <= i < keys@.len() && (#[trigger] keys@[i])@ == k by {
                        if l.has_table(k) {
                            let j = choose|j: int|
                                0 <= j < pairs@.len() && (#[trigger] pairs@[j]).key@ == k;
                            assert(keys@[j]@ == k);
                        }
                        if exists|i: int| 0 <= i < keys@.len() && (#[trigger] keys@[i])@ == k {
                            let j = choose|j: int|
                                0 <= j < keys@.len() && (#[trigger] keys@[j])@ == k;
                            assert(pairs@[j].key@ == k);
                            assert(key_in_suffix(pairs@, 0, k));
                        }
                    }
                    assert forall|i: int|
                        0 <= i < keys@.len() && (forall|j: int|
                            i < j < keys@.len() ==> (#[trigger] keys@[j])@ != keys@[i]@) implies l.table_for(
                        (#[trigger] keys@[i])@,
                    ) == parsed_addr_views(accounts@[i]->Some_0@) by {
                        assert(last_occurrence(pairs@, i)) by {
                            assert forall|j: int| i < j < pairs@.len() implies (
                            #[trigger] pairs@[j]).key@ != pairs@[i].key@ by {
                                assert(keys@[j]@ != keys@[i]@);
                            }
                        }
                        assert(pairs@[i].key@ == keys@[i]@);
                        assert(pairs@[i].data@ == accounts@[i]->Some_0@);
                    }
                },
                Err(_e) => {
                    assert(!(forall|w: int|
                        0 <= w < pairs@.len() ==> table_bytes_wf((#[trigger] pairs@[w]).data@)));
                    let w = choose|w: int|
                        0 <= w < pairs@.len() && !table_bytes_wf((#[trigger] pairs@[w]).data@);
                    assert(0 <= w < accounts@.len() && !table_bytes_wf(accounts@[w]->Some_0@));
                },
            }
            if r is Ok {
                assert forall|w: int| 0 <= w < accounts@.len() implies (
                #[trigger] accounts@[w]) is Some && table_bytes_wf(accounts@[w]->Some_0@) by {
                    assert(table_bytes_wf(pairs@[w].data@));
                }
            } else {
                assert(exists|w: int|
                    0 <= w < accounts@.len() && !table_bytes_wf(
                        (#[trigger] accounts@[w])->Some_0@,
                    ));
            }
        }
        match r {
            Ok(l) => Ok(l),
            Err(e) => Err(e),
        }
    }
}

/// If key `k` is present, its first entry index is in range and holds `k`.
pub proof fn lemma_find_table_found(es: Seq<TableEntry>, k: Seq<u8>)
    requires
        exists|i: int| 0 <= i < es.len() && (#[trigger] es[i]).key@ == k,
    ensures
        0 <= find_table(es, k) < es.len(),
        es[find_table(es, k)].key@ == k,
        forall|j: int| 0 <= j < find_table(es, k) ==> (#[trigger] es[j]).key@ != k,
    decreases es.len(),
{
    if es.len() > 0 {
        if es[0].key@ == k {
        } else {
            assert(exists|i: int|
                0 <= i < es.drop_first().len() && (#[trigger] es.drop_first()[i]).key@ == k) by {
                let i = choose|i: int| 0 <= i < es.len() && (#[trigger] es[i]).key@ == k;
                assert(es.drop_first()[i - 1].key@ == k);
            }
            lemma_find_table_found(es.drop_first(), k);
            assert forall|j: int| 0 <= j < find_table(es, k) implies (#[trigger] es[j]).key@
                != k by {
                if j > 0 {
                    assert(es.drop_first()[j - 1].key@ == es[j].key@);
                }
            }
        }
    }
}

} // verus!
