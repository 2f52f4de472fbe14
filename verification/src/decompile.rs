//! Instruction decompilation: turning a sanitized message's compact
//! instructions into self-contained instructions with concrete account keys
//! and signer/writable flags.

use vstd::prelude::*;

use crate::errors::Error;
use crate::keys::{dedup_key_views, dedup_pubkeys, key_views, Pubkey};
use crate::lookup_table::{AddressLookupTableAccount, BasicAddressLoader};
use crate::message::{
    all_lookups_ok, legacy_message_wf, position_is_signer, position_is_writable,
    sanitized_matches_legacy, sanitized_matches_v0, sanitize_message, v0_resolved_views,
    v0_sanitize_spec, CompiledInstruction, MessageAddressTableLookup, MessageHeader,
    SanitizedMessage, VersionedMessage, VersionedTransaction,
};

verus! {

/// One account of a materialized instruction: a concrete address with its
/// derived flags.
#[derive(Debug)]
pub struct AccountMeta {
    pub pubkey: Pubkey,
    pub is_signer: bool,
    pub is_writable: bool,
}

impl Clone for AccountMeta {
    fn clone(&self) -> (r: AccountMeta)
        ensures
            r.pubkey@ == self.pubkey@,
            r.is_signer == self.is_signer,
            r.is_writable == self.is_writable,
    {
        AccountMeta {
            pubkey: self.pubkey.clone(),
            is_signer: self.is_signer,
            is_writable: self.is_writable,
        }
    }
}

/// A materialized instruction: program address, accounts in reference order
/// with flags, and the opaque data payload. Independent of any message.
#[derive(Debug)]
pub struct Instruction {
    pub program_id: Pubkey,
    pub accounts: Vec<AccountMeta>,
    pub data: Vec<u8>,
}

/// `ix` is the materialization of compact instruction `ci` against the
/// resolved key views `keys` with flag counts `(h, num_static, nw)`.
pub open spec fn resolved_ix_ok(
    keys: Seq<Seq<u8>>,
    h: MessageHeader,
    num_static: int,
    nw: int,
    ci: CompiledInstruction,
    ix: Instruction,
) -> bool {
    &&& ix.program_id@ == keys[ci.program_id_index as int]
    &&& ix.data@ == ci.data@
    &&& ix.accounts@.len() == ci.accounts@.len()
    &&& forall|j: int|
        0 <= j < ci.accounts@.len() ==> (#[trigger] ix.accounts@[j]).pubkey@ == keys[ci.accounts@[j] as int]
            && ix.accounts@[j].is_signer == position_is_signer(h, ci.accounts@[j] as int)
            && ix.accounts@[j].is_writable == position_is_writable(
            h,
            num_static,
            nw,
            ci.accounts@[j] as int,
        )
}

/// `ix` is the materialization of `ci` against sanitized message `s`.
pub open spec fn decompiled_ix_ok(s: SanitizedMessage, ci: CompiledInstruction, ix: Instruction) -> bool {
    resolved_ix_ok(
        key_views(s.account_keys@),
        s.header,
        s.num_static_keys as int,
        s.num_writable_lookup_keys as int,
        ci,
        ix,
    )
}

/// Materializes every compact instruction of a sanitized message, in order.
/// Pure and deterministic; well-formedness rules out any out-of-range index.
pub fn decompile_sanitized(s: &SanitizedMessage) -> (r: Vec<Instruction>)
    requires
        s.wf(),
    ensures
        r@.len() == s.instructions@.len(),
        forall|i: int|
            0 <= i < r@.len() ==> decompiled_ix_ok(*s, s.instructions@[i], #[trigger] r@[i]),
{
    let mut out: Vec<Instruction> = Vec::new();
    let n = s.instructions.len();
    let mut i: usize = 0;
    while i < n
        invariant
            s.wf(),
            n == s.instructions@.len(),
            i <= n,
            out@.len() == i,
            forall|a: int|
                0 <= a < i ==> decompiled_ix_ok(*s, s.instructions@[a], #[trigger] out@[a]),
        decreases n - i,
    {
        let ci = &s.instructions[i];
        assert(crate::message::instruction_indexes_ok(*ci, s.account_keys@.len() as int));
        let mut accounts: Vec<AccountMeta> = Vec::new();
        let m = ci.accounts.len();
        let mut j: usize = 0;
        while j < m
            invariant
                s.wf(),
                i < n,
                n == s.instructions@.len(),
                *ci == s.instructions@[i as int],
                crate::message::instruction_indexes_ok(*ci, s.account_keys@.len() as int),
                m == ci.accounts@.len(),
                j <= m,
                accounts@.len() == j,
                forall|a: int|
                    0 <= a < j ==> (#[trigger] accounts@[a]).pubkey@ == key_views(s.account_keys@)[ci.accounts@[a] as int]
                        && accounts@[a].is_signer == s.is_signer_spec(ci.accounts@[a] as int)
                        && accounts@[a].is_writable == s.is_writable_spec(ci.accounts@[a] as int),
            decreases m - j,
        {
            let idx = ci.accounts[j] as usize;
            let meta = AccountMeta {
                pubkey: s.account_keys[idx].clone(),
                is_signer: s.is_signer(idx),
                is_writable: s.is_writable(idx),
            };
            accounts.push(meta);
            j += 1;
        }
        let ix = Instruction {
            program_id: s.account_keys[ci.program_id_index as usize].clone(),
            accounts,
            data: ci.data.clone(),
        };
        assert(ix.data@ =~= ci.data@);
        assert(decompiled_ix_ok(*s, s.instructions@[i as int], ix));
        out.push(ix);
        i += 1;
    }
    out
}

/// Decompiles a transaction into its materialized instructions.
///
/// `address_loader` holds the pre-fetched lookup tables the message
/// references; a legacy transaction never consults it and may pass none.
pub fn decompile_transaction_instructions(
    tx: VersionedTransaction,
    address_loader: Option<&BasicAddressLoader>,
) -> (r: Result<Vec<Instruction>, Error>)
    ensures
        tx.message matches VersionedMessage::Legacy(m) ==> match r {
            Ok(ixs) => {
                &&& legacy_message_wf(m)
                &&& ixs@.len() == m.instructions@.len()
                &&& forall|i: int|
                    0 <= i < ixs@.len() ==> resolved_ix_ok(
                        key_views(m.account_keys@),
                        m.header,
                        m.account_keys@.len() as int,
                        0,
                        m.instructions@[i],
                        #[trigger] ixs@[i],
                    )
            },
            Err(e) => !legacy_message_wf(m) && e == Error::SanitizeMessage(
                crate::errors::SanitizeError::IndexOutOfBounds,
            ),
        },
        tx.message matches VersionedMessage::V0(m) ==> match r {
            Ok(ixs) => {
                &&& v0_sanitize_spec(m) is Ok
                &&& address_loader is Some
                &&& all_lookups_ok(*address_loader->Some_0, m.address_table_lookups@)
                &&& ixs@.len() == m.instructions@.len()
                &&& forall|i: int|
                    0 <= i < ixs@.len() ==> resolved_ix_ok(
                        v0_resolved_views(*address_loader->Some_0, m),
                        m.header,
                        m.account_keys@.len() as int,
                        (*address_loader->Some_0).sel_concat(
                            m.address_table_lookups@,
                            true,
                        ).len() as int,
                        m.instructions@[i],
                        #[trigger] ixs@[i],
                    )
            },
            Err(e) => {
                &&& (v0_sanitize_spec(m) matches Err(se) ==> e == Error::SanitizeMessage(se))
                &&& (v0_sanitize_spec(m) is Ok && address_loader is None ==> e
                    == Error::AddressLoader(crate::errors::AddressLoaderError::Disabled))
                &&& (v0_sanitize_spec(m) is Ok && address_loader is Some ==> !all_lookups_ok(
                    *address_loader->Some_0,
                    m.address_table_lookups@,
                ) && (e == Error::AddressLoader(
                    crate::errors::AddressLoaderError::LookupTableAccountNotFound,
                ) || e == Error::AddressLoader(
                    crate::errors::AddressLoaderError::InvalidLookupIndex,
                )))
                &&& (v0_sanitize_spec(m) is Ok && address_loader is Some && e
                    == Error::AddressLoader(
                    crate::errors::AddressLoaderError::LookupTableAccountNotFound,
                ) ==> crate::message::some_table_missing(
                    *address_loader->Some_0,
                    m.address_table_lookups@,
                ))
            },
        },
{
    let ghost msg = tx.message;
    let s = match sanitize_message(tx.message, address_loader) {
        Ok(s) => s,
        Err(e) => {
            return Err(e);
        },
    };
    let ixs = decompile_sanitized(&s);
    proof {
        match msg {
            VersionedMessage::Legacy(m) => {
                assert(key_views(s.account_keys@) == key_views(m.account_keys@));
            },
            VersionedMessage::V0(m) => {},
        }
    }
    Ok(ixs)
}

/// The table addresses referenced by a lookup list, in reference order.
pub open spec fn lookup_keys(ls: Seq<MessageAddressTableLookup>) -> Seq<Pubkey> {
    ls.map_values(|l: MessageAddressTableLookup| l.account_key)
}

/// The table addresses a transaction references, one per lookup entry and in
/// entry order; nothing for a legacy transaction.
pub fn get_lookup_tables_pubkeys(tx: &VersionedTransaction) -> (r: Option<Vec<Pubkey>>)
    ensures
        tx.message matches VersionedMessage::Legacy(m) ==> r is None,
        tx.message matches VersionedMessage::V0(m) ==> (r matches Some(ks) && key_views(ks@)
            == key_views(lookup_keys(m.address_table_lookups@))),
{
    match &tx.message {
        VersionedMessage::Legacy(_) => None,
        VersionedMessage::V0(m) => {
            let mut ks: Vec<Pubkey> = Vec::new();
            let n = m.address_table_lookups.len();
            let mut i: usize = 0;
            while i < n
                invariant
                    n == m.address_table_lookups@.len(),
                    i <= n,
                    ks@.len() == i,
                    forall|j: int|
                        0 <= j < i ==> (#[trigger] ks@[j])@ == m.address_table_lookups@[j].account_key@,
                decreases n - i,
            {
                ks.push(m.address_table_lookups[i].account_key.clone());
                i += 1;
            }
            assert(key_views(ks@) =~= key_views(lookup_keys(m.address_table_lookups@)));
            Some(ks)
        },
    }
}

/// The distinct table addresses a transaction's lookups reference, each
/// exactly once, in first-reference order: the set to fetch, one request per
/// distinct table. Empty for a legacy transaction.
pub fn lookup_tables_to_fetch(tx: &VersionedTransaction) -> (r: Vec<Pubkey>)
    ensures
        tx.message matches VersionedMessage::Legacy(m) ==> r@.len() == 0,
        tx.message matches VersionedMessage::V0(m) ==> {
            &&& key_views(r@) == dedup_key_views(lookup_keys(m.address_table_lookups@))
            &&& forall|i: int, j: int| 0 <= i < j < r@.len() ==> r@[i]@ != r@[j]@
            &&& forall|i: int|
                0 <= i < m.address_table_lookups@.len() ==> crate::keys::contains_key(
                    r@,
                    (#[trigger] m.address_table_lookups@[i]).account_key@,
                )
            &&& forall|i: int|
                0 <= i < r@.len() ==> crate::keys::contains_key(
                    lookup_keys(m.address_table_lookups@),
                    (#[trigger] r@[i])@,
                )
        },
{
    match get_lookup_tables_pubkeys(tx) {
        None => Vec::new(),
        Some(ks) => {
            let r = dedup_pubkeys(&ks);
            proof {
                let ghost m = tx.message->V0_0;
                let ghost orig = lookup_keys(m.address_table_lookups@);
                assert(key_views(ks@).len() == ks@.len());
                assert(key_views(orig).len() == orig.len());
                assert(ks@.len() == m.address_table_lookups@.len());
                crate::keys::lemma_dedup_views_eq(ks@, orig);
                assert forall|i: int|
                    0 <= i < m.address_table_lookups@.len() implies crate::keys::contains_key(
                    r@,
                    (#[trigger] m.address_table_lookups@[i]).account_key@,
                ) by {
                    assert(key_views(ks@)[i] == ks@[i]@);
                    assert(key_views(orig)[i] == orig[i]@);
                    assert(orig[i] == m.address_table_lookups@[i].account_key);
                    assert(ks@[i]@ == m.address_table_lookups@[i].account_key@);
                    assert(crate::keys::contains_key(r@, ks@[i]@));
                }
                assert forall|i: int| 0 <= i < r@.len() implies crate::keys::contains_key(
                    orig,
                    (#[trigger] r@[i])@,
                ) by {
                    assert(crate::keys::contains_key(ks@, r@[i]@));
                    let w = choose|w: int| 0 <= w < ks@.len() && ks@[w]@ == r@[i]@;
                    assert(key_views(ks@)[w] == ks@[w]@);
                    assert(key_views(orig)[w] == orig[w]@);
                    assert(orig[w]@ == ks@[w]@);
                }
            }
            r
        },
    }
}

/// The decompiled form of a transaction: the lookup tables it used, if any,
/// and its materialized instructions.
#[derive(Debug)]
pub struct DecompiledVersionedTx {
    pub lookup_tables: Option<Vec<AddressLookupTableAccount>>,
    pub instructions: Vec<Instruction>,
}

/// `ld` holds exactly the tables named by `kviews`, the table under
/// `kviews[i]` parsed from `fetched[i]`.
pub open spec fn loader_matches_fetched(
    ld: BasicAddressLoader,
    kviews: Seq<Seq<u8>>,
    fetched: Seq<Option<Vec<u8>>>,
) -> bool {
    &&& ld.wf()
    &&& forall|k: Seq<u8>| #[trigger] ld.has_table(k) <==> kviews.contains(k)
    &&& forall|i: int|
        0 <= i < kviews.len() ==> ld.table_for(#[trigger] kviews[i]) == crate::lookup_table::parsed_addr_views(
            fetched[i]->Some_0@,
        )
}

/// Two loaders holding the same fetched tables agree on whether every
/// lookup of a list resolves: resolution reads only `has_table` and
/// `table_for`, which the match pins.
pub proof fn lemma_matching_loaders_agree(
    ld1: BasicAddressLoader,
    ld2: BasicAddressLoader,
    kviews: Seq<Seq<u8>>,
    fetched: Seq<Option<Vec<u8>>>,
    ls: Seq<MessageAddressTableLookup>,
)
    requires
        loader_matches_fetched(ld1, kviews, fetched),
        loader_matches_fetched(ld2, kviews, fetched),
    ensures
        all_lookups_ok(ld1, ls) == all_lookups_ok(ld2, ls),
{
    assert forall|j: int| 0 <= j < ls.len() implies ld1.lookup_ok(#[trigger] ls[j])
        == ld2.lookup_ok(ls[j]) by {
        let k = ls[j].account_key@;
        assert(ld1.has_table(k) <==> kviews.contains(k));
        assert(ld2.has_table(k) <==> kviews.contains(k));
        if kviews.contains(k) {
            let w = choose|w: int| 0 <= w < kviews.len() && kviews[w] == k;
            assert(ld1.table_for(kviews[w]) == crate::lookup_table::parsed_addr_views(
                fetched[w]->Some_0@,
            ));
            assert(ld2.table_for(kviews[w]) == crate::lookup_table::parsed_addr_views(
                fetched[w]->Some_0@,
            ));
            assert(ld1.table_for(k) == ld2.table_for(k));
        }
    }
    if all_lookups_ok(ld1, ls) {
        assert forall|j: int| 0 <= j < ls.len() implies ld2.lookup_ok(#[trigger] ls[j]) by {
            assert(ld1.lookup_ok(ls[j]));
        }
    }
    if all_lookups_ok(ld2, ls) {
        assert forall|j: int| 0 <= j < ls.len() implies ld1.lookup_ok(#[trigger] ls[j]) by {
            assert(ld2.lookup_ok(ls[j]));
        }
    }
}

/// The output tables `ts` are the loader's tables, key and contents alike.
pub open spec fn tables_out_match(ld: BasicAddressLoader, ts: Seq<AddressLookupTableAccount>) -> bool {
    &&& ts.len() == ld.tables@.len()
    &&& forall|i: int|
        0 <= i < ts.len() ==> (#[trigger] ts[i]).key@ == ld.tables@[i].key@ && key_views(
            ts[i].addresses@,
        ) == key_views(ld.tables@[i].table.addresses@)
}

/// Decompiled output `d` is correct for versioned message `m` through `ld`.
pub open spec fn v0_decompiled_ok(
    ld: BasicAddressLoader,
    m: crate::message::V0Message,
    d: DecompiledVersionedTx,
) -> bool {
    &&& v0_sanitize_spec(m) is Ok
    &&& all_lookups_ok(ld, m.address_table_lookups@)
    &&& d.instructions@.len() == m.instructions@.len()
    &&& forall|i: int|
        0 <= i < d.instructions@.len() ==> resolved_ix_ok(
            v0_resolved_views(ld, m),
            m.header,
            m.account_keys@.len() as int,
            ld.sel_concat(m.address_table_lookups@, true).len() as int,
            m.instructions@[i],
            #[trigger] d.instructions@[i],
        )
    &&& d.lookup_tables matches Some(ts) && tables_out_match(ld, ts@)
}

/// Decompiles a transaction given the outcome of fetching its referenced
/// lookup tables: `fetched[i]` is the raw account data of the `i`-th
/// distinct referenced table address (as listed by `lookup_tables_to_fetch`),
/// or nothing when that account does not exist on chain.
///
/// A legacy transaction takes an empty fetch outcome and yields no tables.
pub fn decompile_transaction_instructions_with_fetched_accounts(
    tx: VersionedTransaction,
    fetched: Vec<Option<Vec<u8>>>,
) -> (r: Result<DecompiledVersionedTx, Error>)
    requires
        tx.message matches VersionedMessage::Legacy(m) ==> fetched@.len() == 0,
        tx.message matches VersionedMessage::V0(m) ==> fetched@.len() == dedup_key_views(
            lookup_keys(m.address_table_lookups@),
        ).len(),
    ensures
        tx.message matches VersionedMessage::Legacy(m) ==> match r {
            Ok(d) => {
                &&& legacy_message_wf(m)
                &&& d.lookup_tables is None
                &&& d.instructions@.len() == m.instructions@.len()
                &&& forall|i: int|
                    0 <= i < d.instructions@.len() ==> resolved_ix_ok(
                        key_views(m.account_keys@),
                        m.header,
                        m.account_keys@.len() as int,
                        0,
                        m.instructions@[i],
                        #[trigger] d.instructions@[i],
                    )
            },
            Err(e) => !legacy_message_wf(m) && e == Error::SanitizeMessage(
                crate::errors::SanitizeError::IndexOutOfBounds,
            ),
        },
        tx.message matches VersionedMessage::V0(m) ==> {
            &&& (r == Err::<DecompiledVersionedTx, Error>(Error::LookupTableAccountNotFound)
                <==> exists|i: int| 0 <= i < fetched@.len() && fetched@[i] is None)
            &&& (r == Err::<DecompiledVersionedTx, Error>(Error::LookupTableDeserialize) <==> ((
            forall|i: int| 0 <= i < fetched@.len() ==> fetched@[i] is Some) && exists|i: int|
                0 <= i < fetched@.len() && !crate::lookup_table::table_bytes_wf(
                    (#[trigger] fetched@[i])->Some_0@,
                )))
            &&& (r matches Err(e) ==> match e {
                Error::SanitizeMessage(se) => v0_sanitize_spec(m) == Err::<
                    (),
                    crate::errors::SanitizeError,
                >(se),
                Error::AddressLoader(le) => le
                    == crate::errors::AddressLoaderError::InvalidLookupIndex,
                Error::LookupTableAccountNotFound => true,
                Error::LookupTableDeserialize => true,
                _ => false,
            })
            &&& (r == Err::<DecompiledVersionedTx, Error>(
                Error::AddressLoader(crate::errors::AddressLoaderError::InvalidLookupIndex),
            ) ==> forall|ld: BasicAddressLoader|
                #[trigger] loader_matches_fetched(
                    ld,
                    dedup_key_views(lookup_keys(m.address_table_lookups@)),
                    fetched@,
                ) ==> !all_lookups_ok(ld, m.address_table_lookups@))
            &&& ((v0_sanitize_spec(m) is Ok && (forall|i: int|
                0 <= i < fetched@.len() ==> (#[trigger] fetched@[i]) is Some
                    && crate::lookup_table::table_bytes_wf(fetched@[i]->Some_0@)) && (forall|
                ld: BasicAddressLoader,
            |
                #[trigger] loader_matches_fetched(
                    ld,
                    dedup_key_views(lookup_keys(m.address_table_lookups@)),
                    fetched@,
                ) ==> all_lookups_ok(ld, m.address_table_lookups@))) ==> r is Ok)
            &&& (r matches Ok(d) ==> exists|ld: BasicAddressLoader|
                #[trigger] loader_matches_fetched(
                    ld,
                    dedup_key_views(lookup_keys(m.address_table_lookups@)),
                    fetched@,
                ) && v0_decompiled_ok(ld, m, d))
        },
{
    let keys = lookup_tables_to_fetch(&tx);
    let is_legacy = match &tx.message {
        VersionedMessage::Legacy(_) => true,
        VersionedMessage::V0(_) => false,
    };
    if is_legacy {
        let instructions = match decompile_transaction_instructions(tx, None) {
            Ok(ixs) => ixs,
            Err(e) => {
                return Err(e);
            },
        };
        Ok(DecompiledVersionedTx { lookup_tables: None, instructions })
    } else {
        {
            let ghost m = tx.message->V0_0;
            let loader = match BasicAddressLoader::from_fetched_accounts(&keys, fetched) {
                Ok(l) => l,
                Err(e) => {
                    return Err(e);
                },
            };
            proof {
                assert forall|k: Seq<u8>| #[trigger] loader.has_table(k) <==> dedup_key_views(
                    lookup_keys(m.address_table_lookups@),
                ).contains(k) by {
                    if loader.has_table(k) {
                        let w = choose|w: int| 0 <= w < keys@.len() && (#[trigger] keys@[w])@ == k;
                        assert(key_views(keys@)[w] == k);
                    }
                    if dedup_key_views(lookup_keys(m.address_table_lookups@)).contains(k) {
                        let w = choose|w: int|
                            0 <= w < key_views(keys@).len() && key_views(keys@)[w] == k;
                        assert(keys@[w]@ == k);
                    }
                }
                assert forall|i: int|
                    0 <= i < m.address_table_lookups@.len() implies loader.has_table(
                    (#[trigger] m.address_table_lookups@[i]).account_key@,
                ) by {
                    let w = choose|w: int|
                        0 <= w < keys@.len() && (#[trigger] keys@[w])@ == m.address_table_lookups@[
                            i
                        ].account_key@;
                    assert(loader.has_table(keys@[w]@));
                }
                let kviews = dedup_key_views(lookup_keys(m.address_table_lookups@));
                assert(loader_matches_fetched(loader, kviews, fetched@)) by {
                    assert forall|i: int| 0 <= i < kviews.len() implies loader.table_for(
                        #[trigger] kviews[i],
                    ) == crate::lookup_table::parsed_addr_views(fetched@[i]->Some_0@) by {
                        assert(key_views(keys@)[i] == kviews[i]);
                        assert(keys@[i]@ == kviews[i]);
                        assert(forall|j: int|
                            i < j < keys@.len() ==> (#[trigger] keys@[j])@ != keys@[i]@);
                    }
                }
            }
            let lookup_tables = loader.to_address_lookup_table_accounts();
            let instructions = match decompile_transaction_instructions(tx, Some(&loader)) {
                Ok(ixs) => ixs,
                Err(e) => {
                    proof {
                        let kviews = dedup_key_views(lookup_keys(m.address_table_lookups@));
                        if e == Error::AddressLoader(
                            crate::errors::AddressLoaderError::LookupTableAccountNotFound,
                        ) {
                            assert(crate::message::some_table_missing(
                                loader,
                                m.address_table_lookups@,
                            ));
                            assert(false);
                        }
                        if e == Error::AddressLoader(
                            crate::errors::AddressLoaderError::InvalidLookupIndex,
                        ) {
                            assert(!all_lookups_ok(loader, m.address_table_lookups@));
                            assert forall|ld: BasicAddressLoader|
                                #[trigger] loader_matches_fetched(
                                    ld,
                                    kviews,
                                    fetched@,
                                ) implies !all_lookups_ok(ld, m.address_table_lookups@) by {
                                lemma_matching_loaders_agree(
                                    loader,
                                    ld,
                                    kviews,
                                    fetched@,
                                    m.address_table_lookups@,
                                );
                            }
                        }
                        if v0_sanitize_spec(m) is Ok && (forall|ld: BasicAddressLoader|
                            #[trigger] loader_matches_fetched(ld, kviews, fetched@)
                                ==> all_lookups_ok(ld, m.address_table_lookups@)) {
                            assert(all_lookups_ok(loader, m.address_table_lookups@));
                            assert(false);
                        }
                    }
                    return Err(e);
                },
            };
            let d = DecompiledVersionedTx { lookup_tables: Some(lookup_tables), instructions };
            proof {
                let kviews = dedup_key_views(lookup_keys(m.address_table_lookups@));
                assert(v0_decompiled_ok(loader, m, d));
            }
            Ok(d)
        }
    }
}

} // verus!
