//! Laws relating recompilation and decompilation.

use vstd::prelude::*;

use crate::compile::{
    compile_resolved_views, compiled_ix_ok, distinct_table_keys, first_table_by_key,
    lemma_first_table_by_key_found, lookup_in_tables_ok, lookups_table_sel, or_signer,
    or_writable,
};
use crate::decompile::{resolved_ix_ok, Instruction};
use crate::errors::AddressLoaderError;
use crate::keys::key_views;
use crate::lookup_table::{
    idxs_in_bounds, AddressLookupTableAccount, BasicAddressLoader, LoadedAddresses,
};
use crate::message::{
    legacy_message_wf, total_lookup_count, v0_resolved_views, v0_sanitize_spec, LegacyMessage,
    MessageAddressTableLookup, V0Message,
};

verus! {

/// Two materialized instructions carry the same program, the same data, and
/// the same accounts with the same flags, in the same order.
pub open spec fn instructions_equivalent(a: Instruction, b: Instruction) -> bool {
    &&& a.program_id@ == b.program_id@
    &&& a.data@ == b.data@
    &&& a.accounts@.len() == b.accounts@.len()
    &&& forall|j: int|
        0 <= j < a.accounts@.len() ==> (#[trigger] a.accounts@[j]).pubkey@ == b.accounts@[j].pubkey@
            && a.accounts@[j].is_signer == b.accounts@[j].is_signer
            && a.accounts@[j].is_writable == b.accounts@[j].is_writable
}

/// The loader holds exactly the supplied tables: each table's address maps
/// to that table's address list.
pub open spec fn loader_matches_tables(
    ld: BasicAddressLoader,
    ts: Seq<AddressLookupTableAccount>,
) -> bool {
    forall|t: int|
        0 <= t < ts.len() ==> ld.has_table((#[trigger] ts[t]).key@) && ld.table_for(ts[t].key@)
            == key_views(ts[t].addresses@)
}

/// A loader holding the supplied tables selects, lookup for lookup, exactly
/// what resolving each lookup against its first-by-address table selects.
pub proof fn lemma_sel_agree(
    ld: BasicAddressLoader,
    ts: Seq<AddressLookupTableAccount>,
    ls: Seq<MessageAddressTableLookup>,
    writable: bool,
)
    requires
        loader_matches_tables(ld, ts),
        forall|l: int| 0 <= l < ls.len() ==> lookup_in_tables_ok(ts, #[trigger] ls[l]),
    ensures
        ld.sel_concat(ls, writable) == lookups_table_sel(ts, ls, writable),
    decreases ls.len(),
{
    if ls.len() > 0 {
        assert(forall|l: int|
            0 <= l < ls.drop_last().len() ==> lookup_in_tables_ok(
                ts,
                #[trigger] ls.drop_last()[l],
            ));
        lemma_sel_agree(ld, ts, ls.drop_last(), writable);
        let l = ls.last();
        assert(lookup_in_tables_ok(ts, l));
        let t = first_table_by_key(ts, l.account_key@);
        lemma_first_table_by_key_found(ts, l.account_key@);
        assert(ld.table_for(ts[t].key@) == key_views(ts[t].addresses@));
        assert(ld.table_for(l.account_key@) == key_views(ts[t].addresses@));
    }
}

/// Bounds enforcement, legacy side: a legacy message in which some
/// instruction references an account index at or past the inline key count
/// is never well formed, so decompilation rejects it rather than truncating.
pub proof fn lemma_legacy_bounds_enforced(m: LegacyMessage, i: int, j: int)
    requires
        0 <= i < m.instructions@.len(),
        0 <= j < m.instructions@[i].accounts@.len(),
        (m.instructions@[i].accounts@[j] as int) >= m.account_keys@.len(),
    ensures
        !legacy_message_wf(m),
{
    assert(!crate::message::instruction_indexes_ok(
        m.instructions@[i],
        m.account_keys@.len() as int,
    ));
}

/// Bounds enforcement, versioned side: a versioned message in which some
/// instruction references an account index at or past the full resolved key
/// count never sanitizes, so decompilation rejects it rather than
/// truncating.
pub proof fn lemma_v0_bounds_enforced(m: V0Message, i: int, j: int)
    requires
        0 <= i < m.instructions@.len(),
        0 <= j < m.instructions@[i].accounts@.len(),
        (m.instructions@[i].accounts@[j] as int) >= m.account_keys@.len() + total_lookup_count(
            m.address_table_lookups@,
        ),
    ensures
        v0_sanitize_spec(m) is Err,
{
    let total = m.account_keys@.len() + total_lookup_count(m.address_table_lookups@);
    if v0_sanitize_spec(m) is Ok {
        assert(crate::message::instructions_indexes_ok(m.instructions@, total));
        assert(crate::message::instruction_indexes_ok(m.instructions@[i], total));
        assert(false);
    }
}

/// Missing table: when some lookup references a table address absent from
/// the resolved set, and every lookup whose table is held resolves in
/// bounds, expanding the lookups fails with `LookupTableAccountNotFound`.
///
/// The added premise rules out a second fault of a different kind: with
/// both a missing table and an out-of-range index present, which error
/// surfaces depends on lookup order.
pub proof fn lemma_missing_table_rejected(
    ld: &BasicAddressLoader,
    lookups: &Vec<MessageAddressTableLookup>,
    r: Result<LoadedAddresses, AddressLoaderError>,
    j: int,
)
    requires
        call_ensures(BasicAddressLoader::load_addresses, (ld, lookups), r),
        0 <= j < lookups@.len(),
        !ld.has_table(lookups@[j].account_key@),
        forall|l: int|
            0 <= l < lookups@.len() && ld.has_table((#[trigger] lookups@[l]).account_key@) ==> (
            idxs_in_bounds(
                ld.table_for(lookups@[l].account_key@),
                lookups@[l].writable_indexes@,
            ) && idxs_in_bounds(
                ld.table_for(lookups@[l].account_key@),
                lookups@[l].readonly_indexes@,
            )),
    ensures
        r == Err::<LoadedAddresses, AddressLoaderError>(
            AddressLoaderError::LookupTableAccountNotFound,
        ),
{
    assert(!ld.lookup_ok(lookups@[j]));
}

/// Round trip: recompiling an instruction list and decompiling the result
/// through the same lookup tables yields the original instructions back —
/// same program, same data, same accounts with the same flags, instruction
/// for instruction and account for account.
///
/// `msg` stands for any successful recompilation of `ixs` (as
/// `try_compile`'s contract describes it), `decompiled` for any successful
/// decompilation of `msg` through a loader holding exactly the supplied
/// tables. The instruction list must be flag-consistent: every account
/// occurrence carries the accumulated flags of its key (the payer counting
/// as a writable signer), which is the normalization recompilation applies.
pub proof fn lemma_round_trip(
    payer: Seq<u8>,
    ixs: Seq<Instruction>,
    ts: Seq<AddressLookupTableAccount>,
    msg: V0Message,
    ld: BasicAddressLoader,
    decompiled: Seq<Instruction>,
)
    requires
        distinct_table_keys(ts),
        loader_matches_tables(ld, ts),
        // msg recompiles ixs
        msg.instructions@.len() == ixs.len(),
        forall|l: int|
            0 <= l < msg.address_table_lookups@.len() ==> lookup_in_tables_ok(
                ts,
                #[trigger] msg.address_table_lookups@[l],
            ),
        forall|i: int|
            0 <= i < ixs.len() ==> compiled_ix_ok(
                compile_resolved_views(ts, msg),
                msg.header,
                msg.account_keys@.len() as int,
                lookups_table_sel(ts, msg.address_table_lookups@, true).len() as int,
                payer,
                ixs,
                msg.instructions@[i],
                #[trigger] ixs[i],
            ),
        // decompiled decompiles msg
        decompiled.len() == msg.instructions@.len(),
        forall|i: int|
            0 <= i < decompiled.len() ==> resolved_ix_ok(
                v0_resolved_views(ld, msg),
                msg.header,
                msg.account_keys@.len() as int,
                ld.sel_concat(msg.address_table_lookups@, true).len() as int,
                msg.instructions@[i],
                #[trigger] decompiled[i],
            ),
        // the input flags are consistent per key
        forall|i: int, j: int|
            0 <= i < ixs.len() && 0 <= j < ixs[i].accounts@.len() ==> (
            #[trigger] ixs[i].accounts@[j]).is_signer == or_signer(
                payer,
                ixs,
                ixs[i].accounts@[j].pubkey@,
            ) && ixs[i].accounts@[j].is_writable == or_writable(
                payer,
                ixs,
                ixs[i].accounts@[j].pubkey@,
            ),
    ensures
        decompiled.len() == ixs.len(),
        forall|i: int|
            0 <= i < ixs.len() ==> instructions_equivalent(#[trigger] decompiled[i], ixs[i]),
{
    lemma_sel_agree(ld, ts, msg.address_table_lookups@, true);
    lemma_sel_agree(ld, ts, msg.address_table_lookups@, false);
    assert(v0_resolved_views(ld, msg) == compile_resolved_views(ts, msg));
    assert forall|i: int| 0 <= i < ixs.len() implies instructions_equivalent(
        #[trigger] decompiled[i],
        ixs[i],
    ) by {
        let views = compile_resolved_views(ts, msg);
        let ci = msg.instructions@[i];
        let d = decompiled[i];
        let o = ixs[i];
        assert(compiled_ix_ok(
            views,
            msg.header,
            msg.account_keys@.len() as int,
            lookups_table_sel(ts, msg.address_table_lookups@, true).len() as int,
            payer,
            ixs,
            ci,
            o,
        ));
        assert(resolved_ix_ok(
            views,
            msg.header,
            msg.account_keys@.len() as int,
            lookups_table_sel(ts, msg.address_table_lookups@, true).len() as int,
            ci,
            d,
        ));
        assert forall|j: int| 0 <= j < d.accounts@.len() implies (#[trigger] d.accounts@[j]).pubkey@
            == o.accounts@[j].pubkey@ && d.accounts@[j].is_signer == o.accounts@[j].is_signer
            && d.accounts@[j].is_writable == o.accounts@[j].is_writable by {
            assert(0 <= j < ci.accounts@.len());
            assert(views[ci.accounts@[j] as int] == o.accounts@[j].pubkey@);
            assert(d.accounts@[j].pubkey@ == views[ci.accounts@[j] as int]);
        }
    }
}

} // verus!
