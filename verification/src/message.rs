//! Compressed (compact, indexed) transaction messages, prior to account
//! resolution.

use vstd::prelude::*;

use crate::errors::SanitizeError;
use crate::keys::{key_views, Blockhash, Pubkey};

verus! {

/// Header counts of a compressed message: among the inline account keys,
/// how many positions must sign, and how many of the signing and of the
/// non-signing positions are readonly.
#[derive(Clone, Copy, Debug, PartialEq, Eq, Structural)]
pub struct MessageHeader {
    pub num_required_signatures: u8,
    pub num_readonly_signed_accounts: u8,
    pub num_readonly_unsigned_accounts: u8,
}

/// An instruction in compact encoding: indices into the resolved account
/// list plus an opaque data payload.
#[derive(Debug)]
pub struct CompiledInstruction {
    /// Index of the program account in the resolved account list.
    pub program_id_index: u8,
    /// Indices of the accounts the instruction touches, in reference order.
    pub accounts: Vec<u8>,
    /// Opaque instruction data.
    pub data: Vec<u8>,
}

impl Clone for CompiledInstruction {
    fn clone(&self) -> (r: CompiledInstruction)
        ensures
            r.program_id_index == self.program_id_index,
            r.accounts@ == self.accounts@,
            r.data@ == self.data@,
    {
        let r = CompiledInstruction {
            program_id_index: self.program_id_index,
            accounts: self.accounts.clone(),
            data: self.data.clone(),
        };
        assert(r.accounts@ =~= self.accounts@);
        assert(r.data@ =~= self.data@);
        r
    }
}

/// A reference from a message to an on-chain lookup table: the table's
/// address plus the table indices loaded as writable and as readonly.
#[derive(Debug)]
pub struct MessageAddressTableLookup {
    pub account_key: Pubkey,
    pub writable_indexes: Vec<u8>,
    pub readonly_indexes: Vec<u8>,
}

impl Clone for MessageAddressTableLookup {
    fn clone(&self) -> (r: MessageAddressTableLookup)
        ensures
            r.account_key@ == self.account_key@,
            r.writable_indexes@ == self.writable_indexes@,
            r.readonly_indexes@ == self.readonly_indexes@,
    {
        let r = MessageAddressTableLookup {
            account_key: self.account_key.clone(),
            writable_indexes: self.writable_indexes.clone(),
            readonly_indexes: self.readonly_indexes.clone(),
        };
        assert(r.writable_indexes@ =~= self.writable_indexes@);
        assert(r.readonly_indexes@ =~= self.readonly_indexes@);
        r
    }
}

/// A legacy-format message: all account keys inline, no lookup references.
#[derive(Debug)]
pub struct LegacyMessage {
    pub header: MessageHeader,
    pub account_keys: Vec<Pubkey>,
    pub recent_blockhash: Blockhash,
    pub instructions: Vec<CompiledInstruction>,
}

/// A versioned message: inline account keys plus lookup-table references
/// whose resolution yields further, dynamically loaded keys.
#[derive(Debug)]
pub struct V0Message {
    pub header: MessageHeader,
    pub account_keys: Vec<Pubkey>,
    pub recent_blockhash: Blockhash,
    pub instructions: Vec<CompiledInstruction>,
    pub address_table_lookups: Vec<MessageAddressTableLookup>,
}

/// Either message format.
#[derive(Debug)]
pub enum VersionedMessage {
    Legacy(LegacyMessage),
    V0(V0Message),
}

/// A transaction around a versioned message. Signatures are produced and
/// checked by the submitting client, outside this library; decompilation
/// reads the message alone.
#[derive(Debug)]
pub struct VersionedTransaction {
    pub message: VersionedMessage,
}

/// Highest number of keys a resolved account list may hold: account indices
/// are single bytes.
pub const MAX_ACCOUNT_KEYS: usize = 256;

/// Whether a position of the resolved account list must sign, by the
/// protocol's positional convention: the first
/// `num_required_signatures` positions sign.
pub open spec fn position_is_signer(h: MessageHeader, i: int) -> bool {
    i < h.num_required_signatures
}

/// Whether a position of the resolved account list is writable, by the
/// protocol's positional convention. Inline keys come as writable signers,
/// readonly signers, writable non-signers, readonly non-signers; loaded keys
/// come as all writable-loaded, then all readonly-loaded.
pub open spec fn position_is_writable(
    h: MessageHeader,
    num_static: int,
    num_writable_lookup: int,
    i: int,
) -> bool {
    ||| (0 <= i < num_static && (i < h.num_required_signatures - h.num_readonly_signed_accounts
        || (h.num_required_signatures <= i < num_static - h.num_readonly_unsigned_accounts)))
    ||| (num_static <= i < num_static + num_writable_lookup)
}

/// One compact instruction's indices all lie below `total`.
pub open spec fn instruction_indexes_ok(ci: CompiledInstruction, total: int) -> bool {
    &&& (ci.program_id_index as int) < total
    &&& forall|j: int| 0 <= j < ci.accounts@.len() ==> (ci.accounts@[j] as int) < total
}

/// Every compact instruction's indices lie below `total`.
pub open spec fn instructions_indexes_ok(cis: Seq<CompiledInstruction>, total: int) -> bool {
    forall|i: int| 0 <= i < cis.len() ==> instruction_indexes_ok(#[trigger] cis[i], total)
}

/// Header counts carve the inline key list into consistent regions and
/// leave at least one writable signing position for the fee payer.
pub open spec fn header_ok(h: MessageHeader, num_static: int) -> bool {
    &&& h.num_required_signatures + h.num_readonly_unsigned_accounts <= num_static
    &&& h.num_readonly_signed_accounts < h.num_required_signatures
}

/// Number of keys a lookup loads, both sides together.
pub open spec fn lookup_key_count(l: MessageAddressTableLookup) -> int {
    l.writable_indexes@.len() + l.readonly_indexes@.len() as int
}

/// Number of keys all lookups load together.
pub open spec fn total_lookup_count(ls: Seq<MessageAddressTableLookup>) -> int
    decreases ls.len(),
{
    if ls.len() == 0 {
        0
    } else {
        total_lookup_count(ls.drop_last()) + lookup_key_count(ls.last())
    }
}

/// Every lookup entry loads at least one key.
pub open spec fn lookups_nonempty(ls: Seq<MessageAddressTableLookup>) -> bool {
    forall|i: int| 0 <= i < ls.len() ==> lookup_key_count(#[trigger] ls[i]) >= 1
}

/// Structural validity of a legacy message: header counts fit the inline
/// keys, and every instruction index names an inline key. The fee-payer
/// position cannot double as a program id.
pub open spec fn legacy_message_wf(m: LegacyMessage) -> bool {
    &&& header_ok(m.header, m.account_keys@.len() as int)
    &&& instructions_indexes_ok(m.instructions@, m.account_keys@.len() as int)
    &&& forall|i: int| 0 <= i < m.instructions@.len() ==> (#[trigger] m.instructions@[i]).program_id_index != 0
}

/// Ordered structural checks of a versioned message, giving the exact fault
/// found first: header counts against inline keys, payer region, per-lookup
/// key counts, the total key cap, then instruction indices against the full
/// resolved count.
pub open spec fn v0_sanitize_spec(m: V0Message) -> Result<(), SanitizeError> {
    let num_static = m.account_keys@.len() as int;
    let total = num_static + total_lookup_count(m.address_table_lookups@);
    if m.header.num_required_signatures + m.header.num_readonly_unsigned_accounts > num_static {
        Err(SanitizeError::IndexOutOfBounds)
    } else if m.header.num_readonly_signed_accounts >= m.header.num_required_signatures {
        Err(SanitizeError::InvalidValue)
    } else if !lookups_nonempty(m.address_table_lookups@) {
        Err(SanitizeError::InvalidValue)
    } else if total > MAX_ACCOUNT_KEYS {
        Err(SanitizeError::IndexOutOfBounds)
    } else if !instructions_indexes_ok(m.instructions@, total) {
        Err(SanitizeError::IndexOutOfBounds)
    } else {
        Ok(())
    }
}

/// Checks the indices of every compact instruction against `total`.
fn check_instruction_indexes(cis: &Vec<CompiledInstruction>, total: usize) -> (r: bool)
    ensures
        r == instructions_indexes_ok(cis@, total as int),
{
    let n = cis.len();
    let mut i: usize = 0;
    while i < n
        invariant
            n == cis@.len(),
            i <= n,
            forall|j: int| 0 <= j < i ==> instruction_indexes_ok(#[trigger] cis@[j], total as int),
        decreases n - i,
    {
        let ci = &cis[i];
        if (ci.program_id_index as usize) >= total {
            return false;
        }
        let m = ci.accounts.len();
        let mut j: usize = 0;
        while j < m
            invariant
                m == ci.accounts@.len(),
                i < n,
                n == cis@.len(),
                *ci == cis@[i as int],
                j <= m,
                forall|a: int| 0 <= a < j ==> (ci.accounts@[a] as int) < total,
            decreases m - j,
        {
            if (ci.accounts[j] as usize) >= total {
                assert(!instruction_indexes_ok(cis@[i as int], total as int));
                return false;
            }
            j += 1;
        }
        i += 1;
    }
    true
}

/// Validates a legacy message's structure.
pub fn legacy_sanitize(m: &LegacyMessage) -> (r: Result<(), SanitizeError>)
    ensures
        r is Ok <==> legacy_message_wf(*m),
        r matches Err(e) ==> e == SanitizeError::IndexOutOfBounds,
{
    let num_static = m.account_keys.len();
    if (m.header.num_required_signatures as usize) + (m.header.num_readonly_unsigned_accounts
        as usize) > num_static {
        return Err(SanitizeError::IndexOutOfBounds);
    }
    if m.header.num_readonly_signed_accounts >= m.header.num_required_signatures {
        return Err(SanitizeError::IndexOutOfBounds);
    }
    let n = m.instructions.len();
    let mut i: usize = 0;
    while i < n
        invariant
            n == m.instructions@.len(),
            num_static == m.account_keys@.len(),
            i <= n,
            forall|j: int|
                0 <= j < i ==> instruction_indexes_ok(
                    #[trigger] m.instructions@[j],
                    num_static as int,
                ) && m.instructions@[j].program_id_index != 0,
        decreases n - i,
    {
        let ci = &m.instructions[i];
        if (ci.program_id_index as usize) >= num_static || ci.program_id_index == 0 {
            return Err(SanitizeError::IndexOutOfBounds);
        }
        let mm = ci.accounts.len();
        let mut j: usize = 0;
        while j < mm
            invariant
                mm == ci.accounts@.len(),
                num_static == m.account_keys@.len(),
                i < n,
                n == m.instructions@.len(),
                *ci == m.instructions@[i as int],
                j <= mm,
                forall|a: int| 0 <= a < j ==> (ci.accounts@[a] as int) < num_static,
            decreases mm - j,
        {
            if (ci.accounts[j] as usize) >= num_static {
                assert(!instruction_indexes_ok(m.instructions@[i as int], num_static as int));
                return Err(SanitizeError::IndexOutOfBounds);
            }
            j += 1;
        }
        i += 1;
    }
    Ok(())
}

/// Structural validity of a versioned message: header counts fit the inline
/// keys, every lookup loads something, the resolved list stays within the
/// protocol cap, and every instruction index lies within it.
pub open spec fn v0_message_wf(m: V0Message) -> bool {
    &&& header_ok(m.header, m.account_keys@.len() as int)
    &&& lookups_nonempty(m.address_table_lookups@)
    &&& m.account_keys@.len() + total_lookup_count(m.address_table_lookups@) <= MAX_ACCOUNT_KEYS
    &&& instructions_indexes_ok(
        m.instructions@,
        m.account_keys@.len() + total_lookup_count(m.address_table_lookups@),
    )
}

/// The ordered checks accept exactly the structurally valid messages.
pub proof fn lemma_v0_sanitize_ok_iff(m: V0Message)
    ensures
        v0_sanitize_spec(m) is Ok <==> v0_message_wf(m),
{
}

/// Validates a versioned message's structure; the result is exactly the
/// first fault of the ordered checks.
pub fn v0_sanitize(m: &V0Message) -> (r: Result<(), SanitizeError>)
    ensures
        r == v0_sanitize_spec(*m),
{
    let num_static = m.account_keys.len();
    if (m.header.num_required_signatures as usize) + (m.header.num_readonly_unsigned_accounts
        as usize) > num_static {
        return Err(SanitizeError::IndexOutOfBounds);
    }
    if m.header.num_readonly_signed_accounts >= m.header.num_required_signatures {
        return Err(SanitizeError::InvalidValue);
    }
    let nl = m.address_table_lookups.len();
    let mut i: usize = 0;
    while i < nl
        invariant
            nl == m.address_table_lookups@.len(),
            i <= nl,
            m.header.num_required_signatures + m.header.num_readonly_unsigned_accounts
                <= m.account_keys@.len(),
            m.header.num_readonly_signed_accounts < m.header.num_required_signatures,
            forall|j: int|
                0 <= j < i ==> lookup_key_count(#[trigger] m.address_table_lookups@[j]) >= 1,
        decreases nl - i,
    {
        let l = &m.address_table_lookups[i];
        if l.writable_indexes.len() == 0 && l.readonly_indexes.len() == 0 {
            assert(lookup_key_count(m.address_table_lookups@[i as int]) == 0);
            return Err(SanitizeError::InvalidValue);
        }
        i += 1;
    }
    let mut total: usize = num_static;
    let mut exceeded: bool = num_static > MAX_ACCOUNT_KEYS;
    let mut i: usize = 0;
    while i < nl
        invariant
            nl == m.address_table_lookups@.len(),
            num_static == m.account_keys@.len(),
            i <= nl,
            !exceeded ==> total == num_static + total_lookup_count(
                m.address_table_lookups@.take(i as int),
            ) && total <= MAX_ACCOUNT_KEYS,
            exceeded ==> num_static + total_lookup_count(m.address_table_lookups@.take(i as int))
                > MAX_ACCOUNT_KEYS,
        decreases nl - i,
    {
        let l = &m.address_table_lookups[i];
        assert(m.address_table_lookups@.take(i + 1).drop_last() =~= m.address_table_lookups@.take(
            i as int,
        ));
        assert(m.address_table_lookups@.take(i + 1).last() == m.address_table_lookups@[i as int]);
        proof {
            lemma_total_lookup_count_nonneg(m.address_table_lookups@.take(i as int));
        }
        if !exceeded {
            if l.writable_indexes.len() <= MAX_ACCOUNT_KEYS && l.readonly_indexes.len()
                <= MAX_ACCOUNT_KEYS && total + l.writable_indexes.len() + l.readonly_indexes.len()
                <= MAX_ACCOUNT_KEYS {
                total = total + l.writable_indexes.len() + l.readonly_indexes.len();
            } else {
                exceeded = true;
            }
        }
        i += 1;
    }
    assert(m.address_table_lookups@.take(nl as int) =~= m.address_table_lookups@);
    if exceeded {
        return Err(SanitizeError::IndexOutOfBounds);
    }
    if !check_instruction_indexes(&m.instructions, total) {
        return Err(SanitizeError::IndexOutOfBounds);
    }
    Ok(())
}

/// A structurally validated message: the full resolved account list (inline
/// keys, then writable-loaded keys, then readonly-loaded keys) with the
/// counts that determine each position's signer and writable flags.
#[derive(Debug)]
pub struct SanitizedMessage {
    pub header: MessageHeader,
    /// The resolved account list.
    pub account_keys: Vec<Pubkey>,
    /// How many of `account_keys` are inline message keys.
    pub num_static_keys: usize,
    /// How many of `account_keys` were loaded through a table's writable side.
    pub num_writable_lookup_keys: usize,
    pub recent_blockhash: Blockhash,
    pub instructions: Vec<CompiledInstruction>,
}

impl SanitizedMessage {
    /// Internal consistency: the counts carve the resolved list into real
    /// regions and every instruction index lies within the list.
    pub open spec fn wf(&self) -> bool {
        &&& header_ok(self.header, self.num_static_keys as int)
        &&& self.num_static_keys + self.num_writable_lookup_keys <= self.account_keys@.len()
        &&& instructions_indexes_ok(self.instructions@, self.account_keys@.len() as int)
    }

    /// Flag of position `i`: must it sign.
    pub open spec fn is_signer_spec(&self, i: int) -> bool {
        position_is_signer(self.header, i)
    }

    /// Flag of position `i`: may it be written.
    pub open spec fn is_writable_spec(&self, i: int) -> bool {
        position_is_writable(
            self.header,
            self.num_static_keys as int,
            self.num_writable_lookup_keys as int,
            i,
        )
    }

    /// Whether the account at `index` must sign the transaction.
    pub fn is_signer(&self, index: usize) -> (r: bool)
        ensures
            r == self.is_signer_spec(index as int),
    {
        index < self.header.num_required_signatures as usize
    }

    /// Whether the account at `index` may be written, by position alone.
    pub fn is_writable(&self, index: usize) -> (r: bool)
        requires
            self.wf(),
        ensures
            r == self.is_writable_spec(index as int),
    {
        let writable_signers = (self.header.num_required_signatures
            - self.header.num_readonly_signed_accounts) as usize;
        if index < self.num_static_keys {
            index < writable_signers || (index >= self.header.num_required_signatures as usize
                && self.num_static_keys - index
                > self.header.num_readonly_unsigned_accounts as usize)
        } else {
            index - self.num_static_keys < self.num_writable_lookup_keys
        }
    }
}

/// Over any loader, the writable- and readonly-side selections of a lookup
/// list together hold exactly as many keys as the lookups load.
pub proof fn lemma_sel_concat_total_len(
    ld: crate::lookup_table::BasicAddressLoader,
    ls: Seq<MessageAddressTableLookup>,
)
    ensures
        ld.sel_concat(ls, true).len() + ld.sel_concat(ls, false).len() == total_lookup_count(ls),
        ld.sel_concat(ls, true).len() == side_count(ls, true),
        ld.sel_concat(ls, false).len() == side_count(ls, false),
    decreases ls.len(),
{
    if ls.len() > 0 {
        lemma_sel_concat_total_len(ld, ls.drop_last());
    }
}

/// Number of keys the lookups load on one side.
pub open spec fn side_count(ls: Seq<MessageAddressTableLookup>, writable: bool) -> int
    decreases ls.len(),
{
    if ls.len() == 0 {
        0
    } else {
        side_count(ls.drop_last(), writable) + (if writable {
            ls.last().writable_indexes@.len() as int
        } else {
            ls.last().readonly_indexes@.len() as int
        })
    }
}

/// Every lookup of `ls` resolves cleanly through `ld`.
pub open spec fn all_lookups_ok(
    ld: crate::lookup_table::BasicAddressLoader,
    ls: Seq<MessageAddressTableLookup>,
) -> bool {
    forall|j: int| 0 <= j < ls.len() ==> ld.lookup_ok(#[trigger] ls[j])
}

/// Some lookup of `ls` references a table absent from `ld`.
pub open spec fn some_table_missing(
    ld: crate::lookup_table::BasicAddressLoader,
    ls: Seq<MessageAddressTableLookup>,
) -> bool {
    exists|j: int| 0 <= j < ls.len() && !ld.has_table((#[trigger] ls[j]).account_key@)
}

/// The views of the full resolved account list of a versioned message:
/// inline keys, then writable-loaded keys, then readonly-loaded keys.
pub open spec fn v0_resolved_views(
    ld: crate::lookup_table::BasicAddressLoader,
    m: V0Message,
) -> Seq<Seq<u8>> {
    key_views(m.account_keys@) + ld.sel_concat(m.address_table_lookups@, true) + ld.sel_concat(
        m.address_table_lookups@,
        false,
    )
}

/// `s` is the sanitized form of legacy message `m`.
pub open spec fn sanitized_matches_legacy(s: SanitizedMessage, m: LegacyMessage) -> bool {
    &&& s.header == m.header
    &&& s.account_keys == m.account_keys
    &&& s.num_static_keys == m.account_keys@.len()
    &&& s.num_writable_lookup_keys == 0
    &&& s.recent_blockhash == m.recent_blockhash
    &&& s.instructions == m.instructions
    &&& s.wf()
}

/// `s` is the sanitized form of versioned message `m` resolved through `ld`.
pub open spec fn sanitized_matches_v0(
    s: SanitizedMessage,
    m: V0Message,
    ld: crate::lookup_table::BasicAddressLoader,
) -> bool {
    &&& s.header == m.header
    &&& s.recent_blockhash == m.recent_blockhash
    &&& s.instructions == m.instructions
    &&& s.num_static_keys == m.account_keys@.len()
    &&& s.num_writable_lookup_keys == ld.sel_concat(m.address_table_lookups@, true).len()
    &&& key_views(s.account_keys@) == v0_resolved_views(ld, m)
    &&& s.wf()
}

/// Validates a message and resolves its account list.
///
/// A legacy message needs no lookup capability and never consults one; a
/// versioned message requires `address_loader`, which must already hold
/// every referenced table. On success the resolved account list is the
/// inline keys, then every writable-loaded key in lookup order, then every
/// readonly-loaded key in lookup order.
pub fn sanitize_message(
    msg: VersionedMessage,
    address_loader: Option<&crate::lookup_table::BasicAddressLoader>,
) -> (r: Result<SanitizedMessage, crate::errors::Error>)
    ensures
        msg matches VersionedMessage::Legacy(m) ==> match r {
            Ok(s) => legacy_message_wf(m) && sanitized_matches_legacy(s, m),
            Err(e) => !legacy_message_wf(m) && e == crate::errors::Error::SanitizeMessage(
                SanitizeError::IndexOutOfBounds,
            ),
        },
        msg matches VersionedMessage::V0(m) ==> match r {
            Ok(s) => {
                &&& v0_sanitize_spec(m) is Ok
                &&& address_loader is Some
                &&& all_lookups_ok(*address_loader->Some_0, m.address_table_lookups@)
                &&& sanitized_matches_v0(s, m, *address_loader->Some_0)
            },
            Err(e) => {
                &&& (v0_sanitize_spec(m) matches Err(se) ==> e
                    == crate::errors::Error::SanitizeMessage(se))
                &&& (v0_sanitize_spec(m) is Ok && address_loader is None ==> e
                    == crate::errors::Error::AddressLoader(
                    crate::errors::AddressLoaderError::Disabled,
                ))
                &&& (v0_sanitize_spec(m) is Ok && address_loader is Some ==> !all_lookups_ok(
                    *address_loader->Some_0,
                    m.address_table_lookups@,
                ) && (e == crate::errors::Error::AddressLoader(
                    crate::errors::AddressLoaderError::LookupTableAccountNotFound,
                ) || e == crate::errors::Error::AddressLoader(
                    crate::errors::AddressLoaderError::InvalidLookupIndex,
                )))
                &&& (v0_sanitize_spec(m) is Ok && address_loader is Some && e
                    == crate::errors::Error::AddressLoader(
                    crate::errors::AddressLoaderError::LookupTableAccountNotFound,
                ) ==> some_table_missing(*address_loader->Some_0, m.address_table_lookups@))
            },
        },
{
    match msg {
        VersionedMessage::Legacy(m) => {
            match legacy_sanitize(&m) {
                Err(e) => Err(crate::errors::Error::SanitizeMessage(e)),
                Ok(()) => {
                    let num_static_keys = m.account_keys.len();
                    Ok(
                        SanitizedMessage {
                            header: m.header,
                            account_keys: m.account_keys,
                            num_static_keys,
                            num_writable_lookup_keys: 0,
                            recent_blockhash: m.recent_blockhash,
                            instructions: m.instructions,
                        },
                    )
                },
            }
        },
        VersionedMessage::V0(m) => {
            match v0_sanitize(&m) {
                Err(e) => {
                    return Err(crate::errors::Error::SanitizeMessage(e));
                },
                Ok(()) => {},
            }
            let ld = match address_loader {
                Some(ld) => ld,
                None => {
                    return Err(
                        crate::errors::Error::AddressLoader(
                            crate::errors::AddressLoaderError::Disabled,
                        ),
                    );
                },
            };
            let la = match ld.load_addresses(&m.address_table_lookups) {
                Ok(la) => la,
                Err(e) => {
                    return Err(crate::errors::Error::AddressLoader(e));
                },
            };
            let mut account_keys = m.account_keys;
            let num_static_keys = account_keys.len();
            let num_writable_lookup_keys = la.writable.len();
            let mut writable = la.writable;
            let mut readonly = la.readonly;
            let ghost statics = account_keys@;
            let ghost wv = writable@;
            let ghost rv = readonly@;
            account_keys.append(&mut writable);
            account_keys.append(&mut readonly);
            proof {
                lemma_sel_concat_total_len(*ld, m.address_table_lookups@);
                assert(key_views(account_keys@) =~= key_views(statics) + key_views(wv) + key_views(
                    rv,
                ));
            }
            let s = SanitizedMessage {
                header: m.header,
                account_keys,
                num_static_keys,
                num_writable_lookup_keys,
                recent_blockhash: m.recent_blockhash,
                instructions: m.instructions,
            };
            assert(s.wf()) by {
                assert(s.account_keys@.len() == num_static_keys + total_lookup_count(
                    m.address_table_lookups@,
                ));
            }
            Ok(s)
        },
    }
}

/// All lookups together load a non-negative number of keys.
pub proof fn lemma_total_lookup_count_nonneg(ls: Seq<MessageAddressTableLookup>)
    ensures
        total_lookup_count(ls) >= 0,
    decreases ls.len(),
{
    if ls.len() > 0 {
        lemma_total_lookup_count_nonneg(ls.drop_last());
    }
}

} // verus!
