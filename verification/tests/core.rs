use juno::compile::{create_tx_with_address_table_lookup, try_compile};
use juno::decompile::{
    decompile_transaction_instructions, decompile_transaction_instructions_with_fetched_accounts,
    get_lookup_tables_pubkeys, lookup_tables_to_fetch, AccountMeta, Instruction,
};
use juno::errors::{AddressLoaderError, Error, SanitizeError};
use juno::keys::{dedup_pubkeys, Blockhash, Pubkey};
use juno::lookup_table::{
    deserialize_lookup_table, AddressLookupTable, AddressLookupTableAccount, BasicAddressLoader,
    KeyedAccount, TableEntry, LOOKUP_TABLE_META_SIZE,
};
use juno::message::{
    CompiledInstruction, LegacyMessage, MessageAddressTableLookup, MessageHeader,
    V0Message, VersionedMessage, VersionedTransaction,
};

fn key(b: u8) -> Pubkey {
    Pubkey { bytes: vec![b; 32] }
}

fn blockhash(b: u8) -> Blockhash {
    Blockhash { bytes: vec![b; 32] }
}

fn header(req: u8, ro_signed: u8, ro_unsigned: u8) -> MessageHeader {
    MessageHeader {
        num_required_signatures: req,
        num_readonly_signed_accounts: ro_signed,
        num_readonly_unsigned_accounts: ro_unsigned,
    }
}

fn meta(b: u8, signer: bool, writable: bool) -> AccountMeta {
    AccountMeta { pubkey: key(b), is_signer: signer, is_writable: writable }
}

/// Raw lookup-table account bytes holding the given addresses.
fn table_bytes(addresses: &[u8]) -> Vec<u8> {
    let mut data = vec![0u8; LOOKUP_TABLE_META_SIZE];
    data[0] = 1;
    for b in addresses {
        data.extend(vec![*b; 32]);
    }
    data
}

fn loader_of(entries: &[(u8, Vec<u8>)]) -> BasicAddressLoader {
    let mut tables = Vec::new();
    for (k, addrs) in entries {
        tables.push(TableEntry {
            key: key(*k),
            table: AddressLookupTable {
                addresses: addrs.iter().map(|b| key(*b)).collect(),
            },
        });
    }
    BasicAddressLoader { tables }
}

// Round trip: recompile an instruction list through a lookup table, then
// decompile the result; every instruction comes back with the same program,
// data, and accounts with the same flags.
#[test]
fn round_trip_through_lookup_table() {
    let payer = key(1);
    let ixs = vec![Instruction {
        program_id: key(9),
        accounts: vec![meta(2, false, true), meta(3, false, false), meta(1, true, true)],
        data: vec![7, 8, 9],
    }];
    let tables = vec![AddressLookupTableAccount {
        key: key(50),
        addresses: vec![key(2), key(3)],
    }];
    let tx = create_tx_with_address_table_lookup(&ixs, &tables, blockhash(4), &payer).unwrap();

    let loader = loader_of(&[(50, vec![2, 3])]);
    let decompiled = decompile_transaction_instructions(tx, Some(&loader)).unwrap();

    assert_eq!(decompiled.len(), 1);
    let ix = &decompiled[0];
    assert_eq!(ix.program_id.bytes, key(9).bytes);
    assert_eq!(ix.data, vec![7, 8, 9]);
    assert_eq!(ix.accounts.len(), 3);
    for (got, want) in ix.accounts.iter().zip(ixs[0].accounts.iter()) {
        assert_eq!(got.pubkey.bytes, want.pubkey.bytes);
        assert_eq!(got.is_signer, want.is_signer);
        assert_eq!(got.is_writable, want.is_writable);
    }
}

// The recompiler expresses non-signer accounts through the table and keeps
// the payer and the program inline.
#[test]
fn recompile_places_accounts_in_table() {
    let payer = key(1);
    let ixs = vec![Instruction {
        program_id: key(9),
        accounts: vec![meta(2, false, true), meta(3, false, false)],
        data: vec![],
    }];
    let tables = vec![AddressLookupTableAccount {
        key: key(50),
        addresses: vec![key(2), key(3)],
    }];
    let msg = try_compile(&payer, &ixs, &tables, blockhash(4)).unwrap();
    assert_eq!(msg.account_keys.len(), 2); // payer + program
    assert_eq!(msg.account_keys[0].bytes, key(1).bytes);
    assert_eq!(msg.address_table_lookups.len(), 1);
    assert_eq!(msg.address_table_lookups[0].account_key.bytes, key(50).bytes);
    assert_eq!(msg.address_table_lookups[0].writable_indexes, vec![0]);
    assert_eq!(msg.address_table_lookups[0].readonly_indexes, vec![1]);
    assert_eq!(msg.header.num_required_signatures, 1);
    assert_eq!(msg.header.num_readonly_signed_accounts, 0);
    assert_eq!(msg.header.num_readonly_unsigned_accounts, 1); // the program
}

// Bounds enforcement: an instruction referencing an account index at or past
// the resolved account list's length fails with an out-of-range error.
#[test]
fn decompile_rejects_out_of_range_account_index() {
    let msg = LegacyMessage {
        header: header(1, 0, 0),
        account_keys: vec![key(1), key(2)],
        recent_blockhash: blockhash(0),
        instructions: vec![CompiledInstruction {
            program_id_index: 1,
            accounts: vec![5],
            data: vec![],
        }],
    };
    let tx = VersionedTransaction { message: VersionedMessage::Legacy(msg) };
    let r = decompile_transaction_instructions(tx, None);
    assert_eq!(r.unwrap_err(), Error::SanitizeMessage(SanitizeError::IndexOutOfBounds));
}

// Table index enforcement: resolving a lookup index at or past the table's
// address count fails with an invalid-lookup-index error.
#[test]
fn lookup_index_past_table_end_fails() {
    let loader = loader_of(&[(50, vec![2, 3])]);
    let r = loader.lookup(&key(50), 5);
    assert_eq!(r.unwrap_err(), AddressLoaderError::InvalidLookupIndex);
    assert_eq!(loader.lookup(&key(50), 1).unwrap().bytes, key(3).bytes);
}

// Table index enforcement through a full decompile.
#[test]
fn decompile_rejects_invalid_lookup_index() {
    let msg = V0Message {
        header: header(1, 0, 0),
        account_keys: vec![key(1), key(9)],
        recent_blockhash: blockhash(0),
        instructions: vec![CompiledInstruction {
            program_id_index: 1,
            accounts: vec![0, 2],
            data: vec![],
        }],
        address_table_lookups: vec![MessageAddressTableLookup {
            account_key: key(50),
            writable_indexes: vec![7],
            readonly_indexes: vec![],
        }],
    };
    let loader = loader_of(&[(50, vec![2, 3])]);
    let tx = VersionedTransaction { message: VersionedMessage::V0(msg) };
    let r = decompile_transaction_instructions(tx, Some(&loader));
    assert_eq!(r.unwrap_err(), Error::AddressLoader(AddressLoaderError::InvalidLookupIndex));
}

// Missing table: a versioned message referencing a table address absent from
// the resolved set fails with a table-not-found error.
#[test]
fn decompile_rejects_missing_table() {
    let msg = V0Message {
        header: header(1, 0, 0),
        account_keys: vec![key(1), key(9)],
        recent_blockhash: blockhash(0),
        instructions: vec![CompiledInstruction {
            program_id_index: 1,
            accounts: vec![0, 2],
            data: vec![],
        }],
        address_table_lookups: vec![MessageAddressTableLookup {
            account_key: key(77),
            writable_indexes: vec![0],
            readonly_indexes: vec![],
        }],
    };
    let loader = loader_of(&[(50, vec![2, 3])]);
    let tx = VersionedTransaction { message: VersionedMessage::V0(msg) };
    let r = decompile_transaction_instructions(tx, Some(&loader));
    assert_eq!(
        r.unwrap_err(),
        Error::AddressLoader(AddressLoaderError::LookupTableAccountNotFound)
    );
}

// No-lookup path: a legacy message decompiles with no lookup capability at
// all, and names no table to fetch.
#[test]
fn legacy_message_needs_no_loader() {
    let msg = LegacyMessage {
        header: header(1, 0, 1),
        account_keys: vec![key(1), key(9)],
        recent_blockhash: blockhash(0),
        instructions: vec![CompiledInstruction {
            program_id_index: 1,
            accounts: vec![0],
            data: vec![3],
        }],
    };
    let tx = VersionedTransaction { message: VersionedMessage::Legacy(msg) };
    assert!(get_lookup_tables_pubkeys(&tx).is_none());
    assert_eq!(lookup_tables_to_fetch(&tx).len(), 0);
    let ixs = decompile_transaction_instructions(tx, None).unwrap();
    assert_eq!(ixs.len(), 1);
    assert_eq!(ixs[0].accounts[0].pubkey.bytes, key(1).bytes);
    assert!(ixs[0].accounts[0].is_signer);
    assert!(ixs[0].accounts[0].is_writable);
}

// Flag derivation: with 3 required signers of which 1 readonly, and 1
// readonly unsigned key, the five inline positions carry exactly these
// flags: two writable signers, one readonly signer, one writable
// non-signer, one readonly non-signer.
#[test]
fn positional_flags_follow_header_counts() {
    let msg = LegacyMessage {
        header: header(3, 1, 1),
        account_keys: vec![key(1), key(2), key(3), key(4), key(5)],
        recent_blockhash: blockhash(0),
        instructions: vec![CompiledInstruction {
            program_id_index: 4,
            accounts: vec![0, 1, 2, 3, 4],
            data: vec![],
        }],
    };
    let tx = VersionedTransaction { message: VersionedMessage::Legacy(msg) };
    let ixs = decompile_transaction_instructions(tx, None).unwrap();
    let flags: Vec<(bool, bool)> =
        ixs[0].accounts.iter().map(|m| (m.is_signer, m.is_writable)).collect();
    assert_eq!(
        flags,
        vec![(true, true), (true, true), (true, false), (false, true), (false, false)]
    );
}

// Deduplicated fetch: a message referencing the same table twice names that
// table's address exactly once in the set to fetch.
#[test]
fn duplicate_table_references_fetch_once() {
    let msg = V0Message {
        header: header(1, 0, 0),
        account_keys: vec![key(1), key(9)],
        recent_blockhash: blockhash(0),
        instructions: vec![],
        address_table_lookups: vec![
            MessageAddressTableLookup {
                account_key: key(50),
                writable_indexes: vec![0],
                readonly_indexes: vec![],
            },
            MessageAddressTableLookup {
                account_key: key(50),
                writable_indexes: vec![],
                readonly_indexes: vec![1],
            },
        ],
    };
    let tx = VersionedTransaction { message: VersionedMessage::V0(msg) };
    let all = get_lookup_tables_pubkeys(&tx).unwrap();
    assert_eq!(all.len(), 2);
    let to_fetch = lookup_tables_to_fetch(&tx);
    assert_eq!(to_fetch.len(), 1);
    assert_eq!(to_fetch[0].bytes, key(50).bytes);
}

// Scenario: one signer, one inline account, one instruction referencing the
// payer only; it decompiles to one instruction with the payer as a writable
// signer.
#[test]
fn single_payer_instruction_decompiles() {
    let msg = V0Message {
        header: header(1, 0, 0),
        account_keys: vec![key(1)],
        recent_blockhash: blockhash(0),
        instructions: vec![CompiledInstruction {
            program_id_index: 0,
            accounts: vec![0],
            data: vec![],
        }],
        address_table_lookups: vec![],
    };
    let tx = VersionedTransaction { message: VersionedMessage::V0(msg) };
    let loader = BasicAddressLoader::empty();
    let ixs = decompile_transaction_instructions(tx, Some(&loader)).unwrap();
    assert_eq!(ixs.len(), 1);
    assert_eq!(ixs[0].accounts.len(), 1);
    assert_eq!(ixs[0].accounts[0].pubkey.bytes, key(1).bytes);
    assert!(ixs[0].accounts[0].is_signer);
    assert!(ixs[0].accounts[0].is_writable);
}

// A versioned message referencing lookups without any lookup capability is
// an address-loader fault.
#[test]
fn v0_without_loader_is_disabled() {
    let msg = V0Message {
        header: header(1, 0, 0),
        account_keys: vec![key(1)],
        recent_blockhash: blockhash(0),
        instructions: vec![],
        address_table_lookups: vec![],
    };
    let tx = VersionedTransaction { message: VersionedMessage::V0(msg) };
    let r = decompile_transaction_instructions(tx, None);
    assert_eq!(r.unwrap_err(), Error::AddressLoader(AddressLoaderError::Disabled));
}

// A header whose readonly-signed count swallows every signer leaves no
// writable fee payer and is rejected.
#[test]
fn v0_header_without_writable_payer_rejected() {
    let msg = V0Message {
        header: header(1, 1, 0),
        account_keys: vec![key(1), key(2)],
        recent_blockhash: blockhash(0),
        instructions: vec![],
        address_table_lookups: vec![],
    };
    let tx = VersionedTransaction { message: VersionedMessage::V0(msg) };
    let loader = BasicAddressLoader::empty();
    let r = decompile_transaction_instructions(tx, Some(&loader));
    assert_eq!(r.unwrap_err(), Error::SanitizeMessage(SanitizeError::InvalidValue));
}

// Deserialization accepts exactly the well-formed payloads.
#[test]
fn lookup_table_bytes_round() {
    let good = table_bytes(&[2, 3]);
    let t = deserialize_lookup_table(&good).unwrap();
    assert_eq!(t.addresses.len(), 2);
    assert_eq!(t.addresses[0].bytes, key(2).bytes);
    assert_eq!(t.addresses[1].bytes, key(3).bytes);

    let empty_table = table_bytes(&[]);
    assert_eq!(deserialize_lookup_table(&empty_table).unwrap().addresses.len(), 0);
}

#[test]
fn lookup_table_bytes_too_short_rejected() {
    let short = vec![1u8; LOOKUP_TABLE_META_SIZE - 1];
    assert_eq!(deserialize_lookup_table(&short).unwrap_err(), Error::LookupTableDeserialize);
}

#[test]
fn lookup_table_bytes_ragged_tail_rejected() {
    let mut ragged = table_bytes(&[2]);
    ragged.push(0);
    assert_eq!(deserialize_lookup_table(&ragged).unwrap_err(), Error::LookupTableDeserialize);
}

#[test]
fn lookup_table_bytes_bad_discriminator_rejected() {
    let mut bad = table_bytes(&[2]);
    bad[0] = 2;
    assert_eq!(deserialize_lookup_table(&bad).unwrap_err(), Error::LookupTableDeserialize);
}

// Building a loader from fetched accounts: a missing account is fatal.
#[test]
fn fetched_account_missing_is_fatal() {
    let keys = vec![key(50), key(51)];
    let fetched = vec![Some(table_bytes(&[2])), None];
    let r = BasicAddressLoader::from_fetched_accounts(&keys, fetched);
    assert_eq!(r.unwrap_err(), Error::LookupTableAccountNotFound);
}

// Building a loader from fetched accounts: malformed bytes are fatal.
#[test]
fn fetched_account_malformed_is_fatal() {
    let keys = vec![key(50)];
    let fetched = vec![Some(vec![0u8; 3])];
    let r = BasicAddressLoader::from_fetched_accounts(&keys, fetched);
    assert_eq!(r.unwrap_err(), Error::LookupTableDeserialize);
}

// Loading from already-paired accounts keeps the last payload per address.
#[test]
fn loaded_accounts_last_payload_wins() {
    let accounts = vec![
        KeyedAccount { key: key(50), data: table_bytes(&[2]) },
        KeyedAccount { key: key(50), data: table_bytes(&[3, 4]) },
    ];
    let loader = BasicAddressLoader::from_loaded_accounts(&accounts).unwrap();
    let t = loader.get_table(&key(50)).unwrap();
    assert_eq!(t.addresses.len(), 2);
    assert_eq!(t.addresses[0].bytes, key(3).bytes);
    let out = loader.to_address_lookup_table_accounts();
    assert_eq!(out.len(), 1);
    assert_eq!(out[0].key.bytes, key(50).bytes);
}

// The end-to-end fetched-accounts pipeline on a versioned transaction.
#[test]
fn decompile_with_fetched_accounts_pipeline() {
    let payer = key(1);
    let ixs = vec![Instruction {
        program_id: key(9),
        accounts: vec![meta(2, false, true), meta(1, true, true)],
        data: vec![1],
    }];
    let tables = vec![AddressLookupTableAccount { key: key(50), addresses: vec![key(2)] }];
    let tx = create_tx_with_address_table_lookup(&ixs, &tables, blockhash(4), &payer).unwrap();

    let to_fetch = lookup_tables_to_fetch(&tx);
    assert_eq!(to_fetch.len(), 1);
    assert_eq!(to_fetch[0].bytes, key(50).bytes);

    let fetched = vec![Some(table_bytes(&[2]))];
    let d = decompile_transaction_instructions_with_fetched_accounts(tx, fetched).unwrap();
    let out_tables = d.lookup_tables.unwrap();
    assert_eq!(out_tables.len(), 1);
    assert_eq!(out_tables[0].key.bytes, key(50).bytes);
    assert_eq!(d.instructions.len(), 1);
    assert_eq!(d.instructions[0].program_id.bytes, key(9).bytes);
    assert_eq!(d.instructions[0].accounts[0].pubkey.bytes, key(2).bytes);
    assert!(d.instructions[0].accounts[0].is_writable);
    assert!(!d.instructions[0].accounts[0].is_signer);
}

// A legacy transaction goes through the fetched-accounts pipeline with an
// empty fetch outcome and yields no tables.
#[test]
fn legacy_pipeline_without_fetch() {
    let msg = LegacyMessage {
        header: header(1, 0, 0),
        account_keys: vec![key(1), key(9)],
        recent_blockhash: blockhash(0),
        instructions: vec![CompiledInstruction {
            program_id_index: 1,
            accounts: vec![0],
            data: vec![],
        }],
    };
    let tx = VersionedTransaction { message: VersionedMessage::Legacy(msg) };
    let d = decompile_transaction_instructions_with_fetched_accounts(tx, vec![]).unwrap();
    assert!(d.lookup_tables.is_none());
    assert_eq!(d.instructions.len(), 1);
}

// Recompiling more distinct accounts than the protocol's index space fails
// with a compile error, never a partial message.
#[test]
fn recompile_overflow_is_compile_error() {
    let payer = key(1);
    let mut accounts = Vec::new();
    for i in 0..300u32 {
        let mut bytes = vec![0u8; 32];
        bytes[0] = (i % 256) as u8;
        bytes[1] = (i / 256) as u8;
        accounts.push(AccountMeta { pubkey: Pubkey { bytes }, is_signer: false, is_writable: false });
    }
    let ixs = vec![Instruction { program_id: key(9), accounts, data: vec![] }];
    let r = try_compile(&payer, &ixs, &Vec::new(), blockhash(0));
    assert_eq!(r.unwrap_err(), Error::SolanaCompileError);
}

// Accounts found in no supplied table are embedded inline and still round
// trip.
#[test]
fn round_trip_with_uncovered_accounts_inline() {
    let payer = key(1);
    let ixs = vec![Instruction {
        program_id: key(9),
        accounts: vec![meta(2, false, true), meta(8, false, false)],
        data: vec![42],
    }];
    // the table covers key 2 but not key 8
    let tables = vec![AddressLookupTableAccount { key: key(50), addresses: vec![key(2)] }];
    let msg = try_compile(&payer, &ixs, &tables, blockhash(4)).unwrap();
    // inline: payer, key 8, program; loaded: key 2
    assert_eq!(msg.account_keys.len(), 3);
    let tx = VersionedTransaction { message: VersionedMessage::V0(msg) };
    let loader = loader_of(&[(50, vec![2])]);
    let decompiled = decompile_transaction_instructions(tx, Some(&loader)).unwrap();
    for (got, want) in decompiled[0].accounts.iter().zip(ixs[0].accounts.iter()) {
        assert_eq!(got.pubkey.bytes, want.pubkey.bytes);
        assert_eq!(got.is_signer, want.is_signer);
        assert_eq!(got.is_writable, want.is_writable);
    }
}

// An invoked program is always embedded inline, even when a table holds it.
#[test]
fn invoked_program_never_moves_to_table() {
    let payer = key(1);
    let ixs = vec![Instruction { program_id: key(9), accounts: vec![], data: vec![] }];
    let tables = vec![AddressLookupTableAccount { key: key(50), addresses: vec![key(9)] }];
    let msg = try_compile(&payer, &ixs, &tables, blockhash(4)).unwrap();
    assert_eq!(msg.account_keys.len(), 2);
    assert!(msg.address_table_lookups.is_empty());
}

// A key listed with different flags across instructions is placed once, with
// the accumulated flags, and every occurrence decompiles to those flags.
#[test]
fn flags_accumulate_across_instructions() {
    let payer = key(1);
    let ixs = vec![
        Instruction { program_id: key(9), accounts: vec![meta(2, false, false)], data: vec![] },
        Instruction { program_id: key(9), accounts: vec![meta(2, false, true)], data: vec![] },
    ];
    let msg = try_compile(&payer, &ixs, &Vec::new(), blockhash(4)).unwrap();
    let tx = VersionedTransaction { message: VersionedMessage::V0(msg) };
    let loader = BasicAddressLoader::empty();
    let decompiled = decompile_transaction_instructions(tx, Some(&loader)).unwrap();
    assert_eq!(decompiled.len(), 2);
    // both occurrences of key 2 come back writable: the accumulated flag
    assert!(decompiled[0].accounts[0].is_writable);
    assert!(decompiled[1].accounts[0].is_writable);
    assert!(!decompiled[0].accounts[0].is_signer);
}

// Deduplication keeps the first occurrence of each address, in order.
#[test]
fn dedup_keeps_first_occurrences() {
    let ks = vec![key(5), key(2), key(5), key(7), key(2)];
    let d = dedup_pubkeys(&ks);
    let got: Vec<u8> = d.iter().map(|k| k.bytes[0]).collect();
    assert_eq!(got, vec![5, 2, 7]);
}

// Success is owed by the number of distinct keys, not of references: many
// repeated references to a few keys still compile.
#[test]
fn many_repeated_references_compile() {
    let payer = key(1);
    let mut accounts = Vec::new();
    for _ in 0..300 {
        accounts.push(meta(2, false, true));
    }
    let ixs = vec![Instruction { program_id: key(9), accounts, data: vec![] }];
    let msg = try_compile(&payer, &ixs, &Vec::new(), blockhash(0)).unwrap();
    assert_eq!(msg.account_keys.len(), 3);
    assert_eq!(msg.instructions[0].accounts.len(), 300);
}
