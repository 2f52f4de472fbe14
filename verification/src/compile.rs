//! Transaction recompilation: building a compact versioned message from an
//! instruction list, expressing accounts through supplied lookup tables
//! where possible.

use vstd::prelude::*;

use crate::decompile::Instruction;
use crate::errors::Error;
use crate::keys::{contains_key, dedup_key_views, index_of_key, key_views, Pubkey};
use crate::lookup_table::AddressLookupTableAccount;
use crate::message::{position_is_signer, position_is_writable};

verus! {

/// Some instruction invokes `k` as its program.
pub open spec fn key_invoked_in(ixs: Seq<Instruction>, k: Seq<u8>) -> bool {
    exists|i: int| 0 <= i < ixs.len() && (#[trigger] ixs[i]).program_id@ == k
}

/// Some instruction lists `k` among its accounts.
pub open spec fn key_account_in(ixs: Seq<Instruction>, k: Seq<u8>) -> bool {
    exists|i: int, j: int|
        0 <= i < ixs.len() && 0 <= j < ixs[i].accounts@.len() && (#[trigger] ixs[i].accounts@[j]).pubkey@
            == k
}

/// `k` is touched by the instructions, as a program or as an account.
pub open spec fn key_mentioned(ixs: Seq<Instruction>, k: Seq<u8>) -> bool {
    key_invoked_in(ixs, k) || key_account_in(ixs, k)
}

/// The keys one instruction mentions, the program first, then its accounts
/// in listed order.
pub open spec fn ix_mention_keys(ix: Instruction) -> Seq<Pubkey> {
    seq![ix.program_id] + ix.accounts@.map_values(|a: crate::decompile::AccountMeta| a.pubkey)
}

/// Every key occurrence the compiler walks, in walk order: the payer, then
/// each instruction's mentions.
pub open spec fn mention_keys(payer: Pubkey, ixs: Seq<Instruction>) -> Seq<Pubkey>
    decreases ixs.len(),
{
    if ixs.len() == 0 {
        seq![payer]
    } else {
        mention_keys(payer, ixs.drop_last()) + ix_mention_keys(ixs.last())
    }
}

/// Some instruction lists `k` as a signing account.
pub open spec fn key_signer_in(ixs: Seq<Instruction>, k: Seq<u8>) -> bool {
    exists|i: int, j: int|
        0 <= i < ixs.len() && 0 <= j < ixs[i].accounts@.len() && (#[trigger] ixs[i].accounts@[j]).pubkey@
            == k && ixs[i].accounts@[j].is_signer
}

/// Some instruction lists `k` as a writable account.
pub open spec fn key_writable_in(ixs: Seq<Instruction>, k: Seq<u8>) -> bool {
    exists|i: int, j: int|
        0 <= i < ixs.len() && 0 <= j < ixs[i].accounts@.len() && (#[trigger] ixs[i].accounts@[j]).pubkey@
            == k && ixs[i].accounts@[j].is_writable
}

/// Collects every key the instructions touch, the payer first, each key
/// exactly once.
fn collect_keys(payer: &Pubkey, ixs: &Vec<Instruction>) -> (r: Vec<Pubkey>)
    ensures
        r@.len() >= 1,
        r@[0]@ == payer@,
        forall|a: int, b: int| 0 <= a < b < r@.len() ==> r@[a]@ != r@[b]@,
        forall|k: Seq<u8>| contains_key(r@, k) <==> (k == payer@ || key_mentioned(ixs@, k)),
        key_views(r@) == dedup_key_views(mention_keys(*payer, ixs@)),
{
    let mut out: Vec<Pubkey> = Vec::new();
    out.push(payer.clone());
    assert(forall|k: Seq<u8>| contains_key(out@, k) <==> k == payer@) by {
        assert(out@[0]@ == payer@);
    }
    let ghost mut ms: Seq<Pubkey> = seq![*payer];
    proof {
        assert(ms.drop_last() =~= Seq::<Pubkey>::empty());
        assert(dedup_key_views(Seq::<Pubkey>::empty()) =~= Seq::<Seq<u8>>::empty());
        assert(!dedup_key_views(ms.drop_last()).contains(ms.last()@));
        assert(dedup_key_views(ms) =~= Seq::<Seq<u8>>::empty().push(payer@));
        assert(key_views(out@) =~= dedup_key_views(ms));
    }
    let n = ixs.len();
    let mut i: usize = 0;
    while i < n
        invariant
            n == ixs@.len(),
            i <= n,
            out@.len() >= 1,
            out@[0]@ == payer@,
            ms == mention_keys(*payer, ixs@.take(i as int)),
            key_views(out@) == dedup_key_views(ms),
            forall|a: int, b: int| 0 <= a < b < out@.len() ==> out@[a]@ != out@[b]@,
            forall|k: Seq<u8>|
                #[trigger] contains_key(out@, k) <==> (k == payer@ || key_mentioned(
                    ixs@.take(i as int),
                    k,
                )),
        decreases n - i,
    {
        let ix = &ixs[i];
        proof {
            assert(ixs@.take(i + 1).drop_last() =~= ixs@.take(i as int));
            assert(ixs@.take(i + 1).last() == ixs@[i as int]);
        }
        let ghost out_before_prog = out@;
        push_if_absent(&mut out, &ix.program_id);
        proof {
            lemma_mentions_prefix(ixs@, i as int);
            let ms2 = ms.push(ix.program_id);
            assert(ms2.drop_last() =~= ms);
            if contains_key(out_before_prog, ix.program_id@) {
                assert(dedup_key_views(ms).contains(ix.program_id@)) by {
                    let w = choose|w: int|
                        0 <= w < out_before_prog.len() && out_before_prog[w]@ == ix.program_id@;
                    assert(key_views(out_before_prog)[w] == ix.program_id@);
                }
                assert(key_views(out@) =~= dedup_key_views(ms2));
            } else {
                assert(!dedup_key_views(ms).contains(ix.program_id@)) by {
                    if dedup_key_views(ms).contains(ix.program_id@) {
                        let w = choose|w: int|
                            0 <= w < key_views(out_before_prog).len() && key_views(
                                out_before_prog,
                            )[w] == ix.program_id@;
                        assert(out_before_prog[w]@ == ix.program_id@);
                    }
                }
                assert(key_views(out@) =~= dedup_key_views(ms).push(ix.program_id@));
                assert(key_views(out@) =~= dedup_key_views(ms2));
            }
            ms = ms2;
            assert(ms =~= mention_keys(*payer, ixs@.take(i as int)) + ix_mention_keys(
                ixs@[i as int],
            ).take(1));
        }
        assert(forall|k: Seq<u8>|
            #[trigger] contains_key(out@, k) <==> (k == payer@ || key_mentioned(
                ixs@.take(i as int),
                k,
            ) || ixs@[i as int].program_id@ == k));
        let m = ix.accounts.len();
        let mut j: usize = 0;
        while j < m
            invariant
                n == ixs@.len(),
                i < n,
                *ix == ixs@[i as int],
                m == ix.accounts@.len(),
                j <= m,
                out@.len() >= 1,
                out@[0]@ == payer@,
                ms == mention_keys(*payer, ixs@.take(i as int)) + ix_mention_keys(
                    ixs@[i as int],
                ).take(1 + j),
                key_views(out@) == dedup_key_views(ms),
                forall|a: int, b: int| 0 <= a < b < out@.len() ==> out@[a]@ != out@[b]@,
                forall|k: Seq<u8>|
                    #[trigger] contains_key(out@, k) <==> (k == payer@ || key_mentioned(
                        ixs@.take(i as int),
                        k,
                    ) || ixs@[i as int].program_id@ == k || exists|jj: int|
                        0 <= jj < j && (#[trigger] ixs@[i as int].accounts@[jj]).pubkey@ == k),
            decreases m - j,
        {
            let ghost out_before_acct = out@;
            push_if_absent(&mut out, &ix.accounts[j].pubkey);
            proof {
                let x = ix.accounts@[j as int].pubkey;
                let ms2 = ms.push(x);
                assert(ms2.drop_last() =~= ms);
                if contains_key(out_before_acct, x@) {
                    assert(dedup_key_views(ms).contains(x@)) by {
                        let w = choose|w: int|
                            0 <= w < out_before_acct.len() && out_before_acct[w]@ == x@;
                        assert(key_views(out_before_acct)[w] == x@);
                    }
                    assert(key_views(out@) =~= dedup_key_views(ms2));
                } else {
                    assert(!dedup_key_views(ms).contains(x@)) by {
                        if dedup_key_views(ms).contains(x@) {
                            let w = choose|w: int|
                                0 <= w < key_views(out_before_acct).len() && key_views(
                                    out_before_acct,
                                )[w] == x@;
                            assert(out_before_acct[w]@ == x@);
                        }
                    }
                    assert(key_views(out@) =~= dedup_key_views(ms).push(x@));
                    assert(key_views(out@) =~= dedup_key_views(ms2));
                }
                ms = ms2;
                assert(ms =~= mention_keys(*payer, ixs@.take(i as int)) + ix_mention_keys(
                    ixs@[i as int],
                ).take(1 + j + 1));
            }
            assert(forall|k: Seq<u8>|
                #[trigger] contains_key(out@, k) <==> (k == payer@ || key_mentioned(
                    ixs@.take(i as int),
                    k,
                ) || ixs@[i as int].program_id@ == k || exists|jj: int|
                    0 <= jj < j + 1 && (#[trigger] ixs@[i as int].accounts@[jj]).pubkey@ == k)) by {
                assert(ixs@[i as int].accounts@[j as int].pubkey@ == ix.accounts@[j as int].pubkey@);
            }
            j += 1;
        }
        proof {
            lemma_mentions_step(ixs@, i as int);
            assert(ix_mention_keys(ixs@[i as int]).take(1 + m) =~= ix_mention_keys(
                ixs@[i as int],
            ));
            assert(ms =~= mention_keys(*payer, ixs@.take(i + 1)));
        }
        i += 1;
    }
    assert(ixs@.take(n as int) =~= ixs@);
    out
}

/// Appends `k` unless an equal address is already present; containment of
/// every other address is unchanged.
fn push_if_absent(out: &mut Vec<Pubkey>, k: &Pubkey)
    requires
        forall|a: int, b: int| 0 <= a < b < old(out)@.len() ==> old(out)@[a]@ != old(out)@[b]@,
    ensures
        forall|a: int, b: int|
            0 <= a < b < final(out)@.len() ==> (final(out)@[a]@ != final(out)@[b]@),
        final(out)@.len() >= old(out)@.len(),
        final(out)@.len() <= old(out)@.len() + 1,
        forall|a: int| 0 <= a < old(out)@.len() ==> final(out)@[a] == old(out)@[a],
        contains_key(final(out)@, k@),
        contains_key(old(out)@, k@) ==> final(out)@ == old(out)@,
        !contains_key(old(out)@, k@) ==> final(out)@.len() == old(out)@.len() + 1 && (final(out)@[old(out)@.len() as int]@ == k@),
        forall|kk: Seq<u8>|
            #[trigger] contains_key(final(out)@, kk) <==> (contains_key(old(out)@, kk) || kk
                == k@),
{
    let ghost before = out@;
    match crate::keys::find_key(out, k) {
        Some(_) => {
            assert forall|kk: Seq<u8>| #[trigger] contains_key(out@, kk) <==> (contains_key(
                before,
                kk,
            ) || kk == k@) by {}
        },
        None => {
            out.push(k.clone());
            assert(forall|a: int| 0 <= a < before.len() ==> out@[a] == before[a]);
            assert(out@[before.len() as int]@ == k@);
            assert forall|kk: Seq<u8>| #[trigger] contains_key(out@, kk) implies (contains_key(
                before,
                kk,
            ) || kk == k@) by {
                let w = choose|w: int| 0 <= w < out@.len() && out@[w]@ == kk;
                if w < before.len() {
                    assert(contains_key(before, kk));
                }
            }
            assert forall|kk: Seq<u8>| (contains_key(before, kk) || kk == k@) implies contains_key(
                out@,
                kk,
            ) by {
                if contains_key(before, kk) {
                    let w = choose|w: int| 0 <= w < before.len() && before[w]@ == kk;
                    assert(out@[w]@ == kk);
                } else {
                    assert(out@[before.len() as int]@ == kk);
                }
            }
        },
    }
}

/// A key mentioned in the first `i` instructions, or invoked or listed by
/// instruction `i`, is mentioned in the first `i + 1`.
proof fn lemma_mentions_step(ixs: Seq<Instruction>, i: int)
    requires
        0 <= i < ixs.len(),
    ensures
        forall|k: Seq<u8>|
            #[trigger] key_mentioned(ixs.take(i + 1), k) <==> (key_mentioned(ixs.take(i), k)
                || ixs[i].program_id@ == k || exists|jj: int|
                0 <= jj < ixs[i].accounts@.len() && (#[trigger] ixs[i].accounts@[jj]).pubkey@
                    == k),
{
    assert forall|k: Seq<u8>| #[trigger] key_mentioned(ixs.take(i + 1), k) implies (key_mentioned(
        ixs.take(i),
        k,
    ) || ixs[i].program_id@ == k || exists|jj: int|
        0 <= jj < ixs[i].accounts@.len() && (#[trigger] ixs[i].accounts@[jj]).pubkey@ == k) by {
        if key_invoked_in(ixs.take(i + 1), k) {
            let w = choose|w: int|
                0 <= w < ixs.take(i + 1).len() && (#[trigger] ixs.take(i + 1)[w]).program_id@ == k;
            if w < i {
                assert(ixs.take(i)[w].program_id@ == k);
            } else {
                assert(ixs[i].program_id@ == k);
            }
        } else {
            let (w, jj) = choose|w: int, jj: int|
                0 <= w < ixs.take(i + 1).len() && 0 <= jj < ixs.take(i + 1)[w].accounts@.len() && (
                #[trigger] ixs.take(i + 1)[w].accounts@[jj]).pubkey@ == k;
            if w < i {
                assert(ixs.take(i)[w].accounts@[jj].pubkey@ == k);
            } else {
                assert(ixs[i].accounts@[jj].pubkey@ == k);
            }
        }
    }
    assert forall|k: Seq<u8>| (key_mentioned(ixs.take(i), k) || ixs[i].program_id@ == k || exists|
        jj: int,
    | 0 <= jj < ixs[i].accounts@.len() && (#[trigger] ixs[i].accounts@[jj]).pubkey@
        == k) implies #[trigger] key_mentioned(ixs.take(i + 1), k) by {
        if key_invoked_in(ixs.take(i), k) {
            let w = choose|w: int|
                0 <= w < ixs.take(i).len() && (#[trigger] ixs.take(i)[w]).program_id@ == k;
            assert(ixs.take(i + 1)[w].program_id@ == k);
        } else if key_account_in(ixs.take(i), k) {
            let (w, jj) = choose|w: int, jj: int|
                0 <= w < ixs.take(i).len() && 0 <= jj < ixs.take(i)[w].accounts@.len() && (
                #[trigger] ixs.take(i)[w].accounts@[jj]).pubkey@ == k;
            assert(ixs.take(i + 1)[w].accounts@[jj].pubkey@ == k);
        } else if ixs[i].program_id@ == k {
            assert(ixs.take(i + 1)[i].program_id@ == k);
        } else {
            let jj = choose|jj: int|
                0 <= jj < ixs[i].accounts@.len() && (#[trigger] ixs[i].accounts@[jj]).pubkey@ == k;
            assert(ixs.take(i + 1)[i].accounts@[jj].pubkey@ == k);
        }
    }
}

/// Helper fact: mentions in a prefix carry into the one-longer prefix.
proof fn lemma_mentions_prefix(ixs: Seq<Instruction>, i: int)
    requires
        0 <= i < ixs.len(),
    ensures
        forall|k: Seq<u8>|
            key_mentioned(ixs.take(i), k) ==> #[trigger] key_mentioned(ixs.take(i + 1), k),
{
    lemma_mentions_step(ixs, i);
}

/// The supplied tables have pairwise distinct addresses.
pub open spec fn distinct_table_keys(ts: Seq<AddressLookupTableAccount>) -> bool {
    forall|a: int, b: int| 0 <= a < b < ts.len() ==> (#[trigger] ts[a]).key@ != (#[trigger] ts[b]).key@
}

/// Index of the first table whose address is `k`; `-1` if none.
pub open spec fn first_table_by_key(ts: Seq<AddressLookupTableAccount>, k: Seq<u8>) -> int
    decreases ts.len(),
{
    if ts.len() == 0 {
        -1
    } else if ts[0].key@ == k {
        0
    } else {
        let rest = first_table_by_key(ts.drop_first(), k);
        if rest == -1 {
            -1
        } else {
            rest + 1
        }
    }
}

/// Under distinct table addresses, the table holding address `k` is its own
/// first-by-key match.
pub proof fn lemma_first_table_by_key(ts: Seq<AddressLookupTableAccount>, t: int)
    requires
        distinct_table_keys(ts),
        0 <= t < ts.len(),
    ensures
        first_table_by_key(ts, ts[t].key@) == t,
    decreases ts.len(),
{
    if t > 0 {
        assert(distinct_table_keys(ts.drop_first())) by {
            assert forall|a: int, b: int|
                0 <= a < b < ts.drop_first().len() implies (#[trigger] ts.drop_first()[a]).key@
                != (#[trigger] ts.drop_first()[b]).key@ by {
                assert(ts[a + 1].key@ != ts[b + 1].key@);
            }
        }
        lemma_first_table_by_key(ts.drop_first(), t - 1);
        assert(ts.drop_first()[t - 1] == ts[t]);
    }
}

/// Index of the first table whose address list contains `k`; `-1` if none.
pub open spec fn first_table_containing(ts: Seq<AddressLookupTableAccount>, k: Seq<u8>) -> int
    decreases ts.len(),
{
    if ts.len() == 0 {
        -1
    } else if contains_key(ts[0].addresses@, k) {
        0
    } else {
        let rest = first_table_containing(ts.drop_first(), k);
        if rest == -1 {
            -1
        } else {
            rest + 1
        }
    }
}

/// Finds the first supplied table whose address list holds `k`, and the
/// first position of `k` within that table.
fn find_in_tables(ts: &Vec<AddressLookupTableAccount>, k: &Pubkey) -> (r: Option<(usize, usize)>)
    ensures
        match r {
            Some(tp) => {
                &&& 0 <= tp.0 < ts@.len()
                &&& (tp.0 as int) == first_table_containing(ts@, k@)
                &&& tp.1 < ts@[tp.0 as int].addresses@.len()
                &&& ts@[tp.0 as int].addresses@[tp.1 as int]@ == k@
                &&& (tp.1 as int) == index_of_key(ts@[tp.0 as int].addresses@, k@)
            },
            None => first_table_containing(ts@, k@) == -1 && (forall|t: int|
                0 <= t < ts@.len() ==> !contains_key((#[trigger] ts@[t]).addresses@, k@)),
        },
{
    let n = ts.len();
    let mut t: usize = 0;
    while t < n
        invariant
            n == ts@.len(),
            t <= n,
            forall|a: int| 0 <= a < t ==> !contains_key((#[trigger] ts@[a]).addresses@, k@),
        decreases n - t,
    {
        match crate::keys::find_key(&ts[t].addresses, k) {
            Some(p) => {
                proof {
                    lemma_first_table_containing_at(ts@, k@, t as int);
                }
                return Some((t, p));
            },
            None => {},
        }
        t += 1;
    }
    proof {
        lemma_first_table_containing_none(ts@, k@);
    }
    None
}

/// If table `t` holds `k` and no earlier one does, `t` is the first table
/// containing `k`.
proof fn lemma_first_table_containing_at(ts: Seq<AddressLookupTableAccount>, k: Seq<u8>, t: int)
    requires
        0 <= t < ts.len(),
        contains_key(ts[t].addresses@, k),
        forall|a: int| 0 <= a < t ==> !contains_key((#[trigger] ts[a]).addresses@, k),
    ensures
        first_table_containing(ts, k) == t,
    decreases ts.len(),
{
    if t > 0 {
        lemma_first_table_containing_at(ts.drop_first(), k, t - 1);
    }
}

/// If no table holds `k`, there is no first table containing it.
proof fn lemma_first_table_containing_none(ts: Seq<AddressLookupTableAccount>, k: Seq<u8>)
    requires
        forall|a: int| 0 <= a < ts.len() ==> !contains_key((#[trigger] ts[a]).addresses@, k),
    ensures
        first_table_containing(ts, k) == -1,
    decreases ts.len(),
{
    if ts.len() > 0 {
        lemma_first_table_containing_none(ts.drop_first(), k);
    }
}

/// Derives the accumulated flags of key `k` across all instructions: listed
/// as signer anywhere, listed as writable anywhere, invoked anywhere.
fn key_flags(ixs: &Vec<Instruction>, k: &Pubkey) -> (r: (bool, bool, bool))
    ensures
        r.0 == key_signer_in(ixs@, k@),
        r.1 == key_writable_in(ixs@, k@),
        r.2 == key_invoked_in(ixs@, k@),
{
    let mut sig = false;
    let mut wr = false;
    let mut inv = false;
    let n = ixs.len();
    let mut i: usize = 0;
    while i < n
        invariant
            n == ixs@.len(),
            i <= n,
            sig == key_signer_in(ixs@.take(i as int), k@),
            wr == key_writable_in(ixs@.take(i as int), k@),
            inv == key_invoked_in(ixs@.take(i as int), k@),
        decreases n - i,
    {
        let ix = &ixs[i];
        let ghost pre = ixs@.take(i as int);
        let ghost post = ixs@.take(i + 1);
        proof {
            assert(post.drop_last() =~= pre);
            assert(post.last() == ixs@[i as int]);
        }
        if ix.program_id.eq_key(k) {
            inv = true;
        }
        proof {
            assert(inv == key_invoked_in(post, k@)) by {
                if inv {
                    if key_invoked_in(pre, k@) {
                        let w = choose|w: int|
                            0 <= w < pre.len() && (#[trigger] pre[w]).program_id@ == k@;
                        assert(post[w].program_id@ == k@);
                    } else {
                        assert(post[i as int].program_id@ == k@);
                    }
                } else {
                    if key_invoked_in(post, k@) {
                        let w = choose|w: int|
                            0 <= w < post.len() && (#[trigger] post[w]).program_id@ == k@;
                        if w < i {
                            assert(pre[w].program_id@ == k@);
                        }
                    }
                }
            }
        }
        let m = ix.accounts.len();
        let mut j: usize = 0;
        while j < m
            invariant
                n == ixs@.len(),
                i < n,
                *ix == ixs@[i as int],
                m == ix.accounts@.len(),
                j <= m,
                sig == (key_signer_in(ixs@.take(i as int), k@) || exists|jj: int|
                    0 <= jj < j && (#[trigger] ix.accounts@[jj]).pubkey@ == k@
                        && ix.accounts@[jj].is_signer),
                wr == (key_writable_in(ixs@.take(i as int), k@) || exists|jj: int|
                    0 <= jj < j && (#[trigger] ix.accounts@[jj]).pubkey@ == k@
                        && ix.accounts@[jj].is_writable),
            decreases m - j,
        {
            let am = &ix.accounts[j];
            if am.pubkey.eq_key(k) {
                if am.is_signer {
                    sig = true;
                }
                if am.is_writable {
                    wr = true;
                }
            }
            proof {
                if am.pubkey@ == k@ && am.is_signer {
                    assert(ix.accounts@[j as int].pubkey@ == k@ && ix.accounts@[j as int].is_signer);
                }
                if am.pubkey@ == k@ && am.is_writable {
                    assert(ix.accounts@[j as int].pubkey@ == k@
                        && ix.accounts@[j as int].is_writable);
                }
            }
            j += 1;
        }
        proof {
            assert(sig == key_signer_in(post, k@)) by {
                if sig {
                    if key_signer_in(pre, k@) {
                        let (w, jj) = choose|w: int, jj: int|
                            0 <= w < pre.len() && 0 <= jj < pre[w].accounts@.len() && (
                            #[trigger] pre[w].accounts@[jj]).pubkey@ == k@
                                && pre[w].accounts@[jj].is_signer;
                        assert(post[w].accounts@[jj].pubkey@ == k@ && post[w].accounts@[jj].is_signer);
                    } else {
                        let jj = choose|jj: int|
                            0 <= jj < ix.accounts@.len() && (#[trigger] ix.accounts@[jj]).pubkey@
                                == k@ && ix.accounts@[jj].is_signer;
                        assert(post[i as int].accounts@[jj].pubkey@ == k@ && post[i as int].accounts@[jj].is_signer);
                    }
                } else {
                    if key_signer_in(post, k@) {
                        let (w, jj) = choose|w: int, jj: int|
                            0 <= w < post.len() && 0 <= jj < post[w].accounts@.len() && (
                            #[trigger] post[w].accounts@[jj]).pubkey@ == k@
                                && post[w].accounts@[jj].is_signer;
                        if w < i {
                            assert(pre[w].accounts@[jj].pubkey@ == k@
                                && pre[w].accounts@[jj].is_signer);
                        } else {
                            assert(ix.accounts@[jj].pubkey@ == k@ && ix.accounts@[jj].is_signer);
                        }
                    }
                }
            }
            assert(wr == key_writable_in(post, k@)) by {
                if wr {
                    if key_writable_in(pre, k@) {
                        let (w, jj) = choose|w: int, jj: int|
                            0 <= w < pre.len() && 0 <= jj < pre[w].accounts@.len() && (
                            #[trigger] pre[w].accounts@[jj]).pubkey@ == k@
                                && pre[w].accounts@[jj].is_writable;
                        assert(post[w].accounts@[jj].pubkey@ == k@
                            && post[w].accounts@[jj].is_writable);
                    } else {
                        let jj = choose|jj: int|
                            0 <= jj < ix.accounts@.len() && (#[trigger] ix.accounts@[jj]).pubkey@
                                == k@ && ix.accounts@[jj].is_writable;
                        assert(post[i as int].accounts@[jj].pubkey@ == k@ && post[i as int].accounts@[jj].is_writable);
                    }
                } else {
                    if key_writable_in(post, k@) {
                        let (w, jj) = choose|w: int, jj: int|
                            0 <= w < post.len() && 0 <= jj < post[w].accounts@.len() && (
                            #[trigger] post[w].accounts@[jj]).pubkey@ == k@
                                && post[w].accounts@[jj].is_writable;
                        if w < i {
                            assert(pre[w].accounts@[jj].pubkey@ == k@
                                && pre[w].accounts@[jj].is_writable);
                        } else {
                            assert(ix.accounts@[jj].pubkey@ == k@ && ix.accounts@[jj].is_writable);
                        }
                    }
                }
            }
        }
        i += 1;
    }
    assert(ixs@.take(n as int) =~= ixs@);
    (sig, wr, inv)
}

/// Key `k` must sign the recompiled transaction: it is the payer or some
/// instruction lists it as a signer.
pub open spec fn or_signer(payer: Seq<u8>, ixs: Seq<Instruction>, k: Seq<u8>) -> bool {
    k == payer || key_signer_in(ixs, k)
}

/// Key `k` is writable in the recompiled transaction: it is the payer or
/// some instruction lists it as writable.
pub open spec fn or_writable(payer: Seq<u8>, ixs: Seq<Instruction>, k: Seq<u8>) -> bool {
    k == payer || key_writable_in(ixs, k)
}

/// The key views the message's lookups select, resolved through the supplied
/// address_lookup_tables (each lookup against the first table bearing its address), one
/// side at a time, in lookup order.
pub open spec fn lookups_table_sel(
    ts: Seq<AddressLookupTableAccount>,
    ls: Seq<crate::message::MessageAddressTableLookup>,
    writable: bool,
) -> Seq<Seq<u8>>
    decreases ls.len(),
{
    if ls.len() == 0 {
        Seq::empty()
    } else {
        lookups_table_sel(ts, ls.drop_last(), writable) + crate::lookup_table::selected(
            key_views(ts[first_table_by_key(ts, ls.last().account_key@)].addresses@),
            crate::lookup_table::idxs_of(ls.last(), writable),
        )
    }
}

/// The full resolved key views of a compiled message: its inline keys, then
/// the writable-loaded, then the readonly-loaded key views through `ts`.
pub open spec fn compile_resolved_views(
    ts: Seq<AddressLookupTableAccount>,
    m: crate::message::V0Message,
) -> Seq<Seq<u8>> {
    key_views(m.account_keys@) + lookups_table_sel(ts, m.address_table_lookups@, true)
        + lookups_table_sel(ts, m.address_table_lookups@, false)
}

/// A message lookup resolves within the supplied tables: its address names a
/// table and all its indices stay below that table's address count.
pub open spec fn lookup_in_tables_ok(
    ts: Seq<AddressLookupTableAccount>,
    l: crate::message::MessageAddressTableLookup,
) -> bool {
    let t = first_table_by_key(ts, l.account_key@);
    &&& 0 <= t < ts.len()
    &&& crate::lookup_table::idxs_in_bounds(key_views(ts[t].addresses@), l.writable_indexes@)
    &&& crate::lookup_table::idxs_in_bounds(key_views(ts[t].addresses@), l.readonly_indexes@)
}

/// Compiled instruction `ci` expresses `ix` against the resolved key views
/// `views`: same data, each index naming the right key, and the positional
/// flags equal to the instructions' accumulated flags for that key.
pub open spec fn compiled_ix_ok(
    views: Seq<Seq<u8>>,
    h: crate::message::MessageHeader,
    ns: int,
    nw: int,
    payer: Seq<u8>,
    ixs: Seq<Instruction>,
    ci: crate::message::CompiledInstruction,
    ix: Instruction,
) -> bool {
    &&& ci.data@ == ix.data@
    &&& ci.accounts@.len() == ix.accounts@.len()
    &&& (ci.program_id_index as int) < views.len()
    &&& views[ci.program_id_index as int] == ix.program_id@
    &&& forall|j: int|
        0 <= j < ci.accounts@.len() ==> {
            &&& ((#[trigger] ci.accounts@[j]) as int) < views.len()
            &&& views[ci.accounts@[j] as int] == ix.accounts@[j].pubkey@
            &&& position_is_signer(h, ci.accounts@[j] as int) == or_signer(
                payer,
                ixs,
                ix.accounts@[j].pubkey@,
            )
            &&& position_is_writable(h, ns, nw, ci.accounts@[j] as int) == or_writable(
                payer,
                ixs,
                ix.accounts@[j].pubkey@,
            )
        }
}

/// Nothing is assigned below table zero.
pub proof fn lemma_count_assigned_zero(d: Seq<bool>, a: Seq<usize>, j: int)
    requires
        j >= 0,
    ensures
        count_assigned(d, a, 0, j) == 0,
    decreases j,
{
    if j > 0 {
        lemma_count_assigned_zero(d, a, j - 1);
    }
}

/// Containment survives extension at the back.
pub proof fn lemma_contains_push(before: Seq<Pubkey>, after: Seq<Pubkey>, k: Seq<u8>)
    requires
        before.len() <= after.len(),
        forall|a: int| 0 <= a < before.len() ==> after[a] == before[a],
        contains_key(before, k),
    ensures
        contains_key(after, k),
{
    let w = choose|w: int| 0 <= w < before.len() && before[w]@ == k;
    assert(after[w]@ == k);
}

/// Containment survives extension at the back by any number of elements.
pub proof fn lemma_contains_push_many(before: Seq<Pubkey>, after: Seq<Pubkey>, k: Seq<u8>)
    requires
        before.len() <= after.len(),
        forall|a: int| 0 <= a < before.len() ==> after[a] == before[a],
        contains_key(before, k),
    ensures
        contains_key(after, k),
{
    let w = choose|w: int| 0 <= w < before.len() && before[w]@ == k;
    assert(after[w]@ == k);
}

/// A key contained in an appended suffix is contained in the whole.
pub proof fn lemma_contains_suffix(part: Seq<Pubkey>, whole: Seq<Pubkey>, off: int, k: Seq<u8>)
    requires
        off >= 0,
        off + part.len() <= whole.len(),
        forall|a: int| 0 <= a < part.len() ==> whole[off + a] == part[a],
        contains_key(part, k),
    ensures
        contains_key(whole, k),
{
    let w = choose|w: int| 0 <= w < part.len() && part[w]@ == k;
    assert(whole[off + w]@ == k);
}

/// Appends one collected key to a placement bucket: every bucket element is
/// some earlier collected key, so the bucket stays duplicate-free.
fn push_distinct(
    bucket: &mut Vec<Pubkey>,
    k: &Pubkey,
    Ghost(keys): Ghost<Seq<Pubkey>>,
    Ghost(idx): Ghost<int>,
)
    requires
        0 <= idx < keys.len(),
        k@ == keys[idx]@,
        forall|a: int, b: int| 0 <= a < b < keys.len() ==> keys[a]@ != keys[b]@,
        forall|a: int, b: int|
            0 <= a < b < old(bucket)@.len() ==> (old(bucket)@[a]@ != old(bucket)@[b]@),
        forall|a: int|
            0 <= a < old(bucket)@.len() ==> exists|j: int|
                0 <= j < idx && (#[trigger] old(bucket)@[a])@ == keys[j]@,
    ensures
        final(bucket)@.len() == old(bucket)@.len() + 1,
        forall|a: int| 0 <= a < old(bucket)@.len() ==> final(bucket)@[a] == old(bucket)@[a],
        final(bucket)@[old(bucket)@.len() as int]@ == keys[idx]@,
        forall|a: int, b: int|
            0 <= a < b < final(bucket)@.len() ==> (final(bucket)@[a]@ != final(bucket)@[b]@),
        forall|a: int|
            0 <= a < final(bucket)@.len() ==> exists|j: int|
                0 <= j < idx + 1 && (#[trigger] final(bucket)@[a])@ == keys[j]@,
        contains_key(final(bucket)@, k@),
        forall|kk: Seq<u8>|
            #[trigger] contains_key(final(bucket)@, kk) <==> (contains_key(old(bucket)@, kk) || kk
                == k@),
{
    let ghost before = bucket@;
    bucket.push(k.clone());
    proof {
        assert(forall|a: int| 0 <= a < before.len() ==> bucket@[a] == before[a]);
        assert(bucket@[before.len() as int]@ == keys[idx]@);
        assert forall|a: int, b: int|
            0 <= a < b < bucket@.len() implies (bucket@[a]@ != bucket@[b]@) by {
            if b == before.len() {
                let j = choose|j: int| 0 <= j < idx && (#[trigger] before[a])@ == keys[j]@;
                assert(keys[j]@ != keys[idx]@);
            }
        }
        assert forall|a: int| 0 <= a < bucket@.len() implies exists|j: int|
            0 <= j < idx + 1 && (#[trigger] bucket@[a])@ == keys[j]@ by {
            if a < before.len() {
                let j = choose|j: int| 0 <= j < idx && (#[trigger] before[a])@ == keys[j]@;
                assert(bucket@[a]@ == keys[j]@);
            } else {
                assert(bucket@[a]@ == keys[idx]@);
            }
        }
        assert forall|kk: Seq<u8>| #[trigger] contains_key(bucket@, kk) implies (contains_key(
            before,
            kk,
        ) || kk == k@) by {
            let w = choose|w: int| 0 <= w < bucket@.len() && bucket@[w]@ == kk;
            if w < before.len() {
                assert(contains_key(before, kk));
            }
        }
        assert forall|kk: Seq<u8>| (contains_key(before, kk) || kk == k@) implies contains_key(
            bucket@,
            kk,
        ) by {
            if contains_key(before, kk) {
                let w = choose|w: int| 0 <= w < before.len() && before[w]@ == kk;
                assert(bucket@[w]@ == kk);
            } else {
                assert(bucket@[before.len() as int]@ == kk);
            }
        }
    }
}

/// A key the recompiler must express through a lookup table: touched by the
/// instructions, not the payer, never listed as a signer, never invoked as a
/// program, and held by some supplied table.
pub open spec fn table_expressible(
    payer: Seq<u8>,
    ixs: Seq<Instruction>,
    ts: Seq<AddressLookupTableAccount>,
    k: Seq<u8>,
) -> bool {
    &&& key_mentioned(ixs, k)
    &&& k != payer
    &&& !key_signer_in(ixs, k)
    &&& !key_invoked_in(ixs, k)
    &&& first_table_containing(ts, k) != -1
}

/// Recompiles an instruction list into a compact versioned message.
///
/// Every key the instructions touch is placed exactly once: the payer always
/// inline and first; signing and invoked keys inline; any other key through
/// the first supplied table holding it, writable side or readonly side by
/// its accumulated flags; keys in no table inline. Inline keys are grouped
/// as writable signers, readonly signers, writable non-signers, readonly
/// non-signers, and the header carves those regions. Structural overflow of
/// the protocol's limits is a fatal compile error; no partial message is
/// returned.
#[verifier::rlimit(100)]
pub fn try_compile(
    payer: &Pubkey,
    instructions: &Vec<Instruction>,
    address_lookup_tables: &Vec<AddressLookupTableAccount>,
    recent_blockhash: crate::keys::Blockhash,
) -> (r: Result<crate::message::V0Message, Error>)
    ensures
        r matches Err(e) ==> e == Error::SolanaCompileError,
        (dedup_key_views(mention_keys(*payer, instructions@)).len() <= 255 && (forall|t: int|
            0 <= t < address_lookup_tables@.len()
                ==> (#[trigger] address_lookup_tables@[t]).addresses@.len() <= 256)) ==> r is Ok,
        r matches Ok(msg) ==> {
            &&& msg.recent_blockhash == recent_blockhash
            &&& crate::message::v0_sanitize_spec(msg) is Ok
            &&& msg.account_keys@.len() >= 1
            &&& msg.account_keys@[0]@ == payer@
            &&& msg.instructions@.len() == instructions@.len()
            &&& forall|l: int|
                0 <= l < msg.address_table_lookups@.len() ==> exists|t: int|
                    0 <= t < address_lookup_tables@.len() && (
                    #[trigger] msg.address_table_lookups@[l]).account_key@
                        == address_lookup_tables@[t].key@
            &&& (distinct_table_keys(address_lookup_tables@) ==> {
                &&& forall|l: int|
                    0 <= l < msg.address_table_lookups@.len() ==> lookup_in_tables_ok(
                        address_lookup_tables@,
                        #[trigger] msg.address_table_lookups@[l],
                    )
                &&& forall|i: int|
                    0 <= i < instructions@.len() ==> compiled_ix_ok(
                        compile_resolved_views(address_lookup_tables@, msg),
                        msg.header,
                        msg.account_keys@.len() as int,
                        lookups_table_sel(
                            address_lookup_tables@,
                            msg.address_table_lookups@,
                            true,
                        ).len() as int,
                        payer@,
                        instructions@,
                        msg.instructions@[i],
                        #[trigger] instructions@[i],
                    )
                &&& forall|k: Seq<u8>|
                    #[trigger] key_mentioned(instructions@, k) ==> compile_resolved_views(
                        address_lookup_tables@,
                        msg,
                    ).contains(k)
                &&& forall|k: Seq<u8>|
                    #[trigger] table_expressible(payer@, instructions@, address_lookup_tables@, k)
                        ==> (if key_writable_in(instructions@, k) {
                        lookups_table_sel(
                            address_lookup_tables@,
                            msg.address_table_lookups@,
                            true,
                        ).contains(k)
                    } else {
                        lookups_table_sel(
                            address_lookup_tables@,
                            msg.address_table_lookups@,
                            false,
                        ).contains(k)
                    })
                &&& forall|a: int, b: int|
                    0 <= a < b < compile_resolved_views(address_lookup_tables@, msg).len()
                        ==> compile_resolved_views(address_lookup_tables@, msg)[a]
                        != compile_resolved_views(address_lookup_tables@, msg)[b]
            })
        },
{
    let keys = collect_keys(payer, instructions);
    let nkeys = keys.len();
    proof {
        assert(key_views(keys@).len() == keys@.len());
        assert(nkeys == dedup_key_views(mention_keys(*payer, instructions@)).len());
    }
    if nkeys > 256 {
        return Err(Error::SolanaCompileError);
    }
    let ghost ixsv = instructions@;
    // Accumulated flags of each collected key.
    let mut sigs: Vec<bool> = Vec::new();
    let mut wrs: Vec<bool> = Vec::new();
    let mut invs: Vec<bool> = Vec::new();
    let mut idx: usize = 0;
    while idx < nkeys
        invariant
            nkeys == keys@.len(),
            idx <= nkeys,
            sigs@.len() == idx,
            wrs@.len() == idx,
            invs@.len() == idx,
            forall|a: int| 0 <= a < idx ==> sigs@[a] == key_signer_in(ixsv, (#[trigger] keys@[a])@),
            forall|a: int|
                0 <= a < idx ==> wrs@[a] == key_writable_in(ixsv, (#[trigger] keys@[a])@),
            forall|a: int|
                0 <= a < idx ==> invs@[a] == key_invoked_in(ixsv, (#[trigger] keys@[a])@),
            ixsv == instructions@,
        decreases nkeys - idx,
    {
        let f = key_flags(instructions, &keys[idx]);
        sigs.push(f.0);
        wrs.push(f.1);
        invs.push(f.2);
        idx += 1;
    }
    // Placement: inline buckets, or a (table, position) assignment.
    let mut ws: Vec<Pubkey> = Vec::new();
    ws.push(keys[0].clone());
    let mut rs: Vec<Pubkey> = Vec::new();
    let mut wns: Vec<Pubkey> = Vec::new();
    let mut rns: Vec<Pubkey> = Vec::new();
    let mut drained: Vec<bool> = Vec::new();
    drained.push(false);
    let mut assign_t: Vec<usize> = Vec::new();
    assign_t.push(0);
    let mut assign_pos: Vec<u8> = Vec::new();
    assign_pos.push(0);
    proof {
        assert(count_drained(drained@, 0) == 0);
        assert(count_drained(drained@, 1) == 0);
        assert(ws@[0]@ == keys@[0]@);
        assert(contains_key(ws@, keys@[0]@));
        assert(forall|a: int|
            0 <= a < ws@.len() ==> exists|j: int| 0 <= j < 1 && (#[trigger] ws@[a])@ == keys@[j]@);
    }
    let mut idx: usize = 1;
    while idx < nkeys
        invariant
            nkeys == keys@.len(),
            nkeys <= 256,
            1 <= idx <= nkeys,
            ixsv == instructions@,
            keys@[0]@ == payer@,
            forall|a: int, b: int| 0 <= a < b < keys@.len() ==> keys@[a]@ != keys@[b]@,
            sigs@.len() == nkeys,
            wrs@.len() == nkeys,
            invs@.len() == nkeys,
            forall|a: int|
                0 <= a < nkeys ==> sigs@[a] == key_signer_in(ixsv, (#[trigger] keys@[a])@),
            forall|a: int|
                0 <= a < nkeys ==> wrs@[a] == key_writable_in(ixsv, (#[trigger] keys@[a])@),
            forall|a: int|
                0 <= a < nkeys ==> invs@[a] == key_invoked_in(ixsv, (#[trigger] keys@[a])@),
            drained@.len() == idx,
            assign_t@.len() == idx,
            assign_pos@.len() == idx,
            !drained@[0],
            ws@.len() >= 1,
            ws@[0]@ == payer@,
            ws@.len() + rs@.len() + wns@.len() + rns@.len() + count_drained(drained@, idx as int)
                == idx,
            forall|a: int|
                1 <= a < ws@.len() ==> key_signer_in(ixsv, (#[trigger] ws@[a])@)
                    && key_writable_in(ixsv, ws@[a]@),
            forall|a: int|
                0 <= a < rs@.len() ==> key_signer_in(ixsv, (#[trigger] rs@[a])@)
                    && !key_writable_in(ixsv, rs@[a]@) && rs@[a]@ != payer@,
            forall|a: int|
                0 <= a < wns@.len() ==> !key_signer_in(ixsv, (#[trigger] wns@[a])@)
                    && key_writable_in(ixsv, wns@[a]@) && wns@[a]@ != payer@,
            forall|a: int|
                0 <= a < rns@.len() ==> !key_signer_in(ixsv, (#[trigger] rns@[a])@)
                    && !key_writable_in(ixsv, rns@[a]@) && rns@[a]@ != payer@,
            forall|j: int|
                0 <= j < idx && !(#[trigger] drained@[j]) ==> contains_key(ws@, keys@[j]@)
                    || contains_key(rs@, keys@[j]@) || contains_key(wns@, keys@[j]@)
                    || contains_key(rns@, keys@[j]@),
            forall|j: int|
                0 <= j < idx && (#[trigger] drained@[j]) ==> {
                    &&& (assign_t@[j] as int) < address_lookup_tables@.len()
                    &&& (assign_t@[j] as int) == first_table_containing(address_lookup_tables@, keys@[j]@)
                    &&& (assign_pos@[j] as int) < address_lookup_tables@[assign_t@[j] as int].addresses@.len()
                    &&& address_lookup_tables@[assign_t@[j] as int].addresses@[assign_pos@[j] as int]@
                        == keys@[j]@
                    &&& (assign_pos@[j] as int) == index_of_key(
                        address_lookup_tables@[assign_t@[j] as int].addresses@,
                        keys@[j]@,
                    )
                    &&& !key_signer_in(ixsv, keys@[j]@)
                    &&& !key_invoked_in(ixsv, keys@[j]@)
                    &&& wrs@[j] == key_writable_in(ixsv, keys@[j]@)
                    &&& keys@[j]@ != payer@
                },
            forall|j: int|
                1 <= j < idx && !(#[trigger] drained@[j]) ==> (sigs@[j] || invs@[j]
                    || first_table_containing(address_lookup_tables@, keys@[j]@) == -1),
            forall|a: int, b: int| 0 <= a < b < ws@.len() ==> ws@[a]@ != ws@[b]@,
            forall|a: int, b: int| 0 <= a < b < rs@.len() ==> rs@[a]@ != rs@[b]@,
            forall|a: int, b: int| 0 <= a < b < wns@.len() ==> wns@[a]@ != wns@[b]@,
            forall|a: int, b: int| 0 <= a < b < rns@.len() ==> rns@[a]@ != rns@[b]@,
            forall|a: int|
                0 <= a < ws@.len() ==> exists|j: int|
                    0 <= j < idx && (#[trigger] ws@[a])@ == keys@[j]@,
            forall|a: int|
                0 <= a < rs@.len() ==> exists|j: int|
                    0 <= j < idx && (#[trigger] rs@[a])@ == keys@[j]@,
            forall|a: int|
                0 <= a < wns@.len() ==> exists|j: int|
                    0 <= j < idx && (#[trigger] wns@[a])@ == keys@[j]@,
            forall|a: int|
                0 <= a < rns@.len() ==> exists|j: int|
                    0 <= j < idx && (#[trigger] rns@[a])@ == keys@[j]@,
            forall|a: int| 1 <= a < ws@.len() ==> (#[trigger] ws@[a])@ != payer@,
            forall|a: int|
                0 <= a < wns@.len() ==> (key_invoked_in(ixsv, (#[trigger] wns@[a])@)
                    || first_table_containing(address_lookup_tables@, wns@[a]@) == -1),
            forall|a: int|
                0 <= a < rns@.len() ==> (key_invoked_in(ixsv, (#[trigger] rns@[a])@)
                    || first_table_containing(address_lookup_tables@, rns@[a]@) == -1),
        decreases nkeys - idx,
    {
        let ghost old_drained = drained@;
        let ghost old_ws = ws@;
        let ghost old_rs = rs@;
        let ghost old_wns = wns@;
        let ghost old_rns = rns@;
        let is_static = sigs[idx] || invs[idx];
        if is_static {
            if sigs[idx] {
                if wrs[idx] {
                    push_distinct(&mut ws, &keys[idx], Ghost(keys@), Ghost(idx as int));
                    assert(ws@[old_ws.len() as int]@ != payer@);
                } else {
                    push_distinct(&mut rs, &keys[idx], Ghost(keys@), Ghost(idx as int));
                }
            } else {
                if wrs[idx] {
                    push_distinct(&mut wns, &keys[idx], Ghost(keys@), Ghost(idx as int));
                } else {
                    push_distinct(&mut rns, &keys[idx], Ghost(keys@), Ghost(idx as int));
                }
            }
            drained.push(false);
            assign_t.push(0);
            assign_pos.push(0);
        } else {
            match find_in_tables(address_lookup_tables, &keys[idx]) {
                None => {
                    if wrs[idx] {
                        push_distinct(&mut wns, &keys[idx], Ghost(keys@), Ghost(idx as int));
                    } else {
                        push_distinct(&mut rns, &keys[idx], Ghost(keys@), Ghost(idx as int));
                    }
                    drained.push(false);
                    assign_t.push(0);
                    assign_pos.push(0);
                },
                Some((t, p)) => {
                    if p > 255 {
                        proof {
                            assert(p < address_lookup_tables@[t as int].addresses@.len());
                            assert(0 <= t < address_lookup_tables@.len());
                            if forall|tt: int|
                                0 <= tt < address_lookup_tables@.len() ==> (
                                #[trigger] address_lookup_tables@[tt]).addresses@.len() <= 256 {
                                assert(address_lookup_tables@[t as int].addresses@.len() <= 256);
                                assert(false);
                            }
                        }
                        return Err(Error::SolanaCompileError);
                    }
                    drained.push(true);
                    assign_t.push(t);
                    assign_pos.push(p as u8);
                },
            }
        }
        proof {
            lemma_count_same_prefix(
                old_drained,
                assign_t@,
                drained@,
                assign_t@,
                0,
                idx as int,
            );
            assert(count_drained(drained@, idx + 1) == count_drained(old_drained, idx as int) + (
            if drained@[idx as int] {
                1int
            } else {
                0int
            }));
            assert(forall|j: int| 0 <= j < idx ==> old_drained[j] == drained@[j]);
            assert forall|j: int|
                0 <= j < idx + 1 && !(#[trigger] drained@[j]) implies contains_key(ws@, keys@[j]@)
                || contains_key(rs@, keys@[j]@) || contains_key(wns@, keys@[j]@) || contains_key(
                rns@,
                keys@[j]@,
            ) by {
                if j < idx {
                    if contains_key(old_ws, keys@[j]@) {
                        lemma_contains_push(old_ws, ws@, keys@[j]@);
                    } else if contains_key(old_rs, keys@[j]@) {
                        lemma_contains_push(old_rs, rs@, keys@[j]@);
                    } else if contains_key(old_wns, keys@[j]@) {
                        lemma_contains_push(old_wns, wns@, keys@[j]@);
                    } else if contains_key(old_rns, keys@[j]@) {
                        lemma_contains_push(old_rns, rns@, keys@[j]@);
                    }
                }
            }
        }
        idx += 1;
    }
    // Header counts from the inline groups.
    let n_ws = ws.len();
    let n_rs = rs.len();
    let n_wns = wns.len();
    let n_rns = rns.len();
    proof {
        lemma_count_assigned_le(drained@, assign_t@, 0, nkeys as int);
        assert(count_drained(drained@, nkeys as int) >= 0);
        assert(n_ws + n_rs + n_wns + n_rns <= nkeys);
    }
    if n_ws + n_rs > 255 || n_rns > 255 {
        proof {
            if dedup_key_views(mention_keys(*payer, instructions@)).len() <= 255 {
                assert(nkeys <= 255);
                assert(false);
            }
        }
        return Err(Error::SolanaCompileError);
    }
    let header = crate::message::MessageHeader {
        num_required_signatures: (n_ws + n_rs) as u8,
        num_readonly_signed_accounts: n_rs as u8,
        num_readonly_unsigned_accounts: n_rns as u8,
    };
    // One lookup per table that received keys, in table order.
    let ntab = address_lookup_tables.len();
    let mut lookups: Vec<crate::message::MessageAddressTableLookup> = Vec::new();
    let mut w_all: Vec<Pubkey> = Vec::new();
    let mut r_all: Vec<Pubkey> = Vec::new();
    let ghost mut w_src: Seq<int> = Seq::empty();
    let ghost mut r_src: Seq<int> = Seq::empty();
    proof {
        lemma_count_assigned_zero(drained@, assign_t@, nkeys as int);
    }
    let mut t: usize = 0;
    while t < ntab
        invariant
            ntab == address_lookup_tables@.len(),
            nkeys == keys@.len(),
            1 <= nkeys <= 256,
            t <= ntab,
            ixsv == instructions@,
            keys@[0]@ == payer@,
            drained@.len() == nkeys,
            assign_t@.len() == nkeys,
            assign_pos@.len() == nkeys,
            !drained@[0],
            forall|j: int|
                0 <= j < nkeys && (#[trigger] drained@[j]) ==> {
                    &&& (assign_t@[j] as int) < address_lookup_tables@.len()
                    &&& (assign_t@[j] as int) == first_table_containing(address_lookup_tables@, keys@[j]@)
                    &&& (assign_pos@[j] as int) < address_lookup_tables@[assign_t@[j] as int].addresses@.len()
                    &&& address_lookup_tables@[assign_t@[j] as int].addresses@[assign_pos@[j] as int]@
                        == keys@[j]@
                    &&& !key_signer_in(ixsv, keys@[j]@)
                    &&& !key_invoked_in(ixsv, keys@[j]@)
                    &&& wrs@[j] == key_writable_in(ixsv, keys@[j]@)
                    &&& keys@[j]@ != payer@
                },
            wrs@.len() == nkeys,
            forall|a: int, b: int| 0 <= a < b < keys@.len() ==> keys@[a]@ != keys@[b]@,
            w_src.len() == w_all@.len(),
            r_src.len() == r_all@.len(),
            forall|a: int|
                0 <= a < w_src.len() ==> 1 <= #[trigger] w_src[a] < nkeys && drained@[w_src[a]]
                    && wrs@[w_src[a]] && (assign_t@[w_src[a]] as int) < t && w_all@[a]@
                    == keys@[w_src[a]]@,
            forall|a: int|
                0 <= a < r_src.len() ==> 1 <= #[trigger] r_src[a] < nkeys && drained@[r_src[a]]
                    && !wrs@[r_src[a]] && (assign_t@[r_src[a]] as int) < t && r_all@[a]@
                    == keys@[r_src[a]]@,
            forall|a: int, b: int| 0 <= a < b < w_src.len() ==> w_src[a] != w_src[b],
            forall|a: int, b: int| 0 <= a < b < r_src.len() ==> r_src[a] != r_src[b],
            w_all@.len() + r_all@.len() == count_assigned(
                drained@,
                assign_t@,
                t as int,
                nkeys as int,
            ),
            forall|a: int|
                0 <= a < w_all@.len() ==> !key_signer_in(ixsv, (#[trigger] w_all@[a])@)
                    && key_writable_in(ixsv, w_all@[a]@) && w_all@[a]@ != payer@,
            forall|a: int|
                0 <= a < r_all@.len() ==> !key_signer_in(ixsv, (#[trigger] r_all@[a])@)
                    && !key_writable_in(ixsv, r_all@[a]@) && r_all@[a]@ != payer@,
            forall|j: int|
                0 <= j < nkeys && (#[trigger] drained@[j]) && (assign_t@[j] as int) < t ==> ((
                wrs@[j] ==> contains_key(w_all@, keys@[j]@)) && (!wrs@[j] ==> contains_key(
                    r_all@,
                    keys@[j]@,
                ))),
            forall|l: int|
                0 <= l < lookups@.len() ==> crate::message::lookup_key_count(
                    #[trigger] lookups@[l],
                ) >= 1,
            forall|l: int|
                0 <= l < lookups@.len() ==> exists|tt: int|
                    0 <= tt < address_lookup_tables@.len() && (#[trigger] lookups@[l]).account_key@
                        == address_lookup_tables@[tt].key@,
            crate::message::total_lookup_count(lookups@) == w_all@.len() + r_all@.len(),
            distinct_table_keys(address_lookup_tables@) ==> {
                &&& lookups_table_sel(address_lookup_tables@, lookups@, true) == key_views(w_all@)
                &&& lookups_table_sel(address_lookup_tables@, lookups@, false) == key_views(r_all@)
                &&& forall|l: int|
                    0 <= l < lookups@.len() ==> lookup_in_tables_ok(
                        address_lookup_tables@,
                        #[trigger] lookups@[l],
                    )
            },
        decreases ntab - t,
    {
        let mut w_idx: Vec<u8> = Vec::new();
        let mut r_idx: Vec<u8> = Vec::new();
        let mut wk: Vec<Pubkey> = Vec::new();
        let mut rk: Vec<Pubkey> = Vec::new();
        let ghost mut wk_src: Seq<int> = Seq::empty();
        let ghost mut rk_src: Seq<int> = Seq::empty();
        proof {
            assert(count_assigned_at(drained@, assign_t@, t as int, 0) == 0);
            assert(count_assigned_at(drained@, assign_t@, t as int, 1) == 0);
        }
        let mut j: usize = 1;
        while j < nkeys
            invariant
                ntab == address_lookup_tables@.len(),
                nkeys == keys@.len(),
                t < ntab,
                1 <= j <= nkeys,
                ixsv == instructions@,
                keys@[0]@ == payer@,
                drained@.len() == nkeys,
                assign_t@.len() == nkeys,
                assign_pos@.len() == nkeys,
                !drained@[0],
                forall|jj: int|
                    0 <= jj < nkeys && (#[trigger] drained@[jj]) ==> {
                        &&& (assign_t@[jj] as int) < address_lookup_tables@.len()
                        &&& (assign_pos@[jj] as int) < address_lookup_tables@[assign_t@[jj] as int].addresses@.len()
                        &&& address_lookup_tables@[assign_t@[jj] as int].addresses@[assign_pos@[jj] as int]@
                            == keys@[jj]@
                        &&& !key_signer_in(ixsv, keys@[jj]@)
                        &&& wrs@[jj] == key_writable_in(ixsv, keys@[jj]@)
                        &&& keys@[jj]@ != payer@
                    },
                wrs@.len() == nkeys,
                forall|a: int, b: int| 0 <= a < b < keys@.len() ==> keys@[a]@ != keys@[b]@,
                w_idx@.len() == wk@.len(),
                r_idx@.len() == rk@.len(),
                wk_src.len() == wk@.len(),
                rk_src.len() == rk@.len(),
                forall|a: int|
                    0 <= a < wk_src.len() ==> 1 <= #[trigger] wk_src[a] < j && drained@[wk_src[a]]
                        && wrs@[wk_src[a]] && (assign_t@[wk_src[a]] as int) == t && wk@[a]@
                        == keys@[wk_src[a]]@,
                forall|a: int|
                    0 <= a < rk_src.len() ==> 1 <= #[trigger] rk_src[a] < j && drained@[rk_src[a]]
                        && !wrs@[rk_src[a]] && (assign_t@[rk_src[a]] as int) == t && rk@[a]@
                        == keys@[rk_src[a]]@,
                forall|a: int, b: int| 0 <= a < b < wk_src.len() ==> wk_src[a] < wk_src[b],
                forall|a: int, b: int| 0 <= a < b < rk_src.len() ==> rk_src[a] < rk_src[b],
                wk@.len() + rk@.len() == count_assigned_at(drained@, assign_t@, t as int, j as int),
                forall|a: int|
                    0 <= a < wk@.len() ==> ((#[trigger] w_idx@[a]) as int) < address_lookup_tables@[
                        t as int
                    ].addresses@.len() && address_lookup_tables@[t as int].addresses@[w_idx@[a] as int]@
                        == wk@[a]@,
                forall|a: int|
                    0 <= a < rk@.len() ==> ((#[trigger] r_idx@[a]) as int) < address_lookup_tables@[
                        t as int
                    ].addresses@.len() && address_lookup_tables@[t as int].addresses@[r_idx@[a] as int]@
                        == rk@[a]@,
                forall|a: int|
                    0 <= a < wk@.len() ==> !key_signer_in(ixsv, (#[trigger] wk@[a])@)
                        && key_writable_in(ixsv, wk@[a]@) && wk@[a]@ != payer@,
                forall|a: int|
                    0 <= a < rk@.len() ==> !key_signer_in(ixsv, (#[trigger] rk@[a])@)
                        && !key_writable_in(ixsv, rk@[a]@) && rk@[a]@ != payer@,
                forall|jj: int|
                    1 <= jj < j && (#[trigger] drained@[jj]) && (assign_t@[jj] as int) == t ==> ((
                    wrs@[jj] ==> contains_key(wk@, keys@[jj]@)) && (!wrs@[jj] ==> contains_key(
                        rk@,
                        keys@[jj]@,
                    ))),
            decreases nkeys - j,
        {
            let ghost old_wk = wk@;
            let ghost old_rk = rk@;
            if drained[j] && assign_t[j] == t {
                if wrs[j] {
                    w_idx.push(assign_pos[j]);
                    wk.push(keys[j].clone());
                    proof {
                        wk_src = wk_src.push(j as int);
                    }
                    assert(wk@[old_wk.len() as int]@ == keys@[j as int]@);
                    assert(contains_key(wk@, keys@[j as int]@));
                } else {
                    r_idx.push(assign_pos[j]);
                    rk.push(keys[j].clone());
                    proof {
                        rk_src = rk_src.push(j as int);
                    }
                    assert(rk@[old_rk.len() as int]@ == keys@[j as int]@);
                    assert(contains_key(rk@, keys@[j as int]@));
                }
            }
            proof {
                assert forall|jj: int|
                    1 <= jj < j + 1 && (#[trigger] drained@[jj]) && (assign_t@[jj] as int)
                        == t implies ((wrs@[jj] ==> contains_key(wk@, keys@[jj]@)) && (!wrs@[jj]
                    ==> contains_key(rk@, keys@[jj]@))) by {
                    if jj < j {
                        if wrs@[jj] && contains_key(old_wk, keys@[jj]@) {
                            lemma_contains_push(old_wk, wk@, keys@[jj]@);
                        }
                        if !wrs@[jj] && contains_key(old_rk, keys@[jj]@) {
                            lemma_contains_push(old_rk, rk@, keys@[jj]@);
                        }
                    }
                }
            }
            j += 1;
        }
        if w_idx.len() > 0 || r_idx.len() > 0 {
            let ghost old_lookups = lookups@;
            let ghost old_w_all = w_all@;
            let ghost old_r_all = r_all@;
            let ghost wkv = wk@;
            let ghost rkv = rk@;
            let ghost wk_srcv = wk_src;
            let ghost rk_srcv = rk_src;
            let l = crate::message::MessageAddressTableLookup {
                account_key: address_lookup_tables[t].key.clone(),
                writable_indexes: w_idx,
                readonly_indexes: r_idx,
            };
            lookups.push(l);
            w_all.append(&mut wk);
            r_all.append(&mut rk);
            proof {
                w_src = w_src + wk_srcv;
                r_src = r_src + rk_srcv;
                assert(lookups@.drop_last() =~= old_lookups);
                assert(lookups@.last() == lookups@[old_lookups.len() as int]);
                if distinct_table_keys(address_lookup_tables@) {
                    lemma_first_table_by_key(address_lookup_tables@, t as int);
                    assert(first_table_by_key(address_lookup_tables@, lookups@.last().account_key@)
                        == t as int);
                    assert(lookups_table_sel(address_lookup_tables@, lookups@, true) =~= key_views(w_all@)) by {
                        assert(crate::lookup_table::selected(
                            key_views(address_lookup_tables@[t as int].addresses@),
                            crate::lookup_table::idxs_of(lookups@.last(), true),
                        ) =~= key_views(wkv));
                    }
                    assert(lookups_table_sel(address_lookup_tables@, lookups@, false) =~= key_views(r_all@)) by {
                        assert(crate::lookup_table::selected(
                            key_views(address_lookup_tables@[t as int].addresses@),
                            crate::lookup_table::idxs_of(lookups@.last(), false),
                        ) =~= key_views(rkv));
                    }
                    assert(lookup_in_tables_ok(address_lookup_tables@, lookups@.last())) by {
                        assert forall|a: int|
                            0 <= a < lookups@.last().writable_indexes@.len() implies (
                        (#[trigger] lookups@.last().writable_indexes@[a]) as int) < key_views(
                            address_lookup_tables@[t as int].addresses@,
                        ).len() by {}
                    }
                }
                assert(crate::message::total_lookup_count(lookups@) == w_all@.len()
                    + r_all@.len());
                assert(forall|a: int|
                    0 <= a < old_w_all.len() ==> #[trigger] w_all@[a] == old_w_all[a]);
                assert(forall|a: int|
                    0 <= a < old_r_all.len() ==> #[trigger] r_all@[a] == old_r_all[a]);
                assert(forall|a: int|
                    old_w_all.len() <= a < w_all@.len() ==> #[trigger] w_all@[a] == wkv[a - old_w_all.len()]);
                assert(forall|a: int|
                    old_r_all.len() <= a < r_all@.len() ==> #[trigger] r_all@[a] == rkv[a - old_r_all.len()]);
                assert forall|jj: int|
                    0 <= jj < nkeys && (#[trigger] drained@[jj]) && (assign_t@[jj] as int) < t
                        + 1 implies ((wrs@[jj] ==> contains_key(w_all@, keys@[jj]@)) && (!wrs@[jj]
                    ==> contains_key(r_all@, keys@[jj]@))) by {
                    if (assign_t@[jj] as int) < t {
                        if wrs@[jj] && contains_key(old_w_all, keys@[jj]@) {
                            lemma_contains_push_many(old_w_all, w_all@, keys@[jj]@);
                        }
                        if !wrs@[jj] && contains_key(old_r_all, keys@[jj]@) {
                            lemma_contains_push_many(old_r_all, r_all@, keys@[jj]@);
                        }
                    } else {
                        if wrs@[jj] && contains_key(wkv, keys@[jj]@) {
                            lemma_contains_suffix(wkv, w_all@, old_w_all.len() as int, keys@[jj]@);
                        }
                        if !wrs@[jj] && contains_key(rkv, keys@[jj]@) {
                            lemma_contains_suffix(rkv, r_all@, old_r_all.len() as int, keys@[jj]@);
                        }
                    }
                }
                lemma_count_assigned_step(drained@, assign_t@, t as int, nkeys as int);
            }
        } else {
            proof {
                assert(wk@.len() + rk@.len() == 0);
                lemma_count_assigned_step(drained@, assign_t@, t as int, nkeys as int);
                assert forall|jj: int|
                    0 <= jj < nkeys && (#[trigger] drained@[jj]) && (assign_t@[jj] as int) < t
                        + 1 implies ((wrs@[jj] ==> contains_key(w_all@, keys@[jj]@)) && (!wrs@[jj]
                    ==> contains_key(r_all@, keys@[jj]@))) by {
                    if (assign_t@[jj] as int) == t {
                        if wrs@[jj] {
                            assert(contains_key(wk@, keys@[jj]@));
                        } else {
                            assert(contains_key(rk@, keys@[jj]@));
                        }
                        assert(false);
                    }
                }
            }
        }
        t += 1;
    }
    let n_w_all = w_all.len();
    let n_r_all = r_all.len();
    proof {
        lemma_count_assigned_le(drained@, assign_t@, ntab as int, nkeys as int);
        lemma_count_same_prefix(
            drained@,
            assign_t@,
            drained@,
            assign_t@,
            0,
            nkeys as int,
        );
    }
    // The full resolved key list, inline regions first, then loaded keys.
    let ghost wsv = ws@;
    let ghost rsv = rs@;
    let ghost wnsv = wns@;
    let ghost rnsv = rns@;
    let ghost w_allv = w_all@;
    let ghost r_allv = r_all@;
    let mut static_keys: Vec<Pubkey> = ws;
    static_keys.append(&mut rs);
    static_keys.append(&mut wns);
    static_keys.append(&mut rns);
    let ns = static_keys.len();
    let mut resolved: Vec<Pubkey> = Vec::new();
    let mut i: usize = 0;
    while i < ns
        invariant
            ns == static_keys@.len(),
            i <= ns,
            resolved@.len() == i,
            forall|a: int| 0 <= a < i ==> (#[trigger] resolved@[a])@ == static_keys@[a]@,
        decreases ns - i,
    {
        resolved.push(static_keys[i].clone());
        i += 1;
    }
    proof {
        assert(static_keys@ =~= wsv + rsv + wnsv + rnsv);
    }
    resolved.append(&mut w_all);
    resolved.append(&mut r_all);
    proof {
        assert(resolved@.len() == ns + w_allv.len() + r_allv.len());
        assert(ns == wsv.len() + rsv.len() + wnsv.len() + rnsv.len());
        assert(w_allv.len() + r_allv.len() <= count_drained(drained@, nkeys as int));
        assert(resolved@.len() <= nkeys);
    }
    proof {
        assert forall|jj: int| 0 <= jj < keys@.len() implies contains_key(
            resolved@,
            (#[trigger] keys@[jj])@,
        ) by {
            if drained@[jj] {
                assert(contains_key(w_allv, keys@[jj]@) || contains_key(r_allv, keys@[jj]@));
                if contains_key(w_allv, keys@[jj]@) {
                    let w = choose|w: int| 0 <= w < w_allv.len() && w_allv[w]@ == keys@[jj]@;
                    assert(resolved@[ns + w]@ == keys@[jj]@);
                } else {
                    let w = choose|w: int| 0 <= w < r_allv.len() && r_allv[w]@ == keys@[jj]@;
                    assert(resolved@[ns + w_allv.len() + w]@ == keys@[jj]@);
                }
            } else {
                if contains_key(wsv, keys@[jj]@) {
                    let w = choose|w: int| 0 <= w < wsv.len() && wsv[w]@ == keys@[jj]@;
                    assert(static_keys@[w]@ == keys@[jj]@);
                    assert(resolved@[w]@ == keys@[jj]@);
                } else if contains_key(rsv, keys@[jj]@) {
                    let w = choose|w: int| 0 <= w < rsv.len() && rsv[w]@ == keys@[jj]@;
                    assert(static_keys@[wsv.len() + w]@ == keys@[jj]@);
                    assert(resolved@[wsv.len() + w]@ == keys@[jj]@);
                } else if contains_key(wnsv, keys@[jj]@) {
                    let w = choose|w: int| 0 <= w < wnsv.len() && wnsv[w]@ == keys@[jj]@;
                    assert(static_keys@[wsv.len() + rsv.len() + w]@ == keys@[jj]@);
                    assert(resolved@[wsv.len() + rsv.len() + w]@ == keys@[jj]@);
                } else {
                    let w = choose|w: int| 0 <= w < rnsv.len() && rnsv[w]@ == keys@[jj]@;
                    assert(static_keys@[wsv.len() + rsv.len() + wnsv.len() + w]@ == keys@[jj]@);
                    assert(resolved@[wsv.len() + rsv.len() + wnsv.len() + w]@ == keys@[jj]@);
                }
            }
        }
    }
    if resolved.len() > 256 {
        proof {
            if dedup_key_views(mention_keys(*payer, instructions@)).len() <= 255 {
                assert(nkeys <= 255);
                assert(false);
            }
        }
        return Err(Error::SolanaCompileError);
    }
    let total = resolved.len();
    proof {
        assert(total == ns + n_w_all + n_r_all);
    }
    // Positional flags of every resolved position match the accumulated
    // flags of the key standing there.
    proof {
        assert forall|p: int| 0 <= p < resolved@.len() implies (position_is_signer(header, p)
            == or_signer(payer@, ixsv, (#[trigger] resolved@[p])@)) && (position_is_writable(
            header,
            ns as int,
            n_w_all as int,
            p,
        ) == or_writable(payer@, ixsv, resolved@[p]@)) by {
            if p == 0 {
                assert(resolved@[0]@ == payer@);
            }
        }
    }
    // Compact instructions: every index found in the resolved list.
    let mut cis: Vec<crate::message::CompiledInstruction> = Vec::new();
    let nix = instructions.len();
    let mut i: usize = 0;
    while i < nix
        invariant
            nix == instructions@.len(),
            ixsv == instructions@,
            total == resolved@.len(),
            total <= 256,
            cis@.len() == i,
            i <= nix,
            forall|k: Seq<u8>|
                #[trigger] contains_key(keys@, k) <==> (k == payer@ || key_mentioned(ixsv, k)),
            forall|j: int|
                0 <= j < keys@.len() ==> contains_key(resolved@, (#[trigger] keys@[j])@),
            forall|p: int|
                0 <= p < resolved@.len() ==> (position_is_signer(header, p) == or_signer(
                    payer@,
                    ixsv,
                    (#[trigger] resolved@[p])@,
                )) && (position_is_writable(header, ns as int, n_w_all as int, p) == or_writable(
                    payer@,
                    ixsv,
                    resolved@[p]@,
                )),
            forall|a: int|
                0 <= a < i ==> compiled_ix_ok(
                    key_views(resolved@),
                    header,
                    ns as int,
                    n_w_all as int,
                    payer@,
                    ixsv,
                    #[trigger] cis@[a],
                    instructions@[a],
                ),
        decreases nix - i,
    {
        let ix = &instructions[i];
        proof {
            assert(key_invoked_in(ixsv, ix.program_id@)) by {
                assert(ixsv[i as int].program_id@ == ix.program_id@);
            }
            assert(contains_key(keys@, ix.program_id@));
        }
        let p = position_in_resolved(&resolved, &ix.program_id);
        let mut idxs: Vec<u8> = Vec::new();
        let m = ix.accounts.len();
        let mut j: usize = 0;
        while j < m
            invariant
                nix == instructions@.len(),
                ixsv == instructions@,
                i < nix,
                *ix == instructions@[i as int],
                m == ix.accounts@.len(),
                j <= m,
                total == resolved@.len(),
                total <= 256,
                idxs@.len() == j,
                forall|k: Seq<u8>|
                    #[trigger] contains_key(keys@, k) <==> (k == payer@ || key_mentioned(ixsv, k)),
                forall|jj: int|
                    0 <= jj < keys@.len() ==> contains_key(resolved@, (#[trigger] keys@[jj])@),
                forall|a: int|
                    0 <= a < j ==> ((#[trigger] idxs@[a]) as int) < resolved@.len() && resolved@[
                        idxs@[a] as int
                    ]@ == ix.accounts@[a].pubkey@,
            decreases m - j,
        {
            proof {
                assert(key_account_in(ixsv, ix.accounts@[j as int].pubkey@)) by {
                    assert(ixsv[i as int].accounts@[j as int].pubkey@ == ix.accounts@[
                        j as int
                    ].pubkey@);
                }
                assert(contains_key(keys@, ix.accounts@[j as int].pubkey@));
            }
            let q = position_in_resolved(&resolved, &ix.accounts[j].pubkey);
            idxs.push(q as u8);
            j += 1;
        }
        let ci = crate::message::CompiledInstruction {
            program_id_index: p as u8,
            accounts: idxs,
            data: ix.data.clone(),
        };
        assert(ci.data@ =~= ix.data@);
        assert(compiled_ix_ok(
            key_views(resolved@),
            header,
            ns as int,
            n_w_all as int,
            payer@,
            ixsv,
            ci,
            instructions@[i as int],
        ));
        cis.push(ci);
        i += 1;
    }
    let msg = crate::message::V0Message {
        header,
        account_keys: static_keys,
        recent_blockhash,
        instructions: cis,
        address_table_lookups: lookups,
    };
    proof {
        assert(crate::message::v0_sanitize_spec(msg) is Ok) by {
            assert(msg.account_keys@.len() + crate::message::total_lookup_count(
                msg.address_table_lookups@,
            ) == total);
            assert(crate::message::lookups_nonempty(msg.address_table_lookups@));
            assert(crate::message::instructions_indexes_ok(msg.instructions@, total as int));
        }
        if distinct_table_keys(address_lookup_tables@) {
            assert(compile_resolved_views(address_lookup_tables@, msg) =~= key_views(resolved@));
            assert(lookups_table_sel(address_lookup_tables@, msg.address_table_lookups@, true).len()
                == n_w_all as int);
            let rv = resolved@;
            let views = compile_resolved_views(address_lookup_tables@, msg);
            assert(views == key_views(rv));
            assert(key_views(rv).len() == rv.len());
            // every touched key stands in the resolved key space
            assert forall|k: Seq<u8>| #[trigger] key_mentioned(instructions@, k) implies views.contains(
                k,
            ) by {
                assert(contains_key(keys@, k));
                let j = choose|j: int| 0 <= j < keys@.len() && keys@[j]@ == k;
                assert(contains_key(rv, keys@[j]@));
                let w = choose|w: int| 0 <= w < rv.len() && rv[w]@ == k;
                assert(key_views(rv)[w] == k);
            }
            // every table-expressible key is expressed through a lookup
            assert forall|k: Seq<u8>|
                #[trigger] table_expressible(
                    payer@,
                    instructions@,
                    address_lookup_tables@,
                    k,
                ) implies (if key_writable_in(instructions@, k) {
                lookups_table_sel(
                    address_lookup_tables@,
                    msg.address_table_lookups@,
                    true,
                ).contains(k)
            } else {
                lookups_table_sel(
                    address_lookup_tables@,
                    msg.address_table_lookups@,
                    false,
                ).contains(k)
            }) by {
                assert(contains_key(keys@, k));
                let j = choose|j: int| 0 <= j < keys@.len() && keys@[j]@ == k;
                if j == 0 {
                    assert(k == payer@);
                    assert(false);
                }
                assert(sigs@[j] == key_signer_in(ixsv, k));
                assert(invs@[j] == key_invoked_in(ixsv, k));
                assert(drained@[j]) by {
                    if !drained@[j] {
                        assert(sigs@[j] || invs@[j] || first_table_containing(
                            address_lookup_tables@,
                            keys@[j]@,
                        ) == -1);
                        assert(false);
                    }
                }
                assert((assign_t@[j] as int) < ntab);
                assert(wrs@[j] == key_writable_in(ixsv, k));
                if wrs@[j] {
                    assert(contains_key(w_allv, keys@[j]@));
                    let w = choose|w: int| 0 <= w < w_allv.len() && w_allv[w]@ == k;
                    assert(key_views(w_allv)[w] == k);
                    assert(lookups_table_sel(
                        address_lookup_tables@,
                        msg.address_table_lookups@,
                        true,
                    ) == key_views(w_allv));
                } else {
                    assert(contains_key(r_allv, keys@[j]@));
                    let w = choose|w: int| 0 <= w < r_allv.len() && r_allv[w]@ == k;
                    assert(key_views(r_allv)[w] == k);
                    assert(lookups_table_sel(
                        address_lookup_tables@,
                        msg.address_table_lookups@,
                        false,
                    ) == key_views(r_allv));
                }
            }
            // the resolved key space holds each key exactly once
            assert(forall|x: int| 0 <= x < ns ==> (#[trigger] rv[x])@ == static_keys@[x]@);
            assert(forall|x: int|
                0 <= x < w_allv.len() ==> (#[trigger] rv[ns + x])@ == w_allv[x]@);
            assert(forall|x: int|
                0 <= x < r_allv.len() ==> (#[trigger] rv[ns + w_allv.len() + x])@ == r_allv[x]@);
            assert(ns == wsv.len() + rsv.len() + wnsv.len() + rnsv.len());
            assert(rv.len() == ns + w_allv.len() + r_allv.len());
            assert forall|a: int|
                0 <= a < w_allv.len() implies !key_invoked_in(ixsv, (#[trigger] w_allv[a])@)
                && first_table_containing(address_lookup_tables@, w_allv[a]@) != -1
                && !key_signer_in(ixsv, w_allv[a]@) && key_writable_in(ixsv, w_allv[a]@)
                && w_allv[a]@ != payer@ by {
                assert(w_allv[a]@ == keys@[w_src[a]]@);
                assert(drained@[w_src[a]]);
            }
            assert forall|a: int|
                0 <= a < r_allv.len() implies !key_invoked_in(ixsv, (#[trigger] r_allv[a])@)
                && first_table_containing(address_lookup_tables@, r_allv[a]@) != -1
                && !key_signer_in(ixsv, r_allv[a]@) && !key_writable_in(ixsv, r_allv[a]@)
                && r_allv[a]@ != payer@ by {
                assert(r_allv[a]@ == keys@[r_src[a]]@);
                assert(drained@[r_src[a]]);
            }
            assert forall|a: int, b: int|
                0 <= a < b < w_allv.len() implies w_allv[a]@ != w_allv[b]@ by {
                assert(w_allv[a]@ == keys@[w_src[a]]@);
                assert(w_allv[b]@ == keys@[w_src[b]]@);
                assert(w_src[a] != w_src[b]);
            }
            assert forall|a: int, b: int|
                0 <= a < b < r_allv.len() implies r_allv[a]@ != r_allv[b]@ by {
                assert(r_allv[a]@ == keys@[r_src[a]]@);
                assert(r_allv[b]@ == keys@[r_src[b]]@);
                assert(r_src[a] != r_src[b]);
            }
            assert forall|p: int, q: int| 0 <= p < q < rv.len() implies rv[p]@ != rv[q]@ by {
                assert(forall|x: int|
                    0 <= x < ns ==> (#[trigger] static_keys@[x]) == (wsv + rsv + wnsv + rnsv)[x]);
            }
            assert forall|a: int, b: int| 0 <= a < b < views.len() implies views[a] != views[b] by {
                assert(views[a] == rv[a]@);
                assert(views[b] == rv[b]@);
            }
        }
    }
    Ok(msg)
}

/// Recompiles instructions into a transaction around a compact versioned
/// message, ready for client-side signing and submission.
///
/// The message carries the given blockhash; the payer is always its first
/// inline key. Failure to fit the protocol's structural limits is a fatal
/// compile error.
pub fn create_tx_with_address_table_lookup(
    instructions: &Vec<Instruction>,
    address_lookup_tables: &Vec<AddressLookupTableAccount>,
    recent_blockhash: crate::keys::Blockhash,
    payer: &Pubkey,
) -> (r: Result<crate::message::VersionedTransaction, Error>)
    ensures
        r matches Err(e) ==> e == Error::SolanaCompileError,
        (dedup_key_views(mention_keys(*payer, instructions@)).len() <= 255 && (forall|t: int|
            0 <= t < address_lookup_tables@.len()
                ==> (#[trigger] address_lookup_tables@[t]).addresses@.len() <= 256)) ==> r is Ok,
        r matches Ok(tx) ==> tx.message matches crate::message::VersionedMessage::V0(msg) && {
            &&& msg.recent_blockhash == recent_blockhash
            &&& crate::message::v0_sanitize_spec(msg) is Ok
            &&& msg.account_keys@.len() >= 1
            &&& msg.account_keys@[0]@ == payer@
            &&& msg.instructions@.len() == instructions@.len()
            &&& forall|l: int|
                0 <= l < msg.address_table_lookups@.len() ==> exists|t: int|
                    0 <= t < address_lookup_tables@.len() && (
                    #[trigger] msg.address_table_lookups@[l]).account_key@
                        == address_lookup_tables@[t].key@
            &&& (distinct_table_keys(address_lookup_tables@) ==> {
                &&& forall|l: int|
                    0 <= l < msg.address_table_lookups@.len() ==> lookup_in_tables_ok(
                        address_lookup_tables@,
                        #[trigger] msg.address_table_lookups@[l],
                    )
                &&& forall|i: int|
                    0 <= i < instructions@.len() ==> compiled_ix_ok(
                        compile_resolved_views(address_lookup_tables@, msg),
                        msg.header,
                        msg.account_keys@.len() as int,
                        lookups_table_sel(
                            address_lookup_tables@,
                            msg.address_table_lookups@,
                            true,
                        ).len() as int,
                        payer@,
                        instructions@,
                        msg.instructions@[i],
                        #[trigger] instructions@[i],
                    )
                &&& forall|k: Seq<u8>|
                    #[trigger] key_mentioned(instructions@, k) ==> compile_resolved_views(
                        address_lookup_tables@,
                        msg,
                    ).contains(k)
                &&& forall|k: Seq<u8>|
                    #[trigger] table_expressible(payer@, instructions@, address_lookup_tables@, k)
                        ==> (if key_writable_in(instructions@, k) {
                        lookups_table_sel(
                            address_lookup_tables@,
                            msg.address_table_lookups@,
                            true,
                        ).contains(k)
                    } else {
                        lookups_table_sel(
                            address_lookup_tables@,
                            msg.address_table_lookups@,
                            false,
                        ).contains(k)
                    })
                &&& forall|a: int, b: int|
                    0 <= a < b < compile_resolved_views(address_lookup_tables@, msg).len()
                        ==> compile_resolved_views(address_lookup_tables@, msg)[a]
                        != compile_resolved_views(address_lookup_tables@, msg)[b]
            })
        },
{
    match try_compile(payer, instructions, address_lookup_tables, recent_blockhash) {
        Ok(msg) => Ok(
            crate::message::VersionedTransaction {
                message: crate::message::VersionedMessage::V0(msg),
            },
        ),
        Err(e) => Err(e),
    }
}

/// If the first table bearing key `k` exists, it bears `k`.
pub proof fn lemma_first_table_by_key_found(ts: Seq<AddressLookupTableAccount>, k: Seq<u8>)
    requires
        0 <= first_table_by_key(ts, k) < ts.len(),
    ensures
        ts[first_table_by_key(ts, k)].key@ == k,
    decreases ts.len(),
{
    if ts.len() > 0 && ts[0].key@ != k {
        lemma_first_table_by_key_found(ts.drop_first(), k);
    }
}

/// Finds the position of a key known to stand in the resolved list.
fn position_in_resolved(resolved: &Vec<Pubkey>, k: &Pubkey) -> (r: usize)
    requires
        contains_key(resolved@, k@),
        resolved@.len() <= 256,
    ensures
        r < resolved@.len(),
        resolved@[r as int]@ == k@,
{
    match crate::keys::find_key(resolved, k) {
        Some(p) => p,
        None => {
            proof {
                assert(false);
            }
            0
        },
    }
}

/// Number of positions before `j` marked drained.
pub open spec fn count_drained(d: Seq<bool>, j: int) -> int
    decreases j,
{
    if j <= 0 {
        0
    } else {
        count_drained(d, j - 1) + (if d[j - 1] {
            1int
        } else {
            0int
        })
    }
}

/// Number of positions before `j` drained into a table before `t`.
pub open spec fn count_assigned(d: Seq<bool>, a: Seq<usize>, t: int, j: int) -> int
    decreases j,
{
    if j <= 0 {
        0
    } else {
        count_assigned(d, a, t, j - 1) + (if d[j - 1] && (a[j - 1] as int) < t {
            1int
        } else {
            0int
        })
    }
}

/// Number of positions before `j` drained into exactly table `t`.
pub open spec fn count_assigned_at(d: Seq<bool>, a: Seq<usize>, t: int, j: int) -> int
    decreases j,
{
    if j <= 0 {
        0
    } else {
        count_assigned_at(d, a, t, j - 1) + (if d[j - 1] && (a[j - 1] as int) == t {
            1int
        } else {
            0int
        })
    }
}

/// Splitting the assigned count at table `t`.
pub proof fn lemma_count_assigned_step(d: Seq<bool>, a: Seq<usize>, t: int, j: int)
    requires
        j >= 0,
    ensures
        count_assigned(d, a, t + 1, j) == count_assigned(d, a, t, j) + count_assigned_at(
            d,
            a,
            t,
            j,
        ),
    decreases j,
{
    if j > 0 {
        lemma_count_assigned_step(d, a, t, j - 1);
    }
}

/// No more keys are assigned below `t` than are drained at all.
pub proof fn lemma_count_assigned_le(d: Seq<bool>, a: Seq<usize>, t: int, j: int)
    requires
        j >= 0,
    ensures
        0 <= count_assigned(d, a, t, j) <= count_drained(d, j),
        count_assigned_at(d, a, t, j) >= 0,
        count_drained(d, j) <= j,
    decreases j,
{
    if j > 0 {
        lemma_count_assigned_le(d, a, t, j - 1);
    }
}

/// Counting ignores positions at or past `j`.
pub proof fn lemma_count_same_prefix(d1: Seq<bool>, a1: Seq<usize>, d2: Seq<bool>, a2: Seq<usize>, t: int, j: int)
    requires
        j >= 0,
        forall|x: int| 0 <= x < j ==> d1[x] == d2[x] && a1[x] == a2[x],
    ensures
        count_drained(d1, j) == count_drained(d2, j),
        count_assigned(d1, a1, t, j) == count_assigned(d2, a2, t, j),
        count_assigned_at(d1, a1, t, j) == count_assigned_at(d2, a2, t, j),
    decreases j,
{
    if j > 0 {
        lemma_count_same_prefix(d1, a1, d2, a2, t, j - 1);
    }
}

} // verus!
