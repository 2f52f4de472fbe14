//! Account addresses and blockhashes as plain byte values.

use vstd::prelude::*;

verus! {

/// Number of bytes in an account address.
pub const PUBKEY_BYTES: usize = 32;

/// An on-chain account address: a fixed-width byte string.
#[derive(Debug)]
pub struct Pubkey {
    pub bytes: Vec<u8>,
}

impl View for Pubkey {
    type V = Seq<u8>;

    open spec fn view(&self) -> Seq<u8> {
        self.bytes@
    }
}

impl Pubkey {
    /// A structurally valid address holds exactly `PUBKEY_BYTES` bytes.
    pub open spec fn wf(&self) -> bool {
        self@.len() == PUBKEY_BYTES
    }

    /// Builds an address from its byte string.
    pub fn new(bytes: Vec<u8>) -> (r: Pubkey)
        requires
            bytes@.len() == PUBKEY_BYTES,
        ensures
            r@ == bytes@,
            r.wf(),
    {
        Pubkey { bytes }
    }

    /// Byte-for-byte comparison of two addresses.
    pub fn eq_key(&self, other: &Pubkey) -> (r: bool)
        ensures
            r == (self@ == other@),
    {
        if self.bytes.len() != other.bytes.len() {
            return false;
        }
        let n = self.bytes.len();
        let mut i: usize = 0;
        while i < n
            invariant
                n == self@.len(),
                n == other@.len(),
                i <= n,
                forall|j: int| 0 <= j < i ==> self@[j] == other@[j],
            decreases n - i,
        {
            if self.bytes[i] != other.bytes[i] {
                return false;
            }
            i += 1;
        }
        assert(self@ =~= other@);
        true
    }
}

impl Clone for Pubkey {
    fn clone(&self) -> (r: Pubkey)
        ensures
            r@ == self@,
    {
        let r = Pubkey { bytes: self.bytes.clone() };
        assert(r.bytes@ =~= self.bytes@);
        r
    }
}

/// A recent blockhash: a network checkpoint value bounding transaction
/// validity. The library carries it through opaquely.
#[derive(Debug)]
pub struct Blockhash {
    pub bytes: Vec<u8>,
}

impl View for Blockhash {
    type V = Seq<u8>;

    open spec fn view(&self) -> Seq<u8> {
        self.bytes@
    }
}

impl Clone for Blockhash {
    fn clone(&self) -> (r: Blockhash)
        ensures
            r@ == self@,
    {
        let r = Blockhash { bytes: self.bytes.clone() };
        assert(r.bytes@ =~= self.bytes@);
        r
    }
}

/// The views of a sequence of addresses, in order.
pub open spec fn key_views(ks: Seq<Pubkey>) -> Seq<Seq<u8>> {
    ks.map_values(|k: Pubkey| k@)
}

/// Whether `ks` holds an address whose bytes are `k`.
pub open spec fn contains_key(ks: Seq<Pubkey>, k: Seq<u8>) -> bool {
    exists|i: int| 0 <= i < ks.len() && ks[i]@ == k
}

/// Index of the first address in `ks` whose bytes are `k`; `-1` if absent.
pub open spec fn index_of_key(ks: Seq<Pubkey>, k: Seq<u8>) -> int
    decreases ks.len(),
{
    if ks.len() == 0 {
        -1
    } else if ks[0]@ == k {
        0
    } else {
        let rest = index_of_key(ks.drop_first(), k);
        if rest == -1 {
            -1
        } else {
            rest + 1
        }
    }
}

/// Searches `ks` for an address equal to `k`; returns the first position.
pub fn find_key(ks: &Vec<Pubkey>, k: &Pubkey) -> (r: Option<usize>)
    ensures
        match r {
            Some(i) => i < ks@.len() && ks@[i as int]@ == k@ && i == index_of_key(ks@, k@),
            None => !contains_key(ks@, k@) && index_of_key(ks@, k@) == -1,
        },
{
    let n = ks.len();
    let mut i: usize = 0;
    while i < n
        invariant
            n == ks@.len(),
            i <= n,
            forall|j: int| 0 <= j < i ==> ks@[j]@ != k@,
        decreases n - i,
    {
        if ks[i].eq_key(k) {
            proof {
                lemma_index_of_key_first(ks@, k@, i as int);
            }
            return Some(i);
        }
        i += 1;
    }
    proof {
        lemma_index_of_key_none(ks@, k@);
    }
    None
}

/// If position `i` holds `k` and no earlier position does, then `i` is the
/// first index of `k`.
pub proof fn lemma_index_of_key_first(ks: Seq<Pubkey>, k: Seq<u8>, i: int)
    requires
        0 <= i < ks.len(),
        ks[i]@ == k,
        forall|j: int| 0 <= j < i ==> ks[j]@ != k,
    ensures
        index_of_key(ks, k) == i,
    decreases ks.len(),
{
    if i == 0 {
    } else {
        lemma_index_of_key_first(ks.drop_first(), k, i - 1);
    }
}

/// If no position holds `k`, the first index of `k` is `-1`.
pub proof fn lemma_index_of_key_none(ks: Seq<Pubkey>, k: Seq<u8>)
    requires
        forall|j: int| 0 <= j < ks.len() ==> ks[j]@ != k,
    ensures
        index_of_key(ks, k) == -1,
    decreases ks.len(),
{
    if ks.len() > 0 {
        lemma_index_of_key_none(ks.drop_first(), k);
    }
}

/// The distinct address views of `ks`, keeping the first occurrence of each,
/// in first-occurrence order.
pub open spec fn dedup_key_views(ks: Seq<Pubkey>) -> Seq<Seq<u8>>
    decreases ks.len(),
{
    if ks.len() == 0 {
        Seq::empty()
    } else {
        let prefix = dedup_key_views(ks.drop_last());
        if prefix.contains(ks.last()@) {
            prefix
        } else {
            prefix.push(ks.last()@)
        }
    }
}

/// Deduplication depends only on the address views.
pub proof fn lemma_dedup_views_eq(a: Seq<Pubkey>, b: Seq<Pubkey>)
    requires
        key_views(a) == key_views(b),
    ensures
        dedup_key_views(a) == dedup_key_views(b),
    decreases a.len(),
{
    assert(key_views(a).len() == a.len());
    assert(key_views(b).len() == b.len());
    if a.len() > 0 {
        assert(key_views(a.drop_last()) =~= key_views(b.drop_last())) by {
            assert forall|i: int| 0 <= i < a.len() - 1 implies a[i]@ == b[i]@ by {
                assert(key_views(a)[i] == a[i]@);
                assert(key_views(b)[i] == b[i]@);
            }
        }
        lemma_dedup_views_eq(a.drop_last(), b.drop_last());
        assert(a.last()@ == key_views(a)[a.len() - 1]);
        assert(b.last()@ == key_views(b)[b.len() - 1]);
    }
}

/// Drops repeated addresses, keeping the first occurrence of each in order,
/// so that each distinct address appears exactly once.
pub fn dedup_pubkeys(ks: &Vec<Pubkey>) -> (r: Vec<Pubkey>)
    ensures
        key_views(r@) == dedup_key_views(ks@),
        forall|i: int, j: int| 0 <= i < j < r@.len() ==> r@[i]@ != r@[j]@,
        forall|i: int| 0 <= i < ks@.len() ==> contains_key(r@, ks@[i]@),
        forall|i: int| 0 <= i < r@.len() ==> contains_key(ks@, r@[i]@),
{
    let mut r: Vec<Pubkey> = Vec::new();
    let n = ks.len();
    let mut i: usize = 0;
    while i < n
        invariant
            n == ks@.len(),
            i <= n,
            key_views(r@) =~= dedup_key_views(ks@.take(i as int)),
            forall|a: int, b: int| 0 <= a < b < r@.len() ==> r@[a]@ != r@[b]@,
            forall|j: int| 0 <= j < i ==> contains_key(r@, ks@[j]@),
            forall|j: int| 0 <= j < r@.len() ==> contains_key(ks@, r@[j]@),
        decreases n - i,
    {
        assert(ks@.take(i + 1).drop_last() =~= ks@.take(i as int));
        assert(ks@.take(i + 1).last() == ks@[i as int]);
        let ghost old_r = r@;
        match find_key(&r, &ks[i]) {
            Some(_) => {
                assert(key_views(old_r).contains(ks@[i as int]@)) by {
                    let w = choose|w: int| 0 <= w < old_r.len() && old_r[w]@ == ks@[i as int]@;
                    assert(key_views(old_r)[w] == ks@[i as int]@);
                }
            },
            None => {
                let ghost ki = ks@[i as int]@;
                assert(!key_views(old_r).contains(ki)) by {
                    if key_views(old_r).contains(ki) {
                        let w = choose|w: int|
                            0 <= w < key_views(old_r).len() && key_views(old_r)[w] == ki;
                        assert(old_r[w]@ == ki);
                    }
                }
                r.push(ks[i].clone());
                assert(forall|j: int| 0 <= j < old_r.len() ==> r@[j] == old_r[j]);
                assert(r@[old_r.len() as int]@ == ks@[i as int]@);
                assert(key_views(r@) =~= key_views(old_r).push(ks@[i as int]@));
            },
        }
        assert(forall|j: int| 0 <= j < i + 1 ==> contains_key(r@, ks@[j]@)) by {
            assert(forall|j: int| 0 <= j < old_r.len() ==> r@[j] == old_r[j]);
            assert(forall|j: int|
                0 <= j < i && contains_key(old_r, ks@[j]@) ==> contains_key(r@, ks@[j]@)) by {
                assert(forall|j: int| 0 <= j < old_r.len() ==> r@[j] == old_r[j]);
            }
        }
        i += 1;
    }
    assert(ks@.take(n as int) =~= ks@);
    r
}

} // verus!
