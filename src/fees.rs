//! Per-slot prioritization-fee index and percentile reads.
use vstd::prelude::*;
use crate::geyser::GeyserTransaction;
use crate::keys::Pubkey;

verus! {

/// Ascending order.
pub open spec fn sorted(s: Seq<u64>) -> bool {
    forall|i: int, j: int| 0 <= i <= j < s.len() ==> s[i] <= s[j]
}

/// Position read for `percentile` basis points in a vector of `len` values.
pub open spec fn percentile_index(percentile: u16, len: nat) -> int {
    (if percentile > 9999 { 9999int } else { percentile as int }) * len / 10000
}

/// The value at `percentile` basis points, absent on an empty vector.
pub open spec fn percentile_of(fees: Seq<u64>, percentile: u16) -> Option<u64> {
    let i = percentile_index(percentile, fees.len());
    if 0 <= i < fees.len() {
        Some(fees[i])
    } else {
        None
    }
}

/// The value at the given percentile, or the first one when none is given.
pub open spec fn with_percentile(fees: Seq<u64>, percentile: Option<u16>) -> Option<u64> {
    match percentile {
        Some(p) => percentile_of(fees, p),
        None => if fees.len() > 0 {
            Some(fees[0])
        } else {
            None
        },
    }
}

/// Unit prices of the non-vote transactions, in order.
pub open spec fn nonvote_prices(txs: Seq<GeyserTransaction>) -> Seq<u64>
    decreases txs.len(),
{
    if txs.len() == 0 {
        Seq::empty()
    } else {
        let t = txs.last();
        nonvote_prices(txs.drop_last()) + if t.vote {
            Seq::<u64>::empty()
        } else {
            seq![t.unit_price]
        }
    }
}

/// One copy of `price` for each occurrence of `k` in `ws`.
pub open spec fn price_copies(ws: Seq<Pubkey>, k: Seq<u8>, price: u64) -> Seq<u64>
    decreases ws.len(),
{
    if ws.len() == 0 {
        Seq::empty()
    } else {
        price_copies(ws.drop_last(), k, price) + if ws.last()@ == k {
            seq![price]
        } else {
            Seq::<u64>::empty()
        }
    }
}

/// Unit prices of the non-vote transactions that list `k` as writable.
pub open spec fn account_prices(txs: Seq<GeyserTransaction>, k: Seq<u8>) -> Seq<u64>
    decreases txs.len(),
{
    if txs.len() == 0 {
        Seq::empty()
    } else {
        let t = txs.last();
        account_prices(txs.drop_last(), k) + if t.vote {
            Seq::<u64>::empty()
        } else {
            price_copies(t.accounts.writable@, k, t.unit_price)
        }
    }
}

/// No key occurs twice.
pub open spec fn keys_unique(es: Seq<(Pubkey, Vec<u64>)>) -> bool {
    forall|i: int, j: int| 0 <= i < es.len() && 0 <= j < es.len() && i != j ==> es[i].0@ != es[j].0@
}

/// The fees recorded for key `k`, if any.
pub open spec fn account_fees_of(es: Seq<(Pubkey, Vec<u64>)>, k: Seq<u8>) -> Option<Seq<u64>> {
    if exists|i: int| 0 <= i < es.len() && es[i].0@ == k {
        let i = choose|i: int| 0 <= i < es.len() && es[i].0@ == k;
        Some(es[i].1@)
    } else {
        None
    }
}

/// The larger of two fees.
pub open spec fn max_fee(a: u64, b: u64) -> u64 {
    if a >= b {
        a
    } else {
        b
    }
}

/// Relies on `slice::sort_unstable`: the same values, in ascending order.
#[verifier::external_body]
pub(crate) fn sort_ascending(v: &mut Vec<u64>)
    ensures
        final(v)@.to_multiset() == old(v)@.to_multiset(),
        sorted(final(v)@),
{
    v.sort_unstable();
}

/// Position of `key` among per-account entries.
fn index_of_key(es: &Vec<(Pubkey, Vec<u64>)>, key: &Pubkey) -> (r: Option<usize>)
    ensures
        match r {
            Some(i) => i < es@.len() && es@[i as int].0@ == key@,
            None => forall|j: int| 0 <= j < es@.len() ==> es@[j].0@ != key@,
        },
{
    let mut i: usize = 0;
    while i < es.len()
        invariant
            0 <= i <= es@.len(),
            forall|j: int| 0 <= j < i ==> es@[j].0@ != key@,
        decreases es@.len() - i,
    {
        if es[i].0.same_as(key) {
            return Some(i);
        }
        i = i + 1;
    }
    None
}

/// Sorted unit prices of one slot's non-vote transactions, globally and per
/// writable account.
#[derive(Debug)]
pub struct RecentPrioritizationFeesSlot {
    pub transaction_fees: Vec<u64>,
    pub writable_account_fees: Vec<(Pubkey, Vec<u64>)>,
}

impl RecentPrioritizationFeesSlot {
    pub open spec fn wf(&self) -> bool {
        &&& sorted(self.transaction_fees@)
        &&& keys_unique(self.writable_account_fees@)
        &&& forall|i: int| 0 <= i < self.writable_account_fees@.len()
            ==> sorted(#[trigger] self.writable_account_fees@[i].1@)
    }

    /// The index holds exactly the non-vote prices of `txs`.
    pub open spec fn built_from(&self, txs: Seq<GeyserTransaction>) -> bool {
        &&& self.transaction_fees@.to_multiset() == nonvote_prices(txs).to_multiset()
        &&& forall|k: Seq<u8>| match #[trigger] account_fees_of(self.writable_account_fees@, k) {
            Some(v) => account_prices(txs, k).len() > 0 && v.to_multiset() == account_prices(txs, k).to_multiset(),
            None => account_prices(txs, k).len() == 0,
        }
    }

    /// The fee answered for `keys` at `percentile`: the largest of the global
    /// value and the values of the listed accounts that have writable history,
    /// or 0 when there is none.
    pub open spec fn fee_for(&self, keys: Seq<Pubkey>, percentile: Option<u16>) -> u64
        decreases keys.len(),
    {
        if keys.len() == 0 {
            match with_percentile(self.transaction_fees@, percentile) {
                Some(f) => f,
                None => 0,
            }
        } else {
            let prev = self.fee_for(keys.drop_last(), percentile);
            match account_fees_of(self.writable_account_fees@, keys.last()@) {
                Some(v) => match with_percentile(v, percentile) {
                    Some(f) => max_fee(prev, f),
                    None => prev,
                },
                None => prev,
            }
        }
    }

    /// Builds the index from one slot's transactions: each non-vote unit
    /// price goes to the global vector and to the vector of each writable
    /// account; then every vector is sorted.
    pub fn create(transactions: &[GeyserTransaction]) -> (r: Self)
        ensures
            r.wf(),
            r.built_from(transactions@),
            sorted(r.transaction_fees@),
    {
        let mut transaction_fees: Vec<u64> = Vec::new();
        let mut es: Vec<(Pubkey, Vec<u64>)> = Vec::new();
        let mut i: usize = 0;
        while i < transactions.len()
            invariant
                0 <= i <= transactions@.len(),
                transaction_fees@ == nonvote_prices(transactions@.take(i as int)),
                keys_unique(es@),
                forall|k: Seq<u8>| #[trigger] account_fees_of(es@, k) == if account_prices(transactions@.take(i as int), k).len() > 0 {
                    Some(account_prices(transactions@.take(i as int), k))
                } else {
                    None
                },
            decreases transactions@.len() - i,
        {
            let tx = &transactions[i];
            let ghost before = transactions@.take(i as int);
            proof {
                assert(transactions@.take(i + 1).drop_last() =~= before);
            }
            if !tx.vote {
                let price = tx.unit_price;
                transaction_fees.push(price);
                let ws = &tx.accounts.writable;
                let mut j: usize = 0;
                while j < ws.len()
                    invariant
                        0 <= j <= ws@.len(),
                        keys_unique(es@),
                        forall|k: Seq<u8>| #[trigger] account_fees_of(es@, k) == if account_prices(before, k).len()
                            + price_copies(ws@.take(j as int), k, price).len() > 0 {
                            Some(account_prices(before, k) + price_copies(ws@.take(j as int), k, price))
                        } else {
                            None
                        },
                    decreases ws@.len() - j,
                {
                    let key = ws[j];
                    proof {
                        assert(ws@.take(j + 1).drop_last() =~= ws@.take(j as int));
                    }
                    let found = index_of_key(&es, &key);
                    let ghost old_es = es@;
                    match found {
                        Some(idx) => {
                            es[idx].1.push(price);
                            proof {
                                assert forall|k: Seq<u8>| #[trigger] account_fees_of(es@, k) == (if k == key@ {
                                    Some(old_es[idx as int].1@.push(price))
                                } else {
                                    account_fees_of(old_es, k)
                                }) by {
                                    if k == key@ {
                                        assert(es@[idx as int].0@ == k);
                                    } else {
                                        if exists|x: int| 0 <= x < old_es.len() && old_es[x].0@ == k {
                                            let x = choose|x: int| 0 <= x < old_es.len() && old_es[x].0@ == k;
                                            assert(es@[x].0@ == k);
                                        }
                                    }
                                }
                            }
                        },
                        None => {
                            let mut v: Vec<u64> = Vec::new();
                            v.push(price);
                            es.push((key, v));
                            proof {
                                assert forall|k: Seq<u8>| #[trigger] account_fees_of(es@, k) == (if k == key@ {
                                    Some(seq![price])
                                } else {
                                    account_fees_of(old_es, k)
                                }) by {
                                    if k == key@ {
                                        assert(es@[old_es.len() as int].0@ == k);
                                    } else {
                                        if exists|x: int| 0 <= x < old_es.len() && old_es[x].0@ == k {
                                            let x = choose|x: int| 0 <= x < old_es.len() && old_es[x].0@ == k;
                                            assert(es@[x].0@ == k);
                                        }
                                    }
                                }
                            }
                        },
                    }
                    j = j + 1;
                }
                proof {
                    assert(ws@.take(ws@.len() as int) =~= ws@);
                }
            }
            i = i + 1;
        }
        proof {
            assert(transactions@.take(transactions@.len() as int) =~= transactions@);
        }
        let ghost unsorted = es@;
        sort_ascending(&mut transaction_fees);
        let mut n: usize = 0;
        while n < es.len()
            invariant
                0 <= n <= es@.len(),
                es@.len() == unsorted.len(),
                forall|x: int| 0 <= x < es@.len() ==> (#[trigger] es@[x]).0 == unsorted[x].0,
                forall|x: int| 0 <= x < n ==> sorted((#[trigger] es@[x]).1@)
                    && es@[x].1@.to_multiset() == unsorted[x].1@.to_multiset(),
                forall|x: int| n <= x < es@.len() ==> (#[trigger] es@[x]).1@ == unsorted[x].1@,
            decreases es@.len() - n,
        {
            sort_ascending(&mut es[n].1);
            n = n + 1;
        }
        let r = RecentPrioritizationFeesSlot { transaction_fees, writable_account_fees: es };
        proof {
            assert forall|k: Seq<u8>| match #[trigger] account_fees_of(r.writable_account_fees@, k) {
                Some(v) => account_prices(transactions@, k).len() > 0
                    && v.to_multiset() == account_prices(transactions@, k).to_multiset(),
                None => account_prices(transactions@, k).len() == 0,
            } by {
                assert(account_fees_of(unsorted, k) == if account_prices(transactions@, k).len() > 0 {
                    Some(account_prices(transactions@, k))
                } else {
                    None
                });
                if exists|x: int| 0 <= x < unsorted.len() && unsorted[x].0@ == k {
                    let x = choose|x: int| 0 <= x < unsorted.len() && unsorted[x].0@ == k;
                    assert(r.writable_account_fees@[x].0@ == k);
                }
            }
        }
        r
    }

    /// The value at `percentile` basis points (clamped to 9999) of a vector.
    pub fn get_percentile(fees: &[u64], percentile: u16) -> (r: Option<u64>)
        ensures
            r == percentile_of(fees@, percentile),
            r is Some <==> fees@.len() > 0,
    {
        let p: u128 = if percentile > 9999 { 9999 } else { percentile as u128 };
        let len: u128 = fees.len() as u128;
        assert(len <= 0xffff_ffff_ffff_ffffu128);
        assert(p * len <= 9999 * 0xffff_ffff_ffff_ffffu128) by (nonlinear_arith)
            requires p <= 9999, len <= 0xffff_ffff_ffff_ffffu128;
        let index: u128 = p * len / 10000;
        assert(len > 0 ==> index < len) by (nonlinear_arith)
            requires p <= 9999, index == p * len / 10000;
        if index < len {
            Some(fees[index as usize])
        } else {
            None
        }
    }

    /// The value at the percentile if one is given, else the smallest value.
    pub fn get_with_percentile(fees: &[u64], percentile: Option<u16>) -> (r: Option<u64>)
        ensures
            r == with_percentile(fees@, percentile),
    {
        match percentile {
            Some(p) => Self::get_percentile(fees, p),
            None => if fees.len() > 0 {
                Some(fees[0])
            } else {
                None
            },
        }
    }

    /// The fee for a request that names `account_keys`.
    pub fn get_fee(&self, account_keys: &[Pubkey], percentile: Option<u16>) -> (r: u64)
        requires
            self.wf(),
        ensures
            r == self.fee_for(account_keys@, percentile),
    {
        let mut fee: u64 = match Self::get_with_percentile(self.transaction_fees.as_slice(), percentile) {
            Some(f) => f,
            None => 0,
        };
        let mut i: usize = 0;
        while i < account_keys.len()
            invariant
                self.wf(),
                0 <= i <= account_keys@.len(),
                fee == self.fee_for(account_keys@.take(i as int), percentile),
            decreases account_keys@.len() - i,
        {
            proof {
                assert(account_keys@.take(i + 1).drop_last() =~= account_keys@.take(i as int));
            }
            let key = &account_keys[i];
            match index_of_key(&self.writable_account_fees, key) {
                Some(j) => {
                    let fees = &self.writable_account_fees[j].1;
                    match Self::get_with_percentile(fees.as_slice(), percentile) {
                        Some(account_fee) => {
                            if account_fee > fee {
                                fee = account_fee;
                            }
                        },
                        None => {},
                    }
                },
                None => {},
            }
            i = i + 1;
        }
        assert(account_keys@.take(account_keys@.len() as int) =~= account_keys@);
        fee
    }
}

/// Percentile law: on a non-empty vector, the read at `percentile` basis
/// points (at most 10000) is the element at position
/// floor(min(percentile, 9999) * len / 10000), and that position is in bounds.
pub proof fn lemma_percentile_law(v: Seq<u64>, percentile: u16)
    requires
        sorted(v),
        percentile <= 10000,
        v.len() > 0,
    ensures
        0 <= percentile_index(percentile, v.len()) < v.len(),
        percentile_of(v, percentile) == Some(v[percentile_index(percentile, v.len())]),
{
    let p: int = if percentile > 9999 { 9999 } else { percentile as int };
    let n: int = v.len() as int;
    assert(0 <= p * n / 10000 < n) by (nonlinear_arith)
        requires 0 <= p <= 9999, n > 0;
}

/// The fee answered for any list of keys is at least the slot's global value
/// at the same percentile (0 when the slot has no non-vote transaction).
pub proof fn lemma_fee_at_least_global(
    index: RecentPrioritizationFeesSlot,
    keys: Seq<Pubkey>,
    percentile: Option<u16>,
)
    ensures
        index.fee_for(keys, percentile) >= match with_percentile(index.transaction_fees@, percentile) {
            Some(f) => f,
            None => 0,
        },
    decreases keys.len(),
{
    if keys.len() > 0 {
        lemma_fee_at_least_global(index, keys.drop_last(), percentile);
    }
}

} // verus!
