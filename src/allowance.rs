use vstd::prelude::*;

use crate::error::ContractError;
use crate::scan::{effective_limit, is_page, opt_text, page, page_limit, texts};

verus! {

/// When an allowance lapses.
#[derive(Debug, Clone, Copy, PartialEq, Eq, Structural)]
pub enum Expiration {
    AtHeight(u64),
    AtTime(u64),
    Never,
}

/// The height and the time at which an operation runs.
#[derive(Debug, Clone, Copy, PartialEq, Eq, Structural)]
pub struct BlockInfo {
    pub height: u64,
    pub time: u64,
}

/// What an owner lets a spender take, and until when.
#[derive(Debug, Clone, Copy, PartialEq, Eq, Structural)]
pub struct AllowanceResponse {
    pub allowance: u128,
    pub expires: Expiration,
}

/// An (owner, spender) pair.
pub type AllowanceKey = (Seq<char>, Seq<char>);

/// The expiry has passed at `b`.
pub open spec fn expired(e: Expiration, b: BlockInfo) -> bool {
    match e {
        Expiration::AtHeight(h) => b.height >= h,
        Expiration::AtTime(t) => b.time >= t,
        Expiration::Never => false,
    }
}

/// The expiry lies ahead of `b`.
pub open spec fn pending(e: Expiration, b: BlockInfo) -> bool {
    e != Expiration::Never && !expired(e, b)
}

/// Tests whether an expiry has passed at `b`.
pub fn is_expired(e: Expiration, b: BlockInfo) -> (r: bool)
    ensures
        r == expired(e, b),
{
    match e {
        Expiration::AtHeight(h) => b.height >= h,
        Expiration::AtTime(t) => b.time >= t,
        Expiration::Never => false,
    }
}

/// The allowance stored under `k`, or none at all.
pub open spec fn current(m: Map<AllowanceKey, AllowanceResponse>, k: AllowanceKey) -> AllowanceResponse {
    if m.contains_key(k) {
        m[k]
    } else {
        AllowanceResponse { allowance: 0, expires: Expiration::Never }
    }
}

/// Whether `amount` may be spent under `k` at `b`.
pub open spec fn spend_check(
    m: Map<AllowanceKey, AllowanceResponse>,
    k: AllowanceKey,
    amount: u128,
    b: BlockInfo,
) -> Result<(), ContractError> {
    if expired(current(m, k).expires, b) {
        Err(ContractError::Expired)
    } else if amount > current(m, k).allowance {
        Err(ContractError::InsufficientAllowance)
    } else {
        Ok(())
    }
}

/// The allowances after `amount` is spent under `k`: a record that reaches
/// zero is removed.
pub open spec fn after_spend(
    m: Map<AllowanceKey, AllowanceResponse>,
    k: AllowanceKey,
    amount: u128,
) -> Map<AllowanceKey, AllowanceResponse> {
    if current(m, k).allowance == amount {
        m.remove(k)
    } else {
        m.insert(
            k,
            AllowanceResponse {
                allowance: (current(m, k).allowance - amount) as u128,
                expires: current(m, k).expires,
            },
        )
    }
}

/// The allowances after `amount` is taken off the one under `k`, down to zero
/// at most: a record left at zero with no expiry ahead is removed.
pub open spec fn after_decrease(
    m: Map<AllowanceKey, AllowanceResponse>,
    k: AllowanceKey,
    amount: u128,
    expires: Option<Expiration>,
    b: BlockInfo,
) -> Map<AllowanceKey, AllowanceResponse> {
    let left: u128 = if amount >= m[k].allowance {
        0
    } else {
        (m[k].allowance - amount) as u128
    };
    let exp = match expires {
        Some(e) => e,
        None => m[k].expires,
    };
    if left == 0 && !pending(exp, b) {
        m.remove(k)
    } else {
        m.insert(k, AllowanceResponse { allowance: left, expires: exp })
    }
}

struct Entry {
    owner: String,
    spender: String,
    allowance: u128,
    expires: Expiration,
}

spec fn key(e: Entry) -> AllowanceKey {
    (e.owner@, e.spender@)
}

spec fn value(e: Entry) -> AllowanceResponse {
    AllowanceResponse { allowance: e.allowance, expires: e.expires }
}

spec fn unique(s: Seq<Entry>) -> bool {
    forall|i: int, j: int|
        0 <= i < s.len() && 0 <= j < s.len() && i != j ==> key(#[trigger] s[i]) != key(
            #[trigger] s[j],
        )
}

spec fn holds_key(s: Seq<Entry>, k: AllowanceKey) -> bool {
    exists|i: int| 0 <= i < s.len() && key(s[i]) == k
}

spec fn table(s: Seq<Entry>) -> Map<AllowanceKey, AllowanceResponse> {
    Map::new(
        |k: AllowanceKey| holds_key(s, k),
        |k: AllowanceKey| value(s[choose|i: int| 0 <= i < s.len() && key(s[i]) == k]),
    )
}

proof fn lemma_table_at(s: Seq<Entry>, i: int)
    requires
        unique(s),
        0 <= i < s.len(),
    ensures
        table(s).contains_key(key(s[i])),
        table(s)[key(s[i])] == value(s[i]),
{
    let k = key(s[i]);
    assert(holds_key(s, k));
    let j = choose|j: int| 0 <= j < s.len() && key(s[j]) == k;
    if j != i {
        assert(key(s[j]) != key(s[i]));
    }
}

/// The allowances, keyed by (owner, spender); none is historical.
pub struct AllowanceStore {
    entries: Vec<Entry>,
}

impl View for AllowanceStore {
    type V = Map<AllowanceKey, AllowanceResponse>;

    closed spec fn view(&self) -> Map<AllowanceKey, AllowanceResponse> {
        table(self.entries@)
    }
}

impl AllowanceStore {
    pub closed spec fn wf(&self) -> bool {
        unique(self.entries@)
    }

    /// A store with no allowance.
    pub fn new() -> (r: AllowanceStore)
        ensures
            r.wf(),
            r@ == Map::<AllowanceKey, AllowanceResponse>::empty(),
    {
        let r = AllowanceStore { entries: Vec::new() };
        assert(r@ =~= Map::<AllowanceKey, AllowanceResponse>::empty());
        r
    }

    fn find(&self, owner: &String, spender: &String) -> (r: Option<usize>)
        requires
            self.wf(),
        ensures
            match r {
                Some(i) => i < self.entries@.len() && key(self.entries@[i as int]) == (
                    owner@,
                    spender@,
                ) && self@.contains_key((owner@, spender@)) && self@[(owner@, spender@)]
                    == value(self.entries@[i as int]),
                None => !self@.contains_key((owner@, spender@)),
            },
    {
        let mut i: usize = 0;
        while i < self.entries.len()
            invariant
                0 <= i <= self.entries@.len(),
                unique(self.entries@),
                forall|k: int| 0 <= k < i ==> key(#[trigger] self.entries@[k]) != (owner@, spender@),
            decreases self.entries@.len() - i,
        {
            if self.entries[i].owner == *owner && self.entries[i].spender == *spender {
                proof {
                    lemma_table_at(self.entries@, i as int);
                }
                return Some(i);
            }
            i = i + 1;
        }
        None
    }

    /// The allowance that `owner` gives `spender`: zero and no expiry where
    /// there is none.
    pub fn query_allowance(&self, owner: &String, spender: &String) -> (r: AllowanceResponse)
        requires
            self.wf(),
        ensures
            r == current(self@, (owner@, spender@)),
    {
        match self.find(owner, spender) {
            Some(i) => AllowanceResponse {
                allowance: self.entries[i].allowance,
                expires: self.entries[i].expires,
            },
            None => AllowanceResponse { allowance: 0, expires: Expiration::Never },
        }
    }

    /// Stores `v` under (owner, spender).
    fn store(&mut self, owner: &String, spender: &String, v: AllowanceResponse)
        requires
            old(self).wf(),
        ensures
            final(self).wf(),
            final(self)@ == old(self)@.insert((owner@, spender@), v),
    {
        let ghost k: AllowanceKey = (owner@, spender@);
        let ghost s0 = self.entries@;
        let e = Entry {
            owner: owner.clone(),
            spender: spender.clone(),
            allowance: v.allowance,
            expires: v.expires,
        };
        match self.find(owner, spender) {
            Some(i) => {
                self.entries.set(i, e);
                let ghost s1 = self.entries@;
                assert(s1 == s0.update(i as int, e));
                assert(unique(s1)) by {
                    assert forall|p: int, q: int|
                        0 <= p < s1.len() && 0 <= q < s1.len() && p != q implies key(#[trigger] s1[p])
                        != key(#[trigger] s1[q]) by {
                        assert(key(s0[p]) != key(s0[q]));
                    }
                }
                assert forall|k2: AllowanceKey| #[trigger] holds_key(s1, k2) == (holds_key(s0, k2) || k2 == k) by {
                    if holds_key(s0, k2) {
                        let j = choose|j: int| 0 <= j < s0.len() && key(s0[j]) == k2;
                        assert(key(s1[j]) == k2);
                    }
                    if holds_key(s1, k2) {
                        let j = choose|j: int| 0 <= j < s1.len() && key(s1[j]) == k2;
                        assert(key(s0[j]) == k2);
                    }
                }
                assert forall|k2: AllowanceKey| holds_key(s1, k2) implies #[trigger] table(s1)[k2] == (
                if k2 == k {
                    v
                } else {
                    table(s0)[k2]
                }) by {
                    let j = choose|j: int| 0 <= j < s1.len() && key(s1[j]) == k2;
                    lemma_table_at(s1, j);
                    if j != i {
                        lemma_table_at(s0, j);
                    }
                }
                assert(self@ =~= old(self)@.insert(k, v));
            },
            None => {
                self.entries.push(e);
                let ghost s1 = self.entries@;
                assert(s1 == s0.push(e));
                assert(unique(s1)) by {
                    assert forall|p: int, q: int|
                        0 <= p < s1.len() && 0 <= q < s1.len() && p != q implies key(#[trigger] s1[p])
                        != key(#[trigger] s1[q]) by {
                        if p < s0.len() && q < s0.len() {
                            assert(key(s0[p]) != key(s0[q]));
                        } else if p < s0.len() {
                            assert(!holds_key(s0, k));
                            assert(key(s0[p]) != k);
                        } else {
                            assert(!holds_key(s0, k));
                            assert(key(s0[q]) != k);
                        }
                    }
                }
                assert forall|k2: AllowanceKey| #[trigger] holds_key(s1, k2) == (holds_key(s0, k2) || k2 == k) by {
                    if holds_key(s0, k2) {
                        let j = choose|j: int| 0 <= j < s0.len() && key(s0[j]) == k2;
                        assert(key(s1[j]) == k2);
                    }
                    if k2 == k {
                        assert(key(s1[s0.len() as int]) == k2);
                    }
                    if holds_key(s1, k2) {
                        let j = choose|j: int| 0 <= j < s1.len() && key(s1[j]) == k2;
                        if j < s0.len() {
                            assert(key(s0[j]) == k2);
                        }
                    }
                }
                assert forall|k2: AllowanceKey| holds_key(s1, k2) implies #[trigger] table(s1)[k2] == (
                if k2 == k {
                    v
                } else {
                    table(s0)[k2]
                }) by {
                    let j = choose|j: int| 0 <= j < s1.len() && key(s1[j]) == k2;
                    lemma_table_at(s1, j);
                    if j < s0.len() {
                        lemma_table_at(s0, j);
                    }
                }
                assert(self@ =~= old(self)@.insert(k, v));
            },
        }
    }

    /// Removes the allowance under (owner, spender), where there is one.
    fn clear(&mut self, owner: &String, spender: &String)
        requires
            old(self).wf(),
        ensures
            final(self).wf(),
            final(self)@ == old(self)@.remove((owner@, spender@)),
    {
        let ghost k: AllowanceKey = (owner@, spender@);
        let ghost s0 = self.entries@;
        match self.find(owner, spender) {
            Some(i) => {
                self.entries.remove(i);
                let ghost s1 = self.entries@;
                assert(s1 == s0.remove(i as int));
                assert forall|p: int| 0 <= p < s1.len() implies #[trigger] s1[p] == (if p < i {
                    s0[p]
                } else {
                    s0[p + 1]
                }) by {}
                assert(unique(s1)) by {
                    assert forall|p: int, q: int|
                        0 <= p < s1.len() && 0 <= q < s1.len() && p != q implies key(#[trigger] s1[p])
                        != key(#[trigger] s1[q]) by {
                        let p0 = if p < i { p } else { p + 1 };
                        let q0 = if q < i { q } else { q + 1 };
                        assert(key(s0[p0]) != key(s0[q0]));
                    }
                }
                assert forall|k2: AllowanceKey| #[trigger] holds_key(s1, k2) == (holds_key(s0, k2) && k2 != k) by {
                    if holds_key(s0, k2) && k2 != k {
                        let j = choose|j: int| 0 <= j < s0.len() && key(s0[j]) == k2;
                        assert(j != i);
                        let j1 = if j < i { j } else { j - 1 };
                        assert(key(s1[j1]) == k2);
                    }
                    if holds_key(s1, k2) {
                        let j = choose|j: int| 0 <= j < s1.len() && key(s1[j]) == k2;
                        let j0 = if j < i { j } else { j + 1 };
                        assert(key(s0[j0]) == k2);
                        assert(key(s0[j0]) != key(s0[i as int]));
                    }
                }
                assert forall|k2: AllowanceKey| holds_key(s1, k2) implies #[trigger] table(s1)[k2]
                    == table(s0)[k2] by {
                    let j = choose|j: int| 0 <= j < s1.len() && key(s1[j]) == k2;
                    let j0 = if j < i { j } else { j + 1 };
                    lemma_table_at(s1, j);
                    lemma_table_at(s0, j0);
                }
                assert(self@ =~= old(self)@.remove(k));
            },
            None => {
                assert(self@ =~= old(self)@.remove(k));
            },
        }
    }
}

impl AllowanceStore {
    /// Adds `amount` to what `owner` lets `spender` take, starting from zero
    /// where there is no allowance yet, and takes the given expiry if any.
    pub fn increase_allowance(
        &mut self,
        owner: &String,
        spender: &String,
        amount: u128,
        expires: Option<Expiration>,
    ) -> (r: Result<(), ContractError>)
        requires
            old(self).wf(),
        ensures
            final(self).wf(),
            r is Ok <==> current(old(self)@, (owner@, spender@)).allowance + amount <= u128::MAX,
            r is Err ==> r == Err::<(), ContractError>(ContractError::ArithmeticOverflow) && final(self)@ == old(self)@,
            r is Ok ==> final(self)@ == after_increase(old(self)@, (owner@, spender@), amount, expires),
    {
        let cur = self.query_allowance(owner, spender);
        let allowance = match cur.allowance.checked_add(amount) {
            Some(v) => v,
            None => {
                return Err(ContractError::ArithmeticOverflow);
            },
        };
        let expires = match expires {
            Some(e) => e,
            None => cur.expires,
        };
        self.store(owner, spender, AllowanceResponse { allowance, expires });
        Ok(())
    }

    /// Takes `amount` off what `owner` lets `spender` take, down to zero at
    /// most, and takes the given expiry if any. An allowance left at zero
    /// with no expiry still ahead of `block` is removed.
    pub fn decrease_allowance(
        &mut self,
        owner: &String,
        spender: &String,
        amount: u128,
        expires: Option<Expiration>,
        block: BlockInfo,
    ) -> (r: Result<(), ContractError>)
        requires
            old(self).wf(),
        ensures
            final(self).wf(),
            r is Ok <==> old(self)@.contains_key((owner@, spender@)),
            r is Err ==> r == Err::<(), ContractError>(ContractError::NotFound) && final(self)@ == old(self)@,
            r is Ok ==> final(self)@ == after_decrease(
                old(self)@,
                (owner@, spender@),
                amount,
                expires,
                block,
            ),
    {
        let cur = match self.find(owner, spender) {
            Some(i) => AllowanceResponse {
                allowance: self.entries[i].allowance,
                expires: self.entries[i].expires,
            },
            None => {
                return Err(ContractError::NotFound);
            },
        };
        let left: u128 = if amount >= cur.allowance {
            0
        } else {
            cur.allowance - amount
        };
        let exp = match expires {
            Some(e) => e,
            None => cur.expires,
        };
        let ahead = match exp {
            Expiration::Never => false,
            _ => !is_expired(exp, block),
        };
        if left == 0 && !ahead {
            self.clear(owner, spender);
        } else {
            self.store(owner, spender, AllowanceResponse { allowance: left, expires: exp });
        }
        Ok(())
    }

    /// Whether `spender` may take `amount` from `owner` at `block`; changes
    /// nothing.
    pub fn check_spend(&self, owner: &String, spender: &String, amount: u128, block: BlockInfo) -> (r:
        Result<(), ContractError>)
        requires
            self.wf(),
        ensures
            r == spend_check(self@, (owner@, spender@), amount, block),
    {
        let cur = self.query_allowance(owner, spender);
        if is_expired(cur.expires, block) {
            Err(ContractError::Expired)
        } else if amount > cur.allowance {
            Err(ContractError::InsufficientAllowance)
        } else {
            Ok(())
        }
    }

    /// Spends `amount` of what `owner` lets `spender` take at `block`. An
    /// allowance that reaches zero is removed.
    pub fn spend_allowance(
        &mut self,
        owner: &String,
        spender: &String,
        amount: u128,
        block: BlockInfo,
    ) -> (r: Result<(), ContractError>)
        requires
            old(self).wf(),
        ensures
            final(self).wf(),
            r == spend_check(old(self)@, (owner@, spender@), amount, block),
            r is Err ==> final(self)@ == old(self)@,
            r is Ok ==> final(self)@ == after_spend(old(self)@, (owner@, spender@), amount),
    {
        self.check_spend(owner, spender, amount, block)?;
        let cur = self.query_allowance(owner, spender);
        if cur.allowance == amount {
            self.clear(owner, spender);
        } else {
            self.store(
                owner,
                spender,
                AllowanceResponse { allowance: cur.allowance - amount, expires: cur.expires },
            );
        }
        Ok(())
    }
}

/// One allowance of a listing: the other party, what is left, and until when.
#[derive(Debug, Clone, PartialEq, Eq)]
pub struct AllowanceInfo {
    pub party: String,
    pub allowance: u128,
    pub expires: Expiration,
}

/// `r` lists exactly the allowances whose key, with `fixed` in the place that
/// `by_owner` names, holds the listed party in the other place; each once.
/// The key that pairs `fixed` with `party`, `fixed` being the owner where
/// `by_owner` holds and the spender otherwise.
pub open spec fn key_for(fixed: Seq<char>, by_owner: bool, party: Seq<char>) -> AllowanceKey {
    if by_owner {
        (fixed, party)
    } else {
        (party, fixed)
    }
}

spec fn picked(e: Entry, fixed: Seq<char>, by_owner: bool) -> bool {
    if by_owner {
        e.owner@ == fixed
    } else {
        e.spender@ == fixed
    }
}

pub open spec fn lists_allowances(
    m: Map<AllowanceKey, AllowanceResponse>,
    fixed: Seq<char>,
    by_owner: bool,
    r: Seq<AllowanceInfo>,
) -> bool {
    &&& forall|k: int|
        0 <= k < r.len() ==> m.contains_key(key_for(fixed, by_owner, #[trigger] r[k].party@)) && m[key_for(fixed, by_owner, 
            r[k].party@,
        )] == (AllowanceResponse { allowance: r[k].allowance, expires: r[k].expires })
    &&& forall|kk: AllowanceKey|
        #![trigger m.contains_key(kk)]
        m.contains_key(kk) && (if by_owner {
            kk.0 == fixed
        } else {
            kk.1 == fixed
        }) ==> exists|k: int|
            0 <= k < r.len() && key_for(fixed, by_owner, r[k].party@) == kk
    &&& forall|p: int, q: int|
        0 <= p < r.len() && 0 <= q < r.len() && p != q ==> #[trigger] r[p].party@
            != #[trigger] r[q].party@
}

impl AllowanceStore {
    /// The allowances that `fixed` gives (`by_owner`) or holds, each with the
    /// other party, in the order in which they were first set.
    fn list_allowances(&self, fixed: &String, by_owner: bool) -> (r: Vec<AllowanceInfo>)
        requires
            self.wf(),
        ensures
            lists_allowances(self@, fixed@, by_owner, r@),
    {
        let ghost s = self.entries@;
        let mut out: Vec<AllowanceInfo> = Vec::new();
        let ghost mut idx: Seq<int> = Seq::empty();
        let mut i: usize = 0;
        while i < self.entries.len()
            invariant
                s == self.entries@,
                unique(s),
                0 <= i <= s.len(),
                idx.len() == out@.len(),
                forall|k: int| 0 <= k < idx.len() ==> 0 <= #[trigger] idx[k] < i,
                forall|p: int, q: int| 0 <= p < q < idx.len() ==> #[trigger] idx[p] < #[trigger] idx[q],
                forall|k: int|
                    0 <= k < idx.len() ==> key(s[#[trigger] idx[k]]) == key_for(fixed@, by_owner, out@[k].party@)
                        && value(s[idx[k]]) == (AllowanceResponse {
                        allowance: out@[k].allowance,
                        expires: out@[k].expires,
                    }),
                forall|j: int|
                    0 <= j < i && picked(#[trigger] s[j], fixed@, by_owner) ==> exists|k: int|
                        0 <= k < idx.len() && idx[k] == j,
            decreases s.len() - i,
        {
            let e = &self.entries[i];
            let hit = if by_owner {
                e.owner == *fixed
            } else {
                e.spender == *fixed
            };
            assert(hit == picked(s[i as int], fixed@, by_owner));
            if hit {
                let party = if by_owner {
                    e.spender.clone()
                } else {
                    e.owner.clone()
                };
                let ghost out0 = out@;
                out.push(AllowanceInfo { party, allowance: e.allowance, expires: e.expires });
                proof {
                    let idx0 = idx;
                    idx = idx.push(i as int);
                    assert(key(s[i as int]) == key_for(fixed@, by_owner, party@));
                    assert forall|k: int| 0 <= k < idx0.len() implies out@[k] == out0[k] && #[trigger] idx[k] == idx0[k] by {}
                    assert forall|j: int|
                        0 <= j < i + 1 && picked(#[trigger] s[j], fixed@, by_owner) implies exists|k: int|
                            0 <= k < idx.len() && idx[k] == j by {
                        if j < i {
                            let k = choose|k: int| 0 <= k < idx0.len() && idx0[k] == j;
                            assert(idx[k] == j);
                        } else {
                            assert(idx[idx.len() - 1] == j);
                        }
                    }
                }
            }
            i = i + 1;
        }
        proof {
            let r = out@;
            assert forall|k: int|
                0 <= k < r.len() implies self@.contains_key(key_for(fixed@, by_owner, #[trigger] r[k].party@))
                && self@[key_for(fixed@, by_owner, r[k].party@)] == (AllowanceResponse {
                allowance: r[k].allowance,
                expires: r[k].expires,
            }) by {
                lemma_table_at(s, idx[k]);
            }
            assert forall|kk: AllowanceKey|
                #![trigger self@.contains_key(kk)]
                self@.contains_key(kk) && (if by_owner {
                    kk.0 == fixed@
                } else {
                    kk.1 == fixed@
                }) implies exists|k: int| 0 <= k < r.len() && key_for(fixed@, by_owner, r[k].party@) == kk by {
                let j = choose|j: int| 0 <= j < s.len() && key(s[j]) == kk;
                assert(picked(s[j], fixed@, by_owner));
                let k = choose|k: int| 0 <= k < idx.len() && idx[k] == j;
                assert(key_for(fixed@, by_owner, r[k].party@) == kk);
            }
            assert forall|p: int, q: int|
                0 <= p < r.len() && 0 <= q < r.len() && p != q implies #[trigger] r[p].party@
                != #[trigger] r[q].party@ by {
                if p < q {
                    assert(idx[p] < idx[q]);
                } else {
                    assert(idx[q] < idx[p]);
                }
                assert(key(s[idx[p]]) != key(s[idx[q]]));
            }
        }
        out
    }
}

/// The parties that `fixed` is paired with by an allowance.
pub open spec fn parties(m: Map<AllowanceKey, AllowanceResponse>, fixed: Seq<char>, by_owner: bool) -> Set<
    Seq<char>,
> {
    Set::new(|p: Seq<char>| m.contains_key(key_for(fixed, by_owner, p)))
}

/// `r` is the page of the allowances of `fixed` after the party `start`, by
/// ascending party, each with what it holds.
pub open spec fn is_allowance_page(
    m: Map<AllowanceKey, AllowanceResponse>,
    fixed: Seq<char>,
    by_owner: bool,
    start: Option<Seq<char>>,
    limit: nat,
    r: Seq<AllowanceInfo>,
) -> bool {
    &&& is_page(
        parties(m, fixed, by_owner),
        start,
        limit,
        r.map_values(|i: AllowanceInfo| i.party@),
    )
    &&& forall|k: int|
        0 <= k < r.len() ==> m[key_for(fixed, by_owner, #[trigger] r[k].party@)] == (
        AllowanceResponse { allowance: r[k].allowance, expires: r[k].expires })
}

impl AllowanceStore {
    /// The allowances that `fixed` gives (`by_owner`) or holds, by ascending
    /// other party: the page after `start_after`, at most `limit` long.
    pub fn page_allowances(
        &self,
        fixed: &String,
        by_owner: bool,
        start_after: &Option<String>,
        limit: Option<u32>,
    ) -> (r: Vec<AllowanceInfo>)
        requires
            self.wf(),
        ensures
            is_allowance_page(
                self@,
                fixed@,
                by_owner,
                opt_text(*start_after),
                effective_limit(limit),
                r@,
            ),
    {
        let all = self.list_allowances(fixed, by_owner);
        let mut names: Vec<String> = Vec::new();
        let mut i: usize = 0;
        while i < all.len()
            invariant
                0 <= i <= all@.len(),
                names@.len() == i,
                forall|k: int| 0 <= k < i ==> #[trigger] names@[k]@ == all@[k].party@,
            decreases all@.len() - i,
        {
            names.push(all[i].party.clone());
            i = i + 1;
        }
        proof {
            let m = self@;
            let ps = parties(m, fixed@, by_owner);
            let ns = texts(names@);
            assert forall|x: Seq<char>| ns.to_set().contains(x) == ps.contains(x) by {
                if ns.contains(x) {
                    let k = choose|k: int| 0 <= k < ns.len() && ns[k] == x;
                    assert(names@[k]@ == x);
                    assert(all@[k].party@ == x);
                }
                if ps.contains(x) {
                    let kk = key_for(fixed@, by_owner, x);
                    assert(m.contains_key(kk));
                    let k = choose|k: int|
                        0 <= k < all@.len() && key_for(fixed@, by_owner, all@[k].party@) == kk;
                    assert(all@[k].party@ == x);
                    assert(ns[k] == x);
                    assert(ns.contains(x));
                }
            }
            assert(ns.to_set() =~= ps);
        }
        let chosen = page(&names, start_after, page_limit(limit));
        proof {
            assert(texts(names@).to_set() =~= parties(self@, fixed@, by_owner));
            assert forall|p: int| 0 <= p < chosen@.len() implies parties(self@, fixed@, by_owner).contains(
                #[trigger] chosen@[p]@,
            ) by {
                assert(texts(chosen@)[p] == chosen@[p]@);
            }
        }
        let mut out: Vec<AllowanceInfo> = Vec::new();
        let mut j: usize = 0;
        while j < chosen.len()
            invariant
                self.wf(),
                0 <= j <= chosen@.len(),
                out@.len() == j,
                forall|p: int| 0 <= p < chosen@.len() ==> parties(self@, fixed@, by_owner).contains(
                    #[trigger] chosen@[p]@,
                ),
                forall|k: int|
                    0 <= k < j ==> #[trigger] out@[k].party@ == chosen@[k]@ && self@[key_for(
                        fixed@,
                        by_owner,
                        out@[k].party@,
                    )] == (AllowanceResponse {
                        allowance: out@[k].allowance,
                        expires: out@[k].expires,
                    }),
            decreases chosen@.len() - j,
        {
            assert(texts(chosen@)[j as int] == chosen@[j as int]@);
            let party = chosen[j].clone();
            let v = if by_owner {
                self.query_allowance(fixed, &party)
            } else {
                self.query_allowance(&party, fixed)
            };
            out.push(AllowanceInfo { party, allowance: v.allowance, expires: v.expires });
            j = j + 1;
        }
        proof {
            assert(out@.map_values(|i: AllowanceInfo| i.party@) =~= texts(chosen@));
        }
        out
    }
}

/// The allowance under `k` after it was raised by `amount`, as
/// `increase_allowance` leaves it.
pub open spec fn after_increase(
    m: Map<AllowanceKey, AllowanceResponse>,
    k: AllowanceKey,
    amount: u128,
    expires: Option<Expiration>,
) -> Map<AllowanceKey, AllowanceResponse> {
    m.insert(
        k,
        AllowanceResponse {
            allowance: (current(m, k).allowance + amount) as u128,
            expires: match expires {
                Some(e) => e,
                None => current(m, k).expires,
            },
        },
    )
}

/// Raising an allowance and then lowering it by all that it then holds
/// removes it, unless the expiry it is left with still lies ahead.
pub proof fn lemma_increase_then_decrease_removes(
    m: Map<AllowanceKey, AllowanceResponse>,
    k: AllowanceKey,
    amount: u128,
    expires: Option<Expiration>,
    b: BlockInfo,
)
    requires
        current(m, k).allowance + amount <= u128::MAX,
        !pending(after_increase(m, k, amount, expires)[k].expires, b),
    ensures
        after_decrease(
            after_increase(m, k, amount, expires),
            k,
            after_increase(m, k, amount, expires)[k].allowance,
            None,
            b,
        ) == m.remove(k),
        !after_decrease(
            after_increase(m, k, amount, expires),
            k,
            after_increase(m, k, amount, expires)[k].allowance,
            None,
            b,
        ).contains_key(k),
{
    let raised = after_increase(m, k, amount, expires);
    assert(after_decrease(raised, k, raised[k].allowance, None, b) =~= m.remove(k));
}

} // verus!
