use vstd::prelude::*;

use crate::error::ContractError;
use crate::scan::{effective_limit, is_page, opt_text, page, page_limit, texts};
use crate::history::{
    amount_at, value_at, lemma_at_settled, lemma_put_record, put_record, settled_by, sorted, History,
};

verus! {

/// One account: its address and the history of its balance.
pub struct Account {
    address: String,
    history: History,
}

/// Who may mint, and up to which total supply.
pub struct MinterData {
    pub minter: String,
    pub cap: Option<u128>,
}

/// An opening balance.
pub struct InitialBalance {
    pub address: String,
    pub amount: u128,
}

/// The holder of an optional authority is `who`.
pub open spec fn authorized(holder: Option<Seq<char>>, who: Seq<char>) -> bool {
    match holder {
        Some(h) => h == who,
        None => false,
    }
}

/// Tests that an optional authority is present and held by `who`.
pub fn is_authorized(holder: &Option<String>, who: &String) -> (r: bool)
    ensures
        r == authorized(opt_view(*holder), who@),
{
    match holder {
        Some(h) => *h == *who,
        None => false,
    }
}

pub open spec fn opt_view(s: Option<String>) -> Option<Seq<char>> {
    match s {
        Some(x) => Some(x@),
        None => None,
    }
}

/// No two opening balances name the same address.
pub open spec fn distinct_addresses(s: Seq<InitialBalance>) -> bool {
    forall|i: int, j: int|
        0 <= i < s.len() && 0 <= j < s.len() && i != j ==> #[trigger] s[i].address@
            != #[trigger] s[j].address@
}

/// The opening balance of `a`: the last listing of `a`, zero where it is
/// not listed.
pub open spec fn initial_amount(s: Seq<InitialBalance>, a: Seq<char>) -> u128
    decreases s.len(),
{
    if s.len() == 0 {
        0
    } else if s.last().address@ == a {
        s.last().amount
    } else {
        initial_amount(s.drop_last(), a)
    }
}

/// The sum of the opening balances.
pub open spec fn initial_total(s: Seq<InitialBalance>) -> int
    decreases s.len(),
{
    if s.len() == 0 {
        0
    } else {
        initial_total(s.drop_last()) + s.last().amount
    }
}

/// The highest total supply allowed: the cap where one is set.
pub open spec fn supply_limit(cap: Option<u128>) -> int {
    match cap {
        Some(c) => c as int,
        None => u128::MAX as int,
    }
}

spec fn account_amount(a: Account, h: u64) -> int {
    amount_at(a.history@, h) as int
}

/// The sum of the balances of `s` as of height `h`.
pub closed spec fn sum_at(s: Seq<Account>, h: u64) -> int
    decreases s.len(),
{
    if s.len() == 0 {
        0
    } else {
        sum_at(s.drop_last(), h) + account_amount(s.last(), h)
    }
}

spec fn unique(s: Seq<Account>) -> bool {
    forall|i: int, j: int|
        0 <= i < s.len() && 0 <= j < s.len() && i != j ==> #[trigger] s[i].address@
            != #[trigger] s[j].address@
}

spec fn balance_in(s: Seq<Account>, a: Seq<char>, h: u64) -> u128 {
    if exists|i: int| 0 <= i < s.len() && s[i].address@ == a {
        amount_at(s[choose|i: int| 0 <= i < s.len() && s[i].address@ == a].history@, h)
    } else {
        0
    }
}

proof fn lemma_balance_in(s: Seq<Account>, i: int, h: u64)
    requires
        unique(s),
        0 <= i < s.len(),
    ensures
        balance_in(s, s[i].address@, h) == amount_at(s[i].history@, h),
{
    let a = s[i].address@;
    assert(exists|k: int| 0 <= k < s.len() && s[k].address@ == a);
    let k = choose|k: int| 0 <= k < s.len() && s[k].address@ == a;
    if k != i {
        assert(s[k].address@ != s[i].address@);
    }
}

proof fn lemma_sum_update(s: Seq<Account>, i: int, x: Account, h: u64)
    requires
        0 <= i < s.len(),
    ensures
        sum_at(s.update(i, x), h) == sum_at(s, h) - account_amount(s[i], h) + account_amount(
            x,
            h,
        ),
    decreases s.len(),
{
    if i == s.len() - 1 {
        assert(s.update(i, x).drop_last() =~= s.drop_last());
    } else {
        lemma_sum_update(s.drop_last(), i, x, h);
        assert(s.update(i, x).drop_last() =~= s.drop_last().update(i, x));
    }
}

proof fn lemma_sum_push(s: Seq<Account>, x: Account, h: u64)
    ensures
        sum_at(s.push(x), h) == sum_at(s, h) + account_amount(x, h),
{
    assert(s.push(x).drop_last() =~= s);
}

proof fn lemma_two_le_sum(s: Seq<Account>, i: int, j: int, h: u64)
    requires
        0 <= i < s.len(),
        -1 <= j < s.len(),
        i != j,
    ensures
        account_amount(s[i], h) + (if j >= 0 {
            account_amount(s[j], h)
        } else {
            0
        }) <= sum_at(s, h),
        0 <= sum_at(s, h),
    decreases s.len(),
{
    let n = s.len() - 1;
    let t = s.drop_last();
    assert(sum_at(s, h) == sum_at(t, h) + account_amount(s[n], h));
    assert(forall|k: int| 0 <= k < n ==> t[k] == s[k]);
    if n == 0 {
        assert(sum_at(t, h) == 0);
    } else if i == n {
        if j >= 0 {
            lemma_two_le_sum(t, j, -1, h);
        } else {
            lemma_two_le_sum(t, 0, -1, h);
        }
    } else if j == n {
        lemma_two_le_sum(t, i, -1, h);
    } else {
        lemma_two_le_sum(t, i, j, h);
    }
}

/// The token's ledger: the balance history of every account, the history of
/// the total supply, and the mint authority. Heights come from outside and
/// never decrease from one operation to the next.
pub struct TokenLedger {
    accounts: Vec<Account>,
    supply: History,
    mint: Option<MinterData>,
    clock: u64,
}

impl TokenLedger {
    /// The balance of `a` as of height `h`: zero before its first credit.
    pub closed spec fn balance_at(&self, a: Seq<char>, h: u64) -> u128 {
        balance_in(self.accounts@, a, h)
    }

    /// The newest height at which the ledger changed.
    pub closed spec fn clock(&self) -> u64 {
        self.clock
    }

    /// The current balance of `a`.
    pub open spec fn balance(&self, a: Seq<char>) -> u128 {
        self.balance_at(a, self.clock())
    }

    /// The total supply as of height `h`: zero before the first record.
    pub closed spec fn supply_at(&self, h: u64) -> u128 {
        amount_at(self.supply@, h)
    }

    /// The current total supply.
    pub open spec fn total_supply(&self) -> u128 {
        self.supply_at(self.clock())
    }

    /// The sum of all balances as of height `h`.
    pub closed spec fn total_balance_at(&self, h: u64) -> int {
        sum_at(self.accounts@, h)
    }

    /// The address that may mint, if minting is enabled.
    pub closed spec fn minter(&self) -> Option<Seq<char>> {
        match self.mint {
            Some(m) => Some(m.minter@),
            None => None,
        }
    }

    /// The cap on the total supply, if minting is enabled and capped.
    pub closed spec fn cap(&self) -> Option<u128> {
        match self.mint {
            Some(m) => m.cap,
            None => None,
        }
    }

    /// The balance records of `a`: empty for an address never credited.
    pub closed spec fn history_of(&self, a: Seq<char>) -> Seq<(u64, u128)> {
        let s = self.accounts@;
        if exists|i: int| 0 <= i < s.len() && s[i].address@ == a {
            s[choose|i: int| 0 <= i < s.len() && s[i].address@ == a].history@
        } else {
            Seq::empty()
        }
    }

    /// The addresses that hold a balance record, in order of first credit.
    pub closed spec fn addresses(&self) -> Seq<Seq<char>> {
        self.accounts@.map_values(|a: Account| a.address@)
    }

    closed spec fn structure_ok(&self) -> bool {
        &&& unique(self.accounts@)
        &&& forall|i: int|
            0 <= i < self.accounts@.len() ==> sorted(#[trigger] self.accounts@[i].history@)
                && settled_by(self.accounts@[i].history@, self.clock)
        &&& sorted(self.supply@)
        &&& settled_by(self.supply@, self.clock)
    }

    /// Well-formed: the sum of the balances equals the total supply at every
    /// height, and the supply stays within the cap.
    pub closed spec fn wf(&self) -> bool {
        &&& self.structure_ok()
        &&& forall|h: u64| #[trigger] sum_at(self.accounts@, h) == amount_at(self.supply@, h)
        &&& self.total_supply() <= supply_limit(self.cap())
    }

    proof fn lemma_settled_balance(&self, a: Seq<char>, h: u64)
        requires
            self.structure_ok(),
            h >= self.clock,
        ensures
            self.balance_at(a, h) == self.balance(a),
            self.supply_at(h) == self.total_supply(),
    {
        lemma_at_settled(self.supply@, h);
        lemma_at_settled(self.supply@, self.clock);
        let s = self.accounts@;
        if exists|i: int| 0 <= i < s.len() && s[i].address@ == a {
            let i = choose|i: int| 0 <= i < s.len() && s[i].address@ == a;
            lemma_at_settled(s[i].history@, h);
            lemma_at_settled(s[i].history@, self.clock);
        }
    }

    /// Two distinct accounts hold no more than the total supply together.
    proof fn lemma_two_within_supply(&self, a: Seq<char>, b: Seq<char>)
        requires
            self.wf(),
            a != b,
        ensures
            self.balance(a) + self.balance(b) <= self.total_supply(),
    {
        let s = self.accounts@;
        let h = self.clock;
        assert(sum_at(s, h) == amount_at(self.supply@, h));
        if exists|i: int| 0 <= i < s.len() && s[i].address@ == a {
            let i = choose|i: int| 0 <= i < s.len() && s[i].address@ == a;
            if exists|j: int| 0 <= j < s.len() && s[j].address@ == b {
                let j = choose|j: int| 0 <= j < s.len() && s[j].address@ == b;
                lemma_two_le_sum(s, i, j, h);
            } else {
                lemma_two_le_sum(s, i, -1, h);
            }
        } else if exists|j: int| 0 <= j < s.len() && s[j].address@ == b {
            let j = choose|j: int| 0 <= j < s.len() && s[j].address@ == b;
            lemma_two_le_sum(s, j, -1, h);
        }
    }

    fn find(&self, addr: &String) -> (r: Option<usize>)
        ensures
            match r {
                Some(i) => i < self.accounts@.len() && self.accounts@[i as int].address@ == addr@,
                None => forall|i: int|
                    0 <= i < self.accounts@.len() ==> #[trigger] self.accounts@[i].address@
                        != addr@,
            },
    {
        let mut i: usize = 0;
        while i < self.accounts.len()
            invariant
                0 <= i <= self.accounts@.len(),
                forall|k: int| 0 <= k < i ==> #[trigger] self.accounts@[k].address@ != addr@,
            decreases self.accounts@.len() - i,
        {
            if self.accounts[i].address == *addr {
                return Some(i);
            }
            i = i + 1;
        }
        None
    }

    fn current(&self, addr: &String) -> (r: u128)
        requires
            self.structure_ok(),
        ensures
            r == self.balance(addr@),
    {
        match self.find(addr) {
            Some(i) => {
                proof {
                    lemma_balance_in(self.accounts@, i as int, self.clock);
                    lemma_at_settled(self.accounts@[i as int].history@, self.clock);
                }
                match self.accounts[i].history.get_latest() {
                    Some(v) => v,
                    None => 0,
                }
            },
            None => 0,
        }
    }

    /// Writes `value` as the balance of `addr` from `height` on.
    fn set_balance(&mut self, addr: &String, height: u64, value: u128)
        requires
            old(self).structure_ok(),
            height >= old(self).clock,
        ensures
            final(self).structure_ok(),
            final(self).clock == height,
            final(self).supply == old(self).supply,
            final(self).mint == old(self).mint,
            forall|a: Seq<char>, h: u64| #[trigger]
                final(self).balance_at(a, h) == if a == addr@ && h >= height {
                    value
                } else {
                    old(self).balance_at(a, h)
                },
            forall|h: u64| #[trigger]
                sum_at(final(self).accounts@, h) == sum_at(old(self).accounts@, h) + if h
                    >= height {
                    value - old(self).balance_at(addr@, h)
                } else {
                    0
                },
            forall|i: int|
                0 <= i < old(self).accounts@.len() ==> #[trigger] final(self).accounts@[i].address@
                    == old(self).accounts@[i].address@,
            final(self).accounts@.len() >= old(self).accounts@.len(),
    {
        let ghost s0 = self.accounts@;
        match self.find(addr) {
            Some(i) => {
                let mut acc = self.accounts.remove(i);
                assert(acc == s0[i as int]);
                acc.history.put(height, value);
                self.accounts.insert(i, acc);
                self.clock = height;
                let ghost s1 = self.accounts@;
                assert(s1 =~= s0.update(i as int, acc));
                proof {
                    assert(unique(s1)) by {
                        assert forall|p: int, q: int|
                            0 <= p < s1.len() && 0 <= q < s1.len() && p != q implies #[trigger] s1[p].address@
                            != #[trigger] s1[q].address@ by {
                            assert(s0[p].address@ != s0[q].address@);
                        }
                    }
                    assert forall|a: Seq<char>, h: u64| #[trigger]
                        self.balance_at(a, h) == if a == addr@ && h >= height {
                            value
                        } else {
                            old(self).balance_at(a, h)
                        } by {
                        lemma_put_record(s0[i as int].history@, height, value, h);
                        if a == addr@ {
                            lemma_balance_in(s1, i as int, h);
                            lemma_balance_in(s0, i as int, h);
                        } else if exists|k: int| 0 <= k < s0.len() && s0[k].address@ == a {
                            let k = choose|k: int| 0 <= k < s0.len() && s0[k].address@ == a;
                            lemma_balance_in(s1, k, h);
                            lemma_balance_in(s0, k, h);
                        } else {
                            assert(!exists|k: int| 0 <= k < s1.len() && s1[k].address@ == a);
                        }
                    }
                    assert forall|h: u64| #[trigger]
                        sum_at(self.accounts@, h) == sum_at(s0, h) + if h >= height {
                            value - old(self).balance_at(addr@, h)
                        } else {
                            0
                        } by {
                        lemma_put_record(s0[i as int].history@, height, value, h);
                        lemma_sum_update(s0, i as int, acc, h);
                        lemma_balance_in(s0, i as int, h);
                    }
                    assert forall|k: int| 0 <= k < s1.len() implies sorted(
                        #[trigger] s1[k].history@,
                    ) && settled_by(s1[k].history@, height) by {
                        if k != i {
                            assert(sorted(s0[k].history@));
                        }
                    }
                }
            },
            None => {
                let mut history = History::new();
                history.put(height, value);
                let acc = Account { address: addr.clone(), history };
                self.accounts.push(acc);
                self.clock = height;
                let ghost s1 = self.accounts@;
                assert(s1 =~= s0.push(acc));
                proof {
                    assert(unique(s1)) by {
                        assert forall|p: int, q: int|
                            0 <= p < s1.len() && 0 <= q < s1.len() && p != q implies #[trigger] s1[p].address@
                            != #[trigger] s1[q].address@ by {
                            if p < s0.len() && q < s0.len() {
                                assert(s0[p].address@ != s0[q].address@);
                            }
                        }
                    }
                    assert(!exists|k: int| 0 <= k < s0.len() && s0[k].address@ == addr@);
                    assert forall|a: Seq<char>, h: u64| #[trigger]
                        self.balance_at(a, h) == if a == addr@ && h >= height {
                            value
                        } else {
                            old(self).balance_at(a, h)
                        } by {
                        lemma_put_record(Seq::<(u64, u128)>::empty(), height, value, h);
                        if a == addr@ {
                            lemma_balance_in(s1, s0.len() as int, h);
                        } else if exists|k: int| 0 <= k < s0.len() && s0[k].address@ == a {
                            let k = choose|k: int| 0 <= k < s0.len() && s0[k].address@ == a;
                            lemma_balance_in(s1, k, h);
                            lemma_balance_in(s0, k, h);
                        } else {
                            assert(!exists|k: int| 0 <= k < s1.len() && s1[k].address@ == a);
                        }
                    }
                    assert forall|h: u64| #[trigger]
                        sum_at(self.accounts@, h) == sum_at(s0, h) + if h >= height {
                            value - old(self).balance_at(addr@, h)
                        } else {
                            0
                        } by {
                        lemma_put_record(Seq::<(u64, u128)>::empty(), height, value, h);
                        lemma_sum_push(s0, acc, h);
                    }
                    assert forall|k: int| 0 <= k < s1.len() implies sorted(
                        #[trigger] s1[k].history@,
                    ) && settled_by(s1[k].history@, height) by {
                        if k < s0.len() {
                            assert(sorted(s0[k].history@));
                        }
                    }
                }
            },
        }
    }
}

impl TokenLedger {
    /// The current balance of `addr`; zero for an address never credited.
    pub fn query_balance(&self, addr: &String) -> (r: u128)
        requires
            self.wf(),
        ensures
            r == self.balance(addr@),
    {
        self.current(addr)
    }

    /// The balance of `addr` as of height `h`.
    pub fn query_balance_at(&self, addr: &String, h: u64) -> (r: u128)
        requires
            self.wf(),
        ensures
            r == self.balance_at(addr@, h),
    {
        match self.find(addr) {
            Some(i) => self.history_amount(i, addr, h),
            None => 0,
        }
    }

    fn history_amount(&self, i: usize, addr: &String, h: u64) -> (r: u128)
        requires
            i < self.accounts@.len(),
            self.accounts@[i as int].address@ == addr@,
        ensures
            unique(self.accounts@) ==> r == self.balance_at(addr@, h),
    {
        proof {
            if unique(self.accounts@) {
                lemma_balance_in(self.accounts@, i as int, h);
            }
        }
        self.accounts[i].history.amount_at(h)
    }

    /// The total supply as of height `h`: the newest record at or before
    /// `h`, or zero where there is none.
    pub fn get_total_supply_at(&self, h: u64) -> (r: u128)
        ensures
            r == self.supply_at(h),
    {
        self.supply.amount_at(h)
    }

    /// The current total supply.
    pub fn query_total_supply(&self) -> (r: u128)
        requires
            self.wf(),
        ensures
            r == self.total_supply(),
    {
        proof {
            lemma_at_settled(self.supply@, self.clock);
        }
        match self.supply.get_latest() {
            Some(v) => v,
            None => 0,
        }
    }

    /// The newest height at which the ledger changed; operations take no
    /// earlier height.
    pub fn height(&self) -> (r: u64)
        ensures
            r == self.clock(),
    {
        self.clock
    }

    /// The minter and the cap, if minting is enabled.
    pub fn query_minter(&self) -> (r: Option<&MinterData>)
        ensures
            match r {
                Some(m) => self.minter() == Some(m.minter@) && self.cap() == m.cap,
                None => self.minter() is None && self.cap() is None,
            },
    {
        self.mint.as_ref()
    }

    /// Moves `amount` from `from` to `to` at `height`. The total supply is
    /// untouched; a transfer to oneself leaves the balance as it was.
    pub fn transfer(&mut self, from: &String, to: &String, amount: u128, height: u64) -> (r: Result<
        (),
        ContractError,
    >)
        requires
            old(self).wf(),
            height >= old(self).clock(),
        ensures
            final(self).wf(),
            r is Err <==> amount > old(self).balance(from@),
            r is Err ==> r == Err::<(), ContractError>(ContractError::InsufficientFunds) && *final(self) == *old(self),
            r is Ok ==> transferred(*old(self), *final(self), from@, to@, amount, height),
    {
        let from_balance = self.current(from);
        if amount > from_balance {
            return Err(ContractError::InsufficientFunds);
        }
        proof {
            if from@ != to@ {
                self.lemma_two_within_supply(from@, to@);
            }
        }
        self.set_balance(from, height, from_balance - amount);
        let to_balance = self.current(to);
        self.set_balance(to, height, to_balance + amount);
        proof {
            assert forall|h: u64| #[trigger]
                sum_at(self.accounts@, h) == amount_at(self.supply@, h) by {
                assert(sum_at(old(self).accounts@, h) == amount_at(old(self).supply@, h));
                if h >= height {
                    old(self).lemma_settled_balance(from@, h);
                    old(self).lemma_settled_balance(to@, h);
                }
            }
            assert forall|a: Seq<char>, h: u64| #[trigger]
                self.balance_at(a, h) == if h >= height {
                    old(self).balance(a) - (if a == from@ {
                        amount
                    } else {
                        0
                    }) + (if a == to@ {
                        amount
                    } else {
                        0
                    })
                } else {
                    old(self).balance_at(a, h) as int
                } by {
                if h >= height {
                    old(self).lemma_settled_balance(a, h);
                    old(self).lemma_settled_balance(from@, h);
                }
            }
            old(self).lemma_settled_balance(from@, height);
        }
        Ok(())
    }

    /// Creates `amount` new tokens for `recipient` at `height`, where
    /// `caller` holds the mint authority and the cap allows it.
    pub fn mint(&mut self, caller: &String, recipient: &String, amount: u128, height: u64) -> (r:
        Result<(), ContractError>)
        requires
            old(self).wf(),
            height >= old(self).clock(),
        ensures
            final(self).wf(),
            r is Ok <==> authorized(old(self).minter(), caller@) && old(self).total_supply()
                + amount <= supply_limit(old(self).cap()),
            !authorized(old(self).minter(), caller@) ==> r == Err::<(), ContractError>(
                ContractError::Unauthorized,
            ),
            authorized(old(self).minter(), caller@) && old(self).total_supply() + amount
                > supply_limit(old(self).cap()) ==> r == Err::<(), ContractError>(
                if old(self).cap() is Some {
                    ContractError::CapExceeded
                } else {
                    ContractError::ArithmeticOverflow
                },
            ),
            r is Err ==> *final(self) == *old(self),
            r is Ok ==> minted(*old(self), *final(self), recipient@, amount, height),
    {
        let cap = match &self.mint {
            Some(m) => {
                if m.minter != *caller {
                    return Err(ContractError::Unauthorized);
                }
                m.cap
            },
            None => {
                return Err(ContractError::Unauthorized);
            },
        };
        let supply = self.query_total_supply();
        let new_supply = match supply.checked_add(amount) {
            Some(v) => v,
            None => {
                return Err(
                    match cap {
                        Some(_) => ContractError::CapExceeded,
                        None => ContractError::ArithmeticOverflow,
                    },
                );
            },
        };
        match cap {
            Some(c) => {
                if new_supply > c {
                    return Err(ContractError::CapExceeded);
                }
            },
            None => {},
        }
                proof {
            let h = self.clock;
            assert(sum_at(self.accounts@, h) == amount_at(self.supply@, h));
            self.lemma_two_within_supply_one(recipient@);
        }
        let balance = self.current(recipient);
        self.set_balance(recipient, height, balance + amount);
        let ghost mid = *self;
        self.capture_total_supply_history(height, new_supply);
        proof {
            assert forall|h: u64| #[trigger]
                sum_at(self.accounts@, h) == amount_at(self.supply@, h) by {
                assert(sum_at(old(self).accounts@, h) == amount_at(old(self).supply@, h));
                lemma_put_record(old(self).supply@, height, new_supply, h);
                if h >= height {
                    old(self).lemma_settled_balance(recipient@, h);
                }
            }
            assert forall|h: u64| #[trigger]
                self.supply_at(h) == if h >= height {
                    old(self).total_supply() + amount
                } else {
                    old(self).supply_at(h) as int
                } by {
                lemma_put_record(old(self).supply@, height, new_supply, h);
            }
            assert forall|a: Seq<char>, h: u64| #[trigger]
                self.balance_at(a, h) == if h >= height {
                    old(self).balance(a) + (if a == recipient@ {
                        amount
                    } else {
                        0
                    })
                } else {
                    old(self).balance_at(a, h) as int
                } by {
                assert(self.balance_at(a, h) == mid.balance_at(a, h));
                if h >= height {
                    old(self).lemma_settled_balance(a, h);
                }
            }
            lemma_put_record(old(self).supply@, height, new_supply, height);
        }
        Ok(())
    }

    proof fn lemma_two_within_supply_one(&self, a: Seq<char>)
        requires
            self.wf(),
        ensures
            self.balance(a) <= self.total_supply(),
    {
        let s = self.accounts@;
        let h = self.clock;
        assert(sum_at(s, h) == amount_at(self.supply@, h));
        if exists|i: int| 0 <= i < s.len() && s[i].address@ == a {
            let i = choose|i: int| 0 <= i < s.len() && s[i].address@ == a;
            lemma_two_le_sum(s, i, -1, h);
        }
    }

    /// Records `total` as the total supply from `height` on.
    fn capture_total_supply_history(&mut self, height: u64, total: u128)
        requires
            sorted(old(self).supply@),
            settled_by(old(self).supply@, height),
        ensures
            final(self).supply@ == put_record(old(self).supply@, height, total),
            sorted(final(self).supply@),
            settled_by(final(self).supply@, height),
            final(self).accounts == old(self).accounts,
            final(self).mint == old(self).mint,
            final(self).clock == old(self).clock,
    {
        self.supply.put(height, total);
    }

    /// Destroys `amount` of the caller's tokens at `height`.
    pub fn burn(&mut self, caller: &String, amount: u128, height: u64) -> (r: Result<
        (),
        ContractError,
    >)
        requires
            old(self).wf(),
            height >= old(self).clock(),
        ensures
            final(self).wf(),
            r is Err <==> amount > old(self).balance(caller@),
            r is Err ==> r == Err::<(), ContractError>(ContractError::InsufficientFunds) && *final(self) == *old(self),
            r is Ok ==> burned(*old(self), *final(self), caller@, amount, height),
    {
        let balance = self.current(caller);
        if amount > balance {
            return Err(ContractError::InsufficientFunds);
        }
        proof {
            self.lemma_two_within_supply_one(caller@);
        }
        let supply = self.query_total_supply();
        let new_supply = match supply.checked_sub(amount) {
            Some(v) => v,
            None => {
                return Err(ContractError::InconsistentSupply);
            },
        };
        self.set_balance(caller, height, balance - amount);
        let ghost mid = *self;
        self.capture_total_supply_history(height, new_supply);
        proof {
            assert forall|h: u64| #[trigger]
                sum_at(self.accounts@, h) == amount_at(self.supply@, h) by {
                assert(sum_at(old(self).accounts@, h) == amount_at(old(self).supply@, h));
                lemma_put_record(old(self).supply@, height, new_supply, h);
                if h >= height {
                    old(self).lemma_settled_balance(caller@, h);
                }
            }
            assert forall|h: u64| #[trigger]
                self.supply_at(h) == if h >= height {
                    old(self).total_supply() - amount
                } else {
                    old(self).supply_at(h) as int
                } by {
                lemma_put_record(old(self).supply@, height, new_supply, h);
            }
            assert forall|a: Seq<char>, h: u64| #[trigger]
                self.balance_at(a, h) == if h >= height {
                    old(self).balance(a) - (if a == caller@ {
                        amount
                    } else {
                        0
                    })
                } else {
                    old(self).balance_at(a, h) as int
                } by {
                assert(self.balance_at(a, h) == mid.balance_at(a, h));
                if h >= height {
                    old(self).lemma_settled_balance(a, h);
                }
            }
            lemma_put_record(old(self).supply@, height, new_supply, height);
        }
        Ok(())
    }
}

proof fn lemma_initial_absent(s: Seq<InitialBalance>, a: Seq<char>)
    requires
        forall|k: int| 0 <= k < s.len() ==> #[trigger] s[k].address@ != a,
    ensures
        initial_amount(s, a) == 0,
    decreases s.len(),
{
    if s.len() > 0 {
        assert(s.last().address@ != a);
        lemma_initial_absent(s.drop_last(), a);
    }
}

proof fn lemma_prefix_total(s: Seq<InitialBalance>, i: int, j: int)
    requires
        0 <= i <= j <= s.len(),
    ensures
        initial_total(s.take(i)) <= initial_total(s.take(j)),
    decreases j - i,
{
    if i < j {
        lemma_prefix_total(s, i, j - 1);
        assert(s.take(j).drop_last() =~= s.take(j - 1));
    }
}

/// Checks that no address is listed twice among the opening balances.
pub fn validate_accounts(accounts: &Vec<InitialBalance>) -> (r: Result<(), ContractError>)
    ensures
        r == (if distinct_addresses(accounts@) {
            Ok(())
        } else {
            Err(ContractError::DuplicateAddress)
        }),
{
    let n = accounts.len();
    let mut i: usize = 0;
    while i < n
        invariant
            n == accounts@.len(),
            0 <= i <= n,
            forall|p: int, q: int|
                0 <= p < i && 0 <= q < n && p != q ==> #[trigger] accounts@[p].address@
                    != #[trigger] accounts@[q].address@,
        decreases n - i,
    {
        let mut j: usize = 0;
        while j < n
            invariant
                n == accounts@.len(),
                0 <= i < n,
                0 <= j <= n,
                forall|p: int, q: int|
                    0 <= p < i && 0 <= q < n && p != q ==> #[trigger] accounts@[p].address@
                        != #[trigger] accounts@[q].address@,
                forall|q: int| 0 <= q < j && q != i ==> #[trigger] accounts@[q].address@
                    != accounts@[i as int].address@,
            decreases n - j,
        {
            if j != i && accounts[j].address == accounts[i].address {
                return Err(ContractError::DuplicateAddress);
            }
            j = j + 1;
        }
        i = i + 1;
    }
    Ok(())
}

impl TokenLedger {
    /// A ledger that opens with the given balances at `height`, and with no
    /// mint authority. Its total supply is the sum of the opening balances.
    pub fn create_accounts(accounts: &Vec<InitialBalance>, height: u64) -> (r: Result<
        TokenLedger,
        ContractError,
    >)
        ensures
            r is Ok <==> distinct_addresses(accounts@) && initial_total(accounts@)
                <= u128::MAX,
            !distinct_addresses(accounts@) ==> r == Err::<TokenLedger, ContractError>(
                ContractError::DuplicateAddress,
            ),
            distinct_addresses(accounts@) && initial_total(accounts@) > u128::MAX ==> r
                == Err::<TokenLedger, ContractError>(ContractError::ArithmeticOverflow),
            r matches Ok(l) ==> {
                &&& l.wf()
                &&& l.clock() == height
                &&& l.minter() is None
                &&& l.cap() is None
                &&& l.total_supply() == initial_total(accounts@)
                &&& forall|h: u64| #[trigger]
                    l.supply_at(h) == if h >= height {
                        initial_total(accounts@)
                    } else {
                        0
                    }
                &&& forall|a: Seq<char>, h: u64| #[trigger]
                    l.balance_at(a, h) == if h >= height {
                        initial_amount(accounts@, a)
                    } else {
                        0
                    }
            },
    {
        validate_accounts(accounts)?;
        let mut ledger = TokenLedger {
            accounts: Vec::new(),
            supply: History::new(),
            mint: None,
            clock: height,
        };
        let mut total: u128 = 0;
        let n = accounts.len();
        let mut i: usize = 0;
        assert(accounts@.take(0) =~= Seq::<InitialBalance>::empty());
        while i < n
            invariant
                n == accounts@.len(),
                0 <= i <= n,
                distinct_addresses(accounts@),
                ledger.structure_ok(),
                ledger.clock == height,
                ledger.supply@ == Seq::<(u64, u128)>::empty(),
                ledger.mint is None,
                total == initial_total(accounts@.take(i as int)),
                forall|h: u64| #[trigger]
                    sum_at(ledger.accounts@, h) == if h >= height {
                        total as int
                    } else {
                        0
                    },
                forall|a: Seq<char>, h: u64| #[trigger]
                    ledger.balance_at(a, h) == if h >= height {
                        initial_amount(accounts@.take(i as int), a)
                    } else {
                        0
                    },
            decreases n - i,
        {
            let row = &accounts[i];
            let ghost pre = accounts@.take(i as int);
            let ghost post = accounts@.take(i + 1);
            assert(post.drop_last() =~= pre);
            total = match total.checked_add(row.amount) {
                Some(t) => t,
                None => {
                    proof {
                        lemma_prefix_total(accounts@, i + 1, n as int);
                        assert(accounts@.take(n as int) =~= accounts@);
                    }
                    return Err(ContractError::ArithmeticOverflow);
                },
            };
            proof {
                assert forall|k: int| 0 <= k < pre.len() implies #[trigger] pre[k].address@
                    != row.address@ by {
                    assert(accounts@[k].address@ != accounts@[i as int].address@);
                }
                lemma_initial_absent(pre, row.address@);
            }
            ledger.set_balance(&row.address, height, row.amount);
            i = i + 1;
        }
        assert(accounts@.take(n as int) =~= accounts@);
        let ghost built = ledger;
        if total != 0 {
            ledger.capture_total_supply_history(height, total);
        }
        proof {
            assert forall|h: u64| #[trigger]
                sum_at(ledger.accounts@, h) == amount_at(ledger.supply@, h) by {
                lemma_put_record(Seq::<(u64, u128)>::empty(), height, total, h);
            }
            lemma_put_record(Seq::<(u64, u128)>::empty(), height, total, height);
            assert forall|h: u64| #[trigger]
                ledger.supply_at(h) == if h >= height {
                    initial_total(accounts@)
                } else {
                    0
                } by {
                lemma_put_record(Seq::<(u64, u128)>::empty(), height, total, h);
            }
            assert forall|a: Seq<char>, h: u64| #[trigger]
                ledger.balance_at(a, h) == built.balance_at(a, h) by {}
        }
        Ok(ledger)
    }

    /// A ledger that opens with the given balances at `height` and with the
    /// given mint authority; the opening supply may not exceed its cap.
    pub fn new(accounts: &Vec<InitialBalance>, mint: Option<MinterData>, height: u64) -> (r:
        Result<TokenLedger, ContractError>)
        ensures
            r is Ok <==> distinct_addresses(accounts@) && initial_total(accounts@) <= u128::MAX
                && initial_total(accounts@) <= supply_limit(minter_cap(mint)),
            !distinct_addresses(accounts@) ==> r == Err::<TokenLedger, ContractError>(
                ContractError::DuplicateAddress,
            ),
            distinct_addresses(accounts@) && initial_total(accounts@) > u128::MAX ==> r
                == Err::<TokenLedger, ContractError>(ContractError::ArithmeticOverflow),
            distinct_addresses(accounts@) && initial_total(accounts@) <= u128::MAX
                && initial_total(accounts@) > supply_limit(minter_cap(mint)) ==> r
                == Err::<TokenLedger, ContractError>(ContractError::CapExceeded),
            r matches Ok(l) ==> {
                &&& l.wf()
                &&& l.clock() == height
                &&& l.minter() == minter_view(mint)
                &&& l.cap() == minter_cap(mint)
                &&& l.total_supply() == initial_total(accounts@)
                &&& forall|h: u64| #[trigger]
                    l.supply_at(h) == if h >= height {
                        initial_total(accounts@)
                    } else {
                        0
                    }
                &&& forall|a: Seq<char>, h: u64| #[trigger]
                    l.balance_at(a, h) == if h >= height {
                        initial_amount(accounts@, a)
                    } else {
                        0
                    }
            },
    {
        let mut ledger = TokenLedger::create_accounts(accounts, height)?;
        let total = ledger.query_total_supply();
        match &mint {
            Some(m) => match m.cap {
                Some(c) => {
                    if total > c {
                        return Err(ContractError::CapExceeded);
                    }
                },
                None => {},
            },
            None => {},
        }
        let ghost built = ledger;
        ledger.mint = mint;
        assert forall|a: Seq<char>, h: u64| #[trigger]
            ledger.balance_at(a, h) == built.balance_at(a, h) by {}
        assert forall|h: u64| #[trigger] ledger.supply_at(h) == built.supply_at(h) by {}
        Ok(ledger)
    }

    /// Hands the mint authority to `new_minter`, keeping the cap, or ends
    /// minting for good where `new_minter` is `None`. Only the current minter
    /// may do so.
    pub fn update_minter(&mut self, caller: &String, new_minter: Option<String>) -> (r: Result<
        (),
        ContractError,
    >)
        requires
            old(self).wf(),
        ensures
            final(self).wf(),
            r is Ok <==> authorized(old(self).minter(), caller@),
            r is Err ==> r == Err::<(), ContractError>(ContractError::Unauthorized) && *final(self) == *old(self),
            r is Ok ==> {
                &&& final(self).minter() == opt_view(new_minter)
                &&& final(self).cap() == (if new_minter is Some {
                    old(self).cap()
                } else {
                    None
                })
                &&& final(self).clock() == old(self).clock()
                &&& forall|h: u64| #[trigger] final(self).supply_at(h) == old(self).supply_at(h)
                &&& forall|a: Seq<char>, h: u64| #[trigger]
                    final(self).balance_at(a, h) == old(self).balance_at(a, h)
            },
    {
        let cap = match &self.mint {
            Some(m) => {
                if m.minter != *caller {
                    return Err(ContractError::Unauthorized);
                }
                m.cap
            },
            None => {
                return Err(ContractError::Unauthorized);
            },
        };
        self.mint = match new_minter {
            Some(minter) => Some(MinterData { minter, cap }),
            None => None,
        };
        Ok(())
    }

    /// The addresses that hold a balance record, in ascending order: the
    /// page after `start_after`, at most `limit` long.
    pub fn all_accounts(&self, start_after: &Option<String>, limit: Option<u32>) -> (r: Vec<String>)
        ensures
            is_page(
                self.addresses().to_set(),
                opt_text(*start_after),
                effective_limit(limit),
                texts(r@),
            ),
    {
        let all = self.addresses_in_order();
        page(&all, start_after, page_limit(limit))
    }

    fn addresses_in_order(&self) -> (r: Vec<String>)
        ensures
            texts(r@) == self.addresses(),
    {
        let mut out: Vec<String> = Vec::new();
        let mut i: usize = 0;
        while i < self.accounts.len()
            invariant
                0 <= i <= self.accounts@.len(),
                out@.len() == i,
                forall|k: int| 0 <= k < i ==> #[trigger] out@[k]@ == self.accounts@[k].address@,
            decreases self.accounts@.len() - i,
        {
            out.push(self.accounts[i].address.clone());
            i = i + 1;
        }
        assert(out@.map_values(|s: String| s@) =~= self.addresses());
        out
    }
}

/// `after` is `before` after `amount` moved from `from` to `to` at `height`.
pub open spec fn transferred(before: TokenLedger, after: TokenLedger, from: Seq<char>, to: Seq<char>, amount: u128, height: u64) -> bool {
    &&& after.clock() == height
    &&& after.minter() == before.minter()
    &&& after.cap() == before.cap()
    &&& forall|h: u64| #[trigger] after.supply_at(h) == before.supply_at(h)
    &&& forall|a: Seq<char>, h: u64| #[trigger]
        after.balance_at(a, h) == if h >= height {
            before.balance(a) - (if a == from {
                amount
            } else {
                0
            }) + (if a == to {
                amount
            } else {
                0
            })
        } else {
            before.balance_at(a, h) as int
        }
}

/// `after` is `before` after `amount` was minted for `recipient` at `height`.
pub open spec fn minted(before: TokenLedger, after: TokenLedger, recipient: Seq<char>, amount: u128, height: u64) -> bool {
    &&& after.clock() == height
    &&& after.minter() == before.minter()
    &&& after.cap() == before.cap()
    &&& after.total_supply() == before.total_supply() + amount
    &&& forall|h: u64| #[trigger]
        after.supply_at(h) == if h >= height {
            before.total_supply() + amount
        } else {
            before.supply_at(h) as int
        }
    &&& forall|a: Seq<char>, h: u64| #[trigger]
        after.balance_at(a, h) == if h >= height {
            before.balance(a) + (if a == recipient {
                amount
            } else {
                0
            })
        } else {
            before.balance_at(a, h) as int
        }
}

/// `after` is `before` after `caller` burned `amount` at `height`.
pub open spec fn burned(before: TokenLedger, after: TokenLedger, caller: Seq<char>, amount: u128, height: u64) -> bool {
    &&& after.clock() == height
    &&& after.minter() == before.minter()
    &&& after.cap() == before.cap()
    &&& after.total_supply() == before.total_supply() - amount
    &&& forall|h: u64| #[trigger]
        after.supply_at(h) == if h >= height {
            before.total_supply() - amount
        } else {
            before.supply_at(h) as int
        }
    &&& forall|a: Seq<char>, h: u64| #[trigger]
        after.balance_at(a, h) == if h >= height {
            before.balance(a) - (if a == caller {
                amount
            } else {
                0
            })
        } else {
            before.balance_at(a, h) as int
        }
}

pub open spec fn minter_view(m: Option<MinterData>) -> Option<Seq<char>> {
    match m {
        Some(d) => Some(d.minter@),
        None => None,
    }
}

pub open spec fn minter_cap(m: Option<MinterData>) -> Option<u128> {
    match m {
        Some(d) => d.cap,
        None => None,
    }
}

/// At every height, the balances of all accounts add up to the total supply
/// recorded for that height. Every operation keeps the ledger well-formed, so
/// this holds after any run of them.
pub proof fn lemma_conservation(l: &TokenLedger, h: u64)
    requires
        l.wf(),
    ensures
        l.total_balance_at(h) == l.supply_at(h) as int,
{
}

/// While a cap is set, the total supply stays within it.
pub proof fn lemma_cap_respected(l: &TokenLedger)
    requires
        l.wf(),
    ensures
        l.cap() matches Some(c) ==> l.total_supply() <= c,
{
}

/// Values persist forward: any read at or after the newest height of the
/// ledger gives the current balance and the current total supply.
pub proof fn lemma_reads_after_clock(l: &TokenLedger, a: Seq<char>, h: u64)
    requires
        l.wf(),
        h >= l.clock(),
    ensures
        l.balance_at(a, h) == l.balance(a),
        l.supply_at(h) == l.total_supply(),
{
    l.lemma_settled_balance(a, h);
}

/// Each balance is at most the total supply, and so are two distinct
/// balances together.
pub proof fn lemma_balances_within_supply(l: &TokenLedger, a: Seq<char>, b: Seq<char>)
    requires
        l.wf(),
    ensures
        l.balance(a) <= l.total_supply(),
        a != b ==> l.balance(a) + l.balance(b) <= l.total_supply(),
{
    l.lemma_two_within_supply_one(a);
    if a != b {
        l.lemma_two_within_supply(a, b);
    }
}

/// A balance read at height `h` is the value of the account's last record at
/// or before `h`, zero where there is none; its records are in height order
/// and none is newer than the ledger.
pub proof fn lemma_balance_history(l: &TokenLedger, a: Seq<char>, h: u64)
    requires
        l.wf(),
    ensures
        l.balance_at(a, h) == amount_at(l.history_of(a), h),
        sorted(l.history_of(a)),
        settled_by(l.history_of(a), l.clock()),
{
    let s = l.accounts@;
    if exists|i: int| 0 <= i < s.len() && s[i].address@ == a {
        let i = choose|i: int| 0 <= i < s.len() && s[i].address@ == a;
        assert(sorted(s[i].history@));
    } else {
        assert(value_at(Seq::<(u64, u128)>::empty(), h) is None);
    }
}

} // verus!
