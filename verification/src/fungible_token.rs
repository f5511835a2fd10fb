//! Dual-namespace balance ledger: host-identity balances and origin-address
//! balances, each an association list with pairwise-distinct keys, plus
//! running total-supply counters. The load-bearing invariant is `wf`: the
//! total supply always equals the sum of all balances across both namespaces,
//! and every mutating operation preserves it.
use crate::address::Address;
use crate::errors::ConnectorError;
use vstd::prelude::*;

verus! {

/// Keys of the entries are pairwise distinct (compared by view).
pub open spec fn distinct_keys<K: View>(s: Seq<(K, u128)>) -> bool {
    forall|i: int, j: int| 0 <= i < j < s.len() ==> #[trigger] s[i].0@ != #[trigger] s[j].0@
}

/// Some entry carries this key.
pub open spec fn assoc_has<K: View>(s: Seq<(K, u128)>, key: <K as View>::V) -> bool {
    exists|i: int| 0 <= i < s.len() && #[trigger] s[i].0@ == key
}

/// Index of the entry carrying this key (meaningful when `assoc_has` holds).
pub open spec fn assoc_at<K: View>(s: Seq<(K, u128)>, key: <K as View>::V) -> int {
    choose|i: int| 0 <= i < s.len() && #[trigger] s[i].0@ == key
}

/// Balance recorded for a key; absent keys hold zero.
pub open spec fn assoc_bal<K: View>(s: Seq<(K, u128)>, key: <K as View>::V) -> u128 {
    if assoc_has(s, key) {
        s[assoc_at(s, key)].1
    } else {
        0
    }
}

/// Sum of all balances in one namespace.
pub open spec fn sum_balances<K>(s: Seq<(K, u128)>) -> int
    decreases s.len(),
{
    if s.len() == 0 {
        0
    } else {
        sum_balances(s.drop_last()) + s.last().1
    }
}

pub proof fn lemma_sum_nonneg<K>(s: Seq<(K, u128)>)
    ensures
        sum_balances(s) >= 0,
    decreases s.len(),
{
    if s.len() > 0 {
        lemma_sum_nonneg(s.drop_last());
    }
}

/// Every single balance is bounded by the namespace sum.
pub proof fn lemma_sum_ge_element<K>(s: Seq<(K, u128)>, i: int)
    requires
        0 <= i < s.len(),
    ensures
        s[i].1 <= sum_balances(s),
    decreases s.len(),
{
    lemma_sum_nonneg(s.drop_last());
    if i < s.len() - 1 {
        lemma_sum_ge_element(s.drop_last(), i);
    }
}

/// A prefix never sums to more than the whole namespace.
pub proof fn lemma_sum_prefix_le<K>(s: Seq<(K, u128)>, n: int)
    requires
        0 <= n <= s.len(),
    ensures
        sum_balances(s.subrange(0, n)) <= sum_balances(s),
    decreases s.len() - n,
{
    if n == s.len() {
        assert(s.subrange(0, n) =~= s);
    } else {
        lemma_sum_prefix_le(s.drop_last(), n);
        assert(s.drop_last().subrange(0, n) =~= s.subrange(0, n));
    }
}

pub proof fn lemma_sum_update<K>(s: Seq<(K, u128)>, i: int, v: (K, u128))
    requires
        0 <= i < s.len(),
    ensures
        sum_balances(s.update(i, v)) == sum_balances(s) - s[i].1 + v.1,
    decreases s.len(),
{
    let t = s.update(i, v);
    if i == s.len() - 1 {
        assert(t.drop_last() =~= s.drop_last());
    } else {
        assert(t.drop_last() =~= s.drop_last().update(i, v));
        lemma_sum_update(s.drop_last(), i, v);
    }
}

pub proof fn lemma_sum_push<K>(s: Seq<(K, u128)>, v: (K, u128))
    ensures
        sum_balances(s.push(v)) == sum_balances(s) + v.1,
{
    assert(s.push(v).drop_last() =~= s);
}

/// Overwriting one entry with an equal key changes exactly that balance.
pub proof fn lemma_assoc_update<K: View>(s: Seq<(K, u128)>, i: int, v: (K, u128))
    requires
        distinct_keys(s),
        0 <= i < s.len(),
        v.0@ == s[i].0@,
    ensures
        distinct_keys(s.update(i, v)),
        forall|k: <K as View>::V| assoc_has(s.update(i, v), k) == assoc_has(s, k),
        assoc_bal(s.update(i, v), s[i].0@) == v.1,
        forall|k: <K as View>::V|
            k != s[i].0@ ==> assoc_bal(s.update(i, v), k) == assoc_bal(s, k),
{
    let t = s.update(i, v);
    assert(forall|j: int| 0 <= j < s.len() ==> #[trigger] t[j].0@ == s[j].0@);
    assert forall|k: <K as View>::V| assoc_has(t, k) == assoc_has(s, k) by {
        if assoc_has(s, k) {
            let w = assoc_at(s, k);
            assert(t[w].0@ == k);
        }
        if assoc_has(t, k) {
            let w = assoc_at(t, k);
            assert(s[w].0@ == k);
        }
    }
    assert(t[i].0@ == s[i].0@);
    assert(assoc_has(t, s[i].0@));
    let a = assoc_at(t, s[i].0@);
    assert(0 <= a < t.len() && t[a].0@ == s[i].0@);
    assert(a == i);
    assert forall|k: <K as View>::V| k != s[i].0@ implies assoc_bal(t, k) == assoc_bal(
        s,
        k,
    ) by {
        if assoc_has(s, k) {
            let ws = assoc_at(s, k);
            let wt = assoc_at(t, k);
            assert(0 <= ws < s.len() && s[ws].0@ == k);
            assert(assoc_has(t, k));
            assert(0 <= wt < t.len() && t[wt].0@ == k);
            assert(ws == wt);
            assert(wt != i);
        }
    }
}

/// Appending a fresh key leaves every other balance in place.
pub proof fn lemma_assoc_push<K: View>(s: Seq<(K, u128)>, v: (K, u128))
    requires
        distinct_keys(s),
        !assoc_has(s, v.0@),
    ensures
        distinct_keys(s.push(v)),
        assoc_has(s.push(v), v.0@),
        assoc_bal(s.push(v), v.0@) == v.1,
        forall|k: <K as View>::V| k != v.0@ ==> assoc_has(s.push(v), k) == assoc_has(s, k),
        forall|k: <K as View>::V| k != v.0@ ==> assoc_bal(s.push(v), k) == assoc_bal(s, k),
{
    let t = s.push(v);
    assert(forall|j: int| 0 <= j < s.len() ==> #[trigger] t[j].0@ == s[j].0@);
    assert(t[s.len() as int].0@ == v.0@);
    assert forall|k: <K as View>::V| k != v.0@ implies assoc_has(t, k) == assoc_has(s, k) by {
        if assoc_has(s, k) {
            let w = assoc_at(s, k);
            assert(t[w].0@ == k);
        }
        if assoc_has(t, k) {
            let w = assoc_at(t, k);
            assert(w < s.len());
            assert(s[w].0@ == k);
        }
    }
    let a = assoc_at(t, v.0@);
    assert(0 <= a < t.len() && t[a].0@ == v.0@);
    assert(a == s.len() as int);
    assert forall|k: <K as View>::V| k != v.0@ implies assoc_bal(t, k) == assoc_bal(s, k) by {
        if assoc_has(s, k) {
            let ws = assoc_at(s, k);
            let wt = assoc_at(t, k);
            assert(0 <= ws < s.len() && s[ws].0@ == k);
            assert(assoc_has(t, k));
            assert(0 <= wt < t.len() && t[wt].0@ == k);
            assert(wt != s.len() as int);
            assert(ws == wt);
        }
    }
}


/// Sum one namespace's balances, or report that they exceed `u128::MAX`.
fn sum_entries<K>(v: &Vec<(K, u128)>) -> (r: Option<u128>)
    ensures
        r matches Some(t) ==> t == sum_balances(v@) && sum_balances(v@) <= u128::MAX,
        r is None ==> sum_balances(v@) > u128::MAX,
{
    let mut total: u128 = 0;
    let mut i: usize = 0;
    proof {
        assert(v@.subrange(0, 0) =~= Seq::<(K, u128)>::empty());
    }
    while i < v.len()
        invariant
            i <= v@.len(),
            total as int == sum_balances(v@.subrange(0, i as int)),
        decreases v@.len() - i,
    {
        let x = v[i].1;
        proof {
            assert(v@.subrange(0, i + 1).drop_last() =~= v@.subrange(0, i as int));
            assert(sum_balances(v@.subrange(0, i + 1)) == total + x);
        }
        if x > u128::MAX - total {
            proof {
                lemma_sum_prefix_le(v@, i + 1);
            }
            return None;
        }
        total = total + x;
        i += 1;
    }
    proof {
        assert(v@.subrange(0, v@.len() as int) =~= v@);
    }
    Some(total)
}

/// The fungible-token ledger: balances addressable by host identity or by raw
/// origin-chain address, with per-namespace and combined supply counters.
pub struct FungibleToken {
    accounts: Vec<(String, u128)>,
    accounts_eth: Vec<(Address, u128)>,
    total_supply: u128,
    total_supply_near: u128,
    total_supply_eth: u128,
}

impl FungibleToken {
    pub closed spec fn spec_accounts(&self) -> Seq<(String, u128)> {
        self.accounts@
    }

    pub closed spec fn spec_accounts_eth(&self) -> Seq<(Address, u128)> {
        self.accounts_eth@
    }

    pub closed spec fn spec_total_supply(&self) -> u128 {
        self.total_supply
    }

    pub closed spec fn spec_total_supply_near(&self) -> u128 {
        self.total_supply_near
    }

    pub closed spec fn spec_total_supply_eth(&self) -> u128 {
        self.total_supply_eth
    }

    pub open spec fn host_registered(&self, k: Seq<char>) -> bool {
        assoc_has(self.spec_accounts(), k)
    }

    pub open spec fn host_balance(&self, k: Seq<char>) -> u128 {
        assoc_bal(self.spec_accounts(), k)
    }

    pub open spec fn eth_registered(&self, k: Seq<u8>) -> bool {
        assoc_has(self.spec_accounts_eth(), k)
    }

    pub open spec fn eth_balance(&self, k: Seq<u8>) -> u128 {
        assoc_bal(self.spec_accounts_eth(), k)
    }

    /// The ledger invariant: distinct keys per namespace, each namespace
    /// counter equal to the sum of its balances, and the combined supply
    /// equal to the sum of the two counters.
    pub open spec fn wf(&self) -> bool {
        &&& distinct_keys(self.spec_accounts())
        &&& distinct_keys(self.spec_accounts_eth())
        &&& self.spec_total_supply_near() == sum_balances(self.spec_accounts())
        &&& self.spec_total_supply_eth() == sum_balances(self.spec_accounts_eth())
        &&& self.spec_total_supply() == self.spec_total_supply_near()
            + self.spec_total_supply_eth()
    }

    /// An empty ledger: no accounts, zero supply.
    pub fn new() -> (r: Self)
        ensures
            r.wf(),
            r.spec_accounts() == Seq::<(String, u128)>::empty(),
            r.spec_accounts_eth() == Seq::<(Address, u128)>::empty(),
            r.spec_total_supply() == 0,
            r.spec_total_supply_near() == 0,
            r.spec_total_supply_eth() == 0,
    {
        FungibleToken {
            accounts: Vec::new(),
            accounts_eth: Vec::new(),
            total_supply: 0,
            total_supply_near: 0,
            total_supply_eth: 0,
        }
    }

    fn find_host(&self, account_id: &String) -> (r: Option<usize>)
        ensures
            r matches Some(i) ==> i < self.spec_accounts().len() && self.spec_accounts()[
                i as int
            ].0@ == account_id@,
            r is None ==> !self.host_registered(account_id@),
    {
        let mut i: usize = 0;
        while i < self.accounts.len()
            invariant
                i <= self.accounts@.len(),
                forall|j: int| 0 <= j < i ==> #[trigger] self.accounts@[j].0@ != account_id@,
            decreases self.accounts@.len() - i,
        {
            if self.accounts[i].0 == *account_id {
                return Some(i);
            }
            i += 1;
        }
        None
    }

    fn find_eth(&self, address: &Address) -> (r: Option<usize>)
        ensures
            r matches Some(i) ==> i < self.spec_accounts_eth().len() && self.spec_accounts_eth()[
                i as int
            ].0@ == address@,
            r is None ==> !self.eth_registered(address@),
    {
        let mut i: usize = 0;
        while i < self.accounts_eth.len()
            invariant
                i <= self.accounts_eth@.len(),
                forall|j: int| 0 <= j < i ==> #[trigger] self.accounts_eth@[j].0@ != address@,
            decreases self.accounts_eth@.len() - i,
        {
            if self.accounts_eth[i].0.eq_addr(address) {
                return Some(i);
            }
            i += 1;
        }
        None
    }

    /// Current balance of a host identity; zero when unregistered.
    pub fn ft_balance_of(&self, account_id: &String) -> (r: u128)
        requires
            self.wf(),
        ensures
            r == self.host_balance(account_id@),
    {
        match self.find_host(account_id) {
            Some(i) => {
                proof {
                    let a = assoc_at(self.spec_accounts(), account_id@);
                    assert(self.spec_accounts()[a].0@ == account_id@);
                    assert(a == i as int);
                }
                self.accounts[i].1
            },
            None => 0,
        }
    }

    /// Registration status and balance of a host identity.
    pub fn accounts_get(&self, account_id: &String) -> (r: Option<u128>)
        requires
            self.wf(),
        ensures
            r is Some <==> self.host_registered(account_id@),
            r matches Some(v) ==> v == self.host_balance(account_id@),
    {
        match self.find_host(account_id) {
            Some(i) => {
                proof {
                    let a = assoc_at(self.spec_accounts(), account_id@);
                    assert(self.spec_accounts()[a].0@ == account_id@);
                    assert(a == i as int);
                }
                Some(self.accounts[i].1)
            },
            None => None,
        }
    }

    /// Registration status and balance of an origin address.
    pub fn accounts_get_eth(&self, address: &Address) -> (r: Option<u128>)
        requires
            self.wf(),
        ensures
            r is Some <==> self.eth_registered(address@),
            r matches Some(v) ==> v == self.eth_balance(address@),
    {
        match self.find_eth(address) {
            Some(i) => {
                proof {
                    let a = assoc_at(self.spec_accounts_eth(), address@);
                    assert(self.spec_accounts_eth()[a].0@ == address@);
                    assert(a == i as int);
                }
                Some(self.accounts_eth[i].1)
            },
            None => None,
        }
    }

    /// Current balance of an origin address; zero when unregistered.
    pub fn internal_unwrap_balance_of_eth(&self, address: &Address) -> (r: u128)
        requires
            self.wf(),
        ensures
            r == self.eth_balance(address@),
    {
        match self.find_eth(address) {
            Some(i) => {
                proof {
                    let a = assoc_at(self.spec_accounts_eth(), address@);
                    assert(self.spec_accounts_eth()[a].0@ == address@);
                    assert(a == i as int);
                }
                self.accounts_eth[i].1
            },
            None => 0,
        }
    }

    /// Combined supply of both namespaces.
    pub fn ft_total_supply(&self) -> (r: u128)
        ensures
            r == self.spec_total_supply(),
    {
        self.total_supply
    }

    /// Supply held under host identities.
    pub fn ft_total_supply_near(&self) -> (r: u128)
        ensures
            r == self.spec_total_supply_near(),
    {
        self.total_supply_near
    }

    /// Supply held under origin addresses.
    pub fn ft_total_supply_eth(&self) -> (r: u128)
        ensures
            r == self.spec_total_supply_eth(),
    {
        self.total_supply_eth
    }

    /// Register a host identity with a zero balance; a no-op when it already
    /// exists. No balance and no supply counter changes.
    pub fn internal_register_account(&mut self, account_id: &String)
        requires
            old(self).wf(),
        ensures
            final(self).wf(),
            final(self).host_registered(account_id@),
            forall|k: Seq<char>|
                k != account_id@ ==> final(self).host_registered(k) == old(self).host_registered(k),
            forall|k: Seq<char>| #[trigger] final(self).host_balance(k) == old(self).host_balance(k),
            final(self).spec_accounts_eth() == old(self).spec_accounts_eth(),
            final(self).spec_total_supply() == old(self).spec_total_supply(),
            final(self).spec_total_supply_near() == old(self).spec_total_supply_near(),
            final(self).spec_total_supply_eth() == old(self).spec_total_supply_eth(),
    {
        match self.find_host(account_id) {
            Some(_) => {
                proof {
                    assert(self.host_registered(account_id@));
                }
            },
            None => {
                let ghost s0 = self.accounts@;
                let entry = (account_id.clone(), 0u128);
                let ghost e = entry;
                self.accounts.push(entry);
                proof {
                    assert(self.accounts@ =~= s0.push(e));
                    lemma_assoc_push(s0, e);
                    lemma_sum_push(s0, e);
                }
            },
        }
    }

    /// Credit a registered host identity. The supply bound in `requires` is
    /// what keeps every balance below `u128::MAX`.
    pub fn internal_deposit(&mut self, account_id: &String, amount: u128)
        requires
            old(self).wf(),
            old(self).host_registered(account_id@),
            old(self).spec_total_supply() + amount <= u128::MAX,
        ensures
            final(self).wf(),
            final(self).host_balance(account_id@) == old(self).host_balance(account_id@) + amount,
            forall|k: Seq<char>|
                k != account_id@ ==> #[trigger] final(self).host_balance(k) == old(self).host_balance(k),
            forall|k: Seq<char>|
                #[trigger] final(self).host_registered(k) == old(self).host_registered(k),
            final(self).spec_accounts_eth() == old(self).spec_accounts_eth(),
            final(self).spec_total_supply() == old(self).spec_total_supply() + amount,
            final(self).spec_total_supply_near() == old(self).spec_total_supply_near() + amount,
            final(self).spec_total_supply_eth() == old(self).spec_total_supply_eth(),
    {
        let i = match self.find_host(account_id) {
            Some(i) => i,
            None => {
                proof {
                    assert(false);
                }
                0
            },
        };
        let ghost s0 = self.accounts@;
        proof {
            lemma_sum_ge_element(s0, i as int);
            lemma_sum_nonneg(self.accounts_eth@);
        }
        let old_bal = self.accounts[i].1;
        let entry = (account_id.clone(), old_bal + amount);
        let ghost e = entry;
        self.accounts[i] = entry;
        proof {
            assert(self.accounts@ =~= s0.update(i as int, e));
            lemma_assoc_update(s0, i as int, e);
            lemma_sum_update(s0, i as int, e);
            let a = assoc_at(s0, account_id@);
            assert(s0[a].0@ == account_id@);
            assert(a == i as int);
        }
        self.total_supply = self.total_supply + amount;
        self.total_supply_near = self.total_supply_near + amount;
    }

    /// Debit a registered host identity; never below zero.
    pub fn internal_withdraw(&mut self, account_id: &String, amount: u128)
        requires
            old(self).wf(),
            old(self).host_registered(account_id@),
            amount <= old(self).host_balance(account_id@),
        ensures
            final(self).wf(),
            final(self).host_balance(account_id@) == old(self).host_balance(account_id@) - amount,
            forall|k: Seq<char>|
                k != account_id@ ==> #[trigger] final(self).host_balance(k) == old(self).host_balance(k),
            forall|k: Seq<char>|
                #[trigger] final(self).host_registered(k) == old(self).host_registered(k),
            final(self).spec_accounts_eth() == old(self).spec_accounts_eth(),
            final(self).spec_total_supply() == old(self).spec_total_supply() - amount,
            final(self).spec_total_supply_near() == old(self).spec_total_supply_near() - amount,
            final(self).spec_total_supply_eth() == old(self).spec_total_supply_eth(),
    {
        let i = match self.find_host(account_id) {
            Some(i) => i,
            None => {
                proof {
                    assert(false);
                }
                0
            },
        };
        let ghost s0 = self.accounts@;
        proof {
            lemma_sum_ge_element(s0, i as int);
            lemma_sum_nonneg(self.accounts_eth@);
            let a = assoc_at(s0, account_id@);
            assert(s0[a].0@ == account_id@);
            assert(a == i as int);
        }
        let old_bal = self.accounts[i].1;
        let entry = (account_id.clone(), old_bal - amount);
        let ghost e = entry;
        self.accounts[i] = entry;
        proof {
            assert(self.accounts@ =~= s0.update(i as int, e));
            lemma_assoc_update(s0, i as int, e);
            lemma_sum_update(s0, i as int, e);
        }
        self.total_supply = self.total_supply - amount;
        self.total_supply_near = self.total_supply_near - amount;
    }

    /// Credit an origin address, creating its entry when absent.
    pub fn internal_deposit_eth(&mut self, address: &Address, amount: u128)
        requires
            old(self).wf(),
            old(self).spec_total_supply() + amount <= u128::MAX,
        ensures
            final(self).wf(),
            final(self).eth_registered(address@),
            final(self).eth_balance(address@) == old(self).eth_balance(address@) + amount,
            forall|k: Seq<u8>|
                k != address@ ==> #[trigger] final(self).eth_balance(k) == old(self).eth_balance(k),
            forall|k: Seq<u8>|
                k != address@ ==> #[trigger] final(self).eth_registered(k) == old(self).eth_registered(k),
            final(self).spec_accounts() == old(self).spec_accounts(),
            final(self).spec_total_supply() == old(self).spec_total_supply() + amount,
            final(self).spec_total_supply_eth() == old(self).spec_total_supply_eth() + amount,
            final(self).spec_total_supply_near() == old(self).spec_total_supply_near(),
    {
        let ghost s0 = self.accounts_eth@;
        proof {
            lemma_sum_nonneg(self.accounts@);
        }
        match self.find_eth(address) {
            Some(i) => {
                proof {
                    lemma_sum_ge_element(s0, i as int);
                    let a = assoc_at(s0, address@);
                    assert(s0[a].0@ == address@);
                    assert(a == i as int);
                }
                let old_bal = self.accounts_eth[i].1;
                let entry = (address.clone(), old_bal + amount);
                let ghost e = entry;
                self.accounts_eth[i] = entry;
                proof {
                    assert(self.accounts_eth@ =~= s0.update(i as int, e));
                    lemma_assoc_update(s0, i as int, e);
                    lemma_sum_update(s0, i as int, e);
                    assert(assoc_has(s0, address@));
                    assert(assoc_has(self.accounts_eth@, address@));
                }
            },
            None => {
                let entry = (address.clone(), amount);
                let ghost e = entry;
                self.accounts_eth.push(entry);
                proof {
                    assert(self.accounts_eth@ =~= s0.push(e));
                    lemma_assoc_push(s0, e);
                    lemma_sum_push(s0, e);
                    assert(e.0@ == address@);
                    assert(assoc_has(self.accounts_eth@, address@));
                }
            },
        }
        self.total_supply = self.total_supply + amount;
        self.total_supply_eth = self.total_supply_eth + amount;
    }

    /// Debit a registered origin address; never below zero.
    pub fn internal_withdraw_eth(&mut self, address: &Address, amount: u128)
        requires
            old(self).wf(),
            old(self).eth_registered(address@),
            amount <= old(self).eth_balance(address@),
        ensures
            final(self).wf(),
            final(self).eth_balance(address@) == old(self).eth_balance(address@) - amount,
            forall|k: Seq<u8>|
                k != address@ ==> #[trigger] final(self).eth_balance(k) == old(self).eth_balance(k),
            forall|k: Seq<u8>|
                #[trigger] final(self).eth_registered(k) == old(self).eth_registered(k),
            final(self).spec_accounts() == old(self).spec_accounts(),
            final(self).spec_total_supply() == old(self).spec_total_supply() - amount,
            final(self).spec_total_supply_eth() == old(self).spec_total_supply_eth() - amount,
            final(self).spec_total_supply_near() == old(self).spec_total_supply_near(),
    {
        let i = match self.find_eth(address) {
            Some(i) => i,
            None => {
                proof {
                    assert(false);
                }
                0
            },
        };
        let ghost s0 = self.accounts_eth@;
        proof {
            lemma_sum_ge_element(s0, i as int);
            lemma_sum_nonneg(self.accounts@);
            let a = assoc_at(s0, address@);
            assert(s0[a].0@ == address@);
            assert(a == i as int);
        }
        let old_bal = self.accounts_eth[i].1;
        let entry = (address.clone(), old_bal - amount);
        let ghost e = entry;
        self.accounts_eth[i] = entry;
        proof {
            assert(self.accounts_eth@ =~= s0.update(i as int, e));
            lemma_assoc_update(s0, i as int, e);
            lemma_sum_update(s0, i as int, e);
        }
        self.total_supply = self.total_supply - amount;
        self.total_supply_eth = self.total_supply_eth - amount;
    }

    /// Move tokens between two distinct registered host identities. Fails
    /// with `InsufficientBalance`, and changes nothing, when the sender holds
    /// less than the amount; the supply counters never change.
    pub fn ft_transfer(&mut self, sender_id: &String, receiver_id: &String, amount: u128) -> (r:
        Result<(), ConnectorError>)
        requires
            old(self).wf(),
            sender_id@ != receiver_id@,
            old(self).host_registered(receiver_id@),
            amount > 0,
        ensures
            final(self).wf(),
            r is Ok <==> amount <= old(self).host_balance(sender_id@),
            r is Err ==> *final(self) == *old(self) && r == Err::<(), ConnectorError>(
                ConnectorError::InsufficientBalance,
            ),
            r is Ok ==> {
                &&& final(self).host_balance(sender_id@) == old(self).host_balance(sender_id@) - amount
                &&& final(self).host_balance(receiver_id@) == old(self).host_balance(receiver_id@)
                    + amount
                &&& forall|k: Seq<char>|
                    k != sender_id@ && k != receiver_id@ ==> #[trigger] final(self).host_balance(k) == old(
                        self,
                    ).host_balance(k)
            },
            forall|k: Seq<char>|
                #[trigger] final(self).host_registered(k) == old(self).host_registered(k),
            final(self).spec_accounts_eth() == old(self).spec_accounts_eth(),
            final(self).spec_total_supply() == old(self).spec_total_supply(),
            final(self).spec_total_supply_near() == old(self).spec_total_supply_near(),
            final(self).spec_total_supply_eth() == old(self).spec_total_supply_eth(),
    {
        let sender_balance = self.ft_balance_of(sender_id);
        if amount > sender_balance {
            return Err(ConnectorError::InsufficientBalance);
        }
        proof {
            assert(self.host_balance(sender_id@) > 0);
            assert(self.host_registered(sender_id@));
        }
        self.internal_withdraw(sender_id, amount);
        proof {
            lemma_sum_nonneg(self.spec_accounts_eth());
        }
        self.internal_deposit(receiver_id, amount);
        Ok(())
    }

    /// Settle a two-phase transfer: the receiver rejected `unused` of the
    /// `amount` previously moved from sender to receiver. Whatever of the
    /// rejection the receiver still holds is refunded to the sender; if the
    /// sender is no longer registered the refund is burned instead (a genuine
    /// supply reduction, never a counterfeit mint). Returns the amount that
    /// finally stayed with the receiver's side of the transfer.
    pub fn ft_resolve_transfer(
        &mut self,
        sender_id: &String,
        receiver_id: &String,
        amount: u128,
        unused: u128,
    ) -> (used: u128)
        requires
            old(self).wf(),
            sender_id@ != receiver_id@,
        ensures
            final(self).wf(),
            final(self).spec_accounts_eth() == old(self).spec_accounts_eth(),
            final(self).spec_total_supply_eth() == old(self).spec_total_supply_eth(),
            forall|k: Seq<char>|
                #[trigger] final(self).host_registered(k) == old(self).host_registered(k),
            ({
                let capped = if unused <= amount { unused as int } else { amount as int };
                let rb = old(self).host_balance(receiver_id@) as int;
                let refund = if rb <= capped { rb } else { capped };
                if refund == 0 {
                    &&& *final(self) == *old(self)
                    &&& used == amount
                } else if old(self).host_registered(sender_id@) {
                    &&& final(self).host_balance(receiver_id@) == rb - refund
                    &&& final(self).host_balance(sender_id@) == old(self).host_balance(sender_id@)
                        + refund
                    &&& forall|k: Seq<char>|
                        k != sender_id@ && k != receiver_id@ ==> #[trigger] final(self).host_balance(k)
                            == old(self).host_balance(k)
                    &&& final(self).spec_total_supply() == old(self).spec_total_supply()
                    &&& final(self).spec_total_supply_near() == old(self).spec_total_supply_near()
                    &&& used == amount - refund
                } else {
                    &&& final(self).host_balance(receiver_id@) == rb - refund
                    &&& forall|k: Seq<char>|
                        k != receiver_id@ ==> #[trigger] final(self).host_balance(k) == old(
                            self,
                        ).host_balance(k)
                    &&& final(self).spec_total_supply() == old(self).spec_total_supply() - refund
                    &&& final(self).spec_total_supply_near() == old(self).spec_total_supply_near()
                        - refund
                    &&& used == amount
                }
            }),
    {
        let capped = if unused <= amount {
            unused
        } else {
            amount
        };
        if capped == 0 {
            return amount;
        }
        let receiver_balance = self.ft_balance_of(receiver_id);
        if receiver_balance == 0 {
            return amount;
        }
        let refund = if receiver_balance <= capped {
            receiver_balance
        } else {
            capped
        };
        proof {
            assert(self.host_registered(receiver_id@));
        }
        self.internal_withdraw(receiver_id, refund);
        match self.accounts_get(sender_id) {
            Some(_) => {
                proof {
                    lemma_sum_nonneg(self.spec_accounts_eth());
                }
                self.internal_deposit(sender_id, refund);
                amount - refund
            },
            None => {
                // The sender is gone: the unrefundable part is burned.
                amount
            },
        }
    }

    /// The host-namespace entries, for persistence by the host.
    pub fn host_entries(&self) -> (r: &Vec<(String, u128)>)
        ensures
            r@ == self.spec_accounts(),
    {
        &self.accounts
    }

    /// The origin-namespace entries, for persistence by the host.
    pub fn eth_entries(&self) -> (r: &Vec<(Address, u128)>)
        ensures
            r@ == self.spec_accounts_eth(),
    {
        &self.accounts_eth
    }

    /// Rebuild a ledger from persisted entries, validating them: keys must
    /// be pairwise distinct in each namespace (else `DecodeError`) and the
    /// balances must sum to at most `u128::MAX` (else `Overflow`). The
    /// supply counters are recomputed, so the result always satisfies `wf`.
    pub fn from_entries(accounts: Vec<(String, u128)>, accounts_eth: Vec<(Address, u128)>) -> (r:
        Result<FungibleToken, ConnectorError>)
        ensures
            r is Ok <==> (distinct_keys(accounts@) && distinct_keys(accounts_eth@) && sum_balances(
                accounts@,
            ) + sum_balances(accounts_eth@) <= u128::MAX),
            r matches Ok(ft) ==> {
                &&& ft.wf()
                &&& ft.spec_accounts() == accounts@
                &&& ft.spec_accounts_eth() == accounts_eth@
            },
            !(distinct_keys(accounts@) && distinct_keys(accounts_eth@)) ==> r == Err::<
                FungibleToken,
                ConnectorError,
            >(ConnectorError::DecodeError),
            distinct_keys(accounts@) && distinct_keys(accounts_eth@) && sum_balances(accounts@)
                + sum_balances(accounts_eth@) > u128::MAX ==> r == Err::<
                FungibleToken,
                ConnectorError,
            >(ConnectorError::Overflow),
    {
        let mut i: usize = 0;
        while i < accounts.len()
            invariant
                i <= accounts@.len(),
                forall|a: int, b: int|
                    0 <= a < b < accounts@.len() && a < i ==> #[trigger] accounts@[a].0@
                        != #[trigger] accounts@[b].0@,
            decreases accounts@.len() - i,
        {
            let mut j: usize = i + 1;
            while j < accounts.len()
                invariant
                    i < j,
                    i < accounts@.len(),
                    j <= accounts@.len(),
                    forall|b: int|
                        i < b < j ==> accounts@[i as int].0@ != #[trigger] accounts@[b].0@,
                decreases accounts@.len() - j,
            {
                if accounts[i].0 == accounts[j].0 {
                    return Err(ConnectorError::DecodeError);
                }
                j += 1;
            }
            i += 1;
        }
        let mut i: usize = 0;
        while i < accounts_eth.len()
            invariant
                i <= accounts_eth@.len(),
                forall|a: int, b: int|
                    0 <= a < b < accounts_eth@.len() && a < i ==> #[trigger] accounts_eth@[a].0@
                        != #[trigger] accounts_eth@[b].0@,
            decreases accounts_eth@.len() - i,
        {
            let mut j: usize = i + 1;
            while j < accounts_eth.len()
                invariant
                    i < j,
                    i < accounts_eth@.len(),
                    j <= accounts_eth@.len(),
                    forall|b: int|
                        i < b < j ==> accounts_eth@[i as int].0@ != #[trigger] accounts_eth@[b].0@,
                decreases accounts_eth@.len() - j,
            {
                if accounts_eth[i].0.eq_addr(&accounts_eth[j].0) {
                    return Err(ConnectorError::DecodeError);
                }
                j += 1;
            }
            i += 1;
        }
        let total_near = match sum_entries(&accounts) {
            Some(t) => t,
            None => {
                proof {
                    lemma_sum_nonneg(accounts_eth@);
                }
                return Err(ConnectorError::Overflow);
            },
        };
        let total_eth = match sum_entries(&accounts_eth) {
            Some(t) => t,
            None => {
                proof {
                    lemma_sum_nonneg(accounts@);
                }
                return Err(ConnectorError::Overflow);
            },
        };
        if total_eth > u128::MAX - total_near {
            return Err(ConnectorError::Overflow);
        }
        Ok(
            FungibleToken {
                accounts,
                accounts_eth,
                total_supply: total_near + total_eth,
                total_supply_near: total_near,
                total_supply_eth: total_eth,
            },
        )
    }

    /// The ledger invariant spelled out: the combined total supply equals the
    /// sum of all host-identity balances plus all origin-address balances.
    pub proof fn lemma_total_supply_is_sum_of_balances(&self)
        requires
            self.wf(),
        ensures
            self.spec_total_supply() as int == sum_balances(self.spec_accounts()) + sum_balances(
                self.spec_accounts_eth(),
            ),
    {
    }
}

} // verus!
