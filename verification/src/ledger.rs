//! The ledger's state: the optional administrator and the accounts, one per
//! user, kept in ascending order of user identity.

use vstd::prelude::*;
use crate::account::AccountView;
use crate::account::RoyaltyAccount;
use crate::listing::accounts_of;
use crate::listing::index_of;
use crate::listing::lemma_after_skips;
use crate::listing::lemma_index_of;
use crate::listing::lemma_list_insert;
use crate::listing::lemma_list_remove;
use crate::listing::lemma_list_update;
use crate::listing::lemma_ordered_by_neighbours;
use crate::listing::Listing;
use crate::listing::ordered;
use crate::listing::page_of;
use crate::msg::RoyaltyAccountResponse;
use crate::order::compare_keys;
use crate::order::KeyOrder;
use crate::order::lemma_precedes_asymmetric;
use crate::order::lemma_precedes_irreflexive;
use crate::order::lemma_precedes_total;
use crate::order::lemma_precedes_transitive;
use crate::order::precedes;

verus! {

/// The singleton configuration of an admin-gated ledger.
#[derive(Clone, Debug, PartialEq, Eq)]
pub struct Config {
    /// The identity that alone may change the ledger.
    pub admin: String,
}

/// `account` can stand in a ledger: its balances fit, and on a gated ledger
/// it owes something and carries no burn history.
pub open spec fn admitted(gated: bool, account: AccountView) -> bool {
    &&& account.bounded()
    &&& gated ==> account.total_burned == 0 && account.accrued_amount > 0
}

/// `list` can be the accounts of a ledger: it is in ascending order of user
/// and each of its accounts can stand in the ledger.
pub open spec fn restorable(gated: bool, list: Listing) -> bool {
    &&& ordered(list)
    &&& forall|i: int| 0 <= i < list.len() ==> admitted(gated, (#[trigger] list[i]).1)
}

/// A ledger as plain values: who administers it, if anyone, and what each
/// user's account holds.
pub struct LedgerView {
    pub admin: Option<Seq<char>>,
    pub accounts: Map<Seq<char>, AccountView>,
}

impl LedgerView {
    /// The ledger is admin-gated: it has an administrator, keeps no burn
    /// history and drops an account once nothing is owed on it. A ledger
    /// without administrator is open: it keeps every account and its burn
    /// history for good.
    pub open spec fn gated(self) -> bool {
        self.admin is Some
    }

    /// `sender` may change the ledger.
    pub open spec fn authorizes(self, sender: Seq<char>) -> bool {
        self.admin is None || self.admin == Some(sender)
    }

    /// `account` can stand in this ledger.
    pub open spec fn admits(self, account: AccountView) -> bool {
        admitted(self.gated(), account)
    }

    /// Every account can stand in this ledger.
    pub open spec fn wf(self) -> bool {
        forall|user: Seq<char>| #[trigger]
            self.accounts.dom().contains(user) ==> self.admits(self.accounts[user])
    }

    /// The account of `user`, if there is one.
    pub open spec fn account(self, user: Seq<char>) -> Option<AccountView> {
        if self.accounts.dom().contains(user) {
            Some(self.accounts[user])
        } else {
            None
        }
    }

    /// What `user` is owed: the balance of its account, nothing without one.
    pub open spec fn owed(self, user: Seq<char>) -> nat {
        match self.account(user) {
            Some(account) => account.accrued_amount,
            None => 0,
        }
    }

    /// What was ever settled for `user`, as far as the ledger tells.
    pub open spec fn burned(self, user: Seq<char>) -> nat {
        match self.account(user) {
            Some(account) => account.total_burned,
            None => 0,
        }
    }
}

/// The state of a royalty ledger.
#[derive(Clone, Debug, PartialEq, Eq)]
pub struct Ledger {
    config: Option<Config>,
    entries: Vec<(String, RoyaltyAccount)>,
}

impl View for Ledger {
    type V = LedgerView;

    open spec fn view(&self) -> LedgerView {
        LedgerView { admin: self.admin(), accounts: accounts_of(self.listing()) }
    }
}

impl Ledger {
    /// The administrator, if the ledger is gated.
    pub closed spec fn admin(&self) -> Option<Seq<char>> {
        match self.config {
            Some(config) => Some(config.admin@),
            None => None,
        }
    }

    /// The accounts with their users, in the order of the store.
    pub closed spec fn listing(&self) -> Listing {
        Seq::new(self.entries@.len(), |i: int| (self.entries@[i].0@, self.entries@[i].1@))
    }

    /// The ledger is well formed: its accounts are in ascending order of
    /// user and each can stand in it.
    pub open spec fn wf(&self) -> bool {
        &&& ordered(self.listing())
        &&& self@.wf()
    }

    /// A ledger without accounts, gated by `admin` if there is one.
    pub fn new(admin: Option<String>) -> (ledger: Ledger)
        ensures
            ledger.wf(),
            ledger.listing() == Listing::empty(),
            ledger@.accounts == Map::<Seq<char>, AccountView>::empty(),
            match admin {
                Some(name) => ledger@.admin == Some(name@),
                None => ledger@.admin is None,
            },
    {
        let config = match admin {
            Some(name) => Some(Config { admin: name }),
            None => None,
        };
        let ledger = Ledger { config, entries: Vec::new() };
        assert(ledger.listing() =~= Seq::empty());
        assert(ledger@.accounts =~= Map::empty());
        ledger
    }

    /// The configuration, if the ledger is gated.
    pub fn config(&self) -> (config: Option<&Config>)
        ensures
            match config {
                Some(c) => self@.admin == Some(c.admin@),
                None => self@.admin is None,
            },
    {
        self.config.as_ref()
    }

    /// How many accounts the ledger holds.
    pub fn len(&self) -> (n: usize)
        ensures
            n == self.listing().len(),
    {
        self.entries.len()
    }

    /// `sender` may change the ledger.
    pub fn authorizes(&self, sender: &str) -> (yes: bool)
        ensures
            yes == self@.authorizes(sender@),
    {
        match &self.config {
            Some(config) => match compare_keys(config.admin.as_str(), sender) {
                KeyOrder::Same => true,
                _ => false,
            },
            None => true,
        }
    }

    /// Where `user` stands or would stand: the number of accounts whose user
    /// comes before it, and whether the account at that place is its own.
    pub(crate) fn locate(&self, user: &str) -> (place: (usize, bool))
        requires
            ordered(self.listing()),
        ensures
            place.0 <= self.listing().len(),
            forall|i: int| 0 <= i < place.0 ==> precedes(#[trigger] self.listing()[i].0, user@),
            place.1 ==> place.0 < self.listing().len() && self.listing()[place.0 as int].0 == user@,
            !place.1 ==> forall|i: int|
                place.0 <= i < self.listing().len() ==> precedes(
                    user@,
                    #[trigger] self.listing()[i].0,
                ),
            place.1 == self@.accounts.dom().contains(user@),
    {
        let mut low: usize = 0;
        let mut high: usize = self.entries.len();
        while low < high
            invariant
                ordered(self.listing()),
                low <= high <= self.entries@.len(),
                forall|i: int| 0 <= i < low ==> precedes(#[trigger] self.listing()[i].0, user@),
                forall|i: int|
                    high <= i < self.entries@.len() ==> !precedes(
                        #[trigger] self.listing()[i].0,
                        user@,
                    ),
            decreases high - low,
        {
            let mid: usize = low + (high - low) / 2;
            let ghost list = self.listing();
            match compare_keys(self.entries[mid].0.as_str(), user) {
                KeyOrder::Before => {
                    assert forall|i: int| 0 <= i < mid + 1 implies precedes(
                        #[trigger] list[i].0,
                        user@,
                    ) by {
                        if i < mid {
                            assert(precedes(list[i].0, list[mid as int].0));
                            lemma_precedes_transitive(list[i].0, list[mid as int].0, user@);
                        }
                    }
                    low = mid + 1;
                },
                _ => {
                    assert forall|i: int| mid <= i < list.len() implies !precedes(
                        #[trigger] list[i].0,
                        user@,
                    ) by {
                        if i > mid && precedes(list[i].0, user@) {
                            assert(precedes(list[mid as int].0, list[i].0));
                            lemma_precedes_transitive(list[mid as int].0, list[i].0, user@);
                        }
                    }
                    high = mid;
                },
            }
        }
        let ghost list = self.listing();
        let found = if low < self.entries.len() {
            match compare_keys(self.entries[low].0.as_str(), user) {
                KeyOrder::Same => true,
                _ => false,
            }
        } else {
            false
        };
        proof {
            if found {
                lemma_index_of(list, low as int);
            } else {
                assert forall|i: int| low <= i < list.len() implies precedes(
                    user@,
                    #[trigger] list[i].0,
                ) by {
                    lemma_precedes_total(list[i].0, user@);
                    if i > low {
                        // were this the user, the account at `low` would come before it
                        assert(precedes(list[low as int].0, list[i].0));
                    }
                }
                // so the user is at no place, before `low` or after
                lemma_precedes_irreflexive(user@);
            }
        }
        (low, found)
    }

    /// The account of `user`, if it has one.
    pub fn get(&self, user: &str) -> (account: Option<&RoyaltyAccount>)
        requires
            self.wf(),
        ensures
            match account {
                Some(a) => self@.account(user@) == Some(a@),
                None => self@.account(user@) is None,
            },
    {
        let (at, found) = self.locate(user);
        if found {
            proof {
                lemma_index_of(self.listing(), at as int);
            }
            Some(&self.entries[at].1)
        } else {
            None
        }
    }

    /// Records `account` for `user`, in place of the one that it had, if any.
    pub(crate) fn upsert(&mut self, user: &str, account: RoyaltyAccount)
        requires
            old(self).wf(),
            old(self)@.admits(account@),
        ensures
            final(self).wf(),
            final(self)@.admin == old(self)@.admin,
            final(self)@.accounts == old(self)@.accounts.insert(user@, account@),
    {
        let (at, found) = self.locate(user);
        let ghost list = self.listing();
        if found {
            self.entries.set(at, (user.to_owned(), account));
            proof {
                lemma_list_update(list, at as int, account@);
                assert(self.listing() =~= list.update(at as int, (user@, account@)));
            }
        } else {
            self.entries.insert(at, (user.to_owned(), account));
            proof {
                lemma_list_insert(list, at as int, user@, account@);
                assert(self.listing() =~= list.insert(at as int, (user@, account@)));
            }
        }
    }

    /// Drops the account of `user`, if it has one.
    pub(crate) fn remove(&mut self, user: &str)
        requires
            old(self).wf(),
        ensures
            final(self).wf(),
            final(self)@.admin == old(self)@.admin,
            final(self)@.accounts == old(self)@.accounts.remove(user@),
    {
        let (at, found) = self.locate(user);
        let ghost list = self.listing();
        if found {
            let _ = self.entries.remove(at);
            proof {
                lemma_list_remove(list, at as int);
                assert(self.listing() =~= list.remove(at as int));
            }
        } else {
            assert(self@.accounts =~= self@.accounts.remove(user@));
        }
    }

    /// Hands a gated ledger to a new administrator.
    pub(crate) fn set_admin(&mut self, admin: String)
        requires
            old(self).wf(),
            old(self)@.gated(),
        ensures
            final(self).wf(),
            final(self)@.admin == Some(admin@),
            final(self)@.accounts == old(self)@.accounts,
            final(self).listing() == old(self).listing(),
    {
        let ghost before = self@;
        self.config = Some(Config { admin });
        assert forall|user: Seq<char>| #[trigger]
            self@.accounts.dom().contains(user) implies self@.admits(self@.accounts[user]) by {
            assert(before.admits(before.accounts[user]));
        }
    }

    /// One page of accounts in ascending order of user: at most `limit` of
    /// them, starting strictly after `start_after` where that is given.
    pub fn page(&self, start_after: Option<&str>, limit: usize) -> (accounts: Vec<
        RoyaltyAccountResponse,
    >)
        requires
            self.wf(),
        ensures
            accounts@.len() <= limit,
            Seq::new(accounts@.len(), |i: int| accounts@[i]@) == page_of(
                self.listing(),
                match start_after {
                    Some(cursor) => Some(cursor@),
                    None => None,
                },
                limit as nat,
            ),
    {
        let ghost list = self.listing();
        let from: usize = match start_after {
            Some(cursor) => {
                let (at, found) = self.locate(cursor);
                let count: usize = self.entries.len();
                assert(list.len() == count);
                let from: usize = if found { at + 1 } else { at };
                proof {
                    assert forall|i: int| 0 <= i < from implies !precedes(
                        cursor@,
                        #[trigger] list[i].0,
                    ) by {
                        if i < at {
                            lemma_precedes_asymmetric(list[i].0, cursor@);
                        } else {
                            lemma_precedes_irreflexive(cursor@);
                        }
                    }
                    if found && from < list.len() {
                        assert(precedes(list[at as int].0, list[from as int].0));
                    }
                    lemma_after_skips(list, cursor@, from as int);
                }
                from
            },
            None => {
                assert(list.skip(0) =~= list);
                0
            },
        };
        let ghost rest = list.skip(from as int);
        let until: usize = if limit < self.entries.len() - from {
            from + limit
        } else {
            self.entries.len()
        };
        let mut accounts: Vec<RoyaltyAccountResponse> = Vec::new();
        let mut i: usize = from;
        while i < until
            invariant
                from <= i <= until <= self.entries@.len(),
                list == self.listing(),
                accounts@.len() == i - from,
                forall|k: int|
                    0 <= k < accounts@.len() ==> (#[trigger] accounts@[k])@ == list[from + k],
            decreases until - i,
        {
            let entry = &self.entries[i];
            accounts.push(
                RoyaltyAccountResponse {
                    user: entry.0.clone(),
                    evm_address: entry.1.evm_address.clone(),
                    accrued_amount: entry.1.accrued_amount,
                    total_burned: entry.1.total_burned,
                },
            );
            i += 1;
        }
        proof {
            let shown = Seq::new(accounts@.len(), |i: int| accounts@[i]@);
            if limit < rest.len() {
                assert(shown =~= rest.take(limit as int));
            } else {
                assert(shown =~= rest);
            }
        }
        accounts
    }

    /// Builds a ledger from accounts that were stored earlier. They must
    /// come in ascending order of user, each user once, and each account
    /// must be one that a ledger with this administrator admits; `None`
    /// otherwise.
    pub fn restore(admin: Option<String>, accounts: Vec<RoyaltyAccountResponse>) -> (restored:
        Option<Ledger>)
        ensures
            restored is Some <==> restorable(
                admin is Some,
                Seq::new(accounts@.len(), |i: int| accounts@[i]@),
            ),
            restored matches Some(ledger) ==> {
                &&& ledger.wf()
                &&& ledger.listing() == Seq::new(accounts@.len(), |i: int| accounts@[i]@)
                &&& match admin {
                    Some(name) => ledger@.admin == Some(name@),
                    None => ledger@.admin is None,
                }
            },
    {
        let mut ledger = Ledger::new(admin);
        let ghost list = Seq::new(accounts@.len(), |i: int| accounts@[i]@);
        let gated = ledger.config.is_some();
        let mut i: usize = 0;
        assert(ledger.listing().len() == ledger.entries@.len());
        while i < accounts.len()
            invariant
                i <= accounts@.len(),
                list == Seq::new(accounts@.len(), |i: int| accounts@[i]@),
                gated == ledger@.gated(),
                gated == admin is Some,
                match admin {
                    Some(name) => ledger@.admin == Some(name@),
                    None => ledger@.admin is None,
                },
                ledger.listing() == list.take(i as int),
                ledger.entries@.len() == i,
                forall|k: int| 0 <= k < i - 1 ==> precedes(#[trigger] list[k].0, list[k + 1].0),
                forall|k: int| 0 <= k < i ==> ledger@.admits(#[trigger] list[k].1),
            decreases accounts@.len() - i,
        {
            let item = &accounts[i];
            assert(item@ == list[i as int]);
            if i > 0 {
                match compare_keys(accounts[i - 1].user.as_str(), item.user.as_str()) {
                    KeyOrder::Before => {},
                    _ => {
                        proof {
                            assert(list[i - 1].0 == accounts@[i - 1].user@);
                            if ordered(list) {
                                assert(precedes(list[i - 1].0, list[i as int].0));
                            }
                        }
                        return None;
                    },
                }
            }
            if gated && (item.total_burned != 0 || item.accrued_amount == 0) {
                assert(!admitted(gated, list[i as int].1));
                return None;
            }
            let ghost before = ledger.listing();
            ledger.entries.push(
                (
                    item.user.clone(),
                    RoyaltyAccount {
                        evm_address: item.evm_address.clone(),
                        accrued_amount: item.accrued_amount,
                        total_burned: item.total_burned,
                    },
                ),
            );
            i += 1;
            assert(ledger.listing() =~= list.take(i as int));
        }
        proof {
            assert(list.take(i as int) =~= list);
            lemma_ordered_by_neighbours(list);
            assert forall|user: Seq<char>| #[trigger]
                ledger@.accounts.dom().contains(user) implies ledger@.admits(
                ledger@.accounts[user],
            ) by {
                let k = index_of(list, user);
                lemma_index_of(list, k);
            }
        }
        Some(ledger)
    }
}

} // verus!
