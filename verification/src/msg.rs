//! The messages that the ledger takes and the answers that it gives.

use vstd::prelude::*;
use crate::account::AccountView;
use crate::listing::Listing;
use crate::order::compare_keys;
use crate::order::KeyOrder;

verus! {

/// Named values, as plain text, in the order in which they are reported.
pub type Attributes = Seq<(Seq<char>, Seq<char>)>;

/// Sets a ledger up. With an administrator the ledger is admin-gated: only
/// that identity may change it. Without one it is open to every caller.
#[derive(Clone, Debug, PartialEq, Eq)]
pub struct InstantiateMsg {
    pub admin: Option<String>,
}

/// A command that changes the ledger.
#[allow(inconsistent_fields)]
#[derive(Clone, Debug, PartialEq, Eq)]
pub enum ExecuteMsg {
    /// Add `amount` to what `user` is owed, payable to `evm_address`.
    RecordRoyalty { user: String, evm_address: String, amount: u128 },
    /// Settle `amount` of what `user` is owed, or all of it.
    BurnRoyalty { user: String, amount: Option<u128> },
    /// Hand the administration over to `admin`.
    UpdateAdmin { admin: String },
}

/// A question that leaves the ledger as it is.
#[derive(Clone, Debug, PartialEq, Eq)]
pub enum QueryMsg {
    /// Who administers the ledger.
    Config {  },
    /// The account of one user.
    Royalty { user: String },
    /// One page of accounts, in ascending order of user, after `start_after`.
    AllRoyalties { start_after: Option<String>, limit: Option<u32> },
}

/// The answer to `QueryMsg::Config`.
#[derive(Clone, Debug, PartialEq, Eq)]
pub struct ConfigResponse {
    pub admin: String,
}

/// One account, with the user that it belongs to.
#[derive(Clone, Debug, PartialEq, Eq)]
pub struct RoyaltyAccountResponse {
    pub user: String,
    pub evm_address: String,
    pub accrued_amount: u128,
    pub total_burned: u128,
}

/// One page of accounts.
#[derive(Clone, Debug, PartialEq, Eq)]
pub struct RoyaltyAccountListResponse {
    pub accounts: Vec<RoyaltyAccountResponse>,
}

/// The answer to a query, one variant for each kind of question.
#[derive(Clone, Debug, PartialEq, Eq)]
pub enum QueryResponse {
    Config(ConfigResponse),
    Royalty(RoyaltyAccountResponse),
    AllRoyalties(RoyaltyAccountListResponse),
}

/// One named value that a command reports.
#[derive(Clone, Debug, PartialEq, Eq)]
pub struct Attribute {
    pub key: String,
    pub value: String,
}

/// What a command reports when it succeeds.
#[derive(Clone, Debug, PartialEq, Eq)]
pub struct Response {
    pub attributes: Vec<Attribute>,
}

impl View for RoyaltyAccountResponse {
    type V = (Seq<char>, AccountView);

    open spec fn view(&self) -> (Seq<char>, AccountView) {
        (
            self.user@,
            AccountView {
                evm_address: self.evm_address@,
                accrued_amount: self.accrued_amount as nat,
                total_burned: self.total_burned as nat,
            },
        )
    }
}

impl View for RoyaltyAccountListResponse {
    type V = Listing;

    open spec fn view(&self) -> Listing {
        Seq::new(self.accounts@.len(), |i: int| self.accounts@[i]@)
    }
}

impl View for Attribute {
    type V = (Seq<char>, Seq<char>);

    open spec fn view(&self) -> (Seq<char>, Seq<char>) {
        (self.key@, self.value@)
    }
}

impl View for Response {
    type V = Attributes;

    open spec fn view(&self) -> Attributes {
        Seq::new(self.attributes@.len(), |i: int| self.attributes@[i]@)
    }
}

impl Attribute {
    /// The attribute `key` with the value `value`.
    pub fn new(key: &str, value: String) -> (attribute: Attribute)
        ensures
            attribute@ == (key@, value@),
    {
        Attribute { key: key.to_owned(), value }
    }
}

impl Response {
    /// The value reported under `key`, if there is one: the first, where
    /// several attributes share the key.
    pub fn value_of(&self, key: &str) -> (value: Option<&String>)
        ensures
            match value {
                Some(v) => exists|i: int|
                    0 <= i < self@.len() && #[trigger] self@[i] == (key@, v@) && forall|j: int|
                        0 <= j < i ==> (#[trigger] self@[j]).0 != key@,
                None => forall|i: int| 0 <= i < self@.len() ==> (#[trigger] self@[i]).0 != key@,
            },
    {
        let mut i: usize = 0;
        while i < self.attributes.len()
            invariant
                i <= self.attributes@.len(),
                forall|j: int| 0 <= j < i ==> (#[trigger] self@[j]).0 != key@,
            decreases self.attributes@.len() - i,
        {
            match compare_keys(self.attributes[i].key.as_str(), key) {
                KeyOrder::Same => {
                    assert(self@[i as int] == (key@, self.attributes@[i as int].value@));
                    return Some(&self.attributes[i].value);
                },
                _ => {},
            }
            i += 1;
        }
        None
    }
}

impl ExecuteMsg {
    /// The identity that the command names: the user of an accrual or a
    /// settlement, the new administrator of a hand-over.
    pub open spec fn named(self) -> Seq<char> {
        match self {
            ExecuteMsg::RecordRoyalty { user, .. } => user@,
            ExecuteMsg::BurnRoyalty { user, .. } => user@,
            ExecuteMsg::UpdateAdmin { admin } => admin@,
        }
    }

    /// The identity that the command names, for the host to say whether it
    /// is well formed.
    pub fn identity(&self) -> (name: &String)
        ensures
            name@ == self.named(),
    {
        match self {
            ExecuteMsg::RecordRoyalty { user, .. } => user,
            ExecuteMsg::BurnRoyalty { user, .. } => user,
            ExecuteMsg::UpdateAdmin { admin } => admin,
        }
    }
}

impl QueryMsg {
    /// The identity that the question names, if it names one: the user of an
    /// account query, the cursor of a listing.
    pub open spec fn named(self) -> Option<Seq<char>> {
        match self {
            QueryMsg::Config {  } => None,
            QueryMsg::Royalty { user } => Some(user@),
            QueryMsg::AllRoyalties { start_after, .. } => match start_after {
                Some(cursor) => Some(cursor@),
                None => None,
            },
        }
    }

    /// The identity that the question names, if it names one, for the host to
    /// say whether it is well formed.
    pub fn identity(&self) -> (name: Option<&String>)
        ensures
            match name {
                Some(text) => self.named() == Some(text@),
                None => self.named() is None,
            },
    {
        match self {
            QueryMsg::Config {  } => None,
            QueryMsg::Royalty { user } => Some(user),
            QueryMsg::AllRoyalties { start_after, .. } => match start_after {
                Some(cursor) => Some(cursor),
                None => None,
            },
        }
    }
}

} // verus!
