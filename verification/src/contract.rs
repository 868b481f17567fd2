//! The ledger's operations: accrual, settlement, hand-over of the
//! administration and the queries, each a function from the state and a
//! request to the next state and an answer.
//!
//! Whether an identity is well formed is for the host to say: each operation
//! takes the host's verdict on the identity that its request names.

use vstd::prelude::*;
use crate::account::AccountView;
use crate::account::requested;
use crate::account::RoyaltyAccount;
use crate::error::ContractError;
use crate::ledger::Ledger;
use crate::ledger::LedgerView;
use crate::listing::page_of;
use crate::msg::Attribute;
use crate::msg::Attributes;
use crate::msg::ConfigResponse;
use crate::msg::ExecuteMsg;
use crate::msg::InstantiateMsg;
use crate::msg::QueryMsg;
use crate::msg::QueryResponse;
use crate::msg::Response;
use crate::msg::RoyaltyAccountListResponse;
use crate::msg::RoyaltyAccountResponse;
use crate::payload::payload_json;
use crate::payload::PayloadView;
use crate::payload::SettlementPayload;
use crate::text::decimal_string;
use crate::text::decimal_text;
use crate::text::lowercase_text;
use crate::transport::base64_string;
use crate::transport::base64_text;
use crate::transport::hex_string;
use crate::transport::hex_text;

verus! {

/// The largest page that a listing returns.
pub const MAX_LIMIT: u32 = 50;

impl LedgerView {
    /// The ledger after an accrual, or the error that refuses it.
    pub open spec fn recorded(
        self,
        sender: Seq<char>,
        user: Seq<char>,
        user_valid: bool,
        evm_address: Seq<char>,
        amount: nat,
    ) -> Result<LedgerView, ContractError> {
        if amount == 0 {
            Err(ContractError::InvalidAmount)
        } else if !user_valid {
            Err(ContractError::InvalidIdentity)
        } else if !self.authorizes(sender) {
            Err(ContractError::Unauthorized)
        } else {
            let current = match self.account(user) {
                Some(account) => account,
                None => AccountView::opened(evm_address),
            };
            match current.credited(evm_address, amount) {
                Ok(account) => Ok(
                    LedgerView { admin: self.admin, accounts: self.accounts.insert(user, account) },
                ),
                Err(e) => Err(e),
            }
        }
    }

    /// The ledger after a settlement, or the error that refuses it. An open
    /// ledger adds the settled amount to the account's burn history and
    /// keeps the account; a gated one keeps no history and drops the account
    /// once nothing is owed on it.
    pub open spec fn settled(
        self,
        sender: Seq<char>,
        user: Seq<char>,
        user_valid: bool,
        amount: Option<nat>,
    ) -> Result<LedgerView, ContractError> {
        if !self.authorizes(sender) {
            Err(ContractError::Unauthorized)
        } else if !user_valid {
            Err(ContractError::InvalidIdentity)
        } else {
            match self.account(user) {
                None => Err(ContractError::NotFound),
                Some(account) => match account.debited(amount, !self.gated()) {
                    Err(e) => Err(e),
                    Ok(left) => Ok(
                        LedgerView {
                            admin: self.admin,
                            accounts: if self.gated() && left.accrued_amount == 0 {
                                self.accounts.remove(user)
                            } else {
                                self.accounts.insert(user, left)
                            },
                        },
                    ),
                },
            }
        }
    }

    /// The ledger after the administration is handed to `admin`, or the
    /// error that refuses it. Only the administrator of a gated ledger can
    /// hand it over.
    pub open spec fn handed_over(
        self,
        sender: Seq<char>,
        admin: Seq<char>,
        admin_valid: bool,
    ) -> Result<LedgerView, ContractError> {
        if self.admin != Some(sender) {
            Err(ContractError::Unauthorized)
        } else if !admin_valid {
            Err(ContractError::InvalidIdentity)
        } else {
            Ok(LedgerView { admin: Some(admin), accounts: self.accounts })
        }
    }
}

/// What one settlement did and what it hands to the relayer.
#[derive(Debug, PartialEq, Eq)]
pub struct Settlement {
    /// The amount settled.
    pub amount: u128,
    /// What the user is still owed.
    pub remaining: u128,
    /// The record for the relayer.
    pub payload: SettlementPayload,
    /// The payload's canonical encoding.
    pub payload_json: Vec<u8>,
    /// The encoding in hexadecimal.
    pub payload_hex: String,
    /// The encoding in base64.
    pub payload_base64: String,
}

impl Settlement {
    /// This is the settlement of `amount` (or of the whole balance) on the
    /// account `before` of `user`.
    pub open spec fn describes(
        &self,
        before: AccountView,
        user: Seq<char>,
        amount: Option<nat>,
    ) -> bool {
        &&& self.amount == before.settle_amount(amount)
        &&& self.remaining == before.accrued_amount - before.settle_amount(amount)
        &&& self.payload@ == settlement_payload(before, user, amount)
        &&& self.payload_json@ == payload_json(self.payload@)
        &&& self.payload_hex@ == hex_text(self.payload_json@)
        &&& self.payload_base64@ == base64_text(self.payload_json@)
    }
}

/// What an accrual reports.
pub open spec fn accrual_attributes(
    user: Seq<char>,
    evm_address: Seq<char>,
    amount: nat,
    accrued: nat,
) -> Attributes {
    seq![
        ("action"@, "record_royalty"@),
        ("user"@, user),
        ("evm_recipient"@, evm_address),
        ("amount"@, decimal_text(amount)),
        ("accrued"@, decimal_text(accrued)),
    ]
}

/// What a settlement reports. `now` is the time of the call in seconds, for
/// the record only.
pub open spec fn settlement_attributes(
    user: Seq<char>,
    evm_address: Seq<char>,
    amount: nat,
    remaining: nat,
    payload: Seq<u8>,
    now: nat,
) -> Attributes {
    seq![
        ("action"@, "burn_royalty"@),
        ("user"@, user),
        ("evm_recipient"@, evm_address),
        ("amount"@, decimal_text(amount)),
        ("remaining"@, decimal_text(remaining)),
        ("payload_hex"@, hex_text(payload)),
        ("payload_base64"@, base64_text(payload)),
        ("timestamp"@, decimal_text(now)),
    ]
}

/// What a hand-over of the administration reports.
pub open spec fn hand_over_attributes(admin: Seq<char>) -> Attributes {
    seq![("action"@, "update_admin"@), ("admin"@, admin)]
}

/// What the settlement of `amount`, or of the whole balance, on the account
/// `before` of `user` hands to the relayer.
pub open spec fn settlement_payload(
    before: AccountView,
    user: Seq<char>,
    amount: Option<nat>,
) -> PayloadView {
    PayloadView {
        evm_recipient: before.evm_address,
        amount: decimal_text(before.settle_amount(amount)),
        user_id: user,
    }
}

/// What that settlement reports when it is made at the time `now`.
pub open spec fn settlement_report(
    before: AccountView,
    user: Seq<char>,
    amount: Option<nat>,
    now: nat,
) -> Attributes {
    settlement_attributes(
        user,
        before.evm_address,
        before.settle_amount(amount),
        (before.accrued_amount - before.settle_amount(amount)) as nat,
        payload_json(settlement_payload(before, user, amount)),
        now,
    )
}

/// The ledger after a command, or the error that refuses it.
pub open spec fn executed(
    before: LedgerView,
    sender: Seq<char>,
    msg: ExecuteMsg,
    identity_valid: bool,
) -> Result<LedgerView, ContractError> {
    match msg {
        ExecuteMsg::RecordRoyalty { user, evm_address, amount } => before.recorded(
            sender,
            user@,
            identity_valid,
            lowercase_text(evm_address@),
            amount as nat,
        ),
        ExecuteMsg::BurnRoyalty { user, amount } => before.settled(
            sender,
            user@,
            identity_valid,
            requested(amount),
        ),
        ExecuteMsg::UpdateAdmin { admin } => before.handed_over(sender, admin@, identity_valid),
    }
}

/// What a command reports when it is accepted at the time `now`.
pub open spec fn report_of(before: LedgerView, now: nat, msg: ExecuteMsg) -> Attributes {
    match msg {
        ExecuteMsg::RecordRoyalty { user, evm_address, amount } => accrual_attributes(
            user@,
            lowercase_text(evm_address@),
            amount as nat,
            before.owed(user@) + amount as nat,
        ),
        ExecuteMsg::BurnRoyalty { user, amount } => settlement_report(
            before.accounts[user@],
            user@,
            requested(amount),
            now,
        ),
        ExecuteMsg::UpdateAdmin { admin } => hand_over_attributes(admin@),
    }
}

/// The page size that a listing uses for a requested `limit`: the limit
/// itself up to the ceiling, the ceiling where none is given.
pub open spec fn page_limit(limit: Option<u32>) -> nat {
    match limit {
        Some(n) => if n < MAX_LIMIT {
            n as nat
        } else {
            MAX_LIMIT as nat
        },
        None => MAX_LIMIT as nat,
    }
}

impl Ledger {
    /// Adds `amount` to what `user` is owed and makes `payout_address`, which
    /// is taken as it is, the user's payout address. Returns the new balance.
    ///
    /// A zero amount is refused first, then an identity that the host
    /// rejected, then a caller that a gated ledger does not authorize, then a
    /// balance that would not fit. A refused accrual changes nothing.
    pub fn accrue(
        &mut self,
        sender: &str,
        user: &str,
        user_valid: bool,
        payout_address: String,
        amount: u128,
    ) -> (r: Result<u128, ContractError>)
        requires
            old(self).wf(),
        ensures
            final(self).wf(),
            match old(self)@.recorded(sender@, user@, user_valid, payout_address@, amount as nat) {
                Ok(after) => r is Ok && final(self)@ == after && r->Ok_0
                    == after.accounts[user@].accrued_amount,
                Err(e) => r == Err::<u128, ContractError>(e),
            },
            r is Err ==> *final(self) == *old(self),
            amount == 0 ==> r == Err::<u128, ContractError>(ContractError::InvalidAmount),
            amount > 0 && user_valid && !old(self)@.authorizes(sender@) ==> r == Err::<
                u128,
                ContractError,
            >(ContractError::Unauthorized),
            r is Ok ==> r->Ok_0 == old(self)@.owed(user@) + amount && final(self)@.owed(user@)
                == r->Ok_0 && final(self)@.burned(user@) == old(self)@.burned(user@),
    {
        if amount == 0 {
            return Err(ContractError::InvalidAmount);
        }
        if !user_valid {
            return Err(ContractError::InvalidIdentity);
        }
        if !self.authorizes(sender) {
            return Err(ContractError::Unauthorized);
        }
        let updated = match self.get(user) {
            Some(account) => account.credit(payout_address, amount)?,
            None => RoyaltyAccount {
                evm_address: payout_address,
                accrued_amount: amount,
                total_burned: 0,
            },
        };
        let accrued: u128 = updated.accrued_amount;
        self.upsert(user, updated);
        Ok(accrued)
    }

    /// Settles `amount` of what `user` is owed, or the whole balance where no
    /// amount is given, and builds the payload for the relayer.
    ///
    /// A caller that a gated ledger does not authorize is refused first, then
    /// an identity that the host rejected, a user without account, a zero
    /// amount, an amount above the balance, and a burn history that would not
    /// fit. The payload is encoded before the ledger is touched. A refused
    /// settlement changes nothing.
    pub fn settle(
        &mut self,
        sender: &str,
        user: &str,
        user_valid: bool,
        amount: Option<u128>,
    ) -> (r: Result<Settlement, ContractError>)
        requires
            old(self).wf(),
        ensures
            final(self).wf(),
            match old(self)@.settled(sender@, user@, user_valid, requested(amount)) {
                Ok(after) => r is Ok && final(self)@ == after && r->Ok_0.describes(
                    old(self)@.accounts[user@],
                    user@,
                    requested(amount),
                ),
                Err(e) => r == Err::<Settlement, ContractError>(e),
            },
            r is Err ==> *final(self) == *old(self),
            !old(self)@.authorizes(sender@) ==> r == Err::<Settlement, ContractError>(
                ContractError::Unauthorized,
            ),
            amount is None && r is Ok ==> r->Ok_0.amount == old(self)@.owed(user@)
                && r->Ok_0.remaining == 0 && final(self)@.owed(user@) == 0,
            old(self)@.authorizes(sender@) && user_valid && old(self)@.account(user@) is Some
                ==> {
                &&& amount is Some && amount->Some_0 > old(self)@.owed(user@) ==> r == Err::<
                    Settlement,
                    ContractError,
                >(ContractError::InsufficientFunds)
                &&& amount == Some(0u128) || (amount is None && old(self)@.owed(user@) == 0) ==> r
                    == Err::<Settlement, ContractError>(ContractError::InvalidAmount)
            },
            !(r matches Err(ContractError::ArithmeticUnderflow)),
            !(r matches Err(ContractError::PayloadSerialisation)),
    {
        if !self.authorizes(sender) {
            return Err(ContractError::Unauthorized);
        }
        if !user_valid {
            return Err(ContractError::InvalidIdentity);
        }
        let keep_history = self.config().is_none();
        let (left, settled, recipient) = match self.get(user) {
            None => { return Err(ContractError::NotFound); },
            Some(account) => {
                let (left, settled) = account.debit(amount, keep_history)?;
                (left, settled, account.evm_address.clone())
            },
        };
        let payload = SettlementPayload {
            evm_recipient: recipient,
            amount: decimal_string(settled),
            user_id: user.to_owned(),
        };
        let payload_json = payload.to_json()?;
        let payload_hex = hex_string(&payload_json);
        let payload_base64 = base64_string(&payload_json);
        let remaining: u128 = left.accrued_amount;
        if !keep_history && remaining == 0 {
            self.remove(user);
        } else {
            self.upsert(user, left);
        }
        Ok(
            Settlement {
                amount: settled,
                remaining,
                payload,
                payload_json,
                payload_hex,
                payload_base64,
            },
        )
    }
}

/// Sets a ledger up: gated by the administrator that the message names, or
/// open where it names none. `admin_valid` is the host's verdict on that
/// name.
pub fn instantiate(msg: InstantiateMsg, admin_valid: bool) -> (r: Result<Ledger, ContractError>)
    ensures
        match msg.admin {
            Some(admin) => if admin_valid {
                r is Ok && r->Ok_0@.admin == Some(admin@)
            } else {
                r is Err && r->Err_0 == ContractError::InvalidIdentity
            },
            None => r is Ok && r->Ok_0@.admin is None,
        },
        r matches Ok(ledger) ==> ledger.wf() && ledger@.accounts == Map::<
            Seq<char>,
            AccountView,
        >::empty(),
{
    if msg.admin.is_some() && !admin_valid {
        return Err(ContractError::InvalidIdentity);
    }
    Ok(Ledger::new(msg.admin))
}

/// Records an accrual of `amount` to `user`, payable to `evm_address` in
/// lower case, and reports it. See `Ledger::accrue` for what is refused, and
/// in which order.
pub fn record_royalty(
    ledger: &mut Ledger,
    sender: &str,
    user: &str,
    user_valid: bool,
    evm_address: &str,
    amount: u128,
) -> (r: Result<Response, ContractError>)
    requires
        old(ledger).wf(),
    ensures
        final(ledger).wf(),
        match old(ledger)@.recorded(
            sender@,
            user@,
            user_valid,
            lowercase_text(evm_address@),
            amount as nat,
        ) {
            Ok(after) => r is Ok && final(ledger)@ == after && r->Ok_0@ == accrual_attributes(
                user@,
                lowercase_text(evm_address@),
                amount as nat,
                old(ledger)@.owed(user@) + amount as nat,
            ),
            Err(e) => r is Err && r->Err_0 == e,
        },
        r is Err ==> *final(ledger) == *old(ledger),
{
    let normalized = evm_address.to_lowercase();
    let recipient = normalized.clone();
    let accrued = ledger.accrue(sender, user, user_valid, normalized, amount)?;
    let response = Response {
        attributes: vec![
            Attribute::new("action", "record_royalty".to_owned()),
            Attribute::new("user", user.to_owned()),
            Attribute::new("evm_recipient", recipient),
            Attribute::new("amount", decimal_string(amount)),
            Attribute::new("accrued", decimal_string(accrued)),
        ],
    };
    assert(response@ =~= accrual_attributes(
        user@,
        lowercase_text(evm_address@),
        amount as nat,
        accrued as nat,
    ));
    Ok(response)
}

/// Settles `amount` of what `user` is owed, or all of it, and reports the
/// settlement with its payload in both transport encodings. `now` is the
/// time of the call in seconds; it is reported and decides nothing. See
/// `Ledger::settle` for what is refused, and in which order.
pub fn burn_royalty(
    ledger: &mut Ledger,
    now: u64,
    sender: &str,
    user: &str,
    user_valid: bool,
    amount: Option<u128>,
) -> (r: Result<Response, ContractError>)
    requires
        old(ledger).wf(),
    ensures
        final(ledger).wf(),
        match old(ledger)@.settled(sender@, user@, user_valid, requested(amount)) {
            Ok(after) => r is Ok && final(ledger)@ == after && r->Ok_0@ == settlement_report(
                old(ledger)@.accounts[user@],
                user@,
                requested(amount),
                now as nat,
            ),
            Err(e) => r is Err && r->Err_0 == e,
        },
        r is Err ==> *final(ledger) == *old(ledger),
{
    let done = ledger.settle(sender, user, user_valid, amount)?;
    let response = Response {
        attributes: vec![
            Attribute::new("action", "burn_royalty".to_owned()),
            Attribute::new("user", user.to_owned()),
            Attribute::new("evm_recipient", done.payload.evm_recipient),
            Attribute::new("amount", decimal_string(done.amount)),
            Attribute::new("remaining", decimal_string(done.remaining)),
            Attribute::new("payload_hex", done.payload_hex),
            Attribute::new("payload_base64", done.payload_base64),
            Attribute::new("timestamp", decimal_string(now as u128)),
        ],
    };
    assert(response@ =~= settlement_report(
        old(ledger)@.accounts[user@],
        user@,
        requested(amount),
        now as nat,
    ));
    Ok(response)
}

/// Hands the administration of a gated ledger to `admin` and reports it.
/// Only the administrator may do so: every other caller is refused as
/// unauthorized, and so is every caller on an open ledger. A name that the
/// host rejected is refused next.
pub fn update_admin(
    ledger: &mut Ledger,
    sender: &str,
    admin: &str,
    admin_valid: bool,
) -> (r: Result<Response, ContractError>)
    requires
        old(ledger).wf(),
    ensures
        final(ledger).wf(),
        match old(ledger)@.handed_over(sender@, admin@, admin_valid) {
            Ok(after) => r is Ok && final(ledger)@ == after && r->Ok_0@ == hand_over_attributes(
                admin@,
            ),
            Err(e) => r is Err && r->Err_0 == e,
        },
        r is Err ==> *final(ledger) == *old(ledger),
        final(ledger).listing() == old(ledger).listing(),
{
    if ledger.config().is_none() || !ledger.authorizes(sender) {
        return Err(ContractError::Unauthorized);
    }
    if !admin_valid {
        return Err(ContractError::InvalidIdentity);
    }
    ledger.set_admin(admin.to_owned());
    let response = Response {
        attributes: vec![
            Attribute::new("action", "update_admin".to_owned()),
            Attribute::new("admin", admin.to_owned()),
        ],
    };
    assert(response@ =~= hand_over_attributes(admin@));
    Ok(response)
}

/// Carries out one command. `identity_valid` is the host's verdict on the
/// identity that the command names (`ExecuteMsg::identity`), and `now` the
/// time of the call in seconds.
pub fn execute(
    ledger: &mut Ledger,
    now: u64,
    sender: &str,
    msg: ExecuteMsg,
    identity_valid: bool,
) -> (r: Result<Response, ContractError>)
    requires
        old(ledger).wf(),
    ensures
        final(ledger).wf(),
        match executed(old(ledger)@, sender@, msg, identity_valid) {
            Ok(after) => r is Ok && final(ledger)@ == after && r->Ok_0@ == report_of(
                old(ledger)@,
                now as nat,
                msg,
            ),
            Err(e) => r is Err && r->Err_0 == e,
        },
        r is Err ==> *final(ledger) == *old(ledger),
{
    match msg {
        ExecuteMsg::RecordRoyalty { user, evm_address, amount } => record_royalty(
            ledger,
            sender,
            user.as_str(),
            identity_valid,
            evm_address.as_str(),
            amount,
        ),
        ExecuteMsg::BurnRoyalty { user, amount } => burn_royalty(
            ledger,
            now,
            sender,
            user.as_str(),
            identity_valid,
            amount,
        ),
        ExecuteMsg::UpdateAdmin { admin } => update_admin(
            ledger,
            sender,
            admin.as_str(),
            identity_valid,
        ),
    }
}

/// The administrator of a gated ledger. An open ledger has no configuration
/// to show.
pub fn query_config(ledger: &Ledger) -> (r: Result<ConfigResponse, ContractError>)
    ensures
        match ledger@.admin {
            Some(admin) => r is Ok && r->Ok_0.admin@ == admin,
            None => r is Err && r->Err_0 == ContractError::NotFound,
        },
{
    match ledger.config() {
        Some(config) => Ok(ConfigResponse { admin: config.admin.clone() }),
        None => Err(ContractError::NotFound),
    }
}

/// The account of `user`. An identity that the host rejected is refused, and
/// so is a user without account.
pub fn query_royalty(ledger: &Ledger, user: String, user_valid: bool) -> (r: Result<
    RoyaltyAccountResponse,
    ContractError,
>)
    requires
        ledger.wf(),
    ensures
        if !user_valid {
            r is Err && r->Err_0 == ContractError::InvalidIdentity
        } else {
            match ledger@.account(user@) {
                Some(account) => r is Ok && r->Ok_0@ == (user@, account),
                None => r is Err && r->Err_0 == ContractError::NotFound,
            }
        },
{
    if !user_valid {
        return Err(ContractError::InvalidIdentity);
    }
    match ledger.get(user.as_str()) {
        Some(account) => Ok(
            RoyaltyAccountResponse {
                evm_address: account.evm_address.clone(),
                accrued_amount: account.accrued_amount,
                total_burned: account.total_burned,
                user,
            },
        ),
        None => Err(ContractError::NotFound),
    }
}

/// One page of accounts in ascending order of user, strictly after
/// `start_after` where it is given. The page holds `limit` accounts, and
/// never more than `MAX_LIMIT`. A cursor that the host rejected is refused.
pub fn query_all_royalties(
    ledger: &Ledger,
    start_after: Option<String>,
    start_valid: bool,
    limit: Option<u32>,
) -> (r: Result<RoyaltyAccountListResponse, ContractError>)
    requires
        ledger.wf(),
    ensures
        match start_after {
            Some(cursor) => if start_valid {
                r is Ok && r->Ok_0@ == page_of(ledger.listing(), Some(cursor@), page_limit(limit))
            } else {
                r is Err && r->Err_0 == ContractError::InvalidIdentity
            },
            None => r is Ok && r->Ok_0@ == page_of(ledger.listing(), None, page_limit(limit)),
        },
{
    let size: u32 = match limit {
        Some(n) => if n < MAX_LIMIT {
            n
        } else {
            MAX_LIMIT
        },
        None => MAX_LIMIT,
    };
    let accounts = match &start_after {
        Some(cursor) => {
            if !start_valid {
                return Err(ContractError::InvalidIdentity);
            }
            ledger.page(Some(cursor.as_str()), size as usize)
        },
        None => ledger.page(None, size as usize),
    };
    Ok(RoyaltyAccountListResponse { accounts })
}

/// Answers one question. `identity_valid` is the host's verdict on the
/// identity that the question names (`QueryMsg::identity`), if it names one.
pub fn query(ledger: &Ledger, msg: QueryMsg, identity_valid: bool) -> (r: Result<
    QueryResponse,
    ContractError,
>)
    requires
        ledger.wf(),
    ensures
        match msg {
            QueryMsg::Config {  } => match ledger@.admin {
                Some(admin) => r matches Ok(QueryResponse::Config(config)) && config.admin@
                    == admin,
                None => r is Err && r->Err_0 == ContractError::NotFound,
            },
            QueryMsg::Royalty { user } => if !identity_valid {
                r is Err && r->Err_0 == ContractError::InvalidIdentity
            } else {
                match ledger@.account(user@) {
                    Some(account) => r matches Ok(QueryResponse::Royalty(found)) && found@ == (
                        user@,
                        account,
                    ),
                    None => r is Err && r->Err_0 == ContractError::NotFound,
                }
            },
            QueryMsg::AllRoyalties { start_after, limit } => match start_after {
                Some(cursor) => if identity_valid {
                    r matches Ok(QueryResponse::AllRoyalties(list)) && list@ == page_of(
                        ledger.listing(),
                        Some(cursor@),
                        page_limit(limit),
                    )
                } else {
                    r is Err && r->Err_0 == ContractError::InvalidIdentity
                },
                None => r matches Ok(QueryResponse::AllRoyalties(list)) && list@ == page_of(
                    ledger.listing(),
                    None,
                    page_limit(limit),
                ),
            },
        },
{
    match msg {
        QueryMsg::Config {  } => Ok(QueryResponse::Config(query_config(ledger)?)),
        QueryMsg::Royalty { user } => Ok(
            QueryResponse::Royalty(query_royalty(ledger, user, identity_valid)?),
        ),
        QueryMsg::AllRoyalties { start_after, limit } => Ok(
            QueryResponse::AllRoyalties(
                query_all_royalties(ledger, start_after, identity_valid, limit)?,
            ),
        ),
    }
}

} // verus!
