//! What holds of the ledger over whole histories of commands and over whole
//! walks through its pages.

use vstd::prelude::*;
use crate::account::AccountView;
use crate::account::requested;
use crate::contract::executed;
use crate::contract::MAX_LIMIT;
use crate::contract::page_limit;
use crate::contract::report_of;
use crate::error::ContractError;
use crate::ledger::Ledger;
use crate::ledger::LedgerView;
use crate::listing::after;
use crate::listing::lemma_after_skips;
use crate::listing::Listing;
use crate::listing::ordered;
use crate::listing::page_of;
use crate::msg::ExecuteMsg;
use crate::order::lemma_precedes_asymmetric;
use crate::order::lemma_precedes_irreflexive;
use crate::order::lemma_precedes_transitive;
use crate::order::precedes;
use crate::payload::lemma_payload_round_trip;
use crate::payload::payload_json;
use crate::payload::payload_of;
use crate::payload::PayloadView;
use crate::transport::base64_bytes;
use crate::transport::base64_text;
use crate::transport::hex_bytes;
use crate::transport::hex_text;
use crate::transport::lemma_base64_round_trip;
use crate::transport::lemma_hex_round_trip;

verus! {

/// One call of `execute`, as the ledger sees it: who calls, with which
/// command, and what the host said of the identity that the command names.
pub struct Call {
    pub sender: Seq<char>,
    pub msg: ExecuteMsg,
    pub identity_valid: bool,
}

/// The ledger after one call: changed as the command says where it is
/// accepted, as it was where it is refused.
pub open spec fn step(ledger: LedgerView, call: Call) -> LedgerView {
    match executed(ledger, call.sender, call.msg, call.identity_valid) {
        Ok(next) => next,
        Err(_) => ledger,
    }
}

/// The ledger after a history of calls, the first one first.
pub open spec fn run(ledger: LedgerView, history: Seq<Call>) -> LedgerView
    decreases history.len(),
{
    if history.len() == 0 {
        ledger
    } else {
        step(run(ledger, history.drop_last()), history.last())
    }
}

/// What `call` accrues to `user` on `ledger`: its amount where it is an
/// accepted accrual to that user, nothing otherwise.
pub open spec fn accrual_of(ledger: LedgerView, call: Call, user: Seq<char>) -> nat {
    match call.msg {
        ExecuteMsg::RecordRoyalty { user: to, amount, .. } => if to@ == user && executed(
            ledger,
            call.sender,
            call.msg,
            call.identity_valid,
        ) is Ok {
            amount as nat
        } else {
            0
        },
        _ => 0,
    }
}

/// What `call` settles for `user` on `ledger`: the amount named or the
/// whole balance where it is an accepted settlement for that user, nothing
/// otherwise.
pub open spec fn settlement_of(ledger: LedgerView, call: Call, user: Seq<char>) -> nat {
    match call.msg {
        ExecuteMsg::BurnRoyalty { user: of, amount } => if of@ == user && executed(
            ledger,
            call.sender,
            call.msg,
            call.identity_valid,
        ) is Ok {
            ledger.accounts[user].settle_amount(requested(amount))
        } else {
            0
        },
        _ => 0,
    }
}

/// All that a history accrues to `user`.
pub open spec fn accrued_sum(ledger: LedgerView, history: Seq<Call>, user: Seq<char>) -> nat
    decreases history.len(),
{
    if history.len() == 0 {
        0
    } else {
        accrued_sum(ledger, history.drop_last(), user) + accrual_of(
            run(ledger, history.drop_last()),
            history.last(),
            user,
        )
    }
}

/// All that a history settles for `user`.
pub open spec fn settled_sum(ledger: LedgerView, history: Seq<Call>, user: Seq<char>) -> nat
    decreases history.len(),
{
    if history.len() == 0 {
        0
    } else {
        settled_sum(ledger, history.drop_last(), user) + settlement_of(
            run(ledger, history.drop_last()),
            history.last(),
            user,
        )
    }
}

/// One call changes what a user is owed by what it accrues less what it
/// settles, and on an open ledger adds what it settles to the burn history.
pub proof fn lemma_step_conserves(ledger: LedgerView, call: Call, user: Seq<char>)
    ensures
        step(ledger, call).owed(user) + settlement_of(ledger, call, user) == ledger.owed(user)
            + accrual_of(ledger, call, user),
        step(ledger, call).gated() == ledger.gated(),
        !ledger.gated() ==> step(ledger, call).burned(user) == ledger.burned(user)
            + settlement_of(ledger, call, user),
{
}

/// Conservation: after any history of calls, what a user is owed is what
/// it was owed at the start, plus all that the history accrued to it, less
/// all that the history settled for it. On an open ledger the user's burn
/// history has grown by all that was settled.
pub proof fn lemma_conservation(ledger: LedgerView, history: Seq<Call>, user: Seq<char>)
    ensures
        run(ledger, history).owed(user) + settled_sum(ledger, history, user) == ledger.owed(user)
            + accrued_sum(ledger, history, user),
        run(ledger, history).gated() == ledger.gated(),
        !ledger.gated() ==> run(ledger, history).burned(user) == ledger.burned(user)
            + settled_sum(ledger, history, user),
    decreases history.len(),
{
    if history.len() > 0 {
        lemma_conservation(ledger, history.drop_last(), user);
        lemma_step_conserves(run(ledger, history.drop_last()), history.last(), user);
    }
}

/// Conservation on a ledger that started empty: what a user is owed is all
/// that was accrued to it less all that was settled for it, and on an open
/// ledger its burn history is all that was settled.
pub proof fn lemma_conservation_from_empty(
    admin: Option<Seq<char>>,
    history: Seq<Call>,
    user: Seq<char>,
)
    ensures
        ({
            let start = LedgerView { admin, accounts: Map::empty() };
            &&& run(start, history).owed(user) == accrued_sum(start, history, user) - settled_sum(
                start,
                history,
                user,
            )
            &&& admin is None ==> run(start, history).burned(user) == settled_sum(
                start,
                history,
                user,
            )
        }),
{
    lemma_conservation(LedgerView { admin, accounts: Map::empty() }, history, user);
}

/// A well-formed ledger stays well formed under every call: balances
/// keep fitting, and a gated ledger never holds an account that owes nothing
/// or that carries a burn history.
pub proof fn lemma_step_keeps_wf(ledger: LedgerView, call: Call)
    requires
        ledger.wf(),
    ensures
        step(ledger, call).wf(),
{
    let next = step(ledger, call);
    assert forall|user: Seq<char>| #[trigger]
        next.accounts.dom().contains(user) implies next.admits(next.accounts[user]) by {
        if ledger.accounts.dom().contains(user) {
            assert(ledger.admits(ledger.accounts[user]));
        }
        match call.msg {
            ExecuteMsg::RecordRoyalty { user: to, .. } => {
                if ledger.accounts.dom().contains(to@) {
                    assert(ledger.admits(ledger.accounts[to@]));
                }
            },
            ExecuteMsg::BurnRoyalty { user: of, .. } => {
                if ledger.accounts.dom().contains(of@) {
                    assert(ledger.admits(ledger.accounts[of@]));
                }
            },
            ExecuteMsg::UpdateAdmin { .. } => {},
        }
    }
}

/// A ledger that was well formed at the start is well formed after every
/// history of calls.
pub proof fn lemma_run_keeps_wf(ledger: LedgerView, history: Seq<Call>)
    requires
        ledger.wf(),
    ensures
        run(ledger, history).wf(),
    decreases history.len(),
{
    if history.len() > 0 {
        lemma_run_keeps_wf(ledger, history.drop_last());
        lemma_step_keeps_wf(run(ledger, history.drop_last()), history.last());
    }
}

/// A call changes no account but that of the user it names, and a hand-over
/// changes no account at all. What a user is owed drops only by a settlement
/// for that user, and on an open ledger a burn history never drops.
pub proof fn lemma_step_touches_one_account(ledger: LedgerView, call: Call, user: Seq<char>)
    ensures
        user != call.msg.named() || call.msg is UpdateAdmin ==> step(ledger, call).account(user)
            == ledger.account(user),
        step(ledger, call).owed(user) < ledger.owed(user) ==> call.msg is BurnRoyalty
            && call.msg.named() == user && settlement_of(ledger, call, user) > 0,
        !ledger.gated() ==> step(ledger, call).burned(user) >= ledger.burned(user),
{
}

/// The administration changes hands only when the administrator hands it
/// over to a well-formed identity, and a ledger never turns from gated to
/// open or from open to gated.
pub proof fn lemma_step_keeps_administration(ledger: LedgerView, call: Call)
    ensures
        step(ledger, call).gated() == ledger.gated(),
        step(ledger, call).admin != ledger.admin ==> {
            &&& call.msg is UpdateAdmin
            &&& ledger.admin == Some(call.sender)
            &&& call.identity_valid
            &&& step(ledger, call).admin == Some(call.msg.named())
        },
{
}

/// A command sees of the ledger only the administration and the account of
/// the user that it names: on two ledgers that agree in these it is accepted
/// or refused alike, reports the same, and leaves them agreeing. So a caller
/// that holds a large ledger elsewhere can hand over just this part of it.
pub proof fn lemma_command_is_local(
    one: LedgerView,
    other: LedgerView,
    now: nat,
    sender: Seq<char>,
    msg: ExecuteMsg,
    identity_valid: bool,
)
    requires
        one.admin == other.admin,
        one.account(msg.named()) == other.account(msg.named()),
    ensures
        match executed(one, sender, msg, identity_valid) {
            Ok(next) => {
                &&& executed(other, sender, msg, identity_valid) matches Ok(like)
                &&& next.admin == like.admin
                &&& next.account(msg.named()) == like.account(msg.named())
                &&& report_of(one, now, msg) == report_of(other, now, msg)
            },
            Err(e) => executed(other, sender, msg, identity_valid) == Err::<
                LedgerView,
                ContractError,
            >(e),
        },
{
}

/// How many accounts at the start of a list do not come after the cursor.
pub open spec fn passed(list: Listing, cursor: Seq<char>) -> nat
    decreases list.len(),
{
    if list.len() > 0 && !precedes(cursor, list[0].0) {
        1 + passed(list.drop_first(), cursor)
    } else {
        0
    }
}

/// In an ordered list the accounts after a cursor are all the accounts whose
/// user comes after it, and none else.
pub proof fn lemma_after_is_exact(list: Listing, cursor: Seq<char>)
    requires
        ordered(list),
    ensures
        passed(list, cursor) <= list.len(),
        after(list, Some(cursor)) == list.skip(passed(list, cursor) as int),
        forall|i: int|
            0 <= i < list.len() ==> (precedes(cursor, #[trigger] list[i].0) <==> passed(
                list,
                cursor,
            ) <= i),
    decreases list.len(),
{
    if list.len() > 0 && !precedes(cursor, list[0].0) {
        let tail = list.drop_first();
        assert forall|i: int, j: int| 0 <= i < j < tail.len() implies precedes(
            #[trigger] tail[i].0,
            #[trigger] tail[j].0,
        ) by {
            assert(precedes(list[i + 1].0, list[j + 1].0));
        }
        lemma_after_is_exact(tail, cursor);
        assert(tail.skip(passed(tail, cursor) as int) =~= list.skip(passed(list, cursor) as int));
        assert forall|i: int| 0 <= i < list.len() implies (precedes(cursor, #[trigger] list[i].0)
            <==> passed(list, cursor) <= i) by {
            if i > 0 {
                assert(tail[i - 1] == list[i]);
            }
        }
    } else {
        assert(list.skip(0) =~= list);
        assert forall|i: int| 0 <= i < list.len() implies precedes(
            cursor,
            #[trigger] list[i].0,
        ) by {
            if i > 0 {
                assert(precedes(list[0].0, list[i].0));
                lemma_precedes_transitive(cursor, list[0].0, list[i].0);
            }
        }
    }
}

/// A page is cut from the accounts right after its cursor: a list that
/// holds only those, as many as the largest page or more, gives the same
/// page as the whole list. So a caller that holds a large ledger elsewhere
/// can hand over just this stretch of it.
pub proof fn lemma_page_is_local(
    list: Listing,
    cursor: Option<Seq<char>>,
    size: nat,
    stretch: nat,
)
    requires
        ordered(list),
        size <= stretch,
    ensures
        ordered(page_of(list, cursor, stretch)),
        page_of(page_of(list, cursor, stretch), cursor, size) == page_of(list, cursor, size),
{
    let rest = after(list, cursor);
    let window = page_of(list, cursor, stretch);
    if cursor is Some {
        lemma_after_is_exact(list, cursor->0);
    }
    let from = if cursor is Some {
        passed(list, cursor->0) as int
    } else {
        0
    };
    assert(rest =~= list.skip(from));
    assert forall|i: int, j: int| 0 <= i < j < window.len() implies precedes(
        #[trigger] window[i].0,
        #[trigger] window[j].0,
    ) by {
        assert(precedes(list[from + i].0, list[from + j].0));
    }
    if cursor is Some && window.len() > 0 {
        assert(window[0] == list[from]);
        assert(precedes(cursor->0, window[0].0));
    }
    assert(after(window, cursor) == window);
    if size < rest.len() {
        assert(window.take(size as int) =~= rest.take(size as int));
    }
}

/// The cursor with which the page number `n` of a walk is asked for: none
/// for the first page, then the last user of the page before. `size` is the
/// page size of the walk.
pub open spec fn cursor_of(list: Listing, size: nat, n: nat) -> Option<
    Seq<char>,
>
    decreases n,
{
    if n == 0 {
        None
    } else {
        let cursor = cursor_of(list, size, (n - 1) as nat);
        let shown = page_of(list, cursor, size);
        if shown.len() > 0 {
            Some(shown.last().0)
        } else {
            cursor
        }
    }
}

/// The page number `n` of a walk through `list` in pages of `size`.
pub open spec fn nth_page(list: Listing, size: nat, n: nat) -> Listing {
    page_of(list, cursor_of(list, size, n), size)
}

/// The smaller of two numbers.
pub open spec fn least(a: nat, b: nat) -> nat {
    if a <= b {
        a
    } else {
        b
    }
}

/// The page number `n` of a walk holds the accounts of the list from place
/// `n * size` up to place `(n + 1) * size`, as far as the list goes.
pub proof fn lemma_nth_page(list: Listing, size: nat, n: nat)
    requires
        ordered(list),
        size >= 1,
    ensures
        after(list, cursor_of(list, size, n)) == list.skip(least(n * size, list.len()) as int),
        nth_page(list, size, n) == list.subrange(
            least(n * size, list.len()) as int,
            least((n + 1) * size, list.len()) as int,
        ),
    decreases n,
{
    let len = list.len() as int;
    let start = (n * size) as int;
    let end = ((n + 1) * size) as int;
    assert(end == start + size && start >= 0) by (nonlinear_arith)
        requires
            start == n * size,
            end == (n + 1) * size,
    ;
    let from = least(n * size, list.len()) as int;
    if n == 0 {
        assert(start == 0) by (nonlinear_arith)
            requires
                start == n * size,
                n == 0,
        ;
        assert(list.skip(0) =~= list);
        assert(after(list, cursor_of(list, size, n)) == list.skip(from));
    } else {
        let earlier = (n - 1) as nat;
        lemma_nth_page(list, size, earlier);
        assert((earlier + 1) * size == n * size);
        assert(earlier * size + size == start && earlier * size >= 0) by (nonlinear_arith)
            requires
                start == n * size,
                earlier + 1 == n,
        ;
        let before = least(earlier * size, list.len()) as int;
        let shown = nth_page(list, size, earlier);
        assert(shown == list.subrange(before, from));
        if shown.len() > 0 {
            let cursor = shown.last().0;
            assert(cursor == list[from - 1].0);
            assert forall|i: int| 0 <= i < from implies !precedes(cursor, #[trigger] list[i].0) by {
                if i < from - 1 {
                    lemma_precedes_asymmetric(list[i].0, list[from - 1].0);
                } else {
                    lemma_precedes_irreflexive(cursor);
                }
            }
            if from < len {
                assert(precedes(list[from - 1].0, list[from].0));
            }
            lemma_after_skips(list, cursor, from);
            assert(cursor_of(list, size, n) == Some(cursor));
        } else {
            assert(before == len);
            assert(from == len);
            assert(cursor_of(list, size, n) == cursor_of(list, size, earlier));
        }
        assert(after(list, cursor_of(list, size, n)) == list.skip(from));
    }
    let rest = list.skip(from);
    if size < rest.len() {
        assert(rest.take(size as int) =~= list.subrange(from, from + size));
    } else {
        assert(rest =~= list.subrange(from, len));
    }
}

/// The account at place `i` of the list is shown at place `i % size` of the
/// page number `i / size`.
pub open spec fn shown_in_turn(list: Listing, size: nat, i: int) -> bool {
    let page = nth_page(list, size, (i / (size as int)) as nat);
    &&& i % (size as int) < page.len()
    &&& page[i % (size as int)] == list[i]
}

/// Pagination: a walk through `len` accounts in pages of `size` shows every
/// account once, in ascending order of user: the account at place `i` of the
/// ledger is the one at place `i % size` of page `i / size`, and no two
/// places hold the same user. No page holds more than `size` accounts; the
/// pages before number `ceil(len / size)` hold accounts, and no page from
/// there on does.
pub proof fn lemma_pagination(list: Listing, size: nat)
    requires
        ordered(list),
        size >= 1,
    ensures
        forall|i: int| 0 <= i < list.len() ==> #[trigger] shown_in_turn(list, size, i),
        forall|i: int, j: int|
            0 <= i < j < list.len() ==> (#[trigger] list[i]).0 != (#[trigger] list[j]).0,
        forall|n: nat| (#[trigger] nth_page(list, size, n)).len() <= size,
        forall|n: nat|
            (#[trigger] nth_page(list, size, n)).len() > 0 <==> n < (list.len() + size - 1) / (
            size as int),
{
    let len = list.len() as int;
    let k = size as int;
    assert forall|i: int| 0 <= i < list.len() implies #[trigger] shown_in_turn(list, size, i) by {
        let n = (i / k) as nat;
        assert(i == n * size + i % k && 0 <= i % k < k && i / k >= 0 && (n + 1) * size == n * size
            + size) by (nonlinear_arith)
            requires
                n == i / k,
                k == size,
                k >= 1,
                i >= 0,
        ;
        lemma_nth_page(list, size, n);
    }
    assert forall|n: nat| (#[trigger] nth_page(list, size, n)).len() <= size by {
        lemma_nth_page(list, size, n);
        assert((n + 1) * size == n * size + size && n * size >= 0) by (nonlinear_arith);
    }
    assert forall|n: nat|
        (#[trigger] nth_page(list, size, n)).len() > 0 <==> n < (len + k - 1) / k by {
        lemma_nth_page(list, size, n);
        assert((n + 1) * size == n * size + size && n * size >= 0) by (nonlinear_arith);
        assert(n * size < len <==> n < (len + k - 1) / k) by (nonlinear_arith)
            requires
                k == size,
                k >= 1,
                len >= 0,
        ;
    }
    assert forall|i: int, j: int| 0 <= i < j < list.len() implies (#[trigger] list[i]).0 != (
    #[trigger] list[j]).0 by {
        lemma_precedes_asymmetric(list[i].0, list[j].0);
    }
}

/// Pagination over a ledger: for a well-formed ledger and every requested
/// limit but zero, the walk that `query_all_royalties` serves, each page
/// asked for with the last user of the page before as its cursor, shows
/// every account once, in ascending order of user, in pages of the
/// requested size, or of `MAX_LIMIT` where more or nothing is requested.
pub proof fn lemma_listing_walk(ledger: Ledger, limit: Option<u32>)
    requires
        ledger.wf(),
        limit != Some(0u32),
    ensures
        ({
            let list = ledger.listing();
            let size = page_limit(limit);
            &&& 1 <= size <= MAX_LIMIT
            &&& (limit matches Some(n) ==> n <= MAX_LIMIT ==> size == n)
            &&& forall|i: int| 0 <= i < list.len() ==> #[trigger] shown_in_turn(list, size, i)
            &&& forall|n: nat| (#[trigger] nth_page(list, size, n)).len() <= size
            &&& forall|n: nat|
                (#[trigger] nth_page(list, size, n)).len() > 0 <==> n < (list.len() + size - 1) / (
                size as int)
        }),
{
    lemma_pagination(ledger.listing(), page_limit(limit));
}

/// A settlement that names no amount settles all that is owed and leaves
/// nothing owed; on an open ledger all of it goes to the burn history.
pub proof fn lemma_settle_all(
    ledger: LedgerView,
    sender: Seq<char>,
    user: Seq<char>,
    user_valid: bool,
)
    ensures
        ledger.settled(sender, user, user_valid, None) matches Ok(next) ==> {
            &&& ledger.accounts[user].settle_amount(None) == ledger.owed(user)
            &&& ledger.owed(user) > 0
            &&& next.owed(user) == 0
            &&& !ledger.gated() ==> next.burned(user) == ledger.burned(user) + ledger.owed(user)
        },
{
}

/// A settlement of more than is owed, asked for by a caller that the ledger
/// authorizes and for a user that has an account, is refused for want of
/// funds.
pub proof fn lemma_settle_too_much(
    ledger: LedgerView,
    sender: Seq<char>,
    user: Seq<char>,
    amount: nat,
)
    requires
        ledger.authorizes(sender),
        ledger.account(user) is Some,
        amount > ledger.owed(user),
    ensures
        ledger.settled(sender, user, true, Some(amount)) == Err::<LedgerView, ContractError>(
            ContractError::InsufficientFunds,
        ),
{
}

/// A settlement of nothing, named as zero or resolved to zero because
/// nothing is owed, asked for by a caller that the ledger authorizes and for
/// a user that has an account, is refused as an invalid amount.
pub proof fn lemma_settle_nothing(
    ledger: LedgerView,
    sender: Seq<char>,
    user: Seq<char>,
    amount: Option<nat>,
)
    requires
        ledger.authorizes(sender),
        ledger.account(user) is Some,
        amount == Some(0nat) || (amount is None && ledger.owed(user) == 0),
    ensures
        ledger.settled(sender, user, true, amount) == Err::<LedgerView, ContractError>(
            ContractError::InvalidAmount,
        ),
{
}

/// An accrual of nothing is refused as an invalid amount, whoever asks and
/// for whomever.
pub proof fn lemma_accrue_nothing(
    ledger: LedgerView,
    sender: Seq<char>,
    user: Seq<char>,
    user_valid: bool,
    evm_address: Seq<char>,
)
    ensures
        ledger.recorded(sender, user, user_valid, evm_address, 0) == Err::<
            LedgerView,
            ContractError,
        >(ContractError::InvalidAmount),
{
}

/// A caller that the ledger does not authorize, which only a gated ledger
/// can have, cannot change it: its settlements and hand-overs are refused
/// as unauthorized, and so are its accruals of a positive amount to a
/// well-formed identity.
pub proof fn lemma_unauthorized(
    ledger: LedgerView,
    sender: Seq<char>,
    user: Seq<char>,
    user_valid: bool,
    evm_address: Seq<char>,
    amount: nat,
    settle: Option<nat>,
)
    requires
        !ledger.authorizes(sender),
    ensures
        ledger.gated(),
        ledger.settled(sender, user, user_valid, settle) == Err::<LedgerView, ContractError>(
            ContractError::Unauthorized,
        ),
        ledger.handed_over(sender, user, user_valid) == Err::<LedgerView, ContractError>(
            ContractError::Unauthorized,
        ),
        amount > 0 && user_valid ==> ledger.recorded(sender, user, user_valid, evm_address, amount)
            == Err::<LedgerView, ContractError>(ContractError::Unauthorized),
        ledger.recorded(sender, user, user_valid, evm_address, amount) is Err,
{
}

/// The payload of a settlement comes back whole from either transport
/// encoding: decoding the hexadecimal or the base64 text gives the canonical
/// bytes, and these are the encoding of that payload and of no other.
pub proof fn lemma_payload_survives_transport(p: PayloadView)
    ensures
        hex_bytes(hex_text(payload_json(p))) == Some(payload_json(p)),
        base64_bytes(base64_text(payload_json(p))) == Some(payload_json(p)),
        payload_of(payload_json(p)) == Some(p),
{
    lemma_hex_round_trip(payload_json(p));
    lemma_base64_round_trip(payload_json(p));
    lemma_payload_round_trip(p);
}

} // verus!
