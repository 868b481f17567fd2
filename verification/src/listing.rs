//! Lists of accounts in ascending order of user: what such a list holds for
//! each user, how it changes when an account is put in or taken out, and how
//! it is cut into pages.

use vstd::prelude::*;
use crate::account::AccountView;
use crate::order::lemma_precedes_asymmetric;
use crate::order::lemma_precedes_transitive;
use crate::order::precedes;

verus! {

/// Accounts with their users, as plain values.
pub type Listing = Seq<(Seq<char>, AccountView)>;

/// The accounts are strictly ascending by user, so no user occurs twice.
pub open spec fn ordered(list: Listing) -> bool {
    forall|i: int, j: int|
        0 <= i < j < list.len() ==> precedes(#[trigger] list[i].0, #[trigger] list[j].0)
}

/// `user` has an account in `list`.
pub open spec fn holds(list: Listing, user: Seq<char>) -> bool {
    exists|i: int| 0 <= i < list.len() && #[trigger] list[i].0 == user
}

/// Where the account of `user` stands in `list`, if it has one.
pub open spec fn index_of(list: Listing, user: Seq<char>) -> int {
    choose|i: int| 0 <= i < list.len() && #[trigger] list[i].0 == user
}

/// The accounts of a list, by user.
pub open spec fn accounts_of(list: Listing) -> Map<Seq<char>, AccountView> {
    Map::new(|user: Seq<char>| holds(list, user), |user: Seq<char>| list[index_of(list, user)].1)
}

/// In an ordered list each user is found at one place only.
pub proof fn lemma_index_of(list: Listing, i: int)
    requires
        ordered(list),
        0 <= i < list.len(),
    ensures
        holds(list, list[i].0),
        index_of(list, list[i].0) == i,
        accounts_of(list).dom().contains(list[i].0),
        accounts_of(list)[list[i].0] == list[i].1,
{
    let user = list[i].0;
    let j = index_of(list, user);
    if j < i {
        lemma_precedes_asymmetric(list[j].0, list[i].0);
    } else if i < j {
        lemma_precedes_asymmetric(list[i].0, list[j].0);
    }
}

/// Putting a new user at its place keeps the order and adds one account.
pub proof fn lemma_list_insert(
    list: Listing,
    at: int,
    user: Seq<char>,
    account: AccountView,
)
    requires
        ordered(list),
        0 <= at <= list.len(),
        forall|i: int| 0 <= i < at ==> precedes(#[trigger] list[i].0, user),
        forall|i: int| at <= i < list.len() ==> precedes(user, #[trigger] list[i].0),
    ensures
        ordered(list.insert(at, (user, account))),
        accounts_of(list.insert(at, (user, account))) == accounts_of(list).insert(user, account),
{
    let grown = list.insert(at, (user, account));
    assert forall|i: int, j: int| 0 <= i < j < grown.len() implies precedes(
        #[trigger] grown[i].0,
        #[trigger] grown[j].0,
    ) by {
        if i < at && j > at {
            assert(precedes(list[i].0, list[j - 1].0));
        } else if i > at {
            assert(precedes(list[i - 1].0, list[j - 1].0));
        } else if j < at {
            assert(precedes(list[i].0, list[j].0));
        } else if i == at {
            assert(precedes(user, list[j - 1].0));
        } else {
            assert(precedes(list[i].0, user));
        }
    }
    let before = accounts_of(list).insert(user, account);
    let after = accounts_of(grown);
    assert forall|u: Seq<char>| before.dom().contains(u) implies #[trigger] after.dom().contains(u)
        && after[u] == before[u] by {
        if u == user {
            assert(grown[at].0 == user);
            lemma_index_of(grown, at);
        } else {
            let k = index_of(list, u);
            let moved = if k < at { k } else { k + 1 };
            assert(grown[moved] == list[k]);
            lemma_index_of(grown, moved);
            lemma_index_of(list, k);
        }
    }
    assert forall|u: Seq<char>| after.dom().contains(u) implies #[trigger] before.dom().contains(
        u,
    ) by {
        let k = index_of(grown, u);
        if k < at {
            assert(list[k].0 == u);
        } else if k > at {
            assert(list[k - 1].0 == u);
        }
    }
    assert(after =~= before);
}

/// Replacing the account of a user that is there keeps the order and
/// changes that one account.
pub proof fn lemma_list_update(list: Listing, at: int, account: AccountView)
    requires
        ordered(list),
        0 <= at < list.len(),
    ensures
        ordered(list.update(at, (list[at].0, account))),
        accounts_of(list.update(at, (list[at].0, account))) == accounts_of(list).insert(
            list[at].0,
            account,
        ),
{
    let user = list[at].0;
    let changed = list.update(at, (user, account));
    assert forall|i: int, j: int| 0 <= i < j < changed.len() implies precedes(
        #[trigger] changed[i].0,
        #[trigger] changed[j].0,
    ) by {
        assert(precedes(list[i].0, list[j].0));
    }
    let before = accounts_of(list).insert(user, account);
    let after = accounts_of(changed);
    assert forall|u: Seq<char>| before.dom().contains(u) implies #[trigger] after.dom().contains(u)
        && after[u] == before[u] by {
        if u == user {
            lemma_index_of(changed, at);
        } else {
            let k = index_of(list, u);
            assert(changed[k] == list[k]);
            lemma_index_of(changed, k);
            lemma_index_of(list, k);
        }
    }
    assert forall|u: Seq<char>| after.dom().contains(u) implies #[trigger] before.dom().contains(
        u,
    ) by {
        let k = index_of(changed, u);
        assert(list[k].0 == u);
    }
    assert(after =~= before);
}

/// Taking a user out keeps the order and removes that one account.
pub proof fn lemma_list_remove(list: Listing, at: int)
    requires
        ordered(list),
        0 <= at < list.len(),
    ensures
        ordered(list.remove(at)),
        accounts_of(list.remove(at)) == accounts_of(list).remove(list[at].0),
{
    let user = list[at].0;
    let shrunk = list.remove(at);
    assert forall|i: int, j: int| 0 <= i < j < shrunk.len() implies precedes(
        #[trigger] shrunk[i].0,
        #[trigger] shrunk[j].0,
    ) by {
        let from_i = if i < at { i } else { i + 1 };
        let from_j = if j < at { j } else { j + 1 };
        assert(precedes(list[from_i].0, list[from_j].0));
    }
    let before = accounts_of(list).remove(user);
    let after = accounts_of(shrunk);
    assert forall|u: Seq<char>| before.dom().contains(u) implies #[trigger] after.dom().contains(u)
        && after[u] == before[u] by {
        let k = index_of(list, u);
        lemma_index_of(list, k);
        lemma_index_of(list, at);
        let moved = if k < at { k } else { k - 1 };
        assert(shrunk[moved] == list[k]);
        lemma_index_of(shrunk, moved);
    }
    assert forall|u: Seq<char>| after.dom().contains(u) implies #[trigger] before.dom().contains(
        u,
    ) by {
        let k = index_of(shrunk, u);
        let from = if k < at { k } else { k + 1 };
        assert(list[from].0 == u);
        if u == user {
            lemma_index_of(list, from);
            lemma_index_of(list, at);
        }
    }
    assert(after =~= before);
}

/// The accounts of `list` from the first one whose user comes after `cursor`
/// on; the whole list where there is no cursor.
pub open spec fn after(list: Listing, cursor: Option<Seq<char>>) -> Listing
    decreases list.len(),
{
    if list.len() > 0 && cursor is Some && !precedes(cursor->0, list[0].0) {
        after(list.drop_first(), cursor)
    } else {
        list
    }
}

/// One page: the first `limit` accounts after `cursor`, or all that are
/// left where they are fewer.
pub open spec fn page_of(
    list: Listing,
    cursor: Option<Seq<char>>,
    limit: nat,
) -> Listing {
    let rest = after(list, cursor);
    if limit < rest.len() {
        rest.take(limit as int)
    } else {
        rest
    }
}

/// Where the first `from` users of a list do not come after the cursor and
/// the next one does, the accounts after the cursor are those from `from` on.
pub proof fn lemma_after_skips(list: Listing, cursor: Seq<char>, from: int)
    requires
        0 <= from <= list.len(),
        forall|i: int| 0 <= i < from ==> !precedes(cursor, #[trigger] list[i].0),
        from < list.len() ==> precedes(cursor, list[from].0),
    ensures
        after(list, Some(cursor)) == list.skip(from),
    decreases from,
{
    if from == 0 {
        assert(list.skip(0) =~= list);
    } else {
        assert(!precedes(cursor, list[0].0));
        let tail = list.drop_first();
        assert forall|i: int| 0 <= i < from - 1 implies !precedes(cursor, #[trigger] tail[i].0) by {
            assert(tail[i] == list[i + 1]);
        }
        lemma_after_skips(tail, cursor, from - 1);
        assert(tail.skip(from - 1) =~= list.skip(from));
    }
}

/// Users that follow one another in ascending order are in ascending order
/// throughout.
pub proof fn lemma_ordered_by_neighbours(list: Listing)
    requires
        forall|i: int| 0 <= i < list.len() - 1 ==> precedes(#[trigger] list[i].0, list[i + 1].0),
    ensures
        ordered(list),
{
    assert forall|i: int, j: int| 0 <= i < j < list.len() implies precedes(
        #[trigger] list[i].0,
        #[trigger] list[j].0,
    ) by {
        lemma_neighbours_reach(list, i, j);
    }
}

proof fn lemma_neighbours_reach(list: Listing, i: int, j: int)
    requires
        forall|k: int| 0 <= k < list.len() - 1 ==> precedes(#[trigger] list[k].0, list[k + 1].0),
        0 <= i < j < list.len(),
    ensures
        precedes(list[i].0, list[j].0),
    decreases j - i,
{
    if j > i + 1 {
        lemma_neighbours_reach(list, i, j - 1);
        assert(precedes(list[j - 1].0, list[j - 1 + 1].0));
        lemma_precedes_transitive(list[i].0, list[j - 1].0, list[j].0);
    } else {
        assert(precedes(list[i].0, list[i + 1].0));
    }
}

} // verus!
