//! Properties that hold across the engine's operations.
use vstd::prelude::*;

use crate::pallet::{color_for, Pallet};
use crate::types::{AccountId, Balance, Color};

verus! {

/// `x` stands at exactly one position of `s`.
pub open spec fn holds_once(s: Seq<u64>, x: u64) -> bool {
    exists|i: int|
        0 <= i < s.len() && s[i] == x && forall|j: int| 0 <= j < s.len() && s[j] == x ==> j == i
}

proof fn lemma_once_if_distinct(s: Seq<u64>, x: u64)
    requires
        s.no_duplicates(),
        s.contains(x),
    ensures
        holds_once(s, x),
{
    let i = choose|i: int| 0 <= i < s.len() && s[i] == x;
    assert forall|j: int| 0 <= j < s.len() && s[j] == x implies j == i by {}
}

/// Ids are handed out from 0 in strictly increasing order and never twice:
/// a fresh state's counter is 0, `create_collectible` mints the counter's
/// value and moves the counter past it, and since no operation lowers the
/// counter, every later creation mints a larger id.
pub proof fn lemma_created_ids_increase(
    before: Pallet,
    created: Pallet,
    later: Pallet,
    to: AccountId,
)
    requires
        before.mint_error(to, before.count()) is None,
        before.minted(&created, to, before.count(), color_for(before.count())),
        created.count() <= later.count(),
    ensures
        !before.registry().contains_key(before.count()),
        created.registry().contains_key(before.count()),
        before.count() < later.count(),
{
}

/// After a successful mint of `id` to `owner`, the record is unlisted and
/// owned by `owner`, and `id` stands exactly once in the owner's index.
pub proof fn lemma_mint_registers_once(
    before: Pallet,
    after: Pallet,
    owner: AccountId,
    id: u64,
    color: Color,
)
    requires
        after.wf(),
        before.mint_error(owner, id) is None,
        before.minted(&after, owner, id, color),
    ensures
        after.registry().contains_key(id),
        after.registry()[id].price is None,
        after.registry()[id].owner == owner,
        holds_once(after.owned(owner), id),
{
    assert(after.owned(owner).last() == id);
    lemma_once_if_distinct(after.owned(owner), id);
}

/// After `id` moves from `from` to `to`, it is gone from the index of
/// `from`, stands exactly once in the index of `to`, is unlisted and owned
/// by `to`.
pub proof fn lemma_transfer_moves_once(
    before: Pallet,
    after: Pallet,
    from: AccountId,
    to: AccountId,
    id: u64,
)
    requires
        after.wf(),
        before.transfer_error(from, to, id) is None,
        before.moved(&after, id, to),
    ensures
        !after.owned(from).contains(id),
        holds_once(after.owned(to), id),
        after.registry()[id].price is None,
        after.registry()[id].owner == to,
{
    assert(after.owned(to).last() == id);
    lemma_once_if_distinct(after.owned(to), id);
}

/// Reading an asset after its price was set gives that price.
pub proof fn lemma_set_price_then_get(
    before: Pallet,
    after: Pallet,
    owner: AccountId,
    id: u64,
    price: Option<Balance>,
)
    requires
        before.owner_error(owner, id) is None,
        before.priced(&after, id, price),
    ensures
        after.registry().contains_key(id),
        after.registry()[id].price == price,
        after.registry()[id].owner == owner,
{
}

/// In every well-formed state no account's index exceeds the capacity.
pub proof fn lemma_index_within_capacity(s: Pallet, a: AccountId)
    requires
        s.wf(),
    ensures
        s.owned(a).len() <= s.maximum_owned(),
{
    assert(s.owned(a).len() <= s.maximum_owned());
}

} // verus!
