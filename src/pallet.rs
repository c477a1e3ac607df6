use std::collections::HashMap;
use vstd::prelude::*;

use crate::index::{swap_removed, OwnershipIndex};
use crate::types::{AccountId, Balance, Collectible, Color, Config, Error, Event, Payment};

verus! {

broadcast use vstd::std_specs::hash::group_hash_axioms;

/// The attribute given to the asset minted when `count` assets have been
/// minted before it.
pub open spec fn color_for(count: u64) -> Color {
    if count % 2 == 0 {
        Color::Red
    } else {
        Color::Yellow
    }
}

/// The highest price listed among the ids below `n`, or 0 when none is
/// listed. Ids that are absent count as unlisted.
pub open spec fn listed_max(reg: Map<u64, Collectible>, n: nat) -> Balance
    decreases n,
{
    if n == 0 {
        0
    } else {
        let m = listed_max(reg, (n - 1) as nat);
        let id = (n - 1) as u64;
        if reg.contains_key(id) && reg[id].price is Some && reg[id].price->Some_0 > m {
            reg[id].price->Some_0
        } else {
            m
        }
    }
}

/// The record of `c` after it changed hands to `to`: unlisted, new owner.
pub open spec fn handed_over(c: Collectible, to: AccountId) -> Collectible {
    Collectible { unique_id: c.unique_id, price: None, color: c.color, owner: to }
}

/// The engine's state: the mint counter, the registry, the ownership
/// index, the aggregate highest price and the events emitted so far.
///
/// Burning an asset also removes its id from the owner's index, so the
/// index and the registry always agree (see `wf`).
pub struct Pallet {
    count: u64,
    highest: Balance,
    collectibles: HashMap<u64, Collectible>,
    index: OwnershipIndex,
    events: Vec<Event>,
}

impl Pallet {
    /// Id → record.
    pub closed spec fn registry(&self) -> Map<u64, Collectible> {
        self.collectibles@
    }

    /// The ids that `a` owns, in index order.
    pub closed spec fn owned(&self, a: AccountId) -> Seq<u64> {
        self.index.owned(a)
    }

    /// How many assets were ever minted; the next generated id.
    pub closed spec fn count(&self) -> u64 {
        self.count
    }

    /// The aggregate highest listed price, as last recomputed.
    pub closed spec fn highest(&self) -> Balance {
        self.highest
    }

    /// The events emitted so far, oldest first.
    pub closed spec fn log(&self) -> Seq<Event> {
        self.events@
    }

    /// Capacity of each account's ownership index.
    pub closed spec fn maximum_owned(&self) -> nat {
        self.index.capacity()
    }

    /// The state's invariant: every index is within capacity and holds no id
    /// twice; every id in an index is registered to that account; every
    /// registered id stands in its owner's index under its own id.
    pub open spec fn wf(&self) -> bool {
        &&& forall|a: AccountId|
            #![trigger self.owned(a)]
            self.owned(a).len() <= self.maximum_owned() && self.owned(a).no_duplicates()
        &&& forall|a: AccountId, i: int|
            0 <= i < self.owned(a).len() ==> self.registry().contains_key(
                #[trigger] self.owned(a)[i],
            ) && self.registry()[self.owned(a)[i]].owner == a
        &&& forall|id: u64| #[trigger]
            self.registry().contains_key(id) ==> self.registry()[id].unique_id == id
                && self.owned(self.registry()[id].owner).contains(id)
    }

    /// Everything but the registry and the index is as in `self`.
    pub open spec fn same_scalars(&self, post: &Self) -> bool {
        &&& post.count() == self.count()
        &&& post.highest() == self.highest()
        &&& post.maximum_owned() == self.maximum_owned()
    }

    /// `post` is `self` after `id` moved from its owner to `to`: the record is
    /// handed over, the id left the owner's index by a swap-removal and was
    /// appended to the index of `to`; nothing else changed.
    pub open spec fn moved(&self, post: &Self, id: u64, to: AccountId) -> bool {
        let from = self.registry()[id].owner;
        &&& self.same_scalars(post)
        &&& post.registry() == self.registry().insert(id, handed_over(self.registry()[id], to))
        &&& exists|i: int|
            0 <= i < self.owned(from).len() && self.owned(from)[i] == id && post.owned(from)
                == swap_removed(self.owned(from), i)
        &&& !post.owned(from).contains(id)
        &&& post.owned(to) == self.owned(to).push(id)
        &&& forall|b: AccountId|
            b != from && b != to ==> #[trigger] post.owned(b) == self.owned(b)
    }

    /// `post` is `self` after the price of `id` was set to `price`; the event
    /// log records it.
    pub open spec fn priced(&self, post: &Self, id: u64, price: Option<Balance>) -> bool {
        let c = self.registry()[id];
        &&& post.registry() == self.registry().insert(
            id,
            Collectible { unique_id: c.unique_id, price, color: c.color, owner: c.owner },
        )
        &&& forall|a: AccountId| #[trigger] post.owned(a) == self.owned(a)
        &&& self.same_scalars(post)
        &&& post.log() == self.log().push(Event::PriceSet { collectible: id, price })
    }

    /// The rejection that `mint(owner, id, _)` gives, if any.
    pub open spec fn mint_error(&self, owner: AccountId, id: u64) -> Option<Error> {
        if self.registry().contains_key(id) {
            Some(Error::DuplicateCollectible)
        } else if self.count() == u64::MAX {
            Some(Error::BoundsOverflow)
        } else if self.owned(owner).len() >= self.maximum_owned() {
            Some(Error::MaximumCollectiblesOwned)
        } else {
            None
        }
    }

    /// `post` is `self` after a successful mint of `id` to `owner`.
    pub open spec fn minted(&self, post: &Self, owner: AccountId, id: u64, color: Color) -> bool {
        &&& post.registry() == self.registry().insert(
            id,
            Collectible { unique_id: id, price: None, color, owner },
        )
        &&& post.owned(owner) == self.owned(owner).push(id)
        &&& forall|b: AccountId| b != owner ==> #[trigger] post.owned(b) == self.owned(b)
        &&& post.count() == self.count() + 1
        &&& post.highest() == self.highest()
        &&& post.maximum_owned() == self.maximum_owned()
        &&& post.log() == self.log().push(Event::CollectibleCreated { collectible: id, owner })
    }

    /// The rejection that moving `id` to `to` gives, if any, once ownership
    /// has been settled.
    pub open spec fn move_error(&self, id: u64, to: AccountId) -> Option<Error> {
        if !self.registry().contains_key(id) {
            Some(Error::NoCollectible)
        } else if self.registry()[id].owner == to {
            Some(Error::TransferToSelf)
        } else if self.owned(to).len() >= self.maximum_owned() {
            Some(Error::MaximumCollectiblesOwned)
        } else {
            None
        }
    }

    /// The rejection that `transfer(from, to, id)` gives, if any.
    pub open spec fn transfer_error(&self, from: AccountId, to: AccountId, id: u64) -> Option<
        Error,
    > {
        if !self.registry().contains_key(id) {
            Some(Error::NoCollectible)
        } else if self.registry()[id].owner != from {
            Some(Error::NotOwner)
        } else {
            self.move_error(id, to)
        }
    }

    /// The rejection that an owner check on `id` for `who` gives, if any.
    pub open spec fn owner_error(&self, who: AccountId, id: u64) -> Option<Error> {
        if !self.registry().contains_key(id) {
            Some(Error::NoCollectible)
        } else if self.registry()[id].owner != who {
            Some(Error::NotOwner)
        } else {
            None
        }
    }

    /// The rejection that a purchase of `id` by `buyer` with `extra_fee` gives
    /// before any payment, if any.
    pub open spec fn buy_error(&self, id: u64, buyer: AccountId, extra_fee: Balance) -> Option<
        Error,
    > {
        match self.move_error(id, buyer) {
            Some(e) => Some(e),
            None => match self.registry()[id].price {
                None => Some(Error::NotForSale),
                Some(p) => if p + extra_fee > u128::MAX {
                    Some(Error::BoundsOverflow)
                } else {
                    None
                },
            },
        }
    }

    /// What a purchase of `id` by `buyer` with `extra_fee` owes, and to whom.
    pub open spec fn payment_for(&self, id: u64, buyer: AccountId, extra_fee: Balance) -> Payment {
        Payment {
            payer: buyer,
            payee: self.registry()[id].owner,
            amount: (self.registry()[id].price->Some_0 + extra_fee) as u128,
        }
    }

    /// An empty state: nothing minted, no index holds anything.
    pub fn new(config: Config) -> (r: Self)
        ensures
            r.wf(),
            r.count() == 0,
            r.highest() == 0,
            r.registry() == Map::<u64, Collectible>::empty(),
            forall|a: AccountId| #[trigger] r.owned(a) == Seq::<u64>::empty(),
            r.log() == Seq::<Event>::empty(),
            r.maximum_owned() == config.maximum_owned as nat,
    {
        let r = Pallet {
            count: 0,
            highest: 0,
            collectibles: HashMap::new(),
            index: OwnershipIndex::new(config.maximum_owned),
            events: Vec::new(),
        };
        assert(r.registry() =~= Map::<u64, Collectible>::empty());
        r
    }
}

impl Pallet {
    proof fn lemma_index_wf(&self)
        requires
            forall|a: AccountId|
                #![trigger self.owned(a)]
                self.owned(a).len() <= self.maximum_owned() && self.owned(a).no_duplicates(),
        ensures
            self.index.wf(),
    {
        assert forall|a: AccountId| #![trigger self.index.owned(a)]
            self.index.owned(a).len() <= self.index.capacity()
            && self.index.owned(a).no_duplicates() by {
            assert(self.owned(a) == self.index.owned(a));
        }
    }

    proof fn lemma_owned_bounded(&self)
        requires
            self.index.wf(),
        ensures
            forall|a: AccountId|
                #![trigger self.owned(a)]
                self.owned(a).len() <= self.maximum_owned() && self.owned(a).no_duplicates(),
    {
        assert forall|a: AccountId| #![trigger self.owned(a)]
            self.owned(a).len() <= self.maximum_owned() && self.owned(a).no_duplicates() by {
            assert(self.owned(a) == self.index.owned(a));
        }
    }

    /// The id and attribute for the next asset: the id is the mint counter,
    /// the attribute follows its parity.
    pub fn gen_unique_id(&self) -> (r: (u64, Color))
        ensures
            r.0 == self.count(),
            r.1 == color_for(self.count()),
    {
        let collectibles_count = self.count;
        if collectibles_count % 2 == 0 {
            (collectibles_count, Color::Red)
        } else {
            (collectibles_count, Color::Yellow)
        }
    }

    /// Registers `unique_id` to `owner`, unlisted, and appends it to the
    /// owner's index; both happen or neither does.
    pub fn mint(&mut self, owner: AccountId, unique_id: u64, color: Color) -> (r: Result<
        u64,
        Error,
    >)
        requires
            old(self).wf(),
        ensures
            final(self).wf(),
            match old(self).mint_error(owner, unique_id) {
                Some(e) => r == Err::<u64, Error>(e) && *final(self) == *old(self),
                None => r == Ok::<u64, Error>(unique_id) && old(self).minted(
                    &*final(self),
                    owner,
                    unique_id,
                    color,
                ),
            },
    {
        if self.collectibles.contains_key(&unique_id) {
            return Err(Error::DuplicateCollectible);
        }
        let new_count = match self.count.checked_add(1) {
            Some(n) => n,
            None => {
                return Err(Error::BoundsOverflow);
            },
        };
        if !self.index.has_room(owner) {
            return Err(Error::MaximumCollectiblesOwned);
        }
        proof {
            if self.owned(owner).contains(unique_id) {
                let k = choose|k: int|
                    0 <= k < self.owned(owner).len() && self.owned(owner)[k] == unique_id;
                assert(self.registry().contains_key(self.owned(owner)[k]));
            }
        }
        let ghost pre = *self;
        proof {
            self.lemma_index_wf();
        }
        let appended = self.index.try_append(owner, unique_id);
        assert(appended is Ok);
        let collectible = Collectible { unique_id, price: None, color, owner };
        self.collectibles.insert(unique_id, collectible);
        self.count = new_count;
        self.events.push(Event::CollectibleCreated { collectible: unique_id, owner });
        proof {
            self.lemma_owned_bounded();
            assert forall|a: AccountId, i: int| 0 <= i < self.owned(a).len() implies
                self.registry().contains_key(#[trigger] self.owned(a)[i])
                && self.registry()[self.owned(a)[i]].owner == a by {
                if !(a == owner && i == pre.owned(a).len()) {
                    assert(pre.owned(a)[i] == self.owned(a)[i]);
                }
            }
            assert forall|id: u64| #[trigger] self.registry().contains_key(id) implies
                self.registry()[id].unique_id == id
                && self.owned(self.registry()[id].owner).contains(id) by {
                if id == unique_id {
                    assert(self.owned(owner).last() == id);
                } else {
                    let o = pre.registry()[id].owner;
                    let k = choose|k: int| 0 <= k < pre.owned(o).len() && pre.owned(o)[k] == id;
                    assert(self.owned(o)[k] == id);
                }
            }
        }
        Ok(unique_id)
    }

    /// Mints the next generated id, with its generated attribute, to `to`.
    pub fn create_collectible(&mut self, to: AccountId) -> (r: Result<(), Error>)
        requires
            old(self).wf(),
        ensures
            final(self).wf(),
            match old(self).mint_error(to, old(self).count()) {
                Some(e) => r == Err::<(), Error>(e) && *final(self) == *old(self),
                None => r == Ok::<(), Error>(()) && old(self).minted(
                    &*final(self),
                    to,
                    old(self).count(),
                    color_for(old(self).count()),
                ),
            },
    {
        let (collectible_gen_unique_id, color) = self.gen_unique_id();
        match self.mint(to, collectible_gen_unique_id, color) {
            Ok(_) => Ok(()),
            Err(e) => Err(e),
        }
    }
}

impl Pallet {
    /// A change of the event log alone keeps `moved` and `wf`.
    proof fn lemma_moved_keeps(&self, mid: &Self, post: &Self, id: u64, to: AccountId)
        requires
            mid.wf(),
            self.moved(mid, id, to),
            post.collectibles == mid.collectibles,
            post.index == mid.index,
            post.count == mid.count,
            post.highest == mid.highest,
        ensures
            post.wf(),
            self.moved(post, id, to),
    {
        let from = self.registry()[id].owner;
        let i = choose|i: int|
            0 <= i < self.owned(from).len() && self.owned(from)[i] == id && mid.owned(from)
                == swap_removed(self.owned(from), i);
        assert(post.owned(from) == swap_removed(self.owned(from), i));
        assert forall|b: AccountId| #[trigger] post.owned(b) == mid.owned(b) by {}
    }

    /// Moves `id` from its owner to `to`, whose index has room.
    fn commit_move(&mut self, id: u64, to: AccountId)
        requires
            old(self).wf(),
            old(self).move_error(id, to) is None,
        ensures
            final(self).wf(),
            old(self).moved(&*final(self), id, to),
            final(self).log() == old(self).log(),
    {
        let ghost pre = *self;
        let mut collectible = *self.collectibles.get(&id).unwrap();
        let from = collectible.owner;
        proof {
            self.lemma_index_wf();
            if self.owned(to).contains(id) {
                let k = choose|k: int| 0 <= k < self.owned(to).len() && self.owned(to)[k] == id;
                assert(self.registry().contains_key(self.owned(to)[k]));
            }
        }
        let removed = self.index.remove(from, id);
        assert(removed is Ok);
        let appended = self.index.try_append(to, id);
        assert(appended is Ok);
        collectible.owner = to;
        collectible.price = None;
        self.collectibles.insert(id, collectible);
        proof {
            self.lemma_owned_bounded();
            assert(self.registry() == pre.registry().insert(id, handed_over(pre.registry()[id], to)));
            assert forall|a: AccountId, i: int| 0 <= i < self.owned(a).len() implies
                self.registry().contains_key(#[trigger] self.owned(a)[i])
                && self.registry()[self.owned(a)[i]].owner == a by {
                let x = self.owned(a)[i];
                if a == from {
                    assert(self.owned(a).contains(x));
                    let k = choose|k: int| 0 <= k < pre.owned(a).len() && pre.owned(a)[k] == x;
                    assert(pre.registry().contains_key(pre.owned(a)[k]));
                } else if a == to {
                    if i < pre.owned(a).len() {
                        assert(pre.owned(a)[i] == x);
                        assert(pre.registry().contains_key(pre.owned(a)[i]));
                    }
                } else {
                    assert(pre.owned(a)[i] == x);
                    assert(pre.registry().contains_key(pre.owned(a)[i]));
                }
            }
            assert forall|k: u64| #[trigger] self.registry().contains_key(k) implies
                self.registry()[k].unique_id == k
                && self.owned(self.registry()[k].owner).contains(k) by {
                if k == id {
                    assert(self.owned(to).last() == id);
                } else {
                    let o = pre.registry()[k].owner;
                    let j = choose|j: int| 0 <= j < pre.owned(o).len() && pre.owned(o)[j] == k;
                    if o == to {
                        assert(self.owned(o)[j] == k);
                    } else if o != from {
                        assert(self.owned(o)[j] == k);
                    }
                }
            }
        }
    }

    /// Moves `collectible_id` from whoever owns it to `to`, cancelling any
    /// listing.
    pub fn do_transfer(&mut self, collectible_id: u64, to: AccountId) -> (r: Result<(), Error>)
        requires
            old(self).wf(),
        ensures
            final(self).wf(),
            match old(self).move_error(collectible_id, to) {
                Some(e) => r == Err::<(), Error>(e) && *final(self) == *old(self),
                None => r == Ok::<(), Error>(()) && old(self).moved(&*final(self), collectible_id, to)
                    && final(self).log() == old(self).log().push(
                    Event::TransferSucceeded {
                        from: old(self).registry()[collectible_id].owner,
                        to,
                        collectible: collectible_id,
                    },
                ),
            },
    {
        let from = match self.collectibles.get(&collectible_id) {
            Some(c) => c.owner,
            None => {
                return Err(Error::NoCollectible);
            },
        };
        if from == to {
            return Err(Error::TransferToSelf);
        }
        if self.index.position(from, collectible_id).is_none() {
            assert(self.registry().contains_key(collectible_id));
            return Err(Error::NoCollectible);
        }
        if !self.index.has_room(to) {
            return Err(Error::MaximumCollectiblesOwned);
        }
        let ghost pre = *self;
        self.commit_move(collectible_id, to);
        let ghost mid = *self;
        self.events.push(Event::TransferSucceeded { from, to, collectible: collectible_id });
        proof {
            pre.lemma_moved_keeps(&mid, &*self, collectible_id, to);
        }
        Ok(())
    }

    /// Moves `unique_id` from `from`, which must own it, to `to`.
    pub fn transfer(&mut self, from: AccountId, to: AccountId, unique_id: u64) -> (r: Result<
        (),
        Error,
    >)
        requires
            old(self).wf(),
        ensures
            final(self).wf(),
            match old(self).transfer_error(from, to, unique_id) {
                Some(e) => r == Err::<(), Error>(e) && *final(self) == *old(self),
                None => r == Ok::<(), Error>(()) && old(self).moved(&*final(self), unique_id, to)
                    && final(self).log() == old(self).log().push(
                    Event::TransferSucceeded { from, to, collectible: unique_id },
                ),
            },
    {
        match self.collectibles.get(&unique_id) {
            Some(c) => {
                if c.owner != from {
                    return Err(Error::NotOwner);
                }
            },
            None => {
                return Err(Error::NoCollectible);
            },
        }
        self.do_transfer(unique_id, to)
    }
}

impl Pallet {
    /// Sets the price of `unique_id`, which `owner` must own; `None` cancels
    /// the listing. Emits `PriceSet` even when the price is unchanged.
    pub fn set_price(&mut self, owner: AccountId, unique_id: u64, new_price: Option<Balance>) -> (r:
        Result<(), Error>)
        requires
            old(self).wf(),
        ensures
            final(self).wf(),
            match old(self).owner_error(owner, unique_id) {
                Some(e) => r == Err::<(), Error>(e) && *final(self) == *old(self),
                None => r == Ok::<(), Error>(()) && old(self).priced(
                    &*final(self),
                    unique_id,
                    new_price,
                ),
            },
    {
        let mut collectible = match self.collectibles.get(&unique_id) {
            Some(c) => *c,
            None => {
                return Err(Error::NoCollectible);
            },
        };
        if collectible.owner != owner {
            return Err(Error::NotOwner);
        }
        let ghost pre = *self;
        collectible.price = new_price;
        self.collectibles.insert(unique_id, collectible);
        self.events.push(Event::PriceSet { collectible: unique_id, price: new_price });
        proof {
            assert forall|a: AccountId| #[trigger] self.owned(a) == pre.owned(a) by {}
            assert forall|k: u64| #[trigger] self.registry().contains_key(k) implies
                self.registry()[k].unique_id == k
                && self.owned(self.registry()[k].owner).contains(k) by {
                assert(pre.registry().contains_key(k));
                assert(self.owned(pre.registry()[k].owner) == pre.owned(pre.registry()[k].owner));
            }
            assert forall|a: AccountId, i: int| 0 <= i < self.owned(a).len() implies
                self.registry().contains_key(#[trigger] self.owned(a)[i])
                && self.registry()[self.owned(a)[i]].owner == a by {
                assert(pre.registry().contains_key(pre.owned(a)[i]));
            }
        }
        Ok(())
    }

    /// Removes `unique_id`, which `from` must own, from the registry and from
    /// the owner's index. Its id is never minted again by `create_collectible`.
    pub fn burn(&mut self, from: AccountId, unique_id: u64) -> (r: Result<(), Error>)
        requires
            old(self).wf(),
        ensures
            final(self).wf(),
            match old(self).owner_error(from, unique_id) {
                Some(e) => r == Err::<(), Error>(e) && *final(self) == *old(self),
                None => {
                    &&& r == Ok::<(), Error>(())
                    &&& final(self).registry() == old(self).registry().remove(unique_id)
                    &&& exists|i: int|
                        0 <= i < old(self).owned(from).len() && old(self).owned(from)[i]
                            == unique_id && final(self).owned(from) == swap_removed(
                            old(self).owned(from),
                            i,
                        )
                    &&& !final(self).owned(from).contains(unique_id)
                    &&& forall|b: AccountId|
                        b != from ==> #[trigger] final(self).owned(b) == old(self).owned(b)
                    &&& old(self).same_scalars(&*final(self))
                    &&& final(self).log() == old(self).log()
                },
            },
    {
        match self.collectibles.get(&unique_id) {
            Some(c) => {
                if c.owner != from {
                    return Err(Error::NotOwner);
                }
            },
            None => {
                return Err(Error::NoCollectible);
            },
        }
        let ghost pre = *self;
        proof {
            self.lemma_index_wf();
        }
        let removed = self.index.remove(from, unique_id);
        assert(removed is Ok);
        self.collectibles.remove(&unique_id);
        proof {
            self.lemma_owned_bounded();
            assert forall|a: AccountId, i: int| 0 <= i < self.owned(a).len() implies
                self.registry().contains_key(#[trigger] self.owned(a)[i])
                && self.registry()[self.owned(a)[i]].owner == a by {
                let x = self.owned(a)[i];
                if a == from {
                    assert(self.owned(a).contains(x));
                    let k = choose|k: int| 0 <= k < pre.owned(a).len() && pre.owned(a)[k] == x;
                    assert(pre.registry().contains_key(pre.owned(a)[k]));
                } else {
                    assert(pre.owned(a)[i] == x);
                    assert(pre.registry().contains_key(pre.owned(a)[i]));
                }
            }
            assert forall|k: u64| #[trigger] self.registry().contains_key(k) implies
                self.registry()[k].unique_id == k
                && self.owned(self.registry()[k].owner).contains(k) by {
                let o = pre.registry()[k].owner;
                let j = choose|j: int| 0 <= j < pre.owned(o).len() && pre.owned(o)[j] == k;
                if o != from {
                    assert(self.owned(o)[j] == k);
                }
            }
        }
        Ok(())
    }

    /// Checks whether `to` may buy `unique_id` paying its price plus
    /// `extra_fee`, and if so returns the keep-alive payment that the ledger
    /// must make first. Changes nothing.
    pub fn do_buy_collectible(&self, unique_id: u64, to: AccountId, extra_fee: Balance) -> (r:
        Result<Payment, Error>)
        requires
            self.wf(),
        ensures
            match self.buy_error(unique_id, to, extra_fee) {
                Some(e) => r == Err::<Payment, Error>(e),
                None => r == Ok::<Payment, Error>(self.payment_for(unique_id, to, extra_fee)),
            },
    {
        let collectible = match self.collectibles.get(&unique_id) {
            Some(c) => *c,
            None => {
                return Err(Error::NoCollectible);
            },
        };
        let from = collectible.owner;
        if from == to {
            return Err(Error::TransferToSelf);
        }
        if self.index.position(from, unique_id).is_none() {
            assert(self.registry().contains_key(unique_id));
            return Err(Error::NoCollectible);
        }
        if !self.index.has_room(to) {
            return Err(Error::MaximumCollectiblesOwned);
        }
        match collectible.price {
            Some(price) => match extra_fee.checked_add(price) {
                Some(final_price) => Ok(Payment { payer: to, payee: from, amount: final_price }),
                None => Err(Error::BoundsOverflow),
            },
            None => Err(Error::NotForSale),
        }
    }

    /// Commits a purchase of `unique_id` by `buyer` once the ledger has
    /// answered the payment that `do_buy_collectible` asked for: `paid` is
    /// whether it was made. Nothing changes unless the purchase is allowed
    /// and paid; then the asset moves to `buyer`, unlisted, and `Sold` and
    /// `TransferSucceeded` are emitted in that order.
    pub fn buy_collectible(
        &mut self,
        buyer: AccountId,
        unique_id: u64,
        extra_fee: Balance,
        paid: bool,
    ) -> (r: Result<(), Error>)
        requires
            old(self).wf(),
        ensures
            final(self).wf(),
            match old(self).buy_error(unique_id, buyer, extra_fee) {
                Some(e) => r == Err::<(), Error>(e) && *final(self) == *old(self),
                None => if !paid {
                    r == Err::<(), Error>(Error::PaymentFailed) && *final(self) == *old(self)
                } else {
                    let seller = old(self).registry()[unique_id].owner;
                    let amount = old(self).payment_for(unique_id, buyer, extra_fee).amount;
                    &&& r == Ok::<(), Error>(())
                    &&& old(self).moved(&*final(self), unique_id, buyer)
                    &&& final(self).log() == old(self).log().push(
                        Event::Sold { seller, buyer, collectible: unique_id, price: amount },
                    ).push(Event::TransferSucceeded { from: seller, to: buyer, collectible: unique_id })
                },
            },
    {
        let payment = match self.do_buy_collectible(unique_id, buyer, extra_fee) {
            Ok(p) => p,
            Err(e) => {
                return Err(e);
            },
        };
        if !paid {
            return Err(Error::PaymentFailed);
        }
        let seller = payment.payee;
        let ghost pre = *self;
        self.commit_move(unique_id, buyer);
        let ghost mid = *self;
        self.events.push(
            Event::Sold { seller, buyer, collectible: unique_id, price: payment.amount },
        );
        self.events.push(Event::TransferSucceeded { from: seller, to: buyer, collectible: unique_id });
        proof {
            pre.lemma_moved_keeps(&mid, &*self, unique_id, buyer);
        }
        Ok(())
    }

    /// Recomputes the aggregate highest price over every id ever minted;
    /// burned ids are skipped.
    pub fn on_initialize(&mut self)
        requires
            old(self).wf(),
        ensures
            final(self).wf(),
            final(self).highest() == listed_max(old(self).registry(), old(self).count() as nat),
            final(self).registry() == old(self).registry(),
            forall|a: AccountId| #[trigger] final(self).owned(a) == old(self).owned(a),
            final(self).count() == old(self).count(),
            final(self).maximum_owned() == old(self).maximum_owned(),
            final(self).log() == old(self).log(),
    {
        let collectibles_len = self.count;
        let mut max_price: Balance = 0;
        let mut i: u64 = 0;
        while i < collectibles_len
            invariant
                i <= collectibles_len,
                collectibles_len == self.count,
                max_price == listed_max(self.registry(), i as nat),
            decreases collectibles_len - i,
        {
            match self.collectibles.get(&i) {
                Some(c) => match c.price {
                    Some(p) => {
                        if p > max_price {
                            max_price = p;
                        }
                    },
                    None => {},
                },
                None => {},
            }
            i = i + 1;
        }
        let ghost pre = *self;
        self.highest = max_price;
        proof {
            assert forall|a: AccountId| #[trigger] self.owned(a) == pre.owned(a) by {}
            assert forall|k: u64| #[trigger] self.registry().contains_key(k) implies
                self.registry()[k].unique_id == k
                && self.owned(self.registry()[k].owner).contains(k) by {
                assert(pre.registry().contains_key(k));
                assert(self.owned(pre.registry()[k].owner) == pre.owned(pre.registry()[k].owner));
            }
        }
    }
}

impl Pallet {
    /// How many assets were ever minted.
    pub fn collectibles_count(&self) -> (r: u64)
        ensures
            r == self.count(),
    {
        self.count
    }

    /// The aggregate highest listed price, as last recomputed.
    pub fn highest_price(&self) -> (r: Balance)
        ensures
            r == self.highest(),
    {
        self.highest
    }

    /// Capacity of each account's ownership index.
    pub fn maximum_owned_of(&self) -> (r: u32)
        ensures
            r as nat == self.maximum_owned(),
    {
        self.index.capacity_of()
    }

    /// The record of `unique_id`, if it is registered.
    pub fn collectible(&self, unique_id: u64) -> (r: Option<Collectible>)
        ensures
            r == (if self.registry().contains_key(unique_id) {
                Some(self.registry()[unique_id])
            } else {
                None
            }),
    {
        match self.collectibles.get(&unique_id) {
            Some(c) => Some(*c),
            None => None,
        }
    }

    /// The ids that `owner` owns, in index order.
    pub fn owner_of_collectibles(&self, owner: AccountId) -> (r: Vec<u64>)
        ensures
            r@ == self.owned(owner),
    {
        self.index.ids_of(owner)
    }

    /// The events emitted so far, oldest first.
    pub fn events(&self) -> (r: Vec<Event>)
        ensures
            r@ == self.log(),
    {
        let mut out: Vec<Event> = Vec::new();
        let mut i: usize = 0;
        while i < self.events.len()
            invariant
                i <= self.events@.len(),
                out@ == self.events@.subrange(0, i as int),
            decreases self.events@.len() - i,
        {
            out.push(self.events[i]);
            i = i + 1;
            proof {
                assert(out@ =~= self.events@.subrange(0, i as int));
            }
        }
        proof {
            assert(out@ =~= self.events@);
        }
        out
    }
}

} // verus!
