//! One price level: the resting orders at a single price, oldest first.

use vstd::prelude::*;
use std::collections::VecDeque;
use crate::protocol::{OrderId, Price, Quantity};

verus! {

/// The least index at which `id` occurs in `ids`; the length of `ids` where
/// it does not occur.
pub open spec fn first_index_of(ids: Seq<OrderId>, id: OrderId) -> int
    decreases ids.len(),
{
    if ids.len() == 0 {
        0
    } else if ids[0] == id {
        0
    } else {
        1 + first_index_of(ids.drop_first(), id)
    }
}

/// An occurrence with no earlier occurrence is the first.
pub proof fn lemma_first_index_of(ids: Seq<OrderId>, id: OrderId, i: int)
    requires
        0 <= i < ids.len(),
        ids[i] == id,
        forall|j: int| 0 <= j < i ==> ids[j] != id,
    ensures
        first_index_of(ids, id) == i,
    decreases ids.len(),
{
    if i > 0 {
        let rest = ids.drop_first();
        assert forall|j: int| 0 <= j < i - 1 implies rest[j] != id by {
            assert(rest[j] == ids[j + 1]);
        }
        lemma_first_index_of(rest, id, i - 1);
    }
}

/// The first index of a member is an index at which it occurs.
pub proof fn lemma_first_index_of_member(ids: Seq<OrderId>, id: OrderId)
    requires
        ids.contains(id),
    ensures
        0 <= first_index_of(ids, id) < ids.len(),
        ids[first_index_of(ids, id)] == id,
    decreases ids.len(),
{
    if ids[0] != id {
        let rest = ids.drop_first();
        let i = choose|i: int| 0 <= i < ids.len() && ids[i] == id;
        assert(rest[i - 1] == id);
        lemma_first_index_of_member(rest, id);
    }
}

/// The queue of order ids resting at one price, together with their
/// aggregate open quantity. The level holds handles only; the order records
/// live in the book's index.
#[derive(Clone, Debug)]
pub struct PriceLevel {
    price: Price,
    orders: VecDeque<OrderId>,
    total_quantity: u128,
}

impl PriceLevel {
    pub closed spec fn spec_price(&self) -> Price {
        self.price
    }

    /// The queue, head first.
    pub closed spec fn ids(&self) -> Seq<OrderId> {
        self.orders@
    }

    /// The aggregate quantity the level accounts for.
    pub closed spec fn total(&self) -> nat {
        self.total_quantity as nat
    }

    pub fn new(price: Price) -> (level: PriceLevel)
        ensures
            level.spec_price() == price,
            level.ids() == Seq::<OrderId>::empty(),
            level.total() == 0,
    {
        PriceLevel { price, orders: VecDeque::new(), total_quantity: 0 }
    }

    pub fn price(&self) -> (price: Price)
        ensures
            price == self.spec_price(),
    {
        self.price
    }

    /// Appends `order_id` at the tail and accounts for `quantity`.
    pub fn add_order(&mut self, order_id: OrderId, quantity: Quantity)
        requires
            old(self).total() + quantity <= u128::MAX,
        ensures
            final(self).spec_price() == old(self).spec_price(),
            final(self).ids() == old(self).ids().push(order_id),
            final(self).total() == old(self).total() + quantity,
    {
        self.orders.push_back(order_id);
        self.total_quantity = self.total_quantity + (quantity as u128);
    }

    /// Removes the first occurrence of `order_id` and gives back `quantity`.
    /// A level that does not hold the id is left as it is.
    pub fn remove_order(&mut self, order_id: OrderId, quantity: Quantity)
        requires
            old(self).ids().contains(order_id) ==> quantity <= old(self).total(),
        ensures
            final(self).spec_price() == old(self).spec_price(),
            old(self).ids().contains(order_id) ==> {
                &&& final(self).ids() == old(self).ids().remove(
                    first_index_of(old(self).ids(), order_id),
                )
                &&& final(self).total() == old(self).total() - quantity
            },
            !old(self).ids().contains(order_id) ==> {
                &&& final(self).ids() == old(self).ids()
                &&& final(self).total() == old(self).total()
            },
    {
        let n: usize = self.orders.len();
        let mut i: usize = 0;
        while i < n
            invariant
                *self == *old(self),
                old(self).ids().contains(order_id) ==> quantity <= old(self).total(),
                n == self.orders@.len(),
                i <= n,
                forall|j: int| 0 <= j < i ==> self.orders@[j] != order_id,
            decreases n - i,
        {
            if self.orders[i] == order_id {
                proof {
                    lemma_first_index_of(self.orders@, order_id, i as int);
                    assert(self.orders@[i as int] == order_id);
                    assert(old(self).ids().contains(order_id));
                }
                self.total_quantity = self.total_quantity - (quantity as u128);
                self.orders.remove(i);
                return ;
            }
            i = i + 1;
        }
    }

    /// Gives back `quantity` while every order stays in the queue.
    pub fn reduce(&mut self, quantity: Quantity)
        requires
            quantity <= old(self).total(),
        ensures
            final(self).spec_price() == old(self).spec_price(),
            final(self).ids() == old(self).ids(),
            final(self).total() == old(self).total() - quantity,
    {
        self.total_quantity = self.total_quantity - (quantity as u128);
    }

    /// The order at the head of the queue: the oldest one.
    pub fn front_order(&self) -> (head: Option<OrderId>)
        ensures
            head == if self.ids().len() > 0 {
                Some(self.ids()[0])
            } else {
                None
            },
    {
        if self.orders.len() > 0 {
            Some(self.orders[0])
        } else {
            None
        }
    }

    pub fn is_empty(&self) -> (empty: bool)
        ensures
            empty == (self.ids().len() == 0),
    {
        self.orders.len() == 0
    }

    pub fn len(&self) -> (len: usize)
        ensures
            len == self.ids().len(),
    {
        self.orders.len()
    }

    pub fn get_total_quantity(&self) -> (total: u128)
        ensures
            total == self.total(),
    {
        self.total_quantity
    }

    /// The queue as a vector, head first.
    pub fn order_ids(&self) -> (ids: Vec<OrderId>)
        ensures
            ids@ == self.ids(),
    {
        let mut ids: Vec<OrderId> = Vec::new();
        let n: usize = self.orders.len();
        let mut i: usize = 0;
        while i < n
            invariant
                n == self.orders@.len(),
                i <= n,
                ids@ == self.orders@.take(i as int),
            decreases n - i,
        {
            ids.push(self.orders[i]);
            proof {
                assert(self.orders@.take(i + 1) =~= self.orders@.take(i as int).push(
                    self.orders@[i as int],
                ));
            }
            i = i + 1;
        }
        proof {
            assert(self.orders@.take(n as int) =~= self.orders@);
        }
        ids
    }
}

} // verus!
