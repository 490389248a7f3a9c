//! One side of the book: a fixed arena of slots, a stack of the free ones,
//! and the occupied ones listed from best to worst.

use vstd::prelude::*;
use crate::order::RestingOrder;
use crate::types::{precedes, AccountKey, EngineError, OrderId, Side};

verus! {

/// The state of a book side as contracts see it.
pub struct Arena {
    pub side: Side,
    /// Every slot, occupied or free; its length is the capacity.
    pub slots: Seq<RestingOrder>,
    /// Slot numbers of the resting orders, best first.
    pub handles: Seq<usize>,
    /// Slot numbers that are free; the last one is handed out next.
    pub free: Seq<usize>,
}

impl Arena {
    /// The number of slots.
    pub open spec fn capacity(self) -> nat {
        self.slots.len()
    }

    /// The resting orders, best first.
    pub open spec fn orders(self) -> Seq<RestingOrder> {
        Seq::new(self.handles.len(), |i: int| self.slots[self.handles[i] as int])
    }

    /// Whether no slot is free.
    pub open spec fn is_full(self) -> bool {
        self.free.len() == 0
    }

    /// The invariant of a side. Every slot is either resting or free, and
    /// none is both or is listed twice; a free slot is blank; a resting
    /// order is of this side with a positive price and quantity; and the
    /// resting orders stand in strict price-time order, best first, so no
    /// two of them share an identifier.
    pub open spec fn wf(self) -> bool {
        &&& self.handles.len() + self.free.len() == self.slots.len()
        &&& forall|i: int| 0 <= i < self.handles.len() ==> #[trigger] self.handles[i] < self.slots.len()
        &&& forall|i: int| 0 <= i < self.free.len() ==> #[trigger] self.free[i] < self.slots.len()
        &&& forall|i: int, j: int|
            0 <= i < j < self.free.len() ==> #[trigger] self.free[i] != #[trigger] self.free[j]
        &&& forall|i: int, j: int|
            0 <= i < self.handles.len() && 0 <= j < self.free.len() ==> #[trigger] self.handles[i]
                != #[trigger] self.free[j]
        &&& forall|i: int|
            0 <= i < self.free.len() ==> self.slots[#[trigger] self.free[i] as int]
                == RestingOrder::blank(self.side)
        &&& forall|i: int|
            0 <= i < self.handles.len() ==> self.slots[#[trigger] self.handles[i] as int].rests_on(
                self.side,
            )
        &&& sorted(self.side, self.orders())
    }

    /// Where an order with this identifier belongs: the number of resting
    /// orders that go before it.
    pub open spec fn rank(self, id: OrderId) -> int {
        rank_in(self.side, self.orders(), id)
    }

    /// Whether an order with this identifier rests here: in a sorted side
    /// it can only stand at its rank.
    pub open spec fn holds(self, id: OrderId) -> bool {
        let r = self.rank(id);
        r < self.handles.len() && self.orders()[r].id == id
    }

    /// A side of the given capacity with nothing resting. Slot 0 is handed
    /// out first.
    pub open spec fn empty(side: Side, capacity: nat) -> Arena {
        Arena {
            side,
            slots: Seq::new(capacity, |i: int| RestingOrder::blank(side)),
            handles: Seq::empty(),
            free: Seq::new(capacity, |i: int| (capacity - 1 - i) as usize),
        }
    }

    /// The side with `order` resting at place `at`, in the slot that was next
    /// to be handed out.
    pub open spec fn insert_at(self, at: int, order: RestingOrder) -> Arena {
        let slot = self.free.last();
        Arena {
            side: self.side,
            slots: self.slots.update(slot as int, order),
            handles: self.handles.insert(at, slot),
            free: self.free.drop_last(),
        }
    }

    /// The side without the order at place `at`; its slot is blanked and is
    /// the next to be handed out.
    pub open spec fn remove_at(self, at: int) -> Arena {
        let slot = self.handles[at];
        Arena {
            side: self.side,
            slots: self.slots.update(slot as int, RestingOrder::blank(self.side)),
            handles: self.handles.remove(at),
            free: self.free.push(slot),
        }
    }

    /// What resting `order` here gives: `InvalidOrderParameters` if it
    /// cannot rest on this side or its identifier already rests here, else
    /// `BookFull` if no slot is free, else its identifier.
    pub open spec fn insert_result(self, order: RestingOrder) -> Result<OrderId, EngineError> {
        if !order.rests_on(self.side) || self.holds(order.id) {
            Err(EngineError::InvalidOrderParameters)
        } else if self.is_full() {
            Err(EngineError::BookFull)
        } else {
            Ok(order.id)
        }
    }

    /// The side after resting `order`: with the order at its rank if it was
    /// taken, else as before.
    pub open spec fn inserted(self, order: RestingOrder) -> Arena {
        if self.insert_result(order) is Ok {
            self.insert_at(self.rank(order.id), order)
        } else {
            self
        }
    }

    /// What taking the order `id` off gives: the order, or `OrderNotFound`.
    pub open spec fn remove_result(self, id: OrderId) -> Result<RestingOrder, EngineError> {
        if self.holds(id) {
            Ok(self.orders()[self.rank(id)])
        } else {
            Err(EngineError::OrderNotFound)
        }
    }

    /// The side after taking the order `id` off, if it rests here.
    pub open spec fn removed(self, id: OrderId) -> Arena {
        if self.holds(id) {
            self.remove_at(self.rank(id))
        } else {
            self
        }
    }

    /// The side after resting `orders` one after the other.
    pub open spec fn inserted_all(self, orders: Seq<RestingOrder>) -> Arena
        decreases orders.len(),
    {
        if orders.len() == 0 {
            self
        } else {
            self.inserted_all(orders.drop_last()).inserted(orders.last())
        }
    }

    /// Whether each of `orders`, rested one after the other, is taken.
    pub open spec fn takes_all(self, orders: Seq<RestingOrder>) -> bool
        decreases orders.len(),
    {
        orders.len() == 0 || (self.takes_all(orders.drop_last()) && self.inserted_all(
            orders.drop_last(),
        ).insert_result(orders.last()) is Ok)
    }

    /// The side with the open quantity of the order at place `at` changed.
    pub open spec fn set_quantity(self, at: int, quantity: i64) -> Arena {
        let slot = self.handles[at];
        Arena {
            slots: self.slots.update(slot as int, self.slots[slot as int].with_quantity(quantity)),
            ..self
        }
    }

    /// The side without its `n` best orders, taken off one by one.
    pub open spec fn drop_best(self, n: nat) -> Arena
        decreases n,
    {
        if n == 0 {
            self
        } else {
            self.remove_at(0).drop_best((n - 1) as nat)
        }
    }
}

/// Strictly ordered by price-time priority, best first.
pub open spec fn sorted(side: Side, orders: Seq<RestingOrder>) -> bool {
    forall|i: int, j: int|
        0 <= i < j < orders.len() ==> precedes(side, (#[trigger] orders[i]).id, (#[trigger] orders[j]).id)
}

/// The number of leading orders that go before `id`.
pub open spec fn rank_in(side: Side, orders: Seq<RestingOrder>, id: OrderId) -> int
    decreases orders.len(),
{
    if orders.len() == 0 || !precedes(side, orders[0].id, id) {
        0
    } else {
        1 + rank_in(side, orders.skip(1), id)
    }
}

/// In a sorted side the rank of an identifier splits it: every order before
/// the rank goes before the identifier, no order from the rank on does.
pub proof fn lemma_rank_splits(side: Side, orders: Seq<RestingOrder>, id: OrderId)
    requires
        sorted(side, orders),
    ensures
        0 <= rank_in(side, orders, id) <= orders.len(),
        forall|i: int|
            0 <= i < rank_in(side, orders, id) ==> precedes(side, (#[trigger] orders[i]).id, id),
        forall|i: int|
            rank_in(side, orders, id) <= i < orders.len() ==> !precedes(
                side,
                (#[trigger] orders[i]).id,
                id,
            ),
    decreases orders.len(),
{
    if orders.len() == 0 {
    } else if !precedes(side, orders[0].id, id) {
    } else {
        let rest = orders.skip(1);
        lemma_rank_splits(side, rest, id);
        let r = rank_in(side, rest, id);
        assert forall|i: int| 0 <= i < r + 1 implies precedes(side, (#[trigger] orders[i]).id, id) by {
            if i > 0 {
                assert(rest[i - 1] == orders[i]);
            }
        }
        assert forall|i: int| r + 1 <= i < orders.len() implies !precedes(
            side,
            (#[trigger] orders[i]).id,
            id,
        ) by {
            assert(rest[i - 1] == orders[i]);
        }
    }
}

/// A place that splits a sorted side as the rank does is the rank.
pub proof fn lemma_rank_is(side: Side, orders: Seq<RestingOrder>, id: OrderId, at: int)
    requires
        sorted(side, orders),
        0 <= at <= orders.len(),
        forall|i: int| 0 <= i < at ==> precedes(side, (#[trigger] orders[i]).id, id),
        forall|i: int| at <= i < orders.len() ==> !precedes(side, (#[trigger] orders[i]).id, id),
    ensures
        rank_in(side, orders, id) == at,
{
    lemma_rank_splits(side, orders, id);
    let r = rank_in(side, orders, id);
    if r < at {
        assert(precedes(side, orders[r].id, id));
    } else if at < r {
        assert(precedes(side, orders[at].id, id));
    }
}

/// An identifier rests on a well-formed side exactly if some resting order
/// has it, and then only the order at its rank.
pub proof fn lemma_holds(a: Arena, id: OrderId)
    requires
        a.wf(),
    ensures
        a.holds(id) <==> exists|i: int| 0 <= i < a.orders().len() && (#[trigger] a.orders()[i]).id == id,
        forall|i: int| 0 <= i < a.orders().len() && (#[trigger] a.orders()[i]).id == id ==> i == a.rank(id),
{
    let os = a.orders();
    lemma_rank_splits(a.side, os, id);
}

/// Inserting at the rank keeps the side well formed and puts the order at
/// that place among the resting orders.
pub proof fn lemma_insert_at(a: Arena, order: RestingOrder)
    requires
        a.wf(),
        !a.is_full(),
        order.rests_on(a.side),
        !a.holds(order.id),
    ensures
        a.insert_at(a.rank(order.id), order).wf(),
        0 <= a.rank(order.id) <= a.orders().len(),
        a.insert_at(a.rank(order.id), order).orders() == a.orders().insert(a.rank(order.id), order),
{
    let os = a.orders();
    let at = a.rank(order.id);
    lemma_rank_splits(a.side, os, order.id);
    let b = a.insert_at(at, order);
    assert forall|i: int| 0 <= i < b.handles.len() implies b.orders()[i] == os.insert(at, order)[i] by {
    }
}

/// Taking out the order at a place keeps the side well formed and removes
/// just that order from the resting ones.
pub proof fn lemma_remove_at(a: Arena, at: int)
    requires
        a.wf(),
        0 <= at < a.handles.len(),
    ensures
        a.remove_at(at).wf(),
        a.remove_at(at).orders() == a.orders().remove(at),
{
    let os = a.orders();
    let b = a.remove_at(at);
    let slot = a.handles[at];
    assert forall|i: int| 0 <= i < b.handles.len() implies #[trigger] b.handles[i] != slot by {
        let k = if i < at { i } else { i + 1 };
        assert(os[k] == a.slots[a.handles[k] as int]);
        assert(os[at] == a.slots[a.handles[at] as int]);
    }
    assert forall|i: int| 0 <= i < b.handles.len() implies b.orders()[i] == os.remove(at)[i] by {
    }
}

/// Changing the open quantity of a resting order to another positive one
/// keeps the side well formed and touches no other order.
pub proof fn lemma_set_quantity(a: Arena, at: int, quantity: i64)
    requires
        a.wf(),
        0 <= at < a.handles.len(),
        quantity > 0,
    ensures
        a.set_quantity(at, quantity).wf(),
        a.set_quantity(at, quantity).orders() == a.orders().update(
            at,
            a.orders()[at].with_quantity(quantity),
        ),
{
    let os = a.orders();
    let b = a.set_quantity(at, quantity);
    assert forall|i: int| 0 <= i < b.handles.len() implies b.orders()[i] == os.update(
        at,
        os[at].with_quantity(quantity),
    )[i] by {
    }
}

/// If every order of a list is taken, so is every order of each of its
/// leading parts.
pub proof fn lemma_takes_all_prefix(a: Arena, orders: Seq<RestingOrder>, n: int)
    requires
        0 <= n <= orders.len(),
        a.takes_all(orders),
    ensures
        a.takes_all(orders.take(n)),
    decreases orders.len(),
{
    if n == orders.len() {
        assert(orders.take(n) =~= orders);
    } else {
        lemma_takes_all_prefix(a, orders.drop_last(), n);
        assert(orders.drop_last().take(n) =~= orders.take(n));
    }
}

/// Whether a bulk cancel for `owner` takes this order: every order if no
/// owner is named, else the orders of that owner.
pub open spec fn selected(order: RestingOrder, owner: Option<AccountKey>) -> bool {
    match owner {
        Some(key) => order.owner == key,
        None => true,
    }
}

/// The place of the best order a bulk cancel for `owner` takes, or the
/// length if it takes none.
pub open spec fn first_selected(orders: Seq<RestingOrder>, owner: Option<AccountKey>) -> int
    decreases orders.len(),
{
    if orders.len() == 0 || selected(orders[0], owner) {
        0
    } else {
        1 + first_selected(orders.skip(1), owner)
    }
}

impl Arena {
    /// The side after a bulk cancel of at most `n` orders for `owner`: the
    /// best selected order goes first, then the next, until `n` are gone or
    /// none is left.
    pub open spec fn cancel(self, owner: Option<AccountKey>, n: nat) -> Arena
        decreases n,
    {
        let at = first_selected(self.orders(), owner);
        if n == 0 || at >= self.handles.len() {
            self
        } else {
            self.remove_at(at).cancel(owner, (n - 1) as nat)
        }
    }

    /// The orders such a bulk cancel takes, in the order it takes them.
    pub open spec fn cancelled(self, owner: Option<AccountKey>, n: nat) -> Seq<RestingOrder>
        decreases n,
    {
        let at = first_selected(self.orders(), owner);
        if n == 0 || at >= self.handles.len() {
            Seq::empty()
        } else {
            seq![self.orders()[at]] + self.remove_at(at).cancelled(owner, (n - 1) as nat)
        }
    }
}

/// A place with a selected order and none before it is the first selected.
pub proof fn lemma_first_selected_is(
    orders: Seq<RestingOrder>,
    owner: Option<AccountKey>,
    at: int,
)
    requires
        0 <= at <= orders.len(),
        forall|i: int| 0 <= i < at ==> !selected(#[trigger] orders[i], owner),
        at < orders.len() ==> selected(orders[at], owner),
    ensures
        first_selected(orders, owner) == at,
    decreases orders.len(),
{
    if at > 0 {
        let rest = orders.skip(1);
        lemma_first_selected_is(rest, owner, at - 1);
    }
}

/// Every item of `part` is an item of `whole`.
pub open spec fn within(part: Seq<RestingOrder>, whole: Seq<RestingOrder>) -> bool {
    forall|i: int| 0 <= i < part.len() ==> whole.contains(#[trigger] part[i])
}

/// Taking the `n` best orders off keeps the side well formed and leaves the
/// others in place.
pub proof fn lemma_drop_best(a: Arena, n: nat)
    requires
        a.wf(),
        n <= a.orders().len(),
    ensures
        a.drop_best(n).wf(),
        a.drop_best(n).side == a.side,
        a.drop_best(n).orders() == a.orders().skip(n as int),
    decreases n,
{
    if n == 0 {
    } else {
        lemma_remove_at(a, 0);
        lemma_drop_best(a.remove_at(0), (n - 1) as nat);
    }
}

/// A bulk cancel keeps the side well formed, takes no more than asked,
/// takes only selected orders, and leaves only orders that were there.
pub proof fn lemma_cancel(a: Arena, owner: Option<AccountKey>, n: nat)
    requires
        a.wf(),
    ensures
        a.cancel(owner, n).wf(),
        a.cancel(owner, n).side == a.side,
        a.cancelled(owner, n).len() <= n,
        a.cancelled(owner, n).len() + a.cancel(owner, n).orders().len() == a.orders().len(),
        within(a.cancel(owner, n).orders(), a.orders()),
        within(a.cancelled(owner, n), a.orders()),
        forall|i: int|
            0 <= i < a.cancelled(owner, n).len() ==> selected(
                #[trigger] a.cancelled(owner, n)[i],
                owner,
            ),
        a.cancelled(owner, n).len() < n ==> first_selected(a.cancel(owner, n).orders(), owner)
            >= a.cancel(owner, n).orders().len(),
    decreases n,
{
    let os = a.orders();
    let at = first_selected(os, owner);
    lemma_first_selected(os, owner);
    if n == 0 || at >= a.handles.len() {
    } else {
        let b = a.remove_at(at);
        lemma_remove_at(a, at);
        lemma_cancel(b, owner, (n - 1) as nat);
    }
}

/// The first selected place is a place of the side or its length, it holds
/// a selected order if it is a place, and no place before it does.
pub proof fn lemma_first_selected(orders: Seq<RestingOrder>, owner: Option<AccountKey>)
    ensures
        0 <= first_selected(orders, owner) <= orders.len(),
        first_selected(orders, owner) < orders.len() ==> selected(
            orders[first_selected(orders, owner)],
            owner,
        ),
        forall|i: int|
            0 <= i < first_selected(orders, owner) ==> !selected(#[trigger] orders[i], owner),
    decreases orders.len(),
{
    if orders.len() == 0 || selected(orders[0], owner) {
    } else {
        let rest = orders.skip(1);
        lemma_first_selected(rest, owner);
        let at = first_selected(rest, owner);
        assert forall|i: int| 0 <= i < at + 1 implies !selected(#[trigger] orders[i], owner) by {
            if i > 0 {
                assert(rest[i - 1] == orders[i]);
            }
        }
    }
}

/// A bulk cancel of `m` orders followed by one of `n` is one of `m + n`:
/// the same orders go, in the same order, and the same side is left.
pub proof fn lemma_cancel_in_two(a: Arena, owner: Option<AccountKey>, m: nat, n: nat)
    requires
        a.wf(),
    ensures
        a.cancel(owner, m).cancel(owner, n) == a.cancel(owner, m + n),
        a.cancelled(owner, m) + a.cancel(owner, m).cancelled(owner, n) == a.cancelled(
            owner,
            m + n,
        ),
    decreases m,
{
    let os = a.orders();
    let at = first_selected(os, owner);
    lemma_first_selected(os, owner);
    if m == 0 {
    } else if at >= a.handles.len() {
    } else {
        let b = a.remove_at(at);
        lemma_remove_at(a, at);
        lemma_cancel_in_two(b, owner, (m - 1) as nat, n);
    }
}

/// A copy of the items, in their order.
pub(crate) fn copy_of<T: Copy>(items: &Vec<T>) -> (r: Vec<T>)
    ensures
        r@ == items@,
{
    let mut out: Vec<T> = Vec::new();
    let mut i: usize = 0;
    while i < items.len()
        invariant
            i <= items@.len(),
            out@ == items@.take(i as int),
        decreases items@.len() - i,
    {
        out.push(items[i]);
        assert(out@ =~= items@.take(i + 1));
        i = i + 1;
    }
    assert(items@.take(items@.len() as int) =~= items@);
    out
}

/// One side of the book.
pub struct BookSide {
    side: Side,
    slots: Vec<RestingOrder>,
    handles: Vec<usize>,
    free: Vec<usize>,
}

impl View for BookSide {
    type V = Arena;

    closed spec fn view(&self) -> Arena {
        Arena { side: self.side, slots: self.slots@, handles: self.handles@, free: self.free@ }
    }
}

impl BookSide {
    /// The invariant every operation keeps: the slots are split between the
    /// resting orders and the free stack, free slots are blank, and the
    /// resting orders are valid and strictly ordered, best first.
    pub open spec fn wf(&self) -> bool {
        self@.wf()
    }

    /// An empty side with `capacity` slots.
    pub fn new(side: Side, capacity: usize) -> (book: BookSide)
        ensures
            book.wf(),
            book@ == Arena::empty(side, capacity as nat),
    {
        let mut slots: Vec<RestingOrder> = Vec::new();
        let mut free: Vec<usize> = Vec::new();
        let mut i: usize = 0;
        while i < capacity
            invariant
                i <= capacity,
                slots@.len() == i,
                free@.len() == i,
                forall|k: int| 0 <= k < i ==> #[trigger] slots@[k] == RestingOrder::blank(side),
                forall|k: int| 0 <= k < i ==> #[trigger] free@[k] == capacity - 1 - k,
            decreases capacity - i,
        {
            slots.push(RestingOrder::new_blank(side));
            free.push(capacity - 1 - i);
            i = i + 1;
        }
        let book = BookSide { side, slots, handles: Vec::new(), free };
        proof {
            let e = Arena::empty(side, capacity as nat);
            assert(book@.slots =~= e.slots);
            assert(book@.free =~= e.free);
        }
        book
    }

    /// A side of `capacity` slots with `orders` rested one after the
    /// other, or nothing if one of them is not taken.
    pub fn from_orders(side: Side, capacity: usize, orders: &Vec<RestingOrder>) -> (r: Option<
        BookSide,
    >)
        ensures
            match r {
                Some(book) => book.wf() && book@.side == side && Arena::empty(
                    side,
                    capacity as nat,
                ).takes_all(orders@) && book@ == Arena::empty(side, capacity as nat).inserted_all(
                    orders@,
                )
                    && within(book@.orders(), orders@),
                None => !Arena::empty(side, capacity as nat).takes_all(orders@),
            },
    {
        let mut book = BookSide::new(side, capacity);
        let ghost e = Arena::empty(side, capacity as nat);
        let mut i: usize = 0;
        while i < orders.len()
            invariant
                book.wf(),
                book@.side == side,
                i <= orders@.len(),
                e == Arena::empty(side, capacity as nat),
                e.takes_all(orders@.take(i as int)),
                book@ == e.inserted_all(orders@.take(i as int)),
                within(book@.orders(), orders@),
            decreases orders@.len() - i,
        {
            let ghost before = book@;
            proof {
                assert(orders@.take(i + 1).drop_last() =~= orders@.take(i as int));
            }
            match book.insert(orders[i]) {
                Ok(_) => {
                    proof {
                        lemma_rank_splits(before.side, before.orders(), orders@[i as int].id);
                    }
                },
                Err(_) => {
                    proof {
                        if e.takes_all(orders@) {
                            lemma_takes_all_prefix(e, orders@, i + 1);
                        }
                    }
                    return None;
                },
            }
            i = i + 1;
        }
        assert(orders@.take(orders@.len() as int) =~= orders@);
        Some(book)
    }

    /// A copy of the side: the same orders in the same slots, and the same
    /// slots free in the same order.
    pub fn duplicate(&self) -> (r: BookSide)
        ensures
            r@ == self@,
    {
        BookSide {
            side: self.side,
            slots: copy_of(&self.slots),
            handles: copy_of(&self.handles),
            free: copy_of(&self.free),
        }
    }

    /// Which side of the book this is.
    pub fn side(&self) -> (r: Side)
        ensures
            r == self@.side,
    {
        self.side
    }

    /// The number of slots.
    pub fn capacity(&self) -> (r: usize)
        ensures
            r == self@.capacity(),
    {
        self.slots.len()
    }

    /// The number of resting orders.
    pub fn len(&self) -> (r: usize)
        ensures
            r == self@.orders().len(),
    {
        self.handles.len()
    }

    /// Whether nothing rests here.
    pub fn is_empty(&self) -> (r: bool)
        ensures
            r == (self@.orders().len() == 0),
    {
        self.handles.len() == 0
    }

    /// Whether no slot is free.
    pub fn is_full(&self) -> (r: bool)
        ensures
            r == self@.is_full(),
    {
        self.free.len() == 0
    }

    /// The number of free slots.
    pub fn free_slots(&self) -> (r: usize)
        ensures
            r == self@.free.len(),
    {
        self.free.len()
    }

    /// The resting order at place `at`, counted from the best.
    pub fn get(&self, at: usize) -> (r: Option<RestingOrder>)
        requires
            self.wf(),
        ensures
            r == if at < self@.orders().len() {
                Some(self@.orders()[at as int])
            } else {
                None
            },
    {
        if at < self.handles.len() {
            let slot: usize = self.handles[at];
            Some(self.slots[slot])
        } else {
            None
        }
    }

    /// The best resting order.
    pub fn best(&self) -> (r: Option<&RestingOrder>)
        requires
            self.wf(),
        ensures
            r == if self@.orders().len() > 0 {
                Some(&self@.orders()[0])
            } else {
                None
            },
    {
        if self.handles.len() > 0 {
            let slot: usize = self.handles[0];
            Some(&self.slots[slot])
        } else {
            None
        }
    }

    /// The resting orders from best to worst.
    pub fn iter_best_to_worst(&self) -> (r: Vec<RestingOrder>)
        requires
            self.wf(),
        ensures
            r@ == self@.orders(),
            sorted(self@.side, r@),
    {
        let mut out: Vec<RestingOrder> = Vec::new();
        let mut i: usize = 0;
        while i < self.handles.len()
            invariant
                self.wf(),
                i <= self.handles@.len(),
                out@.len() == i,
                forall|k: int| 0 <= k < i ==> #[trigger] out@[k] == self@.orders()[k],
            decreases self.handles@.len() - i,
        {
            let slot: usize = self.handles[i];
            out.push(self.slots[slot]);
            i = i + 1;
        }
        out
    }

    /// The number of resting orders that go before `id`, found by halving.
    pub fn rank(&self, id: &OrderId) -> (r: usize)
        requires
            self.wf(),
        ensures
            r == self@.rank(*id),
            r <= self@.orders().len(),
    {
        let ghost os = self@.orders();
        let mut lo: usize = 0;
        let mut hi: usize = self.handles.len();
        while lo < hi
            invariant
                self.wf(),
                os == self@.orders(),
                lo <= hi <= os.len(),
                forall|i: int| 0 <= i < lo ==> precedes(self@.side, (#[trigger] os[i]).id, *id),
                forall|i: int| hi <= i < os.len() ==> !precedes(self@.side, (#[trigger] os[i]).id, *id),
            decreases hi - lo,
        {
            let mid: usize = lo + (hi - lo) / 2;
            let slot: usize = self.handles[mid];
            let here: OrderId = self.slots[slot].id;
            assert(here == os[mid as int].id);
            if here.goes_before(id) {
                lo = mid + 1;
            } else {
                hi = mid;
            }
        }
        proof {
            lemma_rank_is(self@.side, os, *id, lo as int);
        }
        lo
    }

    /// Whether an order with this identifier rests here.
    pub fn contains(&self, id: &OrderId) -> (r: bool)
        requires
            self.wf(),
        ensures
            r == self@.holds(*id),
    {
        let at: usize = self.rank(id);
        if at < self.handles.len() {
            let slot: usize = self.handles[at];
            self.slots[slot].id == *id
        } else {
            false
        }
    }

    /// Takes the order at place `at` off the side and frees its slot.
    pub(crate) fn take_at(&mut self, at: usize) -> (order: RestingOrder)
        requires
            old(self).wf(),
            at < old(self)@.orders().len(),
        ensures
            final(self).wf(),
            final(self)@ == old(self)@.remove_at(at as int),
            final(self)@.orders() == old(self)@.orders().remove(at as int),
            order == old(self)@.orders()[at as int],
    {
        proof {
            lemma_remove_at(self@, at as int);
        }
        let slot: usize = self.handles.remove(at);
        let order: RestingOrder = self.slots[slot];
        self.slots.set(slot, RestingOrder::new_blank(self.side));
        self.free.push(slot);
        order
    }

    /// Rests `order` at its place by price-time priority.
    ///
    /// Fails, leaving the side as it was, with `InvalidOrderParameters` if
    /// the order cannot rest here (wrong side, price or quantity not
    /// positive, identifier already resting), else with `BookFull` if no
    /// slot is free.
    pub fn insert(&mut self, order: RestingOrder) -> (r: Result<OrderId, EngineError>)
        requires
            old(self).wf(),
        ensures
            final(self).wf(),
            r == old(self)@.insert_result(order),
            final(self)@ == old(self)@.inserted(order),
            r is Err ==> final(self)@ == old(self)@,
            r is Ok ==> final(self)@.orders() == old(self)@.orders().insert(
                old(self)@.rank(order.id),
                order,
            ),
    {
        if order.id.side != self.side || order.id.price_lots <= 0 || order.quantity <= 0 {
            return Err(EngineError::InvalidOrderParameters);
        }
        let at: usize = self.rank(&order.id);
        if at < self.handles.len() {
            let slot: usize = self.handles[at];
            if self.slots[slot].id == order.id {
                return Err(EngineError::InvalidOrderParameters);
            }
        }
        match self.free.pop() {
            None => Err(EngineError::BookFull),
            Some(slot) => {
                proof {
                    lemma_insert_at(old(self)@, order);
                }
                self.slots.set(slot, order);
                self.handles.insert(at, slot);
                Ok(order.id)
            },
        }
    }

    /// Takes the order with this identifier off the side.
    ///
    /// Fails with `OrderNotFound`, leaving the side as it was, if no resting
    /// order has it.
    pub fn remove(&mut self, id: OrderId) -> (r: Result<RestingOrder, EngineError>)
        requires
            old(self).wf(),
        ensures
            final(self).wf(),
            r == old(self)@.remove_result(id),
            final(self)@ == old(self)@.removed(id),
            r is Err ==> final(self)@ == old(self)@,
            r is Ok ==> final(self)@.orders() == old(self)@.orders().remove(
                old(self)@.rank(id),
            ),
    {
        let at: usize = self.rank(&id);
        if at < self.handles.len() {
            let slot: usize = self.handles[at];
            if self.slots[slot].id == id {
                return Ok(self.take_at(at));
            }
        }
        Err(EngineError::OrderNotFound)
    }

    /// Sets the open quantity of the best order.
    pub(crate) fn set_best_quantity(&mut self, quantity: i64)
        requires
            old(self).wf(),
            old(self)@.orders().len() > 0,
            quantity > 0,
        ensures
            final(self).wf(),
            final(self)@ == old(self)@.set_quantity(0, quantity),
            final(self)@.orders() == old(self)@.orders().update(
                0,
                old(self)@.orders()[0].with_quantity(quantity),
            ),
    {
        proof {
            lemma_set_quantity(self@, 0, quantity);
        }
        let slot: usize = self.handles[0];
        let was: RestingOrder = self.slots[slot];
        self.slots.set(
            slot,
            RestingOrder {
                id: was.id,
                owner: was.owner,
                quantity,
                expiry: was.expiry,
                client_order_id: was.client_order_id,
                self_trade: was.self_trade,
            },
        );
    }

    /// Takes the `n` best orders off the side.
    pub(crate) fn drop_best(&mut self, n: usize)
        requires
            old(self).wf(),
            n <= old(self)@.orders().len(),
        ensures
            final(self).wf(),
            final(self)@ == old(self)@.drop_best(n as nat),
            final(self)@.orders() == old(self)@.orders().skip(n as int),
    {
        let mut done: usize = 0;
        while done < n
            invariant
                self.wf(),
                done <= n <= old(self)@.orders().len(),
                self@.orders() == old(self)@.orders().skip(done as int),
                self@.drop_best((n - done) as nat) == old(self)@.drop_best(n as nat),
            decreases n - done,
        {
            self.take_at(0);
            done = done + 1;
        }
    }

    /// Takes up to `max_count` resting orders of `owner` (of every owner if
    /// none is named) off the side, best first, and returns them in that
    /// order. With a side filter that names the other side nothing is taken.
    pub fn cancel_all(
        &mut self,
        owner: Option<AccountKey>,
        side_filter: Option<Side>,
        max_count: u32,
    ) -> (removed: Vec<RestingOrder>)
        requires
            old(self).wf(),
        ensures
            final(self).wf(),
            side_filter == Some(old(self)@.side.opposite()) ==> final(self)@ == old(self)@
                && removed@.len() == 0,
            side_filter != Some(old(self)@.side.opposite()) ==> final(self)@ == old(self)@.cancel(
                owner,
                max_count as nat,
            ) && removed@ == old(self)@.cancelled(owner, max_count as nat),
            removed@.len() <= max_count,
            removed@.len() + final(self)@.orders().len() == old(self)@.orders().len(),
    {
        let mut removed: Vec<RestingOrder> = Vec::new();
        match side_filter {
            Some(s) => {
                if s != self.side {
                    return removed;
                }
            },
            None => {},
        }
        let mut left: u32 = max_count;
        let mut at: usize = 0;
        while left > 0 && at < self.handles.len()
            invariant
                self.wf(),
                at <= self@.orders().len(),
                left <= max_count,
                removed@.len() == max_count - left,
                removed@.len() + self@.orders().len() == old(self)@.orders().len(),
                forall|i: int| 0 <= i < at ==> !selected(#[trigger] self@.orders()[i], owner),
                self@.cancel(owner, left as nat) == old(self)@.cancel(owner, max_count as nat),
                removed@ + self@.cancelled(owner, left as nat) == old(self)@.cancelled(
                    owner,
                    max_count as nat,
                ),
            decreases left + self@.orders().len() - at,
        {
            let slot: usize = self.handles[at];
            let here: RestingOrder = self.slots[slot];
            let take: bool = match owner {
                Some(key) => here.owner == key,
                None => true,
            };
            if take {
                let ghost before = self@;
                proof {
                    lemma_first_selected_is(before.orders(), owner, at as int);
                }
                let order: RestingOrder = self.take_at(at);
                removed.push(order);
                left = left - 1;
            } else {
                at = at + 1;
            }
        }
        proof {
            if left > 0 {
                lemma_first_selected_is(self@.orders(), owner, at as int);
            }
        }
        removed
    }
}

} // verus!
