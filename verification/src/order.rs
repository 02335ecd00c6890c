//! Orders whose state (new, paid, shipped) is part of their type, so that only a
//! paid order can be shipped.
use vstd::prelude::*;
use std::marker::PhantomData;

verus! {

/// The state of an order that has just been placed.
#[derive(Debug, Clone, Copy)]
pub struct New;

/// The state of an order that has been paid.
#[derive(Debug, Clone, Copy)]
pub struct Paid;

/// The state of an order that has been shipped.
#[derive(Debug, Clone, Copy)]
pub struct Shipped;

/// An order number.
#[derive(Debug, Clone, Copy, PartialEq, Eq, Structural)]
pub struct OrderId(pub u32);

/// The name of the customer who placed an order.
pub struct CustomerName(pub String);

/// The amount of an order, held as the bit pattern of the `f64` it stands for
/// (`f64::to_bits`), so that it is carried through unchanged.
#[derive(Debug, Clone, Copy, PartialEq, Eq, Structural)]
pub struct Amount(pub u64);

/// What an order is about.
pub struct OrderData {
    pub id: OrderId,
    pub customer: CustomerName,
    pub amount: Amount,
}

/// An order in the state `State`.
pub struct Order<State> {
    data: OrderData,
    state: PhantomData<State>,
}

/// The view of an order: its number, its customer's name and its amount.
pub open spec fn order_view(id: OrderId, customer: Seq<char>, amount: Amount) -> (u32, Seq<char>, u64) {
    (id.0, customer, amount.0)
}

impl<State> View for Order<State> {
    type V = (u32, Seq<char>, u64);

    closed spec fn view(&self) -> (u32, Seq<char>, u64) {
        order_view(self.data.id, self.data.customer.0@, self.data.amount)
    }
}

impl Order<New> {
    /// A new order.
    pub fn new(id: OrderId, customer: CustomerName, amount: Amount) -> (r: Self)
        ensures r@ == order_view(id, customer.0@, amount),
    {
        Order { data: OrderData { id, customer, amount }, state: PhantomData }
    }

    /// The order, paid.
    pub fn pay(self) -> (r: Order<Paid>)
        ensures r@ == self@,
    {
        Order { data: self.data, state: PhantomData }
    }
}

impl Order<Paid> {
    /// The order, shipped.
    pub fn ship(self) -> (r: Order<Shipped>)
        ensures r@ == self@,
    {
        Order { data: self.data, state: PhantomData }
    }
}

impl<State> Order<State> {
    /// The order's number.
    pub fn id(&self) -> (r: &OrderId)
        ensures r.0 == self@.0,
    {
        &self.data.id
    }

    /// The customer's name.
    pub fn customer(&self) -> (r: &CustomerName)
        ensures r.0@ == self@.1,
    {
        &self.data.customer
    }

    /// The order's amount.
    pub fn amount(&self) -> (r: &Amount)
        ensures r.0 == self@.2,
    {
        &self.data.amount
    }
}


}
