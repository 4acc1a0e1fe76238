//! The event bus: typed fire-and-forget notifications the engine
//! publishes for downstream cache invalidation and client push.  The
//! bus records events in order; delivery is a caller's concern.

use vstd::prelude::*;

verus! {

/// A notification flag pushed to connected clients.
#[derive(Clone, Copy, Debug, PartialEq, Eq, Structural)]
pub enum WebSocketFlags {
    AddArea(i64),
    UpdateArea(i64),
    RemoveArea(i64),
    AddPerson(i64),
    UpdatePerson(i64),
    RemovePerson(i64),
    AddWarehouse(i64),
    UpdateWarehouse(i64),
    RemoveWarehouse(i64),
    LinkedWarehouse(i64),
    UnlinkedWarehouse(i64),
    AddSKUCategory(i64),
    UpdateSKUCategory(i64),
    RemoveSKUCategory(i64),
    AddSKU(i64),
    UpdateSKU(i64),
    RemoveSKU(i64),
    AddOrder(i64),
    UpdateOrder(i64),
    RemoveOrder(i64),
    AddGuestOrder(i64),
    RemoveGuestOrder(i64),
    ConfirmGuestOrder(i64),
    RecalcOrders,
    ReadyAccess,
    Ping,
    ClearAreas,
    ClearPersons,
    ClearWarehouses,
    ClearSKUs,
    ClearSKUCategories,
    ClearOrders,
    ClearOrderCategories,
    ClearOrderPayments,
    AddOrderCategory(i64),
    UpdateOrderCategory(i64),
    RemoveOrderCategory(i64),
    AddOrderPayment(i64),
    RemoveOrderPayment(i64),
    AddUser(i64),
    UpdateUser(i64),
    RemoveUser(i64),
    UserRepeatLogin(i64),
    LinkedUser(i64),
    UnlinkedUser(i64),
    UserConnected(i64),
    UserDisconnected(i64),
}

/// The bus the engine publishes on.  Events accumulate in publication
/// order; what carries them further is outside the engine.
#[derive(Clone, Debug)]
pub struct EventBus {
    events: Vec<WebSocketFlags>,
}

impl View for EventBus {
    type V = Seq<WebSocketFlags>;

    closed spec fn view(&self) -> Seq<WebSocketFlags> {
        self.events@
    }
}

impl EventBus {
    pub fn new() -> (r: Self)
        ensures
            r@ == Seq::<WebSocketFlags>::empty(),
    {
        EventBus { events: Vec::new() }
    }

    /// Publish one event.
    pub fn notice(&mut self, flag: WebSocketFlags)
        ensures
            final(self)@ == old(self)@.push(flag),
    {
        self.events.push(flag);
    }

    /// The events published so far, oldest first.
    pub fn events(&self) -> (r: &Vec<WebSocketFlags>)
        ensures
            r@ == self@,
    {
        &self.events
    }
}

} // verus!
