//! The audit trail: who did what, as structured events.

use vstd::prelude::*;
use crate::status::OrderStatus;

verus! {

/// What happened.
#[derive(Clone, Copy, Debug, PartialEq, Eq, Structural)]
pub enum AuditAction {
    ClientCreated { client_id: i32 },
    CarCreated { car_id: i32 },
    OrderCreated { order_id: i32, client_id: i32, car_id: i32 },
    StatusChanged { order_id: i32, client_id: i32, car_id: i32, from: OrderStatus, to: OrderStatus },
    PartAdded { order_id: i32, part_id: i32 },
    WorkersAssigned { order_id: i32, assignments: usize, main_worker: Option<i32> },
}

/// One entry of the audit trail.
#[derive(Clone, Copy, Debug, PartialEq, Eq, Structural)]
pub struct AuditEvent {
    pub actor_id: Option<i32>,
    pub action: AuditAction,
}

impl AuditAction {
    /// The event type under which the action is logged.
    pub open spec fn event_type_text(self) -> Seq<char> {
        match self {
            AuditAction::ClientCreated { .. } => "Create_Client"@,
            AuditAction::CarCreated { .. } => "Create_Car"@,
            AuditAction::OrderCreated { .. } => "Create_Order"@,
            AuditAction::StatusChanged { .. } => "Update_Order_Status"@,
            AuditAction::PartAdded { .. } => "Add_Part_To_Order"@,
            AuditAction::WorkersAssigned { .. } => "Assign_Workers"@,
        }
    }

    /// The event type under which the action is logged.
    pub fn event_type(&self) -> (r: &'static str)
        ensures
            r@ == self.event_type_text(),
    {
        match self {
            AuditAction::ClientCreated { .. } => "Create_Client",
            AuditAction::CarCreated { .. } => "Create_Car",
            AuditAction::OrderCreated { .. } => "Create_Order",
            AuditAction::StatusChanged { .. } => "Update_Order_Status",
            AuditAction::PartAdded { .. } => "Add_Part_To_Order",
            AuditAction::WorkersAssigned { .. } => "Assign_Workers",
        }
    }
}

} // verus!
