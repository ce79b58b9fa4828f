//! The status of an order and of a work line item, with the wire names used
//! at the boundary and the reachability policy of the order state machine.

use vstd::prelude::*;
use crate::error::EngineError;
use crate::text::str_eq;

verus! {

/// The lifecycle state of an order.
#[derive(Clone, Copy, Debug, PartialEq, Eq, Structural, Hash)]
pub enum OrderStatus {
    /// Order intake; awaiting fault diagnosis.
    Diagnostics,
    /// Defects recorded; parts and works being assembled.
    PartsSelection,
    /// Parts and works presented to the client; awaiting confirmation.
    Approval,
    /// Assigned workers executing the confirmed works.
    InWork,
    /// Work completed, awaiting pickup and payment.
    Ready,
    /// Order finished and archived.
    Closed,
    /// Order abandoned.
    Cancelled,
}

/// The execution state of a work line item.
#[derive(Clone, Copy, Debug, PartialEq, Eq, Structural, Hash)]
pub enum WorkStatus {
    /// Not started, or assigned anew.
    Pending,
    /// A worker is on it.
    InProgress,
    /// Finished.
    Done,
}

/// The status that a wire name denotes, if any.
pub open spec fn status_named(text: Seq<char>) -> Option<OrderStatus> {
    if text == "Diagnostics"@ {
        Some(OrderStatus::Diagnostics)
    } else if text == "Parts_Selection"@ {
        Some(OrderStatus::PartsSelection)
    } else if text == "Approval"@ {
        Some(OrderStatus::Approval)
    } else if text == "In_Work"@ {
        Some(OrderStatus::InWork)
    } else if text == "Ready"@ {
        Some(OrderStatus::Ready)
    } else if text == "Closed"@ {
        Some(OrderStatus::Closed)
    } else if text == "Cancelled"@ {
        Some(OrderStatus::Cancelled)
    } else {
        None
    }
}

/// The work status that a wire name denotes, if any.
pub open spec fn work_status_named(text: Seq<char>) -> Option<WorkStatus> {
    if text == "Pending"@ {
        Some(WorkStatus::Pending)
    } else if text == "In_Progress"@ {
        Some(WorkStatus::InProgress)
    } else if text == "Done"@ {
        Some(WorkStatus::Done)
    } else {
        None
    }
}

/// What a request to move an order from `current` to the status named
/// `target` yields: the new status, or the reason for the refusal.
pub open spec fn transition_verdict(current: OrderStatus, target: Seq<char>) -> Result<
    OrderStatus,
    EngineError,
> {
    match status_named(target) {
        None => Err(EngineError::InvalidStatus),
        Some(t) => if current.admits(t) {
            Ok(t)
        } else {
            Err(EngineError::InvalidTransition)
        },
    }
}

impl OrderStatus {
    /// The stable name of the status at the boundary.
    pub open spec fn wire_name(self) -> Seq<char> {
        match self {
            OrderStatus::Diagnostics => "Diagnostics"@,
            OrderStatus::PartsSelection => "Parts_Selection"@,
            OrderStatus::Approval => "Approval"@,
            OrderStatus::InWork => "In_Work"@,
            OrderStatus::Ready => "Ready"@,
            OrderStatus::Closed => "Closed"@,
            OrderStatus::Cancelled => "Cancelled"@,
        }
    }

    /// A closed or cancelled order takes no further transition.
    pub open spec fn terminal(self) -> bool {
        self == OrderStatus::Closed || self == OrderStatus::Cancelled
    }

    /// The next state on the forward line, if there is one.
    pub open spec fn successor(self) -> Option<OrderStatus> {
        match self {
            OrderStatus::Diagnostics => Some(OrderStatus::PartsSelection),
            OrderStatus::PartsSelection => Some(OrderStatus::Approval),
            OrderStatus::Approval => Some(OrderStatus::InWork),
            OrderStatus::InWork => Some(OrderStatus::Ready),
            OrderStatus::Ready => Some(OrderStatus::Closed),
            OrderStatus::Closed => None,
            OrderStatus::Cancelled => None,
        }
    }

    /// The reachability policy: one step forward without skipping, or
    /// cancellation from any state that is not terminal.
    pub open spec fn reaches(self, target: OrderStatus) -> bool {
        self.successor() == Some(target) || (target == OrderStatus::Cancelled && !self.terminal())
    }

    /// What the generic transition operation accepts: a reachable target
    /// other than `InWork`, which only the assignment of workers may set.
    pub open spec fn admits(self, target: OrderStatus) -> bool {
        self.reaches(target) && target != OrderStatus::InWork
    }

    /// The states in which a work line item of the order may carry a worker.
    pub open spec fn assignment_made(self) -> bool {
        self != OrderStatus::Diagnostics && self != OrderStatus::PartsSelection && self
            != OrderStatus::Approval
    }

    /// The stable name of the status at the boundary.
    pub fn as_str(&self) -> (r: &'static str)
        ensures
            r@ == self.wire_name(),
    {
        match self {
            OrderStatus::Diagnostics => "Diagnostics",
            OrderStatus::PartsSelection => "Parts_Selection",
            OrderStatus::Approval => "Approval",
            OrderStatus::InWork => "In_Work",
            OrderStatus::Ready => "Ready",
            OrderStatus::Closed => "Closed",
            OrderStatus::Cancelled => "Cancelled",
        }
    }

    /// Reads a wire name; any other text gives `None`.
    pub fn parse(text: &str) -> (r: Option<OrderStatus>)
        ensures
            r == status_named(text@),
    {
        if str_eq(text, "Diagnostics") {
            Some(OrderStatus::Diagnostics)
        } else if str_eq(text, "Parts_Selection") {
            Some(OrderStatus::PartsSelection)
        } else if str_eq(text, "Approval") {
            Some(OrderStatus::Approval)
        } else if str_eq(text, "In_Work") {
            Some(OrderStatus::InWork)
        } else if str_eq(text, "Ready") {
            Some(OrderStatus::Ready)
        } else if str_eq(text, "Closed") {
            Some(OrderStatus::Closed)
        } else if str_eq(text, "Cancelled") {
            Some(OrderStatus::Cancelled)
        } else {
            None
        }
    }

    /// Whether the order takes no further transition.
    pub fn is_terminal(&self) -> (r: bool)
        ensures
            r == self.terminal(),
    {
        match self {
            OrderStatus::Closed => true,
            OrderStatus::Cancelled => true,
            _ => false,
        }
    }

    /// The next state on the forward line, if there is one.
    pub fn next(&self) -> (r: Option<OrderStatus>)
        ensures
            r == self.successor(),
    {
        match self {
            OrderStatus::Diagnostics => Some(OrderStatus::PartsSelection),
            OrderStatus::PartsSelection => Some(OrderStatus::Approval),
            OrderStatus::Approval => Some(OrderStatus::InWork),
            OrderStatus::InWork => Some(OrderStatus::Ready),
            OrderStatus::Ready => Some(OrderStatus::Closed),
            OrderStatus::Closed => None,
            OrderStatus::Cancelled => None,
        }
    }

    /// Whether the reachability policy leads from this state to `target`.
    pub fn can_reach(&self, target: OrderStatus) -> (r: bool)
        ensures
            r == self.reaches(target),
    {
        let forward = match self.next() {
            Some(n) => n == target,
            None => false,
        };
        forward || (target == OrderStatus::Cancelled && !self.is_terminal())
    }

    /// Decides a transition request against the reachability policy.
    pub fn check_transition(&self, target: &str) -> (r: Result<OrderStatus, EngineError>)
        ensures
            r == transition_verdict(*self, target@),
    {
        match OrderStatus::parse(target) {
            None => Err(EngineError::InvalidStatus),
            Some(t) => {
                if self.can_reach(t) && t != OrderStatus::InWork {
                    Ok(t)
                } else {
                    Err(EngineError::InvalidTransition)
                }
            },
        }
    }
}

impl WorkStatus {
    /// The stable name of the work status at the boundary.
    pub open spec fn wire_name(self) -> Seq<char> {
        match self {
            WorkStatus::Pending => "Pending"@,
            WorkStatus::InProgress => "In_Progress"@,
            WorkStatus::Done => "Done"@,
        }
    }

    /// The stable name of the status at the boundary.
    pub fn as_str(&self) -> (r: &'static str)
        ensures
            r@ == self.wire_name(),
    {
        match self {
            WorkStatus::Pending => "Pending",
            WorkStatus::InProgress => "In_Progress",
            WorkStatus::Done => "Done",
        }
    }

    /// Reads a wire name; any other text gives `None`.
    pub fn parse(text: &str) -> (r: Option<WorkStatus>)
        ensures
            r == work_status_named(text@),
    {
        if str_eq(text, "Pending") {
            Some(WorkStatus::Pending)
        } else if str_eq(text, "In_Progress") {
            Some(WorkStatus::InProgress)
        } else if str_eq(text, "Done") {
            Some(WorkStatus::Done)
        } else {
            None
        }
    }
}

/// The seven wire names are pairwise distinct: reading the name of a status
/// gives that status back.
pub proof fn lemma_wire_name_round_trip(status: OrderStatus)
    ensures
        status_named(status.wire_name()) == Some(status),
{
    reveal_strlit("Diagnostics");
    reveal_strlit("Parts_Selection");
    reveal_strlit("Approval");
    reveal_strlit("In_Work");
    reveal_strlit("Ready");
    reveal_strlit("Closed");
    reveal_strlit("Cancelled");
    assert("Diagnostics"@.len() == 11);
    assert("Parts_Selection"@.len() == 15);
    assert("Approval"@.len() == 8);
    assert("In_Work"@.len() == 7);
    assert("Ready"@.len() == 5);
    assert("Closed"@.len() == 6);
    assert("Cancelled"@.len() == 9);
}

/// A text is read as a status only if it is that status's wire name.
pub proof fn lemma_status_named_is_wire_name(text: Seq<char>, status: OrderStatus)
    requires
        status_named(text) == Some(status),
    ensures
        text == status.wire_name(),
{
}

/// Reading the name of a work status gives that status back.
pub proof fn lemma_work_wire_name_round_trip(status: WorkStatus)
    ensures
        work_status_named(status.wire_name()) == Some(status),
{
    reveal_strlit("Pending");
    reveal_strlit("In_Progress");
    reveal_strlit("Done");
    assert("Pending"@.len() == 7);
    assert("In_Progress"@.len() == 11);
    assert("Done"@.len() == 4);
}

} // verus!
