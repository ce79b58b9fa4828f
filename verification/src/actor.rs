//! Who acts on the station: a user's id and role.

use vstd::prelude::*;
use crate::text::str_eq;

verus! {

/// The role of a user.
#[derive(Clone, Copy, Debug, PartialEq, Eq, Structural, Hash)]
pub enum Role {
    Admin,
    Master,
    Diagnostician,
    Storekeeper,
    Worker,
}

/// The authenticated party to whom an action is attributed.
#[derive(Clone, Copy, Debug, PartialEq, Eq, Structural, Hash)]
pub struct Actor {
    pub id: i32,
    pub role: Role,
}

/// The role that a name denotes, if any.
pub open spec fn role_named(text: Seq<char>) -> Option<Role> {
    if text == "Admin"@ {
        Some(Role::Admin)
    } else if text == "Master"@ {
        Some(Role::Master)
    } else if text == "Diagnostician"@ {
        Some(Role::Diagnostician)
    } else if text == "Storekeeper"@ {
        Some(Role::Storekeeper)
    } else if text == "Worker"@ {
        Some(Role::Worker)
    } else {
        None
    }
}

impl Role {
    /// The name of the role at the boundary.
    pub open spec fn wire_name(self) -> Seq<char> {
        match self {
            Role::Admin => "Admin"@,
            Role::Master => "Master"@,
            Role::Diagnostician => "Diagnostician"@,
            Role::Storekeeper => "Storekeeper"@,
            Role::Worker => "Worker"@,
        }
    }

    /// The name of the role at the boundary.
    pub fn as_str(&self) -> (r: &'static str)
        ensures
            r@ == self.wire_name(),
    {
        match self {
            Role::Admin => "Admin",
            Role::Master => "Master",
            Role::Diagnostician => "Diagnostician",
            Role::Storekeeper => "Storekeeper",
            Role::Worker => "Worker",
        }
    }

    /// Reads the name of a role; any other text gives `None`.
    pub fn parse(text: &str) -> (r: Option<Role>)
        ensures
            r == role_named(text@),
    {
        if str_eq(text, "Admin") {
            Some(Role::Admin)
        } else if str_eq(text, "Master") {
            Some(Role::Master)
        } else if str_eq(text, "Diagnostician") {
            Some(Role::Diagnostician)
        } else if str_eq(text, "Storekeeper") {
            Some(Role::Storekeeper)
        } else if str_eq(text, "Worker") {
            Some(Role::Worker)
        } else {
            None
        }
    }
}

/// Reading the name of a role gives that role back.
pub proof fn lemma_role_name_round_trip(role: Role)
    ensures
        role_named(role.wire_name()) == Some(role),
{
    reveal_strlit("Admin");
    reveal_strlit("Master");
    reveal_strlit("Diagnostician");
    reveal_strlit("Storekeeper");
    reveal_strlit("Worker");
    assert("Admin"@.len() == 5);
    assert("Master"@[0] == 'M');
    assert("Worker"@[0] == 'W');
    assert("Diagnostician"@.len() == 13);
    assert("Storekeeper"@.len() == 11);
    assert("Master"@.len() == 6);
    assert("Worker"@.len() == 6);
}

} // verus!
