use vstd::prelude::*;

verus! {

/// Who wrote a chat message.
#[derive(Debug, Clone, Copy, PartialEq, Eq, Structural)]
pub enum Role {
    User,
    Assistant,
}

/// The label under which a role is shown to the user.
pub open spec fn role_label(role: Role) -> Seq<char> {
    match role {
        Role::User => seq!['U', 's', 'e', 'r'],
        Role::Assistant => seq!['A', 's', 's', 'i', 's', 't', 'a', 'n', 't'],
    }
}

impl Role {
    /// The role's display label: `User` or `Assistant`.
    pub fn to_string(&self) -> (label: String)
        ensures
            label@ == role_label(*self),
    {
        match self {
            Role::User => {
                let s = String::from_str("User");
                proof {
                    reveal_strlit("User");
                }
                s
            },
            Role::Assistant => {
                let s = String::from_str("Assistant");
                proof {
                    reveal_strlit("Assistant");
                }
                s
            },
        }
    }
}

} // verus!
