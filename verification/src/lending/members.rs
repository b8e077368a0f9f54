//! Members of the library.
use vstd::prelude::*;

verus! {

/// A member of the library; new members are active.
pub struct Member {
    pub id: u32,
    pub name: String,
    pub email: String,
    active: bool,
}

/// What a member holds.
pub struct MemberView {
    pub id: u32,
    pub name: Seq<char>,
    pub email: Seq<char>,
    pub active: bool,
}

impl View for Member {
    type V = MemberView;

    closed spec fn view(&self) -> MemberView {
        MemberView { id: self.id, name: self.name@, email: self.email@, active: self.active }
    }
}

impl Member {
    /// A new, active member.
    pub fn new(id: u32, name: String, email: String) -> (m: Self)
        ensures
            m@ == (MemberView { id, name: name@, email: email@, active: true }),
    {
        Member { id, name, email, active: true }
    }

    /// The id of the member.
    pub(crate) fn id_of(&self) -> (r: u32)
        ensures
            r == self@.id,
    {
        self.id
    }

    /// Whether the member may borrow books.
    pub fn is_active(&self) -> (r: bool)
        ensures
            r == self@.active,
    {
        self.active
    }
}

} // verus!
