//! A player's profile as the server knows it: name and UUID.

use vstd::prelude::*;

verus! {

#[derive(Debug, Clone, PartialEq, Eq)]
pub struct NameAndId {
    pub uuid: String,
    pub name: String,
}

impl NameAndId {
    pub open spec fn view(&self) -> (Seq<char>, Seq<char>) {
        (self.uuid@, self.name@)
    }

    pub fn new(uuid: &str, name: &str) -> (r: Self)
        ensures
            r@ == (uuid@, name@),
    {
        NameAndId { uuid: uuid.to_owned(), name: name.to_owned() }
    }

    pub fn copy(&self) -> (r: Self)
        ensures
            r@ == self@,
    {
        NameAndId { uuid: self.uuid.clone(), name: self.name.clone() }
    }
}

} // verus!
