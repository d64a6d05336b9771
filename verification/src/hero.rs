//! The entity that the service manages.

use vstd::prelude::*;

verus! {

/// A hero record. The id is unset until the store assigns one.
#[derive(Debug, PartialEq, Eq)]
pub struct Hero {
    pub id: Option<i32>,
    pub name: String,
}

/// What a hero is in contracts: its id and the characters of its name.
pub struct HeroView {
    pub id: Option<i32>,
    pub name: Seq<char>,
}

impl View for Hero {
    type V = HeroView;

    open spec fn view(&self) -> HeroView {
        HeroView { id: self.id, name: self.name@ }
    }
}

impl Clone for Hero {
    fn clone(&self) -> (copy: Hero)
        ensures
            copy == *self,
    {
        Hero { id: self.id, name: self.name.clone() }
    }
}

/// The views of a run of heroes, in the same order.
pub open spec fn views(heroes: Seq<Hero>) -> Seq<HeroView> {
    heroes.map_values(|hero: Hero| hero@)
}

impl Hero {
    /// A hero that has not been stored yet.
    pub fn new(name: String) -> (hero: Hero)
        ensures
            hero@ == (HeroView { id: None, name: name@ }),
    {
        Hero { id: None, name }
    }

    /// The same hero under another id. This is how a handler clears the id
    /// of a hero to create and fixes the id of a hero to update.
    pub fn with_id(self, id: Option<i32>) -> (hero: Hero)
        ensures
            hero@ == (HeroView { id, name: self.name@ }),
    {
        Hero { id, name: self.name }
    }
}

} // verus!
