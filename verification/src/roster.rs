//! Every entity the server has taken in, each in a slot of its own.
//!
//! An entity is referred to from several places at once: the keychain, the
//! index by key, the sessions logged in with its key, and the announcements
//! in the chat history.  All of them hold the number of the entity's slot,
//! so a change of its persona is seen by all of them.  Slots are never
//! reused: a slot number stays valid, and keeps its key, for as long as the
//! roster lives.

use vstd::prelude::*;
use crate::entity::{entity_views, sanitize, Entity, EntityView, PersonaView};

verus! {

/// The slots, in the order in which their entities were enrolled.
#[derive(Debug)]
pub struct Roster {
    slots: Vec<Entity>,
}

impl View for Roster {
    type V = Seq<EntityView>;

    closed spec fn view(&self) -> Seq<EntityView> {
        entity_views(self.slots@)
    }
}

impl Roster {
    /// A roster without entities.
    pub fn new() -> (roster: Roster)
        ensures
            roster@ == Seq::<EntityView>::empty(),
    {
        let roster = Roster { slots: Vec::new() };
        assert(roster@ =~= Seq::<EntityView>::empty());
        roster
    }

    /// The slots can be counted in a `usize`.
    pub proof fn lemma_countable(&self)
        ensures
            self@.len() <= usize::MAX,
    {
        assert(self.slots@.len() == self.slots.len());
    }

    /// The number of slots.
    pub fn len(&self) -> (n: usize)
        ensures
            n == self@.len(),
    {
        self.slots.len()
    }

    /// Puts `entity` into a new slot and returns the slot's number.
    pub fn enroll(&mut self, entity: Entity) -> (slot: usize)
        ensures
            slot == old(self)@.len(),
            final(self)@ == old(self)@.push(entity@),
    {
        let slot = self.slots.len();
        let ghost content = entity@;
        self.slots.push(entity);
        assert(final(self)@ =~= old(self)@.push(content));
        slot
    }

    /// The entity in slot `slot`.
    pub fn get(&self, slot: usize) -> (entity: &Entity)
        requires
            slot < self@.len(),
        ensures
            entity@ == self@[slot as int],
    {
        &self.slots[slot]
    }

    /// Gives the entity in slot `slot` the sanitized form of `name`.
    pub fn set_name(&mut self, slot: usize, name: &str)
        requires
            slot < old(self)@.len(),
        ensures
            final(self)@ == old(self)@.update(
                slot as int,
                EntityView {
                    persona: PersonaView {
                        name: sanitize(name@),
                        ..old(self)@[slot as int].persona
                    },
                    ..old(self)@[slot as int]
                },
            ),
    {
        let mut entity = self.slots[slot].clone();
        entity.set_name(name);
        let ghost content = entity@;
        self.slots.set(slot, entity);
        assert(final(self)@ =~= old(self)@.update(slot as int, content));
    }
}

} // verus!
