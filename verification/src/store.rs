//! The typed store: resources, entities with components, and event
//! channels.
//!
//! A resource is a singleton value under a stable type identifier; a
//! component is a value attached to one entity under such an
//! identifier; an event channel is a double-buffered queue per
//! registered event kind. All three live here, addressed by plain
//! identifiers, so systems and the type-erased boundary share one view
//! of the state.

use crate::events::{push_rel, update_rel, Channel};
use crate::keyed::KeyedVec;
use crate::value::Value;
use vstd::prelude::*;

verus! {

/// An opaque identifier of one entity, unique within a store and never
/// reused.
#[derive(Clone, Copy, Debug, PartialEq, Eq, Structural, Hash)]
pub struct Entity {
    /// The numeric identity; fresh entities get increasing numbers.
    pub id: u64,
}

/// The components of one live entity, keyed by their type identifier.
pub struct EntityData {
    /// At most one component per type identifier.
    pub comps: KeyedVec<Value>,
}

/// The store of all runtime state outside the schedules themselves.
pub struct Store {
    resources: KeyedVec<Value>,
    channels: KeyedVec<Channel>,
    entities: KeyedVec<EntityData>,
    next_entity: u64,
}

impl Store {
    /// The resources: one value per type identifier.
    pub closed spec fn res(self) -> Map<u128, Value> {
        self.resources@
    }

    /// The event channels: one per registered event kind.
    pub closed spec fn chans(self) -> Map<u128, Channel> {
        self.channels@
    }

    /// The live entities, each with its components.
    pub closed spec fn ents(self) -> Map<u128, EntityData> {
        self.entities@
    }

    /// The number the next spawned entity will get.
    pub closed spec fn spec_next_entity(self) -> u64 {
        self.next_entity
    }

    /// The components of the given entity.
    pub closed spec fn comps_of(self, e: Entity) -> Map<u128, Value> {
        self.ents()[e.id as u128].comps@
    }

    /// Containers are well-formed, channels keep their id discipline,
    /// and every live entity is below the spawn counter.
    pub closed spec fn wf(self) -> bool {
        &&& self.resources.wf()
        &&& self.channels.wf()
        &&& self.entities.wf()
        &&& forall|k: u128|
            #[trigger] self.chans().dom().contains(k) ==> self.chans()[k].wf()
        &&& forall|k: u128|
            #[trigger] self.ents().dom().contains(k) ==> self.ents()[k].comps.wf()
        &&& forall|k: u128|
            #[trigger] self.ents().dom().contains(k) ==> k < (self.next_entity as u128)
    }

    /// Changing resources alone leaves the store well-formed.
    proof fn lemma_wf_new_resources(a: Store, b: Store)
        requires
            a.wf(),
            b.resources.wf(),
            b.channels == a.channels,
            b.entities == a.entities,
            b.next_entity == a.next_entity,
        ensures
            b.wf(),
    {
        assert forall|k: u128| #[trigger] b.chans().dom().contains(k) implies b.chans()[k].wf() by {
            assert(a.chans().dom().contains(k));
        }
        assert forall|k: u128| #[trigger] b.ents().dom().contains(k) implies b.ents()[k].comps.wf()
            && k < (b.next_entity as u128) by {
            assert(a.ents().dom().contains(k));
        }
    }

    /// Replacing or adding one well-formed channel leaves the store
    /// well-formed.
    proof fn lemma_wf_new_channel(a: Store, b: Store, k0: u128)
        requires
            a.wf(),
            b.channels.wf(),
            b.resources == a.resources,
            b.entities == a.entities,
            b.next_entity == a.next_entity,
            b.chans() == a.chans().insert(k0, b.chans()[k0]),
            b.chans()[k0].wf(),
        ensures
            b.wf(),
    {
        assert forall|k: u128| #[trigger] b.chans().dom().contains(k) implies b.chans()[k].wf() by {
            if k != k0 {
                assert(a.chans().dom().contains(k));
                assert(b.chans()[k] == a.chans()[k]);
            }
        }
        assert forall|k: u128| #[trigger] b.ents().dom().contains(k) implies b.ents()[k].comps.wf()
            && k < (b.next_entity as u128) by {
            assert(a.ents().dom().contains(k));
        }
    }

    /// Replacing or adding one entity whose components are well-formed,
    /// below the spawn counter, leaves the store well-formed.
    proof fn lemma_wf_new_entity(a: Store, b: Store, k0: u128)
        requires
            a.wf(),
            b.entities.wf(),
            b.resources == a.resources,
            b.channels == a.channels,
            b.next_entity >= a.next_entity,
            b.ents() == a.ents().insert(k0, b.ents()[k0]),
            b.ents()[k0].comps.wf(),
            k0 < (b.next_entity as u128),
        ensures
            b.wf(),
    {
        assert forall|k: u128| #[trigger] b.chans().dom().contains(k) implies b.chans()[k].wf() by {
            assert(a.chans().dom().contains(k));
        }
        assert forall|k: u128| #[trigger] b.ents().dom().contains(k) implies b.ents()[k].comps.wf()
            && k < (b.next_entity as u128) by {
            if k != k0 {
                assert(a.ents().dom().contains(k));
                assert(b.ents()[k] == a.ents()[k]);
                assert(k < (a.next_entity as u128));
            }
        }
    }

    /// Dropping one entity leaves the store well-formed.
    proof fn lemma_wf_drop_entity(a: Store, b: Store, k0: u128)
        requires
            a.wf(),
            b.entities.wf(),
            b.resources == a.resources,
            b.channels == a.channels,
            b.next_entity == a.next_entity,
            b.ents() == a.ents().remove(k0),
        ensures
            b.wf(),
    {
        assert forall|k: u128| #[trigger] b.chans().dom().contains(k) implies b.chans()[k].wf() by {
            assert(a.chans().dom().contains(k));
        }
        assert forall|k: u128| #[trigger] b.ents().dom().contains(k) implies b.ents()[k].comps.wf()
            && k < (b.next_entity as u128) by {
            assert(a.ents().dom().contains(k));
            assert(b.ents()[k] == a.ents()[k]);
        }
    }

    /// An empty store.
    pub fn new() -> (s: Store)
        ensures
            s.wf(),
            s.res() == Map::<u128, Value>::empty(),
            s.chans() == Map::<u128, Channel>::empty(),
            s.ents() == Map::<u128, EntityData>::empty(),
            s.spec_next_entity() == 0,
    {
        Store {
            resources: KeyedVec::new(),
            channels: KeyedVec::new(),
            entities: KeyedVec::new(),
            next_entity: 0,
        }
    }

    /// Puts the resource in place, replacing any resource already under
    /// the identifier: the last insertion always wins.
    pub fn insert_resource(&mut self, k: u128, v: Value)
        requires
            old(self).wf(),
        ensures
            final(self).wf(),
            final(self).res() == old(self).res().insert(k, v),
            final(self).chans() == old(self).chans(),
            final(self).ents() == old(self).ents(),
            final(self).spec_next_entity() == old(self).spec_next_entity(),
    {
        self.resources.insert(k, v);
        proof {
            Self::lemma_wf_new_resources(*old(self), *self);
        }
    }

    /// Puts the given starting value in place only if no resource is
    /// under the identifier yet; otherwise changes nothing, so the call
    /// is idempotent.
    pub fn init_resource(&mut self, k: u128, start: Value)
        requires
            old(self).wf(),
        ensures
            final(self).wf(),
            final(self).res() == if old(self).res().dom().contains(k) {
                old(self).res()
            } else {
                old(self).res().insert(k, start)
            },
            final(self).chans() == old(self).chans(),
            final(self).ents() == old(self).ents(),
            final(self).spec_next_entity() == old(self).spec_next_entity(),
    {
        if !self.resources.contains_key(k) {
            self.resources.insert(k, start);
        }
        proof {
            Self::lemma_wf_new_resources(*old(self), *self);
        }
    }

    /// Whether a resource is under the identifier.
    pub fn contains_resource(&self, k: u128) -> (r: bool)
        requires
            self.wf(),
        ensures
            r == self.res().dom().contains(k),
    {
        self.resources.contains_key(k)
    }

    /// A borrow of the resource, if present.
    pub fn get_resource(&self, k: u128) -> (r: Option<&Value>)
        requires
            self.wf(),
        ensures
            match r {
                Some(v) => self.res().dom().contains(k) && *v == self.res()[k],
                None => !self.res().dom().contains(k),
            },
    {
        self.resources.get(k)
    }

    /// A borrow of the resource. Accessing a resource that was never
    /// put in place is a programming error and by design fatal, so the
    /// caller must have guaranteed presence, by [`Self::init_resource`]
    /// or otherwise.
    pub fn resource(&self, k: u128) -> (r: &Value)
        requires
            self.wf(),
            self.res().dom().contains(k),
        ensures
            *r == self.res()[k],
    {
        self.get_resource(k).unwrap()
    }

    /// Takes the resource out of the store, handing it to the caller;
    /// the first half of the resource-scope pattern, with
    /// [`Self::insert_resource`] as the second.
    pub fn take_resource(&mut self, k: u128) -> (r: Option<Value>)
        requires
            old(self).wf(),
        ensures
            final(self).wf(),
            final(self).res() == old(self).res().remove(k),
            match r {
                Some(v) => old(self).res().dom().contains(k) && v == old(self).res()[k],
                None => !old(self).res().dom().contains(k),
            },
            final(self).chans() == old(self).chans(),
            final(self).ents() == old(self).ents(),
            final(self).spec_next_entity() == old(self).spec_next_entity(),
    {
        let r = self.resources.remove(k);
        proof {
            Self::lemma_wf_new_resources(*old(self), *self);
        }
        r
    }

    /// Makes a fresh entity with no components.
    pub fn spawn(&mut self) -> (e: Entity)
        requires
            old(self).wf(),
            old(self).spec_next_entity() < u64::MAX,
        ensures
            final(self).wf(),
            e.id == old(self).spec_next_entity(),
            !old(self).ents().dom().contains(e.id as u128),
            final(self).ents() == old(self).ents().insert(e.id as u128, final(self).ents()[e.id as u128]),
            final(self).comps_of(e) == Map::<u128, Value>::empty(),
            final(self).spec_next_entity() == old(self).spec_next_entity() + 1,
            final(self).res() == old(self).res(),
            final(self).chans() == old(self).chans(),
    {
        let id = self.next_entity;
        self.next_entity = self.next_entity + 1;
        self.entities.insert(id as u128, EntityData { comps: KeyedVec::new() });
        proof {
            assert(self.ents() =~= old(self).ents().insert(
                id as u128,
                self.ents()[id as u128],
            ));
            Self::lemma_wf_new_entity(*old(self), *self, id as u128);
        }
        Entity { id }
    }

    /// Whether the entity is live.
    pub fn contains_entity(&self, e: Entity) -> (r: bool)
        requires
            self.wf(),
        ensures
            r == self.ents().dom().contains(e.id as u128),
    {
        self.entities.contains_key(e.id as u128)
    }

    /// Destroys the entity and every component attached to it, and
    /// reports whether it was live.
    pub fn despawn(&mut self, e: Entity) -> (ok: bool)
        requires
            old(self).wf(),
        ensures
            final(self).wf(),
            ok == old(self).ents().dom().contains(e.id as u128),
            final(self).ents() == old(self).ents().remove(e.id as u128),
            final(self).res() == old(self).res(),
            final(self).chans() == old(self).chans(),
            final(self).spec_next_entity() == old(self).spec_next_entity(),
    {
        let r = self.entities.remove(e.id as u128);
        proof {
            Self::lemma_wf_drop_entity(*old(self), *self, e.id as u128);
        }
        match r {
            Some(_) => true,
            None => false,
        }
    }

    /// Attaches the component to the entity, replacing any component of
    /// the same type there, and reports whether the entity was live.
    pub fn insert_component(&mut self, e: Entity, k: u128, v: Value) -> (ok: bool)
        requires
            old(self).wf(),
        ensures
            final(self).wf(),
            ok == old(self).ents().dom().contains(e.id as u128),
            ok ==> {
                &&& final(self).comps_of(e) == old(self).comps_of(e).insert(k, v)
                &&& final(self).ents() == old(self).ents().insert(
                    e.id as u128,
                    final(self).ents()[e.id as u128],
                )
            },
            !ok ==> final(self).ents() == old(self).ents(),
            final(self).res() == old(self).res(),
            final(self).chans() == old(self).chans(),
            final(self).spec_next_entity() == old(self).spec_next_entity(),
    {
        match self.entities.remove(e.id as u128) {
            Some(mut data) => {
                proof {
                    assert(old(self).ents().dom().contains(e.id as u128));
                    assert(data.comps.wf());
                }
                data.comps.insert(k, v);
                self.entities.insert(e.id as u128, data);
                proof {
                    assert(self.ents() =~= old(self).ents().insert(
                        e.id as u128,
                        self.ents()[e.id as u128],
                    ));
                    Self::lemma_wf_new_entity(*old(self), *self, e.id as u128);
                }
                true
            },
            None => {
                proof {
                    assert(*self == *old(self));
                }
                false
            },
        }
    }

    /// A borrow of the entity's component of the given type, if the
    /// entity is live and carries one.
    pub fn get_component(&self, e: Entity, k: u128) -> (r: Option<&Value>)
        requires
            self.wf(),
        ensures
            match r {
                Some(v) => {
                    &&& self.ents().dom().contains(e.id as u128)
                    &&& self.comps_of(e).dom().contains(k)
                    &&& *v == self.comps_of(e)[k]
                },
                None => !self.ents().dom().contains(e.id as u128) || !self.comps_of(
                    e,
                ).dom().contains(k),
            },
    {
        match self.entities.get(e.id as u128) {
            Some(data) => data.comps.get(k),
            None => None,
        }
    }

    /// Detaches and returns the entity's component of the given type,
    /// if the entity is live and carries one.
    pub fn remove_component(&mut self, e: Entity, k: u128) -> (r: Option<Value>)
        requires
            old(self).wf(),
        ensures
            final(self).wf(),
            match r {
                Some(v) => {
                    &&& old(self).ents().dom().contains(e.id as u128)
                    &&& old(self).comps_of(e).dom().contains(k)
                    &&& v == old(self).comps_of(e)[k]
                    &&& final(self).comps_of(e) == old(self).comps_of(e).remove(k)
                    &&& final(self).ents() == old(self).ents().insert(
                        e.id as u128,
                        final(self).ents()[e.id as u128],
                    )
                },
                None => {
                    &&& final(self).ents() == old(self).ents()
                    &&& (!old(self).ents().dom().contains(e.id as u128) || !old(self).comps_of(
                        e,
                    ).dom().contains(k))
                },
            },
            final(self).res() == old(self).res(),
            final(self).chans() == old(self).chans(),
            final(self).spec_next_entity() == old(self).spec_next_entity(),
    {
        match self.entities.remove(e.id as u128) {
            Some(mut data) => {
                proof {
                    assert(old(self).ents().dom().contains(e.id as u128));
                    assert(data.comps.wf());
                }
                let r = data.comps.remove(k);
                self.entities.insert(e.id as u128, data);
                proof {
                    assert(self.ents() =~= old(self).ents().insert(
                        e.id as u128,
                        self.ents()[e.id as u128],
                    ));
                    Self::lemma_wf_new_entity(*old(self), *self, e.id as u128);
                    if r.is_none() {
                        assert(self.ents()[e.id as u128].comps@ == old(self).ents()[
                            e.id as u128].comps@);
                        assert(self.ents() =~= old(self).ents());
                    }
                }
                r
            },
            None => None,
        }
    }

    /// Makes an empty channel for the event kind if none is there yet;
    /// idempotent, like [`Self::init_resource`].
    pub fn init_channel(&mut self, k: u128)
        requires
            old(self).wf(),
        ensures
            final(self).wf(),
            old(self).chans().dom().contains(k) ==> final(self).chans() == old(self).chans(),
            !old(self).chans().dom().contains(k) ==> {
                &&& final(self).chans() == old(self).chans().insert(k, final(self).chans()[k])
                &&& final(self).chans()[k].prev_seq() == Seq::<crate::events::EventRec>::empty()
                &&& final(self).chans()[k].cur_seq() == Seq::<crate::events::EventRec>::empty()
                &&& final(self).chans()[k].next_id() == 0
            },
            final(self).res() == old(self).res(),
            final(self).ents() == old(self).ents(),
            final(self).spec_next_entity() == old(self).spec_next_entity(),
    {
        if !self.channels.contains_key(k) {
            self.channels.insert(k, Channel::new());
            proof {
                Self::lemma_wf_new_channel(*old(self), *self, k);
            }
        }
    }

    /// Whether a channel for the event kind is there.
    pub fn has_channel(&self, k: u128) -> (r: bool)
        requires
            self.wf(),
        ensures
            r == self.chans().dom().contains(k),
    {
        self.channels.contains_key(k)
    }

    /// A borrow of the channel for the event kind, if there is one;
    /// readers walk its visible events through it.
    pub fn get_channel(&self, k: u128) -> (r: Option<&Channel>)
        requires
            self.wf(),
        ensures
            match r {
                Some(c) => self.chans().dom().contains(k) && *c == self.chans()[k],
                None => !self.chans().dom().contains(k),
            },
    {
        self.channels.get(k)
    }

    /// Pushes the event onto the channel of its kind, and reports
    /// whether such a channel was there; without one the push is
    /// dropped.
    pub fn push_event(&mut self, k: u128, p: Value) -> (ok: bool)
        requires
            old(self).wf(),
            old(self).chans().dom().contains(k) ==> old(self).chans()[k].next_id() < u64::MAX,
        ensures
            final(self).wf(),
            ok == old(self).chans().dom().contains(k),
            ok ==> {
                &&& push_rel(old(self).chans()[k], final(self).chans()[k], p)
                &&& final(self).chans() == old(self).chans().insert(k, final(self).chans()[k])
            },
            !ok ==> final(self).chans() == old(self).chans(),
            final(self).res() == old(self).res(),
            final(self).ents() == old(self).ents(),
            final(self).spec_next_entity() == old(self).spec_next_entity(),
    {
        match self.channels.remove(k) {
            Some(mut c) => {
                c.push(p);
                self.channels.insert(k, c);
                proof {
                    assert(self.chans() =~= old(self).chans().insert(k, self.chans()[k]));
                    Self::lemma_wf_new_channel(*old(self), *self, k);
                }
                true
            },
            None => {
                proof {
                    assert(*self == *old(self));
                }
                false
            },
        }
    }

    /// Flips the channel of the event kind, if one is there: what was
    /// current becomes previous, and what had already survived one flip
    /// is dropped.
    pub fn update_events(&mut self, k: u128) -> (ok: bool)
        requires
            old(self).wf(),
        ensures
            final(self).wf(),
            ok == old(self).chans().dom().contains(k),
            ok ==> {
                &&& update_rel(old(self).chans()[k], final(self).chans()[k])
                &&& final(self).chans() == old(self).chans().insert(k, final(self).chans()[k])
            },
            !ok ==> final(self).chans() == old(self).chans(),
            final(self).res() == old(self).res(),
            final(self).ents() == old(self).ents(),
            final(self).spec_next_entity() == old(self).spec_next_entity(),
    {
        match self.channels.remove(k) {
            Some(mut c) => {
                c.update();
                self.channels.insert(k, c);
                proof {
                    assert(self.chans() =~= old(self).chans().insert(k, self.chans()[k]));
                    Self::lemma_wf_new_channel(*old(self), *self, k);
                }
                true
            },
            None => {
                proof {
                    assert(*self == *old(self));
                }
                false
            },
        }
    }
}

impl Store {
    /// Every channel of a well-formed store keeps the id discipline.
    pub proof fn lemma_channel_wf(self, k: u128)
        requires
            self.wf(),
            self.chans().dom().contains(k),
        ensures
            self.chans()[k].wf(),
    {
    }
}

/// Taking a resource out and putting the same value back restores the
/// resources exactly: the scope pattern returns the very value, not a
/// fresh one.
pub proof fn lemma_resource_scope_restores(m: Map<u128, Value>, k: u128)
    requires
        m.dom().contains(k),
    ensures
        m.remove(k).insert(k, m[k]) == m,
{
    assert(m.remove(k).insert(k, m[k]) =~= m);
}

/// Whatever was inserted before, the last insertion under an identifier
/// is what the store holds there, and other identifiers are untouched.
pub proof fn lemma_last_insert_wins(m: Map<u128, Value>, k: u128, v: Value)
    ensures
        m.insert(k, v)[k] == v,
        forall|k2: u128| k2 != k ==> m.insert(k, v).dom().contains(k2) == m.dom().contains(k2),
        forall|k2: u128|
            k2 != k && m.dom().contains(k2) ==> #[trigger] m.insert(k, v)[k2] == m[k2],
{
}

} // verus!
