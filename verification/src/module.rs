//! Registration: the reflection registry and the module builder.
//!
//! The reflection registry maps 128-bit stable type identifiers to
//! what an untyped boundary needs: a describing name, whether the type
//! can be built onto an entity from serialized data, whether it can be
//! dispatched as an event, and whether an editor may see it.
//! Identifiers are unique by construction: registering a taken
//! identifier is a configuration mistake caught at registration time,
//! before any tick runs.
//!
//! The module owns the registry, the world and the driver's started
//! flag, and offers the registration calls initialization code uses.

use crate::events::push_rel;
use crate::keyed::KeyedVec;
use crate::schedule::{Action, ExecutorKind, Schedule, SystemEntry};
use crate::schedules::{
    default_order, MainScheduleOrder, EVENT_REGISTRATION_LABEL, MAIN_LABEL,
    MAIN_SCHEDULE_ORDER_KEY, POST_UPDATE_LABEL, PRE_STARTUP_LABEL, PRE_UPDATE_LABEL, STARTUP_LABEL,
    UPDATE_LABEL,
};
use crate::value::Value;
use crate::world::{order_of, run_plan, startup_labels, startup_pure, MainError, Step, SystemHost, World};
use vstd::prelude::*;

verus! {

/// What registration records about one type: its stable identifier and
/// a describing name for the untyped boundary.
pub struct TypeDescriptor {
    /// The 128-bit stable identifier, unique per registry.
    pub uuid: u128,
    /// The name shown to the boundary.
    pub name: String,
}

/// The identifier-keyed table bridging typed logic and the untyped
/// boundary.
pub struct ReflectionRegistry {
    uuid_set: KeyedVec<bool>,
    reflect: KeyedVec<String>,
    insert_serialized_component: KeyedVec<bool>,
    send_entity_event: KeyedVec<bool>,
    editor_components: KeyedVec<bool>,
    events: KeyedVec<bool>,
}

impl ReflectionRegistry {
    /// All registered identifiers.
    pub closed spec fn spec_uuids(self) -> Set<u128> {
        self.uuid_set@.dom()
    }

    /// The registered identifiers in registration order.
    pub closed spec fn uuids_seq(self) -> Seq<u128> {
        Seq::new(self.uuid_set.entries_seq().len(), |i: int| self.uuid_set.entries_seq()[i].0)
    }

    /// The describing names by identifier.
    pub closed spec fn spec_reflect(self) -> Map<u128, String> {
        self.reflect@
    }

    /// The identifiers whose types can be built from serialized data.
    pub closed spec fn spec_serialized(self) -> Set<u128> {
        self.insert_serialized_component@.dom()
    }

    /// The identifiers whose types can be dispatched as events.
    pub closed spec fn spec_event_dispatch(self) -> Set<u128> {
        self.send_entity_event@.dom()
    }

    /// The identifiers an editor may see.
    pub closed spec fn spec_editor(self) -> Set<u128> {
        self.editor_components@.dom()
    }

    /// The identifiers registered as event kinds.
    pub closed spec fn spec_events(self) -> Set<u128> {
        self.events@.dom()
    }

    /// The containers hold their invariants.
    pub closed spec fn wf(self) -> bool {
        &&& self.uuid_set.wf()
        &&& self.reflect.wf()
        &&& self.insert_serialized_component.wf()
        &&& self.send_entity_event.wf()
        &&& self.editor_components.wf()
        &&& self.events.wf()
    }

    /// An empty registry.
    pub fn new() -> (r: ReflectionRegistry)
        ensures
            r.wf(),
            r.spec_uuids() == Set::<u128>::empty(),
            r.spec_reflect() == Map::<u128, String>::empty(),
            r.spec_serialized() == Set::<u128>::empty(),
            r.spec_event_dispatch() == Set::<u128>::empty(),
            r.spec_editor() == Set::<u128>::empty(),
            r.spec_events() == Set::<u128>::empty(),
    {
        let r = ReflectionRegistry {
            uuid_set: KeyedVec::new(),
            reflect: KeyedVec::new(),
            insert_serialized_component: KeyedVec::new(),
            send_entity_event: KeyedVec::new(),
            editor_components: KeyedVec::new(),
            events: KeyedVec::new(),
        };
        proof {
            assert(r.spec_uuids() =~= Set::<u128>::empty());
            assert(r.spec_serialized() =~= Set::<u128>::empty());
            assert(r.spec_event_dispatch() =~= Set::<u128>::empty());
            assert(r.spec_editor() =~= Set::<u128>::empty());
            assert(r.spec_events() =~= Set::<u128>::empty());
        }
        r
    }

    /// Whether the identifier is registered.
    pub fn contains(&self, uuid: u128) -> (r: bool)
        requires
            self.wf(),
        ensures
            r == self.spec_uuids().contains(uuid),
    {
        self.uuid_set.contains_key(uuid)
    }

    /// Records the type under its identifier. A duplicated identifier
    /// is a programmer error, by design fatal at registration time and
    /// never a silent overwrite; hence the caller must have checked
    /// freshness, by [`Self::try_register`] or otherwise.
    pub fn register(&mut self, d: TypeDescriptor)
        requires
            old(self).wf(),
            !old(self).spec_uuids().contains(d.uuid),
        ensures
            final(self).wf(),
            final(self).spec_uuids() == old(self).spec_uuids().insert(d.uuid),
            final(self).uuids_seq() == old(self).uuids_seq().push(d.uuid),
            final(self).spec_reflect() == old(self).spec_reflect().insert(d.uuid, d.name),
            final(self).spec_serialized() == old(self).spec_serialized(),
            final(self).spec_event_dispatch() == old(self).spec_event_dispatch(),
            final(self).spec_editor() == old(self).spec_editor(),
            final(self).spec_events() == old(self).spec_events(),
    {
        let uuid = d.uuid;
        self.reflect.insert(uuid, d.name);
        self.uuid_set.insert(uuid, true);
        proof {
            assert(final(self).spec_uuids() =~= old(self).spec_uuids().insert(uuid));
            assert(final(self).uuids_seq() =~= old(self).uuids_seq().push(uuid));
        }
    }

    /// Records the type if its identifier is fresh, and says whether it
    /// did; a duplicate changes nothing and yields `false`.
    pub fn try_register(&mut self, d: TypeDescriptor) -> (ok: bool)
        requires
            old(self).wf(),
        ensures
            final(self).wf(),
            ok == !old(self).spec_uuids().contains(d.uuid),
            !ok ==> *final(self) == *old(self),
            ok ==> {
                &&& final(self).spec_uuids() == old(self).spec_uuids().insert(d.uuid)
                &&& final(self).spec_reflect() == old(self).spec_reflect().insert(d.uuid, d.name)
                &&& final(self).spec_serialized() == old(self).spec_serialized()
                &&& final(self).spec_event_dispatch() == old(self).spec_event_dispatch()
                &&& final(self).spec_editor() == old(self).spec_editor()
                &&& final(self).spec_events() == old(self).spec_events()
            },
    {
        if self.uuid_set.contains_key(d.uuid) {
            false
        } else {
            self.register(d);
            true
        }
    }

    /// Marks the identifier's type as insertable from serialized data.
    pub fn add_serialized_component(&mut self, uuid: u128)
        requires
            old(self).wf(),
        ensures
            final(self).wf(),
            final(self).spec_serialized() == old(self).spec_serialized().insert(uuid),
            final(self).spec_uuids() == old(self).spec_uuids(),
            final(self).uuids_seq() == old(self).uuids_seq(),
            final(self).spec_reflect() == old(self).spec_reflect(),
            final(self).spec_event_dispatch() == old(self).spec_event_dispatch(),
            final(self).spec_editor() == old(self).spec_editor(),
            final(self).spec_events() == old(self).spec_events(),
    {
        self.insert_serialized_component.insert(uuid, true);
        proof {
            assert(final(self).spec_serialized() =~= old(self).spec_serialized().insert(uuid));
        }
    }

    /// Marks the identifier's type as dispatchable as an event.
    pub fn add_event_dispatch(&mut self, uuid: u128)
        requires
            old(self).wf(),
        ensures
            final(self).wf(),
            final(self).spec_event_dispatch() == old(self).spec_event_dispatch().insert(uuid),
            final(self).spec_uuids() == old(self).spec_uuids(),
            final(self).uuids_seq() == old(self).uuids_seq(),
            final(self).spec_reflect() == old(self).spec_reflect(),
            final(self).spec_serialized() == old(self).spec_serialized(),
            final(self).spec_editor() == old(self).spec_editor(),
            final(self).spec_events() == old(self).spec_events(),
    {
        self.send_entity_event.insert(uuid, true);
        proof {
            assert(final(self).spec_event_dispatch() =~= old(self).spec_event_dispatch().insert(
                uuid,
            ));
        }
    }

    /// Marks the identifier's type as visible to an editor.
    pub fn add_editor_component(&mut self, uuid: u128)
        requires
            old(self).wf(),
        ensures
            final(self).wf(),
            final(self).spec_editor() == old(self).spec_editor().insert(uuid),
            final(self).spec_uuids() == old(self).spec_uuids(),
            final(self).uuids_seq() == old(self).uuids_seq(),
            final(self).spec_reflect() == old(self).spec_reflect(),
            final(self).spec_serialized() == old(self).spec_serialized(),
            final(self).spec_event_dispatch() == old(self).spec_event_dispatch(),
            final(self).spec_events() == old(self).spec_events(),
    {
        self.editor_components.insert(uuid, true);
        proof {
            assert(final(self).spec_editor() =~= old(self).spec_editor().insert(uuid));
        }
    }

    /// Marks the identifier as a registered event kind.
    pub fn add_event_kind(&mut self, uuid: u128)
        requires
            old(self).wf(),
        ensures
            final(self).wf(),
            final(self).spec_events() == old(self).spec_events().insert(uuid),
            final(self).spec_uuids() == old(self).spec_uuids(),
            final(self).uuids_seq() == old(self).uuids_seq(),
            final(self).spec_reflect() == old(self).spec_reflect(),
            final(self).spec_serialized() == old(self).spec_serialized(),
            final(self).spec_event_dispatch() == old(self).spec_event_dispatch(),
            final(self).spec_editor() == old(self).spec_editor(),
    {
        self.events.insert(uuid, true);
        proof {
            assert(final(self).spec_events() =~= old(self).spec_events().insert(uuid));
        }
    }

    /// All registered identifiers, in registration order, for host-side
    /// discovery.
    pub fn retrieve_uuids(&self) -> (r: Vec<u128>)
        requires
            self.wf(),
        ensures
            r@ == self.uuids_seq(),
            forall|k: u128| r@.contains(k) <==> self.spec_uuids().contains(k),
    {
        let n: usize = self.uuid_set.len();
        let mut r: Vec<u128> = Vec::new();
        let mut i: usize = 0;
        while i < n
            invariant
                n == self.uuid_set.entries_seq().len(),
                i <= n,
                r@ =~= self.uuids_seq().take(i as int),
            decreases n - i,
        {
            r.push(self.uuid_set.key_at(i));
            proof {
                assert(r@ =~= self.uuids_seq().take(i + 1));
            }
            i = i + 1;
        }
        proof {
            assert(r@ =~= self.uuids_seq());
            assert forall|k: u128| r@.contains(k) <==> self.spec_uuids().contains(k) by {
                if r@.contains(k) {
                    let i = choose|i: int| 0 <= i < r@.len() && r@[i] == k;
                    assert(self.uuid_set.entries_seq()[i].0 == k);
                    self.uuid_set.lemma_key_index_unique(k, i);
                }
                if self.spec_uuids().contains(k) {
                    let i = choose|i: int|
                        0 <= i < self.uuid_set.entries_seq().len() && (
                        #[trigger] self.uuid_set.entries_seq()[i]).0 == k;
                    assert(r@[i] == k);
                }
            }
        }
        r
    }
}

/// Brings a user module type up from nothing.
pub trait InitUserModule: Sized {
    /// Builds the user module value.
    fn initialize() -> Self;
}

/// A user module: registers its types and systems into the module at
/// initialization.
pub trait UserModule {
    /// Fills the module with the user's types, systems and resources.
    /// The module arrives well-formed and must stay so; the public
    /// module methods keep it well-formed by themselves.
    fn initialize(&self, module: &mut Module)
        requires
            old(module).wf(),
        ensures
            final(module).wf(),
    ;
}

/// A reusable bundle of registrations.
pub trait Plugin {
    /// Adds this plugin's types, systems and resources to the module.
    /// The module arrives well-formed and must stay so.
    fn build(&self, module: &mut Module)
        requires
            old(module).wf(),
        ensures
            final(module).wf(),
    ;
}

/// The runtime: the reflection registry, the world, and the driver's
/// persisted started flag.
pub struct Module {
    /// The identifier-keyed registry for the untyped boundary.
    pub reflection_registry: ReflectionRegistry,
    /// The store and the schedules.
    pub world: World,
    /// Whether a tick has run; the driver sets it on the first tick
    /// and nothing clears it, so startup runs exactly once.
    pub started: bool,
}

/// The labels of the schedules every fresh module carries.
pub open spec fn base_labels() -> Seq<u128> {
    seq![
        MAIN_LABEL,
        PRE_STARTUP_LABEL,
        STARTUP_LABEL,
        EVENT_REGISTRATION_LABEL,
        PRE_UPDATE_LABEL,
        UPDATE_LABEL,
        POST_UPDATE_LABEL,
    ]
}

impl Module {
    /// The registry and the world hold their invariants.
    pub open spec fn wf(self) -> bool {
        &&& self.reflection_registry.wf()
        &&& self.world.wf()
    }

    /// Whether a tick has run; set by the first [`Self::tick`] and
    /// never cleared, so startup runs exactly once.
    pub open spec fn spec_started(self) -> bool {
        self.started
    }

    /// A fresh module: one empty single-threaded schedule per base
    /// label, the schedule order in its canonical default, an empty
    /// registry, and startup still ahead.
    pub fn new() -> (m: Module)
        ensures
            m.wf(),
            !m.spec_started(),
            forall|l: u128| #[trigger]
                m.world.schedules@.dom().contains(l) <==> base_labels().contains(l),
            forall|l: u128| #[trigger]
                m.world.schedules@.dom().contains(l) ==> m.world.schedules@[l].systems_seq()
                    == Seq::<SystemEntry>::empty(),
            forall|l: u128| #[trigger]
                m.world.schedules@.dom().contains(l) ==> m.world.schedules@[l].spec_kind()
                    == ExecutorKind::SingleThreaded,
            order_of(m.world.store.res()) == Option::Some(default_order()),
            m.world.store.res().dom() == Set::<u128>::empty().insert(MAIN_SCHEDULE_ORDER_KEY),
            m.world.store.chans() == Map::<u128, crate::events::Channel>::empty(),
            m.world.store.ents() == Map::<u128, crate::store::EntityData>::empty(),
            m.reflection_registry.spec_uuids() == Set::<u128>::empty(),
            m.reflection_registry.spec_reflect() == Map::<u128, String>::empty(),
            m.reflection_registry.spec_serialized() == Set::<u128>::empty(),
            m.reflection_registry.spec_event_dispatch() == Set::<u128>::empty(),
            m.reflection_registry.spec_editor() == Set::<u128>::empty(),
            m.reflection_registry.spec_events() == Set::<u128>::empty(),
    {
        let mut world = World::new();
        world.add_schedule(MAIN_LABEL, Schedule::new());
        world.add_schedule(PRE_STARTUP_LABEL, Schedule::new());
        world.add_schedule(STARTUP_LABEL, Schedule::new());
        world.add_schedule(EVENT_REGISTRATION_LABEL, Schedule::new());
        world.add_schedule(PRE_UPDATE_LABEL, Schedule::new());
        world.add_schedule(UPDATE_LABEL, Schedule::new());
        world.add_schedule(POST_UPDATE_LABEL, Schedule::new());
        let order = MainScheduleOrder::default();
        world.store.insert_resource(MAIN_SCHEDULE_ORDER_KEY, Value::Order(order));
        let m = Module { reflection_registry: ReflectionRegistry::new(), world, started: false };
        proof {
            assert forall|l: u128| #[trigger]
                m.world.schedules@.dom().contains(l) <==> base_labels().contains(l) by {
                if base_labels().contains(l) {
                    let i = choose|i: int|
                        0 <= i < base_labels().len() && base_labels()[i] == l;
                    assert(m.world.schedules@.dom().contains(l));
                }
            }
            assert(m.world.store.res().dom() =~= Set::<u128>::empty().insert(
                MAIN_SCHEDULE_ORDER_KEY,
            ));
        }
        m
    }

    /// Puts the resource in place, replacing any resource already under
    /// the identifier.
    pub fn insert_resource(&mut self, k: u128, v: Value)
        requires
            old(self).wf(),
        ensures
            final(self).wf(),
            final(self).world.store.res() == old(self).world.store.res().insert(k, v),
            final(self).world.schedules@ == old(self).world.schedules@,
            final(self).world.store.chans() == old(self).world.store.chans(),
            final(self).world.store.ents() == old(self).world.store.ents(),
            final(self).reflection_registry == old(self).reflection_registry,
            final(self).spec_started() == old(self).spec_started(),
    {
        self.world.store.insert_resource(k, v);
    }

    /// Puts the given starting value in place only if no resource is
    /// under the identifier yet; idempotent.
    pub fn init_resource(&mut self, k: u128, start: Value)
        requires
            old(self).wf(),
        ensures
            final(self).wf(),
            final(self).world.store.res() == if old(self).world.store.res().dom().contains(k) {
                old(self).world.store.res()
            } else {
                old(self).world.store.res().insert(k, start)
            },
            final(self).world.schedules@ == old(self).world.schedules@,
            final(self).world.store.chans() == old(self).world.store.chans(),
            final(self).world.store.ents() == old(self).world.store.ents(),
            final(self).reflection_registry == old(self).reflection_registry,
            final(self).spec_started() == old(self).spec_started(),
    {
        self.world.store.init_resource(k, start);
    }

    /// Appends the systems to the schedule under the label, making the
    /// schedule if it is not there yet, as a missing phase is no
    /// mistake.
    ///
    /// Ordering constraints are validated when the schedule is
    /// resolved, before any of its systems run; initialization code
    /// that wants the error at build time probes the schedule with
    /// [`crate::schedule::Schedule::resolved`].
    pub fn add_systems(&mut self, label: u128, systems: Vec<SystemEntry>)
        requires
            old(self).wf(),
        ensures
            final(self).wf(),
            final(self).world.schedules@ == old(self).world.schedules@.insert(
                label,
                final(self).world.schedules@[label],
            ),
            final(self).world.schedules@[label].systems_seq() == if old(
                self,
            ).world.schedules@.dom().contains(label) {
                old(self).world.schedules@[label].systems_seq() + systems@
            } else {
                systems@
            },
            final(self).world.store == old(self).world.store,
            final(self).reflection_registry == old(self).reflection_registry,
            final(self).spec_started() == old(self).spec_started(),
    {
        match self.world.schedules.remove(label) {
            Option::Some(mut sched) => {
                sched.add_systems(systems);
                self.world.schedules.insert(label, sched);
                proof {
                    assert(self.world.schedules@ =~= old(self).world.schedules@.insert(
                        label,
                        self.world.schedules@[label],
                    ));
                }
            },
            Option::None => {
                let mut sched = Schedule::new();
                sched.add_systems(systems);
                self.world.schedules.insert(label, sched);
                proof {
                    assert(sched.systems_seq() =~= systems@);
                }
            },
        }
    }

    /// Registers a plain component type: its reflection entry and its
    /// identifier. The identifier must be fresh; a duplicate is a
    /// configuration error, fatal by design.
    pub fn register_component(&mut self, d: TypeDescriptor)
        requires
            old(self).wf(),
            !old(self).reflection_registry.spec_uuids().contains(d.uuid),
        ensures
            final(self).wf(),
            final(self).reflection_registry.spec_uuids() == old(
                self,
            ).reflection_registry.spec_uuids().insert(d.uuid),
            final(self).reflection_registry.spec_reflect() == old(
                self,
            ).reflection_registry.spec_reflect().insert(d.uuid, d.name),
            final(self).reflection_registry.spec_serialized() == old(
                self,
            ).reflection_registry.spec_serialized(),
            final(self).reflection_registry.spec_editor() == old(
                self,
            ).reflection_registry.spec_editor(),
            final(self).reflection_registry.spec_events() == old(
                self,
            ).reflection_registry.spec_events(),
            final(self).world == old(self).world,
            final(self).spec_started() == old(self).spec_started(),
    {
        self.reflection_registry.register(d);
    }

    /// Registers an editor-visible component type: its reflection
    /// entry, its serialized-insertion capability and its editor
    /// visibility. The identifier must be fresh.
    pub fn register_editor_component(&mut self, d: TypeDescriptor)
        requires
            old(self).wf(),
            !old(self).reflection_registry.spec_uuids().contains(d.uuid),
        ensures
            final(self).wf(),
            final(self).reflection_registry.spec_uuids() == old(
                self,
            ).reflection_registry.spec_uuids().insert(d.uuid),
            final(self).reflection_registry.spec_reflect() == old(
                self,
            ).reflection_registry.spec_reflect().insert(d.uuid, d.name),
            final(self).reflection_registry.spec_serialized() == old(
                self,
            ).reflection_registry.spec_serialized().insert(d.uuid),
            final(self).reflection_registry.spec_editor() == old(
                self,
            ).reflection_registry.spec_editor().insert(d.uuid),
            final(self).reflection_registry.spec_events() == old(
                self,
            ).reflection_registry.spec_events(),
            final(self).world == old(self).world,
            final(self).spec_started() == old(self).spec_started(),
    {
        let uuid = d.uuid;
        self.reflection_registry.register(d);
        self.reflection_registry.add_serialized_component(uuid);
        self.reflection_registry.add_editor_component(uuid);
    }

    /// Registers an event type: its reflection entry, its dispatch
    /// capability, its membership among event kinds, and the double-
    /// buffered channel with the flip system that serves it each tick,
    /// registered into the event-registration phase so the buffers
    /// rotate before any reader runs. The identifier must be fresh.
    pub fn register_event(&mut self, d: TypeDescriptor)
        requires
            old(self).wf(),
            !old(self).reflection_registry.spec_uuids().contains(d.uuid),
        ensures
            final(self).wf(),
            final(self).reflection_registry.spec_uuids() == old(
                self,
            ).reflection_registry.spec_uuids().insert(d.uuid),
            final(self).reflection_registry.uuids_seq() == old(
                self,
            ).reflection_registry.uuids_seq().push(d.uuid),
            final(self).reflection_registry.spec_reflect() == old(
                self,
            ).reflection_registry.spec_reflect().insert(d.uuid, d.name),
            final(self).reflection_registry.spec_events() == old(
                self,
            ).reflection_registry.spec_events().insert(d.uuid),
            final(self).reflection_registry.spec_event_dispatch() == old(
                self,
            ).reflection_registry.spec_event_dispatch().insert(d.uuid),
            final(self).reflection_registry.spec_serialized() == old(
                self,
            ).reflection_registry.spec_serialized(),
            final(self).reflection_registry.spec_editor() == old(
                self,
            ).reflection_registry.spec_editor(),
            final(self).world.store.chans().dom().contains(d.uuid),
            final(self).world.store.res() == old(self).world.store.res(),
            final(self).world.store.ents() == old(self).world.store.ents(),
            old(self).world.store.chans().dom().contains(d.uuid) ==> final(self).world == old(
                self,
            ).world,
            !old(self).world.store.chans().dom().contains(d.uuid) ==> {
                &&& final(self).world.store.chans() == old(self).world.store.chans().insert(
                    d.uuid,
                    final(self).world.store.chans()[d.uuid],
                )
                &&& final(self).world.store.chans()[d.uuid].prev_seq() == Seq::<
                    crate::events::EventRec,
                >::empty()
                &&& final(self).world.store.chans()[d.uuid].cur_seq() == Seq::<
                    crate::events::EventRec,
                >::empty()
                &&& final(self).world.schedules@ == old(self).world.schedules@.insert(
                    EVENT_REGISTRATION_LABEL,
                    final(self).world.schedules@[EVENT_REGISTRATION_LABEL],
                )
                &&& final(self).world.schedules@[EVENT_REGISTRATION_LABEL].systems_seq() == (if old(
                    self,
                ).world.schedules@.dom().contains(EVENT_REGISTRATION_LABEL) {
                    old(self).world.schedules@[EVENT_REGISTRATION_LABEL].systems_seq()
                } else {
                    Seq::<SystemEntry>::empty()
                }).push(
                    SystemEntry {
                        id: d.uuid as u64,
                        after: Option::None,
                        action: Action::UpdateEvents(d.uuid),
                    },
                )
            },
            final(self).spec_started() == old(self).spec_started(),
    {
        let uuid = d.uuid;
        self.reflection_registry.register(d);
        self.reflection_registry.add_event_dispatch(uuid);
        self.reflection_registry.add_event_kind(uuid);
        self.add_event(uuid);
    }

    /// Makes the event channel for the kind, if it is not there yet,
    /// and registers the flip system for it into the event-registration
    /// phase, so the buffers rotate once per tick before readers run.
    /// Idempotent: with the channel already there, nothing changes.
    pub fn add_event(&mut self, k: u128)
        requires
            old(self).wf(),
        ensures
            final(self).wf(),
            final(self).world.store.chans().dom().contains(k),
            old(self).world.store.chans().dom().contains(k) ==> *final(self) == *old(self),
            !old(self).world.store.chans().dom().contains(k) ==> {
                &&& final(self).world.store.chans() == old(self).world.store.chans().insert(
                    k,
                    final(self).world.store.chans()[k],
                )
                &&& final(self).world.store.chans()[k].prev_seq() == Seq::<
                    crate::events::EventRec,
                >::empty()
                &&& final(self).world.store.chans()[k].cur_seq() == Seq::<
                    crate::events::EventRec,
                >::empty()
                &&& final(self).world.schedules@ == old(self).world.schedules@.insert(
                    EVENT_REGISTRATION_LABEL,
                    final(self).world.schedules@[EVENT_REGISTRATION_LABEL],
                )
                &&& final(self).world.schedules@[EVENT_REGISTRATION_LABEL].systems_seq() == (if old(
                    self,
                ).world.schedules@.dom().contains(EVENT_REGISTRATION_LABEL) {
                    old(self).world.schedules@[EVENT_REGISTRATION_LABEL].systems_seq()
                } else {
                    Seq::<SystemEntry>::empty()
                }).push(
                    SystemEntry {
                        id: k as u64,
                        after: Option::None,
                        action: Action::UpdateEvents(k),
                    },
                )
                &&& final(self).world.store.res() == old(self).world.store.res()
                &&& final(self).world.store.ents() == old(self).world.store.ents()
                &&& final(self).reflection_registry == old(self).reflection_registry
            },
            final(self).spec_started() == old(self).spec_started(),
    {
        if !self.world.store.has_channel(k) {
            self.world.store.init_channel(k);
            let entry = SystemEntry { id: k as u64, after: Option::None, action: Action::UpdateEvents(k) };
            let mut systems: Vec<SystemEntry> = Vec::new();
            systems.push(entry);
            self.add_systems(EVENT_REGISTRATION_LABEL, systems);
            proof {
                assert(systems@ =~= Seq::<SystemEntry>::empty().push(entry));
            }
        }
    }

    /// Hands the module to the plugin so it can add its registrations.
    pub fn add_plugin<P: Plugin>(&mut self, plugin: &P)
        requires
            old(self).wf(),
        ensures
            final(self).wf(),
    {
        plugin.build(self);
    }

    /// Looks up the event kind registered under the identifier and
    /// pushes the payload onto its channel: how an event that
    /// originates outside the typed logic enters the runtime. Reports
    /// whether the identifier names a registered, dispatchable event
    /// kind with a channel; otherwise nothing changes.
    pub fn dispatch_event(&mut self, uuid: u128, payload: Value) -> (ok: bool)
        requires
            old(self).wf(),
            old(self).world.store.chans().dom().contains(uuid) ==> old(
                self,
            ).world.store.chans()[uuid].next_id() < u64::MAX,
        ensures
            final(self).wf(),
            ok == (old(self).reflection_registry.spec_event_dispatch().contains(uuid) && old(
                self,
            ).world.store.chans().dom().contains(uuid)),
            ok ==> {
                &&& push_rel(
                    old(self).world.store.chans()[uuid],
                    final(self).world.store.chans()[uuid],
                    payload,
                )
                &&& final(self).world.store.chans() == old(self).world.store.chans().insert(
                    uuid,
                    final(self).world.store.chans()[uuid],
                )
            },
            !ok ==> final(self).world.store.chans() == old(self).world.store.chans(),
            final(self).world.store.res() == old(self).world.store.res(),
            final(self).world.store.spec_next_entity() == old(self).world.store.spec_next_entity(),
            final(self).world.store.ents() == old(self).world.store.ents(),
            final(self).world.schedules@ == old(self).world.schedules@,
            final(self).reflection_registry == old(self).reflection_registry,
            final(self).spec_started() == old(self).spec_started(),
    {
        if self.reflection_registry.contains_event_dispatch(uuid) {
            self.world.store.push_event(uuid, payload)
        } else {
            false
        }
    }

    /// All registered identifiers, in registration order, for host-side
    /// discovery.
    pub fn retrieve_uuids(&self) -> (r: Vec<u128>)
        requires
            self.wf(),
        ensures
            r@ == self.reflection_registry.uuids_seq(),
            forall|k: u128| r@.contains(k) <==> self.reflection_registry.spec_uuids().contains(k),
    {
        self.reflection_registry.retrieve_uuids()
    }

    /// Runs one tick through [`Main::run_main`]: the first call also
    /// runs the pre-startup and startup schedules, every later call
    /// only the schedules the order resource lists.
    pub fn tick<R: SystemHost>(&mut self, runner: &mut R) -> (r: Result<Vec<Step>, MainError>)
        requires
            old(self).wf(),
        ensures
            final(self).wf(),
            final(self).world.schedules@ == old(self).world.schedules@,
            final(self).spec_started(),
            old(self).spec_started() ==> match order_of(old(self).world.store.res()) {
                Option::None => r == Result::<Vec<Step>, MainError>::Err(MainError::MissingOrder)
                    && final(self).world.store.res() == old(self).world.store.res(),
                Option::Some(ls) => match run_plan(old(self).world.schedules@, ls).1 {
                    Option::None => r is Ok && r.unwrap()@ == run_plan(
                        old(self).world.schedules@,
                        ls,
                    ).0,
                    Option::Some(l) => r matches Result::Err(MainError::BadSchedule {
                        label,
                        error: _,
                    }) && label == l,
                },
            },
            !old(self).spec_started() ==> match run_plan(
                old(self).world.schedules@,
                startup_labels(),
            ).1 {
                Option::Some(l) => r matches Result::Err(MainError::BadSchedule { label, error: _ })
                    && label == l,
                Option::None => match r {
                    Result::Ok(steps) => exists|ls: Seq<u128>|
                        #![auto]
                        steps@ == run_plan(old(self).world.schedules@, startup_labels()).0
                            + run_plan(old(self).world.schedules@, ls).0 && run_plan(
                            old(self).world.schedules@,
                            ls,
                        ).1 is None && order_of(final(self).world.store.res()) == Option::Some(ls),
                    Result::Err(_) => true,
                },
            },
            !old(self).spec_started() && startup_pure(old(self).world.schedules@) && run_plan(
                old(self).world.schedules@,
                startup_labels(),
            ).1 is None ==> match order_of(old(self).world.store.res()) {
                Option::None => r == Result::<Vec<Step>, MainError>::Err(MainError::MissingOrder),
                Option::Some(ls) => match run_plan(old(self).world.schedules@, ls).1 {
                    Option::None => r is Ok && r.unwrap()@ == run_plan(
                        old(self).world.schedules@,
                        startup_labels(),
                    ).0 + run_plan(old(self).world.schedules@, ls).0,
                    Option::Some(l) => r matches Result::Err(MainError::BadSchedule {
                        label,
                        error: _,
                    }) && label == l,
                },
            },
            (old(self).spec_started() || startup_pure(old(self).world.schedules@)) && old(
                self,
            ).world.store.res().dom().contains(MAIN_SCHEDULE_ORDER_KEY) ==> {
                &&& final(self).world.store.res().dom().contains(MAIN_SCHEDULE_ORDER_KEY)
                &&& final(self).world.store.res()[MAIN_SCHEDULE_ORDER_KEY] == old(
                    self,
                ).world.store.res()[MAIN_SCHEDULE_ORDER_KEY]
            },
            r == Result::<Vec<Step>, MainError>::Err(MainError::MissingOrder) ==> order_of(
                final(self).world.store.res(),
            ) is None,
    {
        crate::schedules::Main::run_main(&mut self.world, &mut self.started, runner)
    }
}

impl Default for Module {
    /// The same fresh module [`Module::new`] builds.
    fn default() -> (m: Self)
        ensures
            m.wf(),
            !m.spec_started(),
            forall|l: u128| #[trigger]
                m.world.schedules@.dom().contains(l) <==> base_labels().contains(l),
            forall|l: u128| #[trigger]
                m.world.schedules@.dom().contains(l) ==> m.world.schedules@[l].systems_seq()
                    == Seq::<SystemEntry>::empty(),
            forall|l: u128| #[trigger]
                m.world.schedules@.dom().contains(l) ==> m.world.schedules@[l].spec_kind()
                    == ExecutorKind::SingleThreaded,
            order_of(m.world.store.res()) == Option::Some(default_order()),
            m.world.store.res().dom() == Set::<u128>::empty().insert(MAIN_SCHEDULE_ORDER_KEY),
            m.world.store.chans() == Map::<u128, crate::events::Channel>::empty(),
            m.world.store.ents() == Map::<u128, crate::store::EntityData>::empty(),
            m.reflection_registry.spec_uuids() == Set::<u128>::empty(),
            m.reflection_registry.spec_reflect() == Map::<u128, String>::empty(),
            m.reflection_registry.spec_serialized() == Set::<u128>::empty(),
            m.reflection_registry.spec_event_dispatch() == Set::<u128>::empty(),
            m.reflection_registry.spec_editor() == Set::<u128>::empty(),
            m.reflection_registry.spec_events() == Set::<u128>::empty(),
    {
        Module::new()
    }
}

impl ReflectionRegistry {
    /// Whether the identifier's type can be dispatched as an event.
    pub fn contains_event_dispatch(&self, uuid: u128) -> (r: bool)
        requires
            self.wf(),
        ensures
            r == self.spec_event_dispatch().contains(uuid),
    {
        self.send_entity_event.contains_key(uuid)
    }
}

} // verus!
