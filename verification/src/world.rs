//! The world: the store plus the registry of named schedules, and the
//! driver that runs one tick.
//!
//! User logic reaches the runtime through the [`SystemHost`] trait: the
//! schedule resolves a deterministic order of its systems, and each
//! system either performs the runtime's own event flip or is handed to
//! the host under its id, together with mutable access to the store.
//! Running a schedule that is not registered is a no-op by design, so
//! probing absent phases never disturbs the tick.

use crate::keyed::KeyedVec;
use crate::events::flipped_times;
use crate::schedule::{count_flips, deps_ok, flips_only, has_id, lemma_after_respected, resolve_order, Action, Schedule, ScheduleError, SystemEntry};
use crate::schedules::{Main, MAIN_SCHEDULE_ORDER_KEY, PRE_STARTUP_LABEL, STARTUP_LABEL};
use crate::store::Store;
use crate::value::Value;
use vstd::prelude::*;

verus! {

/// The implementor of user systems: the runtime hands it each
/// dispatched system's id together with the store.
pub trait SystemHost {
    /// Runs the user system with the given id against the store. An
    /// implementor gets a well-formed store and must leave it so; the
    /// public store methods keep it well-formed by themselves.
    fn run_system(&mut self, id: u64, store: &mut Store)
        requires
            old(store).wf(),
        ensures
            final(store).wf(),
    ;
}

/// A host with no user systems: every dispatch does nothing. Enough
/// for a world whose schedules hold only the runtime's own systems,
/// and the simplest witness of the [`SystemHost`] contract.
pub struct NoopHost;

impl SystemHost for NoopHost {
    fn run_system(&mut self, id: u64, store: &mut Store) {
    }
}

/// One executed system in a trace: which schedule it ran under, and its
/// id.
#[derive(Clone, Copy, Debug, PartialEq, Eq, Structural)]
pub struct Step {
    /// The label of the schedule the system ran in.
    pub label: u128,
    /// The id of the system that ran.
    pub system: u64,
}

/// The trace a schedule contributes: its resolved order, one step per
/// system.
pub open spec fn steps_of(label: u128, ord: Seq<SystemEntry>) -> Seq<Step> {
    Seq::new(ord.len(), |i: int| Step { label, system: ord[i].id })
}

/// What running one schedule yields.
#[derive(Clone, Debug, PartialEq, Eq)]
pub enum RunStatus {
    /// No schedule is registered under the label; nothing happened.
    Skipped,
    /// The schedule ran; the steps are its systems in the order they
    /// ran.
    Ran(Vec<Step>),
}

/// The store, and the registry of schedules by label.
pub struct World {
    /// All runtime state systems read and write.
    pub store: Store,
    /// The named schedules.
    pub schedules: KeyedVec<Schedule>,
}

impl World {
    /// The containers hold their invariants.
    pub open spec fn wf(self) -> bool {
        &&& self.store.wf()
        &&& self.schedules.wf()
    }

    /// An empty world: no state, no schedules.
    pub fn new() -> (w: World)
        ensures
            w.wf(),
            w.store.res() == Map::<u128, Value>::empty(),
            w.store.chans() == Map::<u128, crate::events::Channel>::empty(),
            w.store.ents() == Map::<u128, crate::store::EntityData>::empty(),
            w.schedules@ == Map::<u128, Schedule>::empty(),
    {
        World { store: Store::new(), schedules: KeyedVec::new() }
    }

    /// Registers the schedule under the label, replacing any schedule
    /// already there.
    pub fn add_schedule(&mut self, label: u128, schedule: Schedule)
        requires
            old(self).wf(),
        ensures
            final(self).wf(),
            final(self).schedules@ == old(self).schedules@.insert(label, schedule),
            final(self).store == old(self).store,
    {
        self.schedules.insert(label, schedule);
    }

    /// Whether a schedule is registered under the label.
    pub fn contains_schedule(&self, label: u128) -> (r: bool)
        requires
            self.wf(),
        ensures
            r == self.schedules@.dom().contains(label),
    {
        self.schedules.contains_key(label)
    }

    /// Runs the schedule registered under the label, if any: resolves
    /// the deterministic order, then executes each system in it, the
    /// runtime's event flips itself and everything else through the
    /// host. An absent label is a no-op, not an error. A configuration
    /// error in the schedule surfaces before any system runs.
    ///
    /// For a schedule that holds only the runtime's own flips — the
    /// event-registration phase as registration builds it — the
    /// contract also pins every channel's evolution: untouched,
    /// flipped once, or emptied, by how many of the schedule's systems
    /// flip it.
    pub fn try_run_schedule<R: SystemHost>(&mut self, label: u128, runner: &mut R) -> (r: Result<
        RunStatus,
        ScheduleError,
    >)
        requires
            old(self).wf(),
        ensures
            final(self).wf(),
            final(self).schedules@ == old(self).schedules@,
            !old(self).schedules@.dom().contains(label) ==> r == Result::<RunStatus,
                ScheduleError,
            >::Ok(RunStatus::Skipped) && *final(self) == *old(self) && *final(runner) == *old(
                runner,
            ),
            old(self).schedules@.dom().contains(label) ==> {
                let sys = old(self).schedules@[label].systems_seq();
                match r {
                    Result::Ok(RunStatus::Ran(steps)) => deps_ok(sys) && resolve_order(sys)
                        is Some && steps@ == steps_of(label, resolve_order(sys).unwrap()) && (
                    flips_only(sys) ==> {
                        &&& final(self).store.res() == old(self).store.res()
                        &&& final(self).store.ents() == old(self).store.ents()
                        &&& final(self).store.spec_next_entity() == old(
                            self,
                        ).store.spec_next_entity()
                        &&& *final(runner) == *old(runner)
                        &&& final(self).store.chans().dom() == old(self).store.chans().dom()
                        &&& forall|k: u128| #[trigger]
                            old(self).store.chans().dom().contains(k) ==> flipped_times(
                                old(self).store.chans()[k],
                                final(self).store.chans()[k],
                                count_flips(resolve_order(sys).unwrap(), k),
                            )
                    }),
                    Result::Ok(RunStatus::Skipped) => false,
                    Result::Err(e) => {
                        &&& final(self).store == old(self).store
                        &&& *final(runner) == *old(runner)
                        &&& match e {
                            ScheduleError::UnknownDependency { system, missing } => !deps_ok(sys)
                                && exists|i: int|
                                0 <= i < sys.len() && (#[trigger] sys[i]).id == system
                                    && sys[i].after == Option::Some(missing) && !has_id(
                                    sys,
                                    missing,
                                ),
                            ScheduleError::Cycle => deps_ok(sys) && resolve_order(sys)
                                is None,
                        }
                    },
                }
            },
    {
        match self.schedules.remove(label) {
            Option::None => Result::Ok(RunStatus::Skipped),
            Option::Some(sched) => {
                match sched.resolved() {
                    Result::Err(e) => {
                        self.schedules.insert(label, sched);
                        proof {
                            assert(self.schedules@ =~= old(self).schedules@);
                        }
                        Result::Err(e)
                    },
                    Result::Ok(ord) => {
                        let ghost sys = sched.systems_seq();
                        let ghost full = ord@;
                        proof {
                            lemma_after_respected(sys, full);
                            assert(full.take(0) =~= Seq::<SystemEntry>::empty());
                        }
                        let n: usize = ord.len();
                        let mut steps: Vec<Step> = Vec::new();
                        let mut i: usize = 0;
                        while i < n
                            invariant
                                n == full.len(),
                                ord@ == full,
                                i <= n,
                                self.store.wf(),
                                self.schedules.wf(),
                                self.schedules@ == old(self).schedules@.remove(label),
                                steps@ =~= steps_of(label, full).take(i as int),
                                forall|q: int| 0 <= q < full.len() ==> sys.contains(
                                    #[trigger] full[q],
                                ),
                                flips_only(sys) ==> {
                                    &&& self.store.res() == old(self).store.res()
                                    &&& self.store.ents() == old(self).store.ents()
                                    &&& self.store.spec_next_entity() == old(
                                        self,
                                    ).store.spec_next_entity()
                                    &&& *runner == *old(runner)
                                    &&& self.store.chans().dom() == old(self).store.chans().dom()
                                    &&& forall|k: u128| #[trigger]
                                        old(self).store.chans().dom().contains(k) ==> flipped_times(
                                            old(self).store.chans()[k],
                                            self.store.chans()[k],
                                            count_flips(full.take(i as int), k),
                                        )
                                },
                            decreases n - i,
                        {
                            let entry = ord[i];
                            match entry.action {
                                Action::UpdateEvents(k) => {
                                    let ghost pre = self.store.chans();
                                    let _ = self.store.update_events(k);
                                    proof {
                                        if flips_only(sys) {
                                            assert(full.take(i + 1).drop_last() =~= full.take(
                                                i as int,
                                            ));
                                            assert(full.take(i + 1).last() == full[i as int]);
                                            assert(self.store.chans().dom() =~= old(
                                                self,
                                            ).store.chans().dom());
                                            assert forall|k2: u128| #[trigger]
                                                old(self).store.chans().dom().contains(
                                                    k2,
                                                ) implies flipped_times(
                                                old(self).store.chans()[k2],
                                                self.store.chans()[k2],
                                                count_flips(full.take(i + 1), k2),
                                            ) by {
                                                assert(flipped_times(
                                                    old(self).store.chans()[k2],
                                                    pre[k2],
                                                    count_flips(full.take(i as int), k2),
                                                ));
                                                if k2 != k {
                                                    assert(self.store.chans()[k2] == pre[k2]);
                                                    assert(count_flips(full.take(i + 1), k2)
                                                        == count_flips(full.take(i as int), k2));
                                                }
                                            }
                                        }
                                    }
                                },
                                Action::Dispatch => {
                                    proof {
                                        assert(sys.contains(full[i as int]));
                                        let j = choose|j: int|
                                            0 <= j < sys.len() && sys[j] == full[i as int];
                                        assert(!(sys[j].action matches Action::UpdateEvents(_)));
                                        assert(!flips_only(sys));
                                    }
                                    runner.run_system(entry.id, &mut self.store);
                                },
                            }
                            steps.push(Step { label, system: entry.id });
                            proof {
                                assert(steps@ =~= steps_of(label, full).take(i + 1));
                            }
                            i = i + 1;
                        }
                        self.schedules.insert(label, sched);
                        proof {
                            assert(self.schedules@ =~= old(self).schedules@);
                            assert(steps@ =~= steps_of(label, full));
                            assert(full.take(n as int) =~= full);
                        }
                        Result::Ok(RunStatus::Ran(steps))
                    },
                }
            },
        }
    }
}

/// Why a whole tick failed.
#[derive(Clone, Copy, Debug, PartialEq, Eq, Structural)]
pub enum MainError {
    /// The schedule-order resource is not in the store, or does not
    /// hold an order; a tick cannot know what to run.
    MissingOrder,
    /// A schedule in the order is misconfigured; nothing of it ran.
    BadSchedule {
        /// The label of the broken schedule.
        label: u128,
        /// What is wrong with it.
        error: ScheduleError,
    },
}

/// The schedule-order the store holds, if its resource is in place and
/// has the right shape.
pub open spec fn order_of(res: Map<u128, Value>) -> Option<Seq<u128>> {
    if res.dom().contains(MAIN_SCHEDULE_ORDER_KEY) {
        match res[MAIN_SCHEDULE_ORDER_KEY] {
            Value::Order(o) => Option::Some(o.labels@),
            _ => Option::None,
        }
    } else {
        Option::None
    }
}

/// The labels the first tick runs before anything else.
pub open spec fn startup_labels() -> Seq<u128> {
    seq![PRE_STARTUP_LABEL, STARTUP_LABEL]
}

/// The startup phases hold no user systems: whatever stands in them is
/// the runtime's own event flips, so the first tick's startup cannot
/// touch resources or entities.
pub open spec fn startup_pure(m: Map<u128, Schedule>) -> bool {
    &&& m.dom().contains(PRE_STARTUP_LABEL) ==> flips_only(m[PRE_STARTUP_LABEL].systems_seq())
    &&& m.dom().contains(STARTUP_LABEL) ==> flips_only(m[STARTUP_LABEL].systems_seq())
}

/// What running the labels against the registered schedules yields:
/// the steps of every present, well-configured schedule in label
/// order — absent labels are skipped — and, if some label's schedule
/// is misconfigured, that label; nothing after it contributes steps.
pub open spec fn run_plan(m: Map<u128, Schedule>, labels: Seq<u128>) -> (Seq<Step>, Option<u128>)
    decreases labels.len(),
{
    if labels.len() == 0 {
        (Seq::<Step>::empty(), Option::<u128>::None)
    } else {
        let l = labels[0];
        if !m.dom().contains(l) {
            run_plan(m, labels.drop_first())
        } else {
            let sys = m[l].systems_seq();
            if !deps_ok(sys) {
                (Seq::<Step>::empty(), Option::Some(l))
            } else {
                match resolve_order(sys) {
                    Option::None => (Seq::<Step>::empty(), Option::Some(l)),
                    Option::Some(ord) => {
                        let rest = run_plan(m, labels.drop_first());
                        (steps_of(l, ord) + rest.0, rest.1)
                    },
                }
            }
        }
    }
}

impl Main {
    /// Runs one tick: on the first call only, the pre-startup and
    /// startup schedules; then every schedule the order resource
    /// lists, in order, each through [`World::try_run_schedule`], so
    /// absent entries are skipped. The order resource is taken out of
    /// the store while the listed schedules run — a system may run
    /// other schedules against the store without holding two borrows —
    /// and the very value taken is put back afterwards.
    ///
    /// The first call moves the driver to started before it runs the
    /// startup phases, so they are attempted exactly once, whatever
    /// they yield.
    ///
    /// Returns the steps that ran, or why the tick stopped: a broken
    /// schedule stops the tick at its label, and a missing or
    /// mis-shaped order resource stops it before any listed schedule.
    pub fn run_main<R: SystemHost>(world: &mut World, started: &mut bool, runner: &mut R) -> (r:
        Result<Vec<Step>, MainError>)
        requires
            old(world).wf(),
        ensures
            final(world).wf(),
            final(world).schedules@ == old(world).schedules@,
            *final(started),
            *old(started) ==> match order_of(old(world).store.res()) {
                Option::None => r == Result::<Vec<Step>, MainError>::Err(MainError::MissingOrder)
                    && final(world).store.res() == old(world).store.res(),
                Option::Some(ls) => match run_plan(old(world).schedules@, ls).1 {
                    Option::None => r is Ok && r.unwrap()@ == run_plan(old(world).schedules@, ls).0,
                    Option::Some(l) => r matches Result::Err(MainError::BadSchedule {
                        label,
                        error: _,
                    }) && label == l,
                },
            },
            !*old(started) ==> match run_plan(old(world).schedules@, startup_labels()).1 {
                Option::Some(l) => r matches Result::Err(MainError::BadSchedule { label, error: _ })
                    && label == l,
                Option::None => match r {
                    Result::Ok(steps) => exists|ls: Seq<u128>|
                        #![auto]
                        steps@ == run_plan(old(world).schedules@, startup_labels()).0 + run_plan(
                            old(world).schedules@,
                            ls,
                        ).0 && run_plan(old(world).schedules@, ls).1 is None && order_of(
                            final(world).store.res(),
                        ) == Option::Some(ls),
                    Result::Err(_) => true,
                },
            },
            !*old(started) && startup_pure(old(world).schedules@) && run_plan(
                old(world).schedules@,
                startup_labels(),
            ).1 is None ==> match order_of(old(world).store.res()) {
                Option::None => r == Result::<Vec<Step>, MainError>::Err(MainError::MissingOrder),
                Option::Some(ls) => match run_plan(old(world).schedules@, ls).1 {
                    Option::None => r is Ok && r.unwrap()@ == run_plan(
                        old(world).schedules@,
                        startup_labels(),
                    ).0 + run_plan(old(world).schedules@, ls).0,
                    Option::Some(l) => r matches Result::Err(MainError::BadSchedule {
                        label,
                        error: _,
                    }) && label == l,
                },
            },
            (*old(started) || startup_pure(old(world).schedules@)) && old(
                world,
            ).store.res().dom().contains(MAIN_SCHEDULE_ORDER_KEY) ==> {
                &&& final(world).store.res().dom().contains(MAIN_SCHEDULE_ORDER_KEY)
                &&& final(world).store.res()[MAIN_SCHEDULE_ORDER_KEY] == old(
                    world,
                ).store.res()[MAIN_SCHEDULE_ORDER_KEY]
            },
            r == Result::<Vec<Step>, MainError>::Err(MainError::MissingOrder) ==> order_of(
                final(world).store.res(),
            ) is None,
    {
        let ghost m = old(world).schedules@;
        let mut steps: Vec<Step> = Vec::new();

        proof {
            reveal_with_fuel(run_plan, 4);
            assert(startup_labels().drop_first() =~= seq![STARTUP_LABEL]);
            assert(seq![STARTUP_LABEL].drop_first() =~= Seq::<u128>::empty());
        }
        if !*started {
            *started = true;
            match world.try_run_schedule(PRE_STARTUP_LABEL, runner) {
                Result::Err(e) => {
                    proof {
                        reveal_with_fuel(run_plan, 4);
                        assert(run_plan(m, startup_labels()).1 == Option::Some(PRE_STARTUP_LABEL));
                    }
                    return Result::Err(MainError::BadSchedule {
                        label: PRE_STARTUP_LABEL,
                        error: e,
                    });
                },
                Result::Ok(RunStatus::Ran(mut t)) => {
                    steps.append(&mut t);
                },
                Result::Ok(RunStatus::Skipped) => {},
            }
            match world.try_run_schedule(STARTUP_LABEL, runner) {
                Result::Err(e) => {
                    proof {
                        reveal_with_fuel(run_plan, 4);
                        assert(startup_labels().drop_first() =~= seq![STARTUP_LABEL]);
                        assert(seq![STARTUP_LABEL].drop_first() =~= Seq::<u128>::empty());
                        assert(run_plan(m, startup_labels()).1 == Option::Some(STARTUP_LABEL));
                    }
                    return Result::Err(MainError::BadSchedule { label: STARTUP_LABEL, error: e });
                },
                Result::Ok(RunStatus::Ran(mut t)) => {
                    steps.append(&mut t);
                },
                Result::Ok(RunStatus::Skipped) => {},
            }
            proof {
                reveal_with_fuel(run_plan, 4);
                assert(startup_labels().drop_first() =~= seq![STARTUP_LABEL]);
                assert(seq![STARTUP_LABEL].drop_first() =~= Seq::<u128>::empty());
                assert(steps@ =~= run_plan(m, startup_labels()).0);
                assert(run_plan(m, startup_labels()).1 is None);
            }
        }
        let ghost startup_steps = steps@;
        proof {
            if *old(started) || startup_pure(m) {
                assert(world.store.res() == old(world).store.res());
            }
        }

        let order = match world.store.take_resource(MAIN_SCHEDULE_ORDER_KEY) {
            Option::Some(Value::Order(order)) => order,
            Option::Some(other) => {
                world.store.insert_resource(MAIN_SCHEDULE_ORDER_KEY, other);
                proof {
                    if *old(started) {
                        assert(world.store.res() =~= old(world).store.res());
                    }
                }
                return Result::Err(MainError::MissingOrder);
            },
            Option::None => {
                proof {
                    if *old(started) {
                        assert(world.store.res() =~= old(world).store.res());
                    }
                }
                return Result::Err(MainError::MissingOrder);
            },
        };
        let ghost ls = order.labels@;
        proof {
            assert(ls.skip(0) =~= ls);
            assert(steps@.skip(startup_steps.len() as int) =~= Seq::<Step>::empty());
            assert(steps@.subrange(0, startup_steps.len() as int) =~= startup_steps);
        }

        let n: usize = order.labels.len();
        let mut i: usize = 0;
        while i < n
            invariant
                world.wf(),
                world.schedules@ == m,
                m == old(world).schedules@,
                *started,
                *old(started) ==> startup_steps =~= Seq::<Step>::empty(),
                (*old(started) || startup_pure(m)) ==> order_of(old(world).store.res())
                    == Option::Some(ls),
                (*old(started) || startup_pure(m)) && old(world).store.res().dom().contains(
                    MAIN_SCHEDULE_ORDER_KEY,
                ) ==> old(world).store.res()[MAIN_SCHEDULE_ORDER_KEY] == Value::Order(order),
                !*old(started) ==> run_plan(m, startup_labels()).1 is None && startup_steps
                    =~= run_plan(m, startup_labels()).0,
                n == ls.len(),
                order.labels@ == ls,
                i <= n,
                startup_steps.is_prefix_of(steps@),
                run_plan(m, ls).0 =~= steps@.skip(startup_steps.len() as int) + run_plan(
                    m,
                    ls.skip(i as int),
                ).0,
                run_plan(m, ls).1 == run_plan(m, ls.skip(i as int)).1,
            decreases n - i,
        {
            let label = order.labels[i];
            proof {
                assert(ls.skip(i as int)[0] == label);
                assert(ls.skip(i as int).drop_first() =~= ls.skip(i + 1));
            }
            match world.try_run_schedule(label, runner) {
                Result::Err(e) => {
                    proof {
                        assert(run_plan(m, ls).1 == Option::Some(label));
                    }
                    world.store.insert_resource(MAIN_SCHEDULE_ORDER_KEY, Value::Order(order));
                    return Result::Err(MainError::BadSchedule { label, error: e });
                },
                Result::Ok(RunStatus::Ran(mut t)) => {
                    steps.append(&mut t);
                    proof {
                        assert(run_plan(m, ls).0 =~= steps@.skip(startup_steps.len() as int)
                            + run_plan(m, ls.skip(i + 1)).0);
                    }
                },
                Result::Ok(RunStatus::Skipped) => {},
            }
            i = i + 1;
        }
        proof {
            assert(ls.skip(n as int) =~= Seq::<u128>::empty());
            assert(run_plan(m, ls).0 =~= steps@.skip(startup_steps.len() as int));
            assert(run_plan(m, ls).1 is None);
            assert(steps@ =~= startup_steps + steps@.skip(startup_steps.len() as int));
            if !*old(started) {
                assert(steps@ == run_plan(m, startup_labels()).0 + run_plan(m, ls).0);
            } else {
                assert(startup_steps =~= Seq::<Step>::empty());
                assert(steps@ =~= run_plan(m, ls).0);
            }
        }
        world.store.insert_resource(MAIN_SCHEDULE_ORDER_KEY, Value::Order(order));
        proof {
            assert(order_of(world.store.res()) == Option::Some(ls));
        }
        Result::Ok(steps)
    }
}

} // verus!
