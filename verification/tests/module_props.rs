use unreal_api::module::{Module, ReflectionRegistry, TypeDescriptor};
use unreal_api::schedule::{Action, SystemEntry};
use unreal_api::schedules::{
    MainScheduleOrder, EVENT_REGISTRATION_LABEL, MAIN_SCHEDULE_ORDER_KEY, STARTUP_LABEL,
    UPDATE_LABEL,
};
use unreal_api::store::Store;
use unreal_api::value::Value;
use unreal_api::world::{RunStatus, Step, SystemHost};

const EVENT_UUID: u128 = 0x479006cc_3c8f_4d16_b7c2_1bb81bcf43f2;
const PUSH_SCHEDULE: u128 = 0x100;
const READ_SCHEDULE: u128 = 0x101;
const PUSH_SYSTEM: u64 = 1;
const READ_SYSTEM: u64 = 2;
const STARTUP_SYSTEM: u64 = 9;

/// A host that can push one event per run of the push system, records
/// what the reader system observes, and counts startup runs.
struct RecordingHost {
    pushes_left: u32,
    reads: Vec<Vec<Value>>,
    startup_runs: u32,
    other_runs: u32,
}

impl RecordingHost {
    fn new() -> Self {
        RecordingHost {
            pushes_left: 0,
            reads: Vec::new(),
            startup_runs: 0,
            other_runs: 0,
        }
    }
}

impl SystemHost for RecordingHost {
    fn run_system(&mut self, id: u64, store: &mut Store) {
        if id == PUSH_SYSTEM {
            if self.pushes_left > 0 {
                self.pushes_left -= 1;
                assert!(store.push_event(EVENT_UUID, Value::Num(7)));
            }
        } else if id == READ_SYSTEM {
            let mut seen = Vec::new();
            if let Some(c) = store.get_channel(EVENT_UUID) {
                let n = c.visible_len();
                let mut i = 0;
                while i < n {
                    seen.push(c.visible_at(i).payload.clone());
                    i += 1;
                }
            }
            self.reads.push(seen);
        } else if id == STARTUP_SYSTEM {
            self.startup_runs += 1;
        } else {
            self.other_runs += 1;
        }
    }
}

fn descriptor(uuid: u128, name: &str) -> TypeDescriptor {
    TypeDescriptor {
        uuid,
        name: String::from(name),
    }
}

#[test]
fn duplicate_identifier_is_refused_at_registration() {
    let mut registry = ReflectionRegistry::new();
    assert!(registry.try_register(descriptor(42, "first")));
    assert!(!registry.try_register(descriptor(42, "second")));
    assert_eq!(registry.retrieve_uuids(), vec![42]);
}

#[test]
fn retrieve_uuids_lists_registrations_in_order() {
    let mut module = Module::new();
    module.register_component(descriptor(3, "camera"));
    module.register_editor_component(descriptor(1, "player"));
    module.register_event(descriptor(2, "weapon_start"));
    assert_eq!(module.retrieve_uuids(), vec![3, 1, 2]);
}

#[test]
fn try_run_schedule_on_absent_name_is_a_noop() {
    let mut module = Module::new();
    module.insert_resource(0x55, Value::Num(11));
    let mut host = RecordingHost::new();
    let r = module.world.try_run_schedule(0xAB5E, &mut host);
    assert_eq!(r, Ok(RunStatus::Skipped));
    assert_eq!(module.world.store.get_resource(0x55), Some(&Value::Num(11)));
    assert_eq!(host.reads.len(), 0);
    assert_eq!(host.other_runs, 0);
}

#[test]
fn running_an_empty_schedule_yields_no_steps() {
    let mut module = Module::new();
    let mut host = RecordingHost::new();
    let r = module.world.try_run_schedule(UPDATE_LABEL, &mut host);
    assert_eq!(r, Ok(RunStatus::Ran(Vec::new())));
}

#[test]
fn event_pushed_before_flip_is_read_exactly_once() {
    let mut module = Module::new();
    module.register_event(descriptor(EVENT_UUID, "weapon_start"));
    module.add_systems(
        PUSH_SCHEDULE,
        vec![SystemEntry {
            id: PUSH_SYSTEM,
            after: None,
            action: Action::Dispatch,
        }],
    );
    module.add_systems(
        READ_SCHEDULE,
        vec![SystemEntry {
            id: READ_SYSTEM,
            after: None,
            action: Action::Dispatch,
        }],
    );
    module.insert_resource(
        MAIN_SCHEDULE_ORDER_KEY,
        Value::Order(MainScheduleOrder {
            labels: vec![PUSH_SCHEDULE, EVENT_REGISTRATION_LABEL, READ_SCHEDULE],
        }),
    );

    let mut host = RecordingHost::new();
    host.pushes_left = 1;

    let first = module.tick(&mut host).expect("tick runs");
    assert_eq!(
        first,
        vec![
            Step {
                label: PUSH_SCHEDULE,
                system: PUSH_SYSTEM
            },
            Step {
                label: EVENT_REGISTRATION_LABEL,
                system: EVENT_UUID as u64
            },
            Step {
                label: READ_SCHEDULE,
                system: READ_SYSTEM
            },
        ]
    );
    module.tick(&mut host).expect("tick runs");
    module.tick(&mut host).expect("tick runs");

    assert_eq!(
        host.reads,
        vec![vec![Value::Num(7)], Vec::new(), Vec::new()]
    );
}

#[test]
fn event_pushed_after_flip_is_read_this_tick_and_next() {
    let mut module = Module::new();
    module.register_event(descriptor(EVENT_UUID, "weapon_start"));
    module.add_systems(
        PUSH_SCHEDULE,
        vec![SystemEntry {
            id: PUSH_SYSTEM,
            after: None,
            action: Action::Dispatch,
        }],
    );
    module.add_systems(
        READ_SCHEDULE,
        vec![SystemEntry {
            id: READ_SYSTEM,
            after: None,
            action: Action::Dispatch,
        }],
    );
    module.insert_resource(
        MAIN_SCHEDULE_ORDER_KEY,
        Value::Order(MainScheduleOrder {
            labels: vec![EVENT_REGISTRATION_LABEL, PUSH_SCHEDULE, READ_SCHEDULE],
        }),
    );

    let mut host = RecordingHost::new();
    host.pushes_left = 1;

    module.tick(&mut host).expect("tick runs");
    module.tick(&mut host).expect("tick runs");
    module.tick(&mut host).expect("tick runs");

    assert_eq!(
        host.reads,
        vec![vec![Value::Num(7)], vec![Value::Num(7)], Vec::new()]
    );
}

#[test]
fn startup_runs_on_first_tick_only() {
    let mut module = Module::new();
    module.add_systems(
        STARTUP_LABEL,
        vec![SystemEntry {
            id: STARTUP_SYSTEM,
            after: None,
            action: Action::Dispatch,
        }],
    );
    let mut host = RecordingHost::new();

    let first = module.tick(&mut host).expect("tick runs");
    assert!(first.contains(&Step {
        label: STARTUP_LABEL,
        system: STARTUP_SYSTEM
    }));
    assert_eq!(host.startup_runs, 1);

    let second = module.tick(&mut host).expect("tick runs");
    assert!(!second.contains(&Step {
        label: STARTUP_LABEL,
        system: STARTUP_SYSTEM
    }));
    let third = module.tick(&mut host).expect("tick runs");
    assert!(!third.contains(&Step {
        label: STARTUP_LABEL,
        system: STARTUP_SYSTEM
    }));
    assert_eq!(host.startup_runs, 1);
}

#[test]
fn dispatch_event_reaches_a_reader_through_the_registry() {
    let mut module = Module::new();
    module.register_event(descriptor(EVENT_UUID, "weapon_start"));
    module.add_systems(
        READ_SCHEDULE,
        vec![SystemEntry {
            id: READ_SYSTEM,
            after: None,
            action: Action::Dispatch,
        }],
    );
    module.insert_resource(
        MAIN_SCHEDULE_ORDER_KEY,
        Value::Order(MainScheduleOrder {
            labels: vec![EVENT_REGISTRATION_LABEL, READ_SCHEDULE],
        }),
    );

    assert!(!module.dispatch_event(0x999, Value::Num(1)));
    assert!(module.dispatch_event(EVENT_UUID, Value::Num(13)));

    let mut host = RecordingHost::new();
    module.tick(&mut host).expect("tick runs");
    assert_eq!(host.reads, vec![vec![Value::Num(13)]]);
}

#[test]
fn ordering_constraint_is_respected_across_ticks() {
    let mut module = Module::new();
    module.add_systems(
        UPDATE_LABEL,
        vec![
            SystemEntry {
                id: 21,
                after: Some(20),
                action: Action::Dispatch,
            },
            SystemEntry {
                id: 20,
                after: None,
                action: Action::Dispatch,
            },
        ],
    );
    let mut host = RecordingHost::new();
    let first = module.tick(&mut host).expect("tick runs");
    let update_steps: Vec<&Step> = first.iter().filter(|s| s.label == UPDATE_LABEL).collect();
    assert_eq!(update_steps.len(), 2);
    assert_eq!(update_steps[0].system, 20);
    assert_eq!(update_steps[1].system, 21);
    let second = module.tick(&mut host).expect("tick runs");
    let again: Vec<&Step> = second.iter().filter(|s| s.label == UPDATE_LABEL).collect();
    assert_eq!(again[0].system, 20);
    assert_eq!(again[1].system, 21);
}

#[test]
fn tick_without_order_resource_reports_missing_order() {
    let mut module = Module::new();
    let mut host = RecordingHost::new();
    module.tick(&mut host).expect("first tick runs");
    module.world.store.take_resource(MAIN_SCHEDULE_ORDER_KEY);
    assert_eq!(
        module.tick(&mut host),
        Err(unreal_api::world::MainError::MissingOrder)
    );
}

#[test]
fn tick_with_broken_schedule_stops_at_its_label() {
    let mut module = Module::new();
    module.add_systems(
        UPDATE_LABEL,
        vec![
            SystemEntry {
                id: 1,
                after: Some(2),
                action: Action::Dispatch,
            },
            SystemEntry {
                id: 2,
                after: Some(1),
                action: Action::Dispatch,
            },
        ],
    );
    let mut host = RecordingHost::new();
    assert_eq!(
        module.tick(&mut host),
        Err(unreal_api::world::MainError::BadSchedule {
            label: UPDATE_LABEL,
            error: unreal_api::schedule::ScheduleError::Cycle,
        })
    );
}

#[test]
fn fresh_module_carries_every_phase_schedule() {
    let module = Module::new();
    assert!(module
        .world
        .contains_schedule(unreal_api::schedules::Main::label()));
    assert!(module
        .world
        .contains_schedule(unreal_api::schedules::PreStartup::label()));
    assert!(module
        .world
        .contains_schedule(unreal_api::schedules::Startup::label()));
    assert!(module
        .world
        .contains_schedule(unreal_api::schedules::EventRegistration::label()));
    assert!(module
        .world
        .contains_schedule(unreal_api::schedules::PreUpdate::label()));
    assert!(module
        .world
        .contains_schedule(unreal_api::schedules::Update::label()));
    assert!(module
        .world
        .contains_schedule(unreal_api::schedules::PostUpdate::label()));
    assert!(!module.world.contains_schedule(0x9999));
}

#[test]
fn first_tick_marks_started_even_when_startup_is_broken() {
    let mut module = Module::new();
    module.add_systems(
        STARTUP_LABEL,
        vec![SystemEntry {
            id: 1,
            after: Some(1),
            action: Action::Dispatch,
        }],
    );
    let mut host = RecordingHost::new();
    assert_eq!(
        module.tick(&mut host),
        Err(unreal_api::world::MainError::BadSchedule {
            label: STARTUP_LABEL,
            error: unreal_api::schedule::ScheduleError::Cycle,
        })
    );
    let second = module.tick(&mut host).expect("started ticks run the order");
    assert!(second.iter().all(|s| s.label != STARTUP_LABEL));
}
