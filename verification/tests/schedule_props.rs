use unreal_api::schedule::{resolve, Action, ScheduleError, SystemEntry};
use unreal_api::schedules::{MainScheduleOrder, EVENT_REGISTRATION_LABEL, POST_UPDATE_LABEL, PRE_UPDATE_LABEL, UPDATE_LABEL};

fn sys(id: u64) -> SystemEntry {
    SystemEntry {
        id,
        after: None,
        action: Action::Dispatch,
    }
}

fn sys_after(id: u64, after: u64) -> SystemEntry {
    SystemEntry {
        id,
        after: Some(after),
        action: Action::Dispatch,
    }
}

fn ids(entries: &[SystemEntry]) -> Vec<u64> {
    entries.iter().map(|e| e.id).collect()
}

#[test]
fn unconstrained_systems_run_in_insertion_order() {
    let systems = vec![sys(3), sys(1), sys(2), sys(5)];
    let ord = resolve(&systems).expect("no constraints, no error");
    assert_eq!(ids(&ord), vec![3, 1, 2, 5]);
}

#[test]
fn after_constraint_orders_dependency_first() {
    let systems = vec![sys_after(2, 1), sys(1)];
    let ord = resolve(&systems).expect("constraints are satisfiable");
    assert_eq!(ids(&ord), vec![1, 2]);
}

#[test]
fn after_constraint_keeps_insertion_order_for_ties() {
    let systems = vec![sys(10), sys_after(30, 20), sys(20), sys(40)];
    let ord = resolve(&systems).expect("constraints are satisfiable");
    assert_eq!(ids(&ord), vec![10, 20, 30, 40]);
}

#[test]
fn missing_dependency_is_an_error_before_anything_runs() {
    let systems = vec![sys(1), sys_after(2, 99)];
    assert_eq!(
        resolve(&systems),
        Err(ScheduleError::UnknownDependency {
            system: 2,
            missing: 99
        })
    );
}

#[test]
fn cyclic_constraints_are_an_error() {
    let systems = vec![sys_after(1, 2), sys_after(2, 1)];
    assert_eq!(resolve(&systems), Err(ScheduleError::Cycle));
}

#[test]
fn self_dependency_is_a_cycle() {
    let systems = vec![sys_after(7, 7)];
    assert_eq!(resolve(&systems), Err(ScheduleError::Cycle));
}

#[test]
fn default_order_lists_the_tick_phases() {
    let order = MainScheduleOrder::default();
    assert_eq!(
        order.labels,
        vec![
            EVENT_REGISTRATION_LABEL,
            PRE_UPDATE_LABEL,
            UPDATE_LABEL,
            POST_UPDATE_LABEL
        ]
    );
}

#[test]
fn insert_after_places_schedule_right_after_anchor() {
    let mut order = MainScheduleOrder::default();
    order.insert_after(PRE_UPDATE_LABEL, 777);
    assert_eq!(
        order.labels,
        vec![
            EVENT_REGISTRATION_LABEL,
            PRE_UPDATE_LABEL,
            777,
            UPDATE_LABEL,
            POST_UPDATE_LABEL
        ]
    );
}

#[test]
fn insert_after_missing_anchor_is_reported_never_a_silent_noop() {
    let mut order = MainScheduleOrder::default();
    let before = order.labels.clone();
    let ok = order.try_insert_after(0xDEAD, 777);
    assert!(!ok);
    assert_eq!(order.labels, before);
    assert!(order.try_insert_after(UPDATE_LABEL, 777));
    assert_ne!(order.labels, before);
}

#[test]
fn duplicate_ids_all_precede_their_dependent() {
    let systems = vec![sys(1), sys_after(2, 1), sys(1)];
    let ord = resolve(&systems).expect("constraints are satisfiable");
    assert_eq!(ids(&ord), vec![1, 1, 2]);
}
