use tinae::aggregate::AssetStructStatus;
use tinae::asset_struct::AssetStructFrameDelay;
use tinae::asset_struct::AssetStructState;
use tinae::asset_struct::LoadNotification;
use tinae::asset_struct::TickAction;
use tinae::load_state::LoadState;
use tinae::load_state::LoadStates;
use tinae::sub_assets::SubAssets;

#[test]
fn gate_wants_threshold_plus_one_stable_ticks() {
    let mut gate = AssetStructFrameDelay::new(2);
    // The tick on which the fingerprint last changed resets the streak...
    assert!(!gate.can_complete_loading(7));
    // ...and the same fingerprint on the next three calls reports
    // false, false, true.
    assert!(!gate.can_complete_loading(7));
    assert!(!gate.can_complete_loading(7));
    assert!(gate.can_complete_loading(7));
}

#[test]
fn gate_restarts_on_a_changed_fingerprint() {
    let mut gate = AssetStructFrameDelay::new(2);
    assert!(!gate.can_complete_loading(7));
    assert!(!gate.can_complete_loading(7));
    // A changed fingerprint on the third call resets the counter...
    assert!(!gate.can_complete_loading(8));
    // ...so stability needs three more unchanged calls.
    assert!(!gate.can_complete_loading(8));
    assert!(!gate.can_complete_loading(8));
    assert!(gate.can_complete_loading(8));
}

#[test]
fn gate_reset_forgets_the_streak() {
    let mut gate = AssetStructFrameDelay::new(1);
    assert!(!gate.can_complete_loading(7));
    assert!(!gate.can_complete_loading(7));
    assert!(gate.can_complete_loading(7));
    gate.reset();
    assert!(!gate.can_complete_loading(7));
    assert!(!gate.can_complete_loading(7));
    assert!(gate.can_complete_loading(7));
}

#[test]
fn unload_wins_over_load_in_the_same_tick() {
    let mut group = AssetStructState::new(2);
    let graph = SubAssets::new();
    let states = LoadStates::new();

    group.request_load();
    match group.begin_tick() {
        TickAction::BeginLoad => {},
        _ => panic!("expected BeginLoad"),
    }
    group.install_top_ids(vec![1]);
    group.poll(&graph, &states);
    assert!(group.loading());

    // Both requests arrive before the next tick; unload must win.
    group.request_load();
    group.request_unload();
    match group.begin_tick() {
        TickAction::Unload(released) => assert_eq!(released, vec![1]),
        _ => panic!("expected Unload"),
    }
    assert_eq!(group.status(), AssetStructStatus::NotLoaded);
    assert!(!group.loading());

    // Both requests were consumed: the next tick is idle.
    match group.begin_tick() {
        TickAction::Idle => {},
        _ => panic!("expected Idle"),
    }
    assert_eq!(group.status(), AssetStructStatus::NotLoaded);
}

#[test]
fn progress_is_observable_before_stability() {
    // A group with 4 dependencies and a gate that stays unstable long enough
    // to watch the progress counts climb 0 -> 1 -> 2 -> 3 -> 4.
    let mut group = AssetStructState::new(10);
    let graph = SubAssets::new();
    let mut states = LoadStates::new();

    group.request_load();
    match group.begin_tick() {
        TickAction::BeginLoad => {},
        _ => panic!("expected BeginLoad"),
    }
    group.install_top_ids(vec![1, 2, 3, 4]);

    let mut seen: Vec<f64> = Vec::new();
    for loaded in 0..5u64 {
        if loaded > 0 {
            states.set(loaded, LoadState::Loaded);
        }
        match group.begin_tick() {
            TickAction::Idle => {},
            _ => panic!("expected Idle"),
        }
        let n = group.poll(&graph, &states);
        assert_eq!(n, None);
        match group.status() {
            AssetStructStatus::Loading { loaded: l, total } => {
                assert_eq!(l as u64, loaded);
                assert_eq!(total, 4);
                seen.push(l as f64 / total as f64);
            },
            other => panic!("expected Loading, got {:?}", other),
        }
    }
    // Even at 4/4 the machine has not transitioned: the debounce timer is not stable.
    assert_eq!(seen, vec![0.0, 0.25, 0.5, 0.75, 1.0]);
    assert!(group.loading());
}

#[test]
fn completion_waits_for_stability_after_late_children() {
    // One composite member: its parent identifier P is loaded on the first
    // tick, and a loader strategy registers child C under P two ticks later.
    let mut group = AssetStructState::new(2);
    let mut graph = SubAssets::new();
    let mut states = LoadStates::new();
    let p = 100;
    let c = 200;

    group.request_load();
    match group.begin_tick() {
        TickAction::BeginLoad => {},
        _ => panic!("expected BeginLoad"),
    }
    group.install_top_ids(vec![p]);
    states.set(p, LoadState::Loaded);

    // Tick 1: for P alone the aggregate already reads loaded, but the debounce timer
    // has not confirmed stability, so no completion is emitted.
    assert_eq!(group.poll(&graph, &states), None);
    assert_eq!(group.status(), AssetStructStatus::Loading { loaded: 1, total: 1 });

    // Tick 2.
    assert_eq!(group.poll(&graph, &states), None);

    // Tick 3: the loader registers C under P; the dependency set changes.
    graph.add(p, c);
    states.set(c, LoadState::Loading);
    assert_eq!(group.poll(&graph, &states), None);
    assert_eq!(group.status(), AssetStructStatus::Loading { loaded: 1, total: 2 });

    // Ticks 4..6: C loads and the set holds still; completion may come only
    // threshold + 1 = 3 ticks after the last change.
    states.set(c, LoadState::Loaded);
    assert_eq!(group.poll(&graph, &states), None);
    assert_eq!(group.poll(&graph, &states), None);
    assert_eq!(group.poll(&graph, &states), Some(LoadNotification::Completed));
    assert_eq!(group.status(), AssetStructStatus::Loaded);
    assert!(!group.loading());
}

#[test]
fn failure_is_reported_once_stable() {
    let mut group = AssetStructState::new(2);
    let graph = SubAssets::new();
    let mut states = LoadStates::new();

    group.request_load();
    group.begin_tick();
    group.install_top_ids(vec![1, 2]);
    states.set(1, LoadState::Loaded);
    states.set(2, LoadState::Failed);

    assert_eq!(group.poll(&graph, &states), None);
    assert_eq!(group.poll(&graph, &states), None);
    assert_eq!(group.poll(&graph, &states), None);
    assert_eq!(group.poll(&graph, &states), Some(LoadNotification::Failed));
    assert_eq!(group.status(), AssetStructStatus::Failed);
    assert!(!group.loading());
}

#[test]
fn round_trip_reloads_with_a_fresh_gate() {
    let mut group = AssetStructState::new(2);
    let graph = SubAssets::new();
    let mut states = LoadStates::new();
    states.set(1, LoadState::Loaded);

    // First load: with a constant fingerprint the debounce timer needs threshold + 2
    // polls from fresh (the first poll records the fingerprint).
    group.request_load();
    group.begin_tick();
    group.install_top_ids(vec![1]);
    let mut first_polls = 0;
    loop {
        first_polls += 1;
        if let Some(n) = group.poll(&graph, &states) {
            assert_eq!(n, LoadNotification::Completed);
            break;
        }
        assert!(first_polls < 100);
    }
    assert_eq!(group.status(), AssetStructStatus::Loaded);

    // Unload: back to NotLoaded, identifiers released, gate fresh.
    group.request_unload();
    match group.begin_tick() {
        TickAction::Unload(released) => assert_eq!(released, vec![1]),
        _ => panic!("expected Unload"),
    }
    assert_eq!(group.status(), AssetStructStatus::NotLoaded);
    assert_eq!(group.stable_ticks(), 0);

    // Second load: eventually Loaded again, in exactly as many polls as the
    // first attempt — no stability carried over.
    group.request_load();
    match group.begin_tick() {
        TickAction::BeginLoad => {},
        _ => panic!("expected BeginLoad"),
    }
    group.install_top_ids(vec![1]);
    let mut second_polls = 0;
    loop {
        second_polls += 1;
        if let Some(n) = group.poll(&graph, &states) {
            assert_eq!(n, LoadNotification::Completed);
            break;
        }
        assert!(second_polls < 100);
    }
    assert_eq!(group.status(), AssetStructStatus::Loaded);
    assert_eq!(first_polls, second_polls);
    assert_eq!(first_polls, 4);
}
