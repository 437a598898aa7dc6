use tinae::aggregate::aggregate;
use tinae::aggregate::dependency_set;
use tinae::aggregate::fingerprint;
use tinae::aggregate::status;
use tinae::aggregate::AssetStructStatus;
use tinae::load_state::LoadState;
use tinae::load_state::LoadStates;
use tinae::sub_assets::SubAssets;

#[test]
fn load_states_default_to_not_started() {
    let st = LoadStates::new();
    assert_eq!(st.get(7), LoadState::NotStarted);
}

#[test]
fn load_states_record_and_overwrite() {
    let mut st = LoadStates::new();
    st.set(1, LoadState::Loading);
    st.set(2, LoadState::Loaded);
    assert_eq!(st.get(1), LoadState::Loading);
    assert_eq!(st.get(2), LoadState::Loaded);
    st.set(1, LoadState::Failed);
    assert_eq!(st.get(1), LoadState::Failed);
    assert_eq!(st.get(2), LoadState::Loaded);
}

#[test]
fn one_failure_poisons_ninety_nine_loaded() {
    let mut st = LoadStates::new();
    let mut ids: Vec<u64> = Vec::new();
    for id in 0..99u64 {
        st.set(id, LoadState::Loaded);
        ids.push(id);
    }
    st.set(99, LoadState::Failed);
    ids.push(99);
    // 99/100 loaded plus 1 failed is Failed, not Loading { 99, 100 }.
    assert_eq!(aggregate(&ids, &st), AssetStructStatus::Failed);
}

#[test]
fn empty_group_is_not_loaded() {
    let st = LoadStates::new();
    let g = SubAssets::new();
    let no_tops: Vec<u64> = Vec::new();
    assert_eq!(status(&no_tops, &g, &st), AssetStructStatus::NotLoaded);
    assert_eq!(aggregate(&no_tops, &st), AssetStructStatus::NotLoaded);
}

#[test]
fn nothing_loaded_yet_is_not_loaded() {
    let mut st = LoadStates::new();
    st.set(1, LoadState::Loading);
    st.set(2, LoadState::NotStarted);
    let ids = vec![1, 2];
    assert_eq!(aggregate(&ids, &st), AssetStructStatus::NotLoaded);
}

#[test]
fn partial_load_reports_progress_counts() {
    let mut st = LoadStates::new();
    st.set(1, LoadState::Loaded);
    st.set(2, LoadState::Loading);
    st.set(3, LoadState::NotStarted);
    st.set(4, LoadState::Loaded);
    let ids = vec![1, 2, 3, 4];
    match aggregate(&ids, &st) {
        AssetStructStatus::Loading { loaded, total } => {
            assert_eq!(loaded, 2);
            assert_eq!(total, 4);
            assert_eq!(loaded as f64 / total as f64, 0.5);
        },
        other => panic!("expected Loading, got {:?}", other),
    }
}

#[test]
fn full_load_is_loaded() {
    let mut st = LoadStates::new();
    st.set(1, LoadState::Loaded);
    st.set(2, LoadState::Loaded);
    let ids = vec![1, 2];
    assert_eq!(aggregate(&ids, &st), AssetStructStatus::Loaded);
}

#[test]
fn status_counts_transitive_children() {
    let mut g = SubAssets::new();
    g.add(1, 2);
    g.add(2, 3);
    let mut st = LoadStates::new();
    st.set(1, LoadState::Loaded);
    st.set(2, LoadState::Loaded);
    st.set(3, LoadState::Loading);
    let tops = vec![1];
    // The dependency set is {3, 2, 1}; only 3 is not loaded yet.
    match status(&tops, &g, &st) {
        AssetStructStatus::Loading { loaded, total } => {
            assert_eq!(loaded, 2);
            assert_eq!(total, 3);
        },
        other => panic!("expected Loading, got {:?}", other),
    }
    st.set(3, LoadState::Failed);
    assert_eq!(status(&tops, &g, &st), AssetStructStatus::Failed);
}

#[test]
fn dependency_set_collapses_duplicates() {
    let mut g = SubAssets::new();
    g.add(1, 3);
    g.add(2, 3);
    let tops = vec![1, 2, 1];
    assert_eq!(dependency_set(&tops, &g), vec![3, 1, 2]);
}

#[test]
fn fingerprint_is_order_independent() {
    let a = fingerprint(&vec![1, 2, 3]);
    let b = fingerprint(&vec![3, 1, 2]);
    assert_eq!(a, b);
}

#[test]
fn fingerprint_notices_growth() {
    let a = fingerprint(&vec![1, 2, 3]);
    let b = fingerprint(&vec![1, 2, 3, 4]);
    let c = fingerprint(&vec![1, 2]);
    assert_ne!(a, b);
    assert_ne!(a, c);
    assert_ne!(fingerprint(&Vec::new()), fingerprint(&vec![0]));
}

#[test]
fn group_load_state_priorities() {
    let g = SubAssets::new();
    let mut st = LoadStates::new();
    st.set(1, LoadState::Loaded);
    st.set(2, LoadState::Loading);
    st.set(3, LoadState::Failed);
    assert_eq!(g.get_group_load_state(&st, &vec![1, 2, 3]), LoadState::Failed);
    assert_eq!(g.get_group_load_state(&st, &vec![1, 2]), LoadState::Loading);
    assert_eq!(g.get_group_load_state(&st, &vec![1]), LoadState::Loaded);
    assert_eq!(g.get_group_load_state(&st, &vec![1, 4]), LoadState::NotStarted);
    st.set(4, LoadState::Unloaded);
    assert_eq!(g.get_group_load_state(&st, &vec![1, 2, 4]), LoadState::Unloaded);
}

#[test]
fn load_state_includes_sub_assets() {
    let mut g = SubAssets::new();
    g.add(1, 2);
    let mut st = LoadStates::new();
    st.set(1, LoadState::Loaded);
    assert_eq!(g.get_load_state(&st, 1), LoadState::NotStarted);
    st.set(2, LoadState::Loading);
    assert_eq!(g.get_load_state(&st, 1), LoadState::Loading);
    st.set(2, LoadState::Loaded);
    assert_eq!(g.get_load_state(&st, 1), LoadState::Loaded);
    st.set(2, LoadState::Failed);
    assert_eq!(g.get_load_state(&st, 1), LoadState::Failed);
}
