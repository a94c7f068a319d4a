use geometry_pool::ids::IDManager;

#[test]
fn fresh_ids_count_up() {
    let mut ids = IDManager::new();
    assert_eq!(ids.new_id(), 0);
    assert_eq!(ids.new_id(), 1);
    assert_eq!(ids.new_id(), 2);
    assert_eq!(ids.id_counter, 3);
}

#[test]
fn released_id_is_reused_lifo() {
    let mut ids = IDManager::new();
    for expect in 0..4 {
        assert_eq!(ids.new_id(), expect);
    }
    ids.free_id(3);
    let next = ids.new_id();
    assert_eq!(next, 3);
    assert_eq!(ids.id_counter, 4);
}

#[test]
fn two_releases_come_back_most_recent_first() {
    let mut ids = IDManager::new();
    for _ in 0..5 {
        ids.new_id();
    }
    ids.free_id(1);
    ids.free_id(4);
    assert_eq!(ids.new_id(), 4);
    assert_eq!(ids.new_id(), 1);
    assert_eq!(ids.new_id(), 5);
}
