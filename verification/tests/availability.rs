use unclaimed_groups::availability::is_group_available;
use unclaimed_groups::model::{GroupRecord, RunConfig, UserRef};

fn plain_group(id: u32) -> GroupRecord {
    GroupRecord {
        id,
        name: format!("group {}", id),
        description: String::new(),
        owner: None,
        shout: None,
        member_count: 12,
        is_builders_club_only: false,
        public_entry_allowed: true,
        is_locked: None,
        has_verified_badge: false,
    }
}

fn some_owner() -> UserRef {
    UserRef {
        user_id: 77,
        username: "owner".to_string(),
        display_name: "Owner".to_string(),
        has_verified_badge: false,
    }
}

fn config_with(ignore_closed_groups: bool) -> RunConfig {
    RunConfig {
        id_range_min: 1,
        id_range_max: 100,
        search_keyword: None,
        ignore_closed_groups,
        repeat: false,
    }
}

#[test]
fn owned_group_is_never_available() {
    for ignore in [false, true] {
        for open in [false, true] {
            for members in [0u32, 1, 5000] {
                for lock in [None, Some(false), Some(true)] {
                    let mut group = plain_group(1);
                    group.owner = Some(some_owner());
                    group.public_entry_allowed = open;
                    group.member_count = members;
                    group.is_locked = lock;
                    assert!(!is_group_available(&group, &config_with(ignore)));
                }
            }
        }
    }
}

#[test]
fn unowned_unflagged_group_is_available_when_closed_groups_count() {
    for open in [false, true] {
        for members in [0u32, 1, 5000] {
            let mut group = plain_group(2);
            group.public_entry_allowed = open;
            group.member_count = members;
            assert!(is_group_available(&group, &config_with(false)));
        }
    }
}

#[test]
fn group_without_public_entry_is_unavailable_when_closed_groups_are_ignored() {
    for members in [0u32, 1, 5000] {
        let mut group = plain_group(3);
        group.public_entry_allowed = false;
        group.member_count = members;
        assert!(!is_group_available(&group, &config_with(true)));
    }
}

#[test]
fn memberless_group_is_unavailable_when_closed_groups_are_ignored() {
    let mut group = plain_group(4);
    group.member_count = 0;
    assert!(!is_group_available(&group, &config_with(true)));
    assert!(is_group_available(&group, &config_with(false)));
}

#[test]
fn open_group_with_members_is_available_when_closed_groups_are_ignored() {
    let group = plain_group(5);
    assert!(is_group_available(&group, &config_with(true)));
}

#[test]
fn lock_flag_counts_even_when_it_says_unlocked() {
    let mut group = plain_group(6);
    group.is_locked = Some(false);
    assert!(!is_group_available(&group, &config_with(false)));
    assert!(!is_group_available(&group, &config_with(true)));
    group.is_locked = Some(true);
    assert!(!is_group_available(&group, &config_with(false)));
}

#[test]
fn availability_ignores_everything_but_the_closed_groups_switch() {
    let group = plain_group(7);
    let mut config = config_with(false);
    config.search_keyword = Some("Test".to_string());
    config.repeat = true;
    config.id_range_min = 9;
    config.id_range_max = 3;
    assert!(is_group_available(&group, &config));
}
