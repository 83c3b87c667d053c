use vaxnotify::store::Group;
use vaxnotify::store::SubStore;
use vaxnotify::store::Subscription;
use vaxnotify::store::COOLDOWN_WINDOW_SECS;
use vaxnotify::Center;
use vaxnotify::Centers;
use vaxnotify::Session;

fn session(min_age_limit: u32, available_capacity: u32) -> Session {
    Session {
        session_id: String::from("s-1"),
        date: String::from("07-05-2021"),
        available_capacity,
        min_age_limit,
        vaccine: String::from("COVAXIN"),
        slots: vec![String::from("09:00AM-11:00AM")],
    }
}

fn center(sessions: Vec<Session>) -> Center {
    Center {
        center_id: 99,
        name: String::from("Community Clinic"),
        state_name: String::from("Delhi"),
        district_name: String::from("New Delhi"),
        block_name: String::from("Block 4"),
        pincode: 110001,
        from: String::from("09:00:00"),
        to: String::from("17:00:00"),
        fee_type: String::from("Paid"),
        sessions,
    }
}

fn sub(pincode: &str, age_limit: u32, token: &str, last_notified_at: Option<u64>) -> Subscription {
    Subscription {
        pincode: String::from(pincode),
        age_limit,
        token: String::from(token),
        last_notified_at,
    }
}

fn group(pincode: &str, age_limit: u32) -> Group {
    Group { pincode: String::from(pincode), age_limit }
}

#[test]
fn cooldown_boundary_excludes_then_includes() {
    let t: u64 = 1_000_000;
    let w: u64 = COOLDOWN_WINDOW_SECS;
    let store = SubStore { subs: vec![sub("560001", 18, "A", Some(t))] };
    let g = group("560001", 18);

    let before = store.due_tokens(&g, t + w - 1, w);
    assert!(before.is_empty());

    let at = store.due_tokens(&g, t + w, w);
    assert_eq!(at, vec![String::from("A")]);

    let after = store.due_tokens(&g, t + w + 50, w);
    assert_eq!(after, vec![String::from("A")]);
}

#[test]
fn never_notified_is_always_due() {
    let store = SubStore { subs: vec![sub("560001", 18, "A", None)] };
    let g = group("560001", 18);
    assert_eq!(store.due_tokens(&g, 0, COOLDOWN_WINDOW_SECS), vec![String::from("A")]);
}

#[test]
fn due_tokens_filters_by_group() {
    let store = SubStore {
        subs: vec![
            sub("560001", 18, "A", None),
            sub("560001", 45, "B", None),
            sub("110001", 18, "C", None),
        ],
    };
    let g = group("560001", 18);
    assert_eq!(store.due_tokens(&g, 0, COOLDOWN_WINDOW_SECS), vec![String::from("A")]);
}

#[test]
fn mark_notified_updates_every_batch_token() {
    let now: u64 = 5_000;
    let mut store = SubStore {
        subs: vec![
            sub("560001", 18, "A", None),
            sub("560001", 18, "B", Some(1)),
            sub("560001", 18, "C", None),
            sub("110001", 18, "D", None),
        ],
    };
    let g = group("560001", 18);
    let batch = vec![String::from("A"), String::from("B")];
    store.mark_notified(&g, &batch, now);

    assert_eq!(store.subs[0].last_notified_at, Some(now));
    assert_eq!(store.subs[1].last_notified_at, Some(now));
    assert_eq!(store.subs[2].last_notified_at, None);
    assert_eq!(store.subs[3].last_notified_at, None);
}

#[test]
fn distinct_groups_deduplicates() {
    let store = SubStore {
        subs: vec![
            sub("560001", 18, "A", None),
            sub("560001", 18, "B", None),
            sub("560001", 45, "C", None),
            sub("110001", 18, "D", None),
        ],
    };
    let groups = store.distinct_groups();
    assert_eq!(groups.len(), 3);
    let pairs: Vec<(String, u32)> =
        groups.iter().map(|g| (g.pincode.clone(), g.age_limit)).collect();
    assert!(pairs.contains(&(String::from("560001"), 18)));
    assert!(pairs.contains(&(String::from("560001"), 45)));
    assert!(pairs.contains(&(String::from("110001"), 18)));
}

#[test]
fn empty_store_has_no_groups() {
    let store = SubStore::new();
    assert!(store.distinct_groups().is_empty());
}

#[test]
fn single_subscriber_notification_cycle() {
    let now: u64 = 1_620_000_000;
    let mut store = SubStore { subs: vec![sub("560001", 18, "A", None)] };
    let g = group("560001", 18);
    let snapshot = Centers { centers: vec![center(vec![session(18, 3)])] };

    let batch = store
        .plan_group_notification(&g, &snapshot, now, COOLDOWN_WINDOW_SECS)
        .unwrap();
    assert_eq!(batch.tokens, vec![String::from("A")]);
    assert!(batch.body.contains("1 slots open for 18 age"));

    store.mark_notified(&g, &batch.tokens, now);
    assert_eq!(store.subs[0].last_notified_at, Some(now));
}

#[test]
fn cooling_subscriber_is_left_out_of_the_batch() {
    let now: u64 = 1_620_000_000;
    let one_hour_ago = now - 3_600;
    let mut store = SubStore {
        subs: vec![
            sub("110001", 45, "B", Some(one_hour_ago)),
            sub("110001", 45, "C", None),
        ],
    };
    let g = group("110001", 45);
    let snapshot = Centers { centers: vec![center(vec![session(45, 2)])] };

    let batch = store
        .plan_group_notification(&g, &snapshot, now, COOLDOWN_WINDOW_SECS)
        .unwrap();
    assert_eq!(batch.tokens, vec![String::from("C")]);

    store.mark_notified(&g, &batch.tokens, now);
    assert_eq!(store.subs[0].last_notified_at, Some(one_hour_ago));
    assert_eq!(store.subs[1].last_notified_at, Some(now));
}

#[test]
fn no_batch_without_capacity() {
    let store = SubStore { subs: vec![sub("560001", 18, "A", None)] };
    let g = group("560001", 18);
    let snapshot = Centers { centers: vec![center(vec![session(18, 0)])] };
    assert!(store
        .plan_group_notification(&g, &snapshot, 0, COOLDOWN_WINDOW_SECS)
        .is_none());
}

#[test]
fn no_batch_while_everyone_cools_down() {
    let now: u64 = 10_000;
    let store = SubStore { subs: vec![sub("560001", 18, "A", Some(now - 10))] };
    let g = group("560001", 18);
    let snapshot = Centers { centers: vec![center(vec![session(18, 5)])] };
    assert!(store
        .plan_group_notification(&g, &snapshot, now, COOLDOWN_WINDOW_SECS)
        .is_none());
}
