use vaxnotify::band::MIN_AGE;
use vaxnotify::dates::format_date;
use vaxnotify::dates::todays_date_string;
use vaxnotify::get_age_limit;
use vaxnotify::message::make_notification;
use vaxnotify::message::notification_title;
use vaxnotify::message::u64_to_string;
use vaxnotify::snapshot::center_has_slots;
use vaxnotify::snapshot::count_available_centers;
use vaxnotify::store::RegisterError;
use vaxnotify::store::SubStore;
use vaxnotify::Center;
use vaxnotify::Centers;
use vaxnotify::Session;

fn session(min_age_limit: u32, available_capacity: u32) -> Session {
    Session {
        session_id: String::from("s-1"),
        date: String::from("07-05-2021"),
        available_capacity,
        min_age_limit,
        vaccine: String::from("COVISHIELD"),
        slots: vec![String::from("09:00AM-11:00AM")],
    }
}

fn center(sessions: Vec<Session>) -> Center {
    Center {
        center_id: 1234,
        name: String::from("District Hospital"),
        state_name: String::from("Karnataka"),
        district_name: String::from("BBMP"),
        block_name: String::from("Block 1"),
        pincode: 560001,
        from: String::from("09:00:00"),
        to: String::from("18:00:00"),
        fee_type: String::from("Free"),
        sessions,
    }
}

#[test]
fn age_band_floors() {
    assert_eq!(get_age_limit(18), 18);
    assert_eq!(get_age_limit(30), 18);
    assert_eq!(get_age_limit(44), 18);
    assert_eq!(get_age_limit(45), 45);
    assert_eq!(get_age_limit(90), 45);
    assert_eq!(get_age_limit(u32::MAX), 45);
}

#[test]
fn age_band_below_minimum() {
    assert_eq!(get_age_limit(0), 0);
    assert_eq!(get_age_limit(17), 0);
    assert_eq!(MIN_AGE, 18);
}

#[test]
fn register_rejects_under_minimum_age() {
    let mut store = SubStore::new();
    let r = store.register(String::from("560001"), 17, String::from("A"));
    assert!(matches!(r, Err(RegisterError::UnderMinimumAge)));
    assert_eq!(store.subs.len(), 0);
}

#[test]
fn register_is_idempotent() {
    let mut store = SubStore::new();
    let first = store
        .register(String::from("560001"), 30, String::from("A"))
        .unwrap();
    assert_eq!(first.pincode, "560001");
    assert_eq!(first.age_limit, 18);
    assert_eq!(store.subs.len(), 1);

    let second = store
        .register(String::from("560001"), 30, String::from("A"))
        .unwrap();
    assert_eq!(second.pincode, "560001");
    assert_eq!(second.age_limit, 18);
    assert_eq!(store.subs.len(), 1);
}

#[test]
fn register_same_group_different_tokens() {
    let mut store = SubStore::new();
    store
        .register(String::from("110001"), 50, String::from("B"))
        .unwrap();
    store
        .register(String::from("110001"), 60, String::from("C"))
        .unwrap();
    assert_eq!(store.subs.len(), 2);
    assert!(store.subs.iter().all(|s| s.last_notified_at.is_none()));
}

#[test]
fn evaluator_returns_eligible_for_matching_session() {
    let snapshot = Centers { centers: vec![center(vec![session(18, 5)])] };
    assert!(center_has_slots(&snapshot.centers[0], 18));
    assert_eq!(count_available_centers(&snapshot, 18), 1);
}

#[test]
fn evaluator_ignores_exhausted_sessions() {
    let snapshot = Centers {
        centers: vec![
            center(vec![session(18, 0), session(45, 0)]),
            center(vec![session(18, 0)]),
        ],
    };
    assert_eq!(count_available_centers(&snapshot, 18), 0);
    assert_eq!(count_available_centers(&snapshot, 45), 0);
}

#[test]
fn evaluator_respects_minimum_age() {
    let snapshot = Centers { centers: vec![center(vec![session(45, 10)])] };
    assert_eq!(count_available_centers(&snapshot, 18), 0);
    assert_eq!(count_available_centers(&snapshot, 45), 1);
}

#[test]
fn evaluator_counts_centers_not_sessions() {
    let snapshot = Centers {
        centers: vec![
            center(vec![session(18, 3), session(18, 7)]),
            center(vec![session(18, 0)]),
            center(vec![session(18, 1)]),
        ],
    };
    assert_eq!(count_available_centers(&snapshot, 18), 2);
}

#[test]
fn notification_message_exact() {
    let msg = make_notification(1, 18);
    assert_eq!(msg, "1 slots open for 18 age. Please check cowin website.");
    let msg = make_notification(12, 45);
    assert_eq!(msg, "12 slots open for 45 age. Please check cowin website.");
    let msg = make_notification(0, 45);
    assert_eq!(msg, "0 slots open for 45 age. Please check cowin website.");
}

#[test]
fn notification_title_exact() {
    assert_eq!(notification_title(), "Alert from getvacc.in");
}

#[test]
fn decimal_rendering() {
    assert_eq!(u64_to_string(0), "0");
    assert_eq!(u64_to_string(7), "7");
    assert_eq!(u64_to_string(10), "10");
    assert_eq!(u64_to_string(1234567890), "1234567890");
    assert_eq!(u64_to_string(u64::MAX), "18446744073709551615");
}

#[test]
fn date_rendering() {
    assert_eq!(format_date(7, 5, 2021), "07-05-2021");
    assert_eq!(format_date(31, 12, 999), "31-12-0999");
    assert_eq!(format_date(1, 1, 0), "01-01-0000");
}

#[test]
fn todays_date_has_the_request_shape() {
    let s = todays_date_string().unwrap();
    let bytes = s.as_bytes();
    assert_eq!(bytes.len(), 10);
    assert_eq!(bytes[2], b'-');
    assert_eq!(bytes[5], b'-');
    for i in [0, 1, 3, 4, 6, 7, 8, 9] {
        assert!(bytes[i].is_ascii_digit());
    }
}
