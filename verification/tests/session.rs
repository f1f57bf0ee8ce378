use crittoutil::session::{
    add_key_history, civil_from_days, format_created_at, new_session, newest_first, session_with, KeyEntry, Session, StoredKeyEntry,
};

fn session(id: &str, t: u64) -> Session {
    Session { id: id.to_string(), name: id.to_string(), created_at_unix: t, key_history: Vec::new() }
}

#[test]
fn formats_timestamps_in_utc() {
    assert_eq!(format_created_at(0), "1970-01-01 00:00");
    assert_eq!(format_created_at(1_700_000_000), "2023-11-14 22:13");
    assert_eq!(format_created_at(951_782_400), "2000-02-29 00:00");
    assert_eq!(format_created_at(951_868_799), "2000-02-29 23:59");
    assert_eq!(format_created_at(4_107_542_400), "2100-03-01 00:00");
    assert_eq!(format_created_at(253_402_300_799), "9999-12-31 23:59");
    assert_eq!(format_created_at(253_402_300_800), "10000-01-01 00:00");
}

#[test]
fn sessions_are_listed_newest_first() {
    let sorted = newest_first(vec![session("a", 10), session("b", 30), session("c", 10), session("d", 20)]);
    let ids: Vec<&str> = sorted.iter().map(|s| s.id.as_str()).collect();
    assert_eq!(ids, vec!["b", "d", "a", "c"]);
    assert!(newest_first(Vec::new()).is_empty());
}

#[test]
fn new_sessions() {
    let s = session_with(2, 1_700_000_000, 42);
    assert_eq!(s.id, "1700000000-42");
    assert_eq!(s.name, "Session 3");
    assert_eq!(s.created_at_unix, 1_700_000_000);
    assert!(s.key_history.is_empty());
    let n = new_session(0);
    assert_eq!(n.name, "Session 1");
    assert!(n.id.starts_with(&format!("{}-", n.created_at_unix)));
}

#[test]
fn key_history_is_newest_first_without_duplicates() {
    let mut h: Vec<KeyEntry> = Vec::new();
    add_key_history(&mut h, "first".to_string(), 16);
    add_key_history(&mut h, "second".to_string(), 8);
    add_key_history(&mut h, "first".to_string(), 32);
    add_key_history(&mut h, String::new(), 4);
    let names: Vec<(&str, usize)> = h.iter().map(|e| (e.name.as_str(), e.bits)).collect();
    assert_eq!(names, vec![("second", 64), ("first", 128)]);
}

#[test]
fn stored_entries_convert_both_ways() {
    let e = KeyEntry { name: "k".to_string(), bits: 128 };
    let s = StoredKeyEntry::from(&e);
    assert_eq!((s.name.as_str(), s.bits), ("k", 128));
    let back = KeyEntry::from(s);
    assert_eq!((back.name.as_str(), back.bits), ("k", 128));
}

#[test]
fn consecutive_days_follow_the_calendar() {
    assert_eq!(format_created_at(86399), "1970-01-01 23:59");
    assert_eq!(format_created_at(86400), "1970-01-02 00:00");
    assert_eq!(format_created_at(946684740), "1999-12-31 23:59");
    assert_eq!(format_created_at(946684800), "2000-01-01 00:00");
    assert_eq!(format_created_at(951782400), "2000-02-29 00:00");
    assert_eq!(format_created_at(951868800), "2000-03-01 00:00");
}

#[test]
fn days_before_the_epoch_get_their_dates() {
    assert_eq!(civil_from_days(0), (1970, 1, 1));
    assert_eq!(civil_from_days(-1), (1969, 12, 31));
    assert_eq!(civil_from_days(-719468), (0, 3, 1));
    assert_eq!(civil_from_days(-719469), (0, 2, 29));
    assert_eq!(civil_from_days(59), (1970, 3, 1));
    assert_eq!(civil_from_days(11016), (2000, 2, 29));
}
