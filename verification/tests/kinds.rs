use console_api::resources::resource;
use console_api::resources::resource::kind::{Kind, Known};
use console_api::resources::Resource;
use console_api::text::{bytes_eq, str_eq};

#[test]
fn known_kind_has_its_schema_name() {
    assert_eq!(Known::Timer.as_str_name(), "TIMER");
}

#[test]
fn known_kind_is_found_by_its_schema_name() {
    assert_eq!(Known::from_str_name("TIMER"), Some(Known::Timer));
}

#[test]
fn other_names_give_no_known_kind() {
    assert_eq!(Known::from_str_name("timer"), None);
    assert_eq!(Known::from_str_name(""), None);
    assert_eq!(Known::from_str_name("TIMERS"), None);
    assert_eq!(Known::from_str_name("TIME"), None);
}

#[test]
fn known_kind_round_trips_through_its_name() {
    assert_eq!(Known::from_str_name(Known::Timer.as_str_name()), Some(Known::Timer));
}

#[test]
fn known_kind_has_its_number() {
    assert_eq!(Known::Timer.number(), 0);
    assert_eq!(Known::from_i32(0), Some(Known::Timer));
    assert_eq!(Known::from_i32(1), None);
    assert_eq!(Known::from_i32(-1), None);
}

#[test]
fn kind_goes_by_its_name() {
    assert_eq!(Kind::Known(0).name(), Some("TIMER"));
    assert_eq!(Kind::Known(7).name(), None);
    assert_eq!(Kind::Other("CustomLock".to_string()).name(), Some("CustomLock"));
    assert!(Kind::Other("CustomLock".to_string()).is_named("CustomLock"));
    assert!(!Kind::Other("CustomLock".to_string()).is_named("TIMER"));
    assert!(Kind::Known(0).is_named("TIMER"));
    assert!(!Kind::Known(7).is_named("TIMER"));
}

#[test]
fn unset_kind_has_no_name() {
    let kind = resource::Kind { kind: None };
    assert_eq!(kind.name(), None);
    assert!(!kind.is_named(""));
    assert_eq!(resource::Kind::default(), kind);
}

#[test]
fn resource_reports_the_name_of_its_kind() {
    let mut r = Resource::default();
    assert_eq!(r.kind_name(), None);
    r.kind = Some(resource::Kind { kind: Some(Kind::Other("Semaphore".to_string())) });
    assert_eq!(r.kind_name(), Some("Semaphore"));
    assert!(r.is_kind("Semaphore"));
    assert!(!r.is_kind("semaphore"));
}

#[test]
fn strings_compare_by_their_characters() {
    assert!(str_eq("", ""));
    assert!(str_eq("héllo", "héllo"));
    assert!(!str_eq("hello", "hellp"));
    assert!(!str_eq("hello", "hell"));
    assert!(bytes_eq(&[1, 2, 3], &[1, 2, 3]));
    assert!(!bytes_eq(&[1, 2, 3], &[1, 2, 4]));
    assert!(!bytes_eq(&[1, 2, 3], &[1, 2]));
}
