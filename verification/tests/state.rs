use oxiilink::state::{make_descriptors, DBFailure, Entry};

#[test]
fn an_entry_keeps_what_it_is_given() {
    let e = Entry::created(b"hello".to_vec(), 3, 4, true, 1_700_000_000);
    assert_eq!(e.views, 3);
    assert_eq!(e.scrapes, 4);
    assert_eq!(e.contents, b"hello".to_vec());
    assert_eq!(e.creationdate, 1_700_000_000);
    assert!(e.obfuscate);
}

#[test]
fn a_new_entry_is_created_now() {
    let before = std::time::SystemTime::now()
        .duration_since(std::time::UNIX_EPOCH)
        .unwrap()
        .as_secs() as i64;
    let e = Entry::new(b"x".to_vec(), 0, 0, false);
    let after = std::time::SystemTime::now()
        .duration_since(std::time::UNIX_EPOCH)
        .unwrap()
        .as_secs() as i64;
    assert!(before <= e.creationdate && e.creationdate <= after);
    assert_eq!(e.views, 0);
    assert_eq!(e.scrapes, 0);
    assert_eq!(e.contents, b"x".to_vec());
    assert!(!e.obfuscate);
}

#[test]
fn visits_count_as_views_or_scrapes() {
    let e = Entry::created(b"x".to_vec(), 1, 2, false, 5);
    let e = e.visited(false);
    assert_eq!((e.views, e.scrapes), (2, 2));
    let e = e.visited(true);
    assert_eq!((e.views, e.scrapes), (2, 3));
    assert_eq!(e.contents, b"x".to_vec());
    assert_eq!(e.creationdate, 5);
    let full = Entry::created(vec![], u32::MAX, u32::MAX, false, 0);
    let full = full.visited(false).visited(true);
    assert_eq!((full.views, full.scrapes), (u32::MAX, u32::MAX));
}

#[test]
fn one_descriptor_per_name() {
    let out = make_descriptors(vec![7u8, 8], vec!["URL", "PASTE"]);
    assert_eq!(out.len(), 2);
    assert_eq!(out[0].name, "URL");
    assert_eq!(out[1].name, "PASTE");
    assert_eq!(out[0].options, vec![7u8, 8]);
    assert_eq!(out[1].options, vec![7u8, 8]);
    assert!(make_descriptors(0u8, vec![]).is_empty());
}

#[test]
fn failures_print_for_debugging() {
    assert_eq!(format!("{:?}", DBFailure::CfError), "CfError");
    assert_eq!(format!("{:?}", DBFailure::SerError), "SerError");
    assert_eq!(format!("{:?}", DBFailure::Error("gone".to_string())), "Error(\"gone\")");
}
