use my_rust_server::contact::{Contact, Contacts};

fn joe() -> Contact {
    Contact::new(Some(1), "Joe", "Doe", "joe.doe@example.com", "555-0100")
}

fn jane() -> Contact {
    Contact::new(Some(2), "Jane", "Smith", "jane.smith@example.com", "555-0199")
}

fn sample() -> Contacts {
    let mut c = Contacts::new();
    assert!(c.insert(joe()));
    assert!(c.insert(jane()));
    c
}

fn same(a: &Contact, b: &Contact) -> bool {
    a.id == b.id && a.first == b.first && a.last == b.last && a.email == b.email && a.phone == b.phone
}

#[test]
fn new_contact_holds_its_fields() {
    let c = joe();
    assert_eq!(c.id, Some(1));
    assert_eq!(c.first, "Joe");
    assert_eq!(c.last, "Doe");
    assert_eq!(c.email, "joe.doe@example.com");
    assert_eq!(c.phone, "555-0100");
}

#[test]
fn update_replaces_all_but_id() {
    let mut c = joe();
    c.update("Joseph", "Dow", "jd@example.com", "555-0111");
    assert_eq!(c.id, Some(1));
    assert_eq!(c.first, "Joseph");
    assert_eq!(c.last, "Dow");
    assert_eq!(c.email, "jd@example.com");
    assert_eq!(c.phone, "555-0111");
}

#[test]
fn empty_store_has_no_contacts() {
    let c = Contacts::new();
    assert_eq!(c.len(), 0);
    assert!(c.all().is_empty());
    assert!(c.get(1).is_none());
    let d = Contacts::default();
    assert_eq!(d.len(), 0);
}

#[test]
fn insert_adds_under_its_id() {
    let c = sample();
    assert_eq!(c.len(), 2);
    assert!(same(&c.get(1).unwrap(), &joe()));
    assert!(same(&c.get(2).unwrap(), &jane()));
}

#[test]
fn insert_duplicate_email_rejected() {
    let mut c = sample();
    let dup = Contact::new(Some(3), "Joey", "Other", "joe.doe@example.com", "555-0123");
    assert!(!c.validate(&dup));
    assert!(!c.insert(dup));
    assert_eq!(c.len(), 2);
    assert!(c.get(3).is_none());
    assert!(same(&c.get(1).unwrap(), &joe()));
    assert!(same(&c.get(2).unwrap(), &jane()));
}

#[test]
fn insert_duplicate_id_rejected() {
    let mut c = sample();
    let dup = Contact::new(Some(2), "Jim", "Beam", "jim@example.com", "555-0142");
    assert!(!c.validate(&dup));
    assert!(!c.insert(dup));
    assert_eq!(c.len(), 2);
    assert!(same(&c.get(2).unwrap(), &jane()));
}

#[test]
fn insert_without_id_rejected() {
    let mut c = sample();
    let anon = Contact::new(None, "Ann", "Onymous", "ann@example.com", "555-0177");
    assert!(!c.insert(anon));
    assert_eq!(c.len(), 2);
}

#[test]
fn validate_accepts_fresh_contact() {
    let c = sample();
    let fresh = Contact::new(Some(3), "Jim", "Beam", "jim@example.com", "555-0142");
    assert!(c.validate(&fresh));
}

#[test]
fn search_doe_returns_only_joe() {
    let c = sample();
    let found = c.search("doe");
    assert_eq!(found.len(), 1);
    assert!(same(&found[0], &joe()));
}

#[test]
fn search_matches_each_field() {
    let c = sample();
    assert_eq!(c.search("Doe")[0].id, Some(1));
    assert_eq!(c.search("Jane")[0].id, Some(2));
    assert_eq!(c.search("smith@")[0].id, Some(2));
    assert_eq!(c.search("0199")[0].id, Some(2));
    assert_eq!(c.search("Doe").len(), 1);
}

#[test]
fn search_is_case_sensitive() {
    let c = sample();
    assert!(c.search("DOE").is_empty());
    assert!(c.search("nobody").is_empty());
}

#[test]
fn search_shared_text_finds_both() {
    let c = sample();
    let mut ids: Vec<Option<usize>> = c.search("555-01").iter().map(|x| x.id).collect();
    ids.sort();
    assert_eq!(ids, vec![Some(1), Some(2)]);
}

#[test]
fn search_empty_text_finds_all() {
    let c = sample();
    assert_eq!(c.search("").len(), 2);
}

#[test]
fn delete_existing_id() {
    let mut c = sample();
    assert!(c.delete(1));
    assert_eq!(c.len(), 1);
    assert!(c.get(1).is_none());
    assert!(same(&c.get(2).unwrap(), &jane()));
}

#[test]
fn delete_missing_id_not_found() {
    let mut c = sample();
    assert!(!c.delete(42));
    assert_eq!(c.len(), 2);
    assert!(same(&c.get(1).unwrap(), &joe()));
    assert!(same(&c.get(2).unwrap(), &jane()));
}

#[test]
fn all_lists_each_contact_once() {
    let c = sample();
    let mut ids: Vec<Option<usize>> = c.all().iter().map(|x| x.id).collect();
    ids.sort();
    assert_eq!(ids, vec![Some(1), Some(2)]);
}

#[test]
fn save_load_round_trip() {
    let c = sample();
    let saved = c.all();
    let loaded = Contacts::from_records(&saved);
    assert_eq!(loaded.len(), c.len());
    assert!(same(&loaded.get(1).unwrap(), &joe()));
    assert!(same(&loaded.get(2).unwrap(), &jane()));
}

#[test]
fn load_skips_conflicting_records() {
    let records = vec![
        joe(),
        Contact::new(Some(1), "Dup", "Id", "dup@example.com", "1"),
        Contact::new(Some(5), "Dup", "Mail", "joe.doe@example.com", "2"),
        Contact::new(None, "No", "Id", "none@example.com", "3"),
        jane(),
    ];
    let loaded = Contacts::from_records(&records);
    assert_eq!(loaded.len(), 2);
    assert!(same(&loaded.get(1).unwrap(), &joe()));
    assert!(loaded.get(5).is_none());
    assert!(same(&loaded.get(2).unwrap(), &jane()));
}
