use cygaz::district::{District, districts};

#[test]
fn new_lowercases_the_primary_spelling() {
    let d = District::new("Famagusta".to_string(), "Αμμόχωστος".to_string());
    assert_eq!(d.id, "famagusta");
    assert_eq!(d.name_en, "Famagusta");
    assert_eq!(d.name_el, "Αμμόχωστος");
    assert!(d.areas.is_none());
}

#[test]
fn new_leaves_non_uppercase_characters_alone() {
    let d = District::new("Agia-Napa 3".to_string(), "χ".to_string());
    assert_eq!(d.id, "agia-napa 3");
}

#[test]
fn is_valid_accepts_exactly_the_catalog() {
    assert!(District::is_valid("famagusta".to_string()));
    assert!(District::is_valid("larnaca".to_string()));
    assert!(District::is_valid("limassol".to_string()));
    assert!(District::is_valid("nicosia".to_string()));
    assert!(District::is_valid("paphos".to_string()));
    assert!(!District::is_valid("unknown".to_string()));
    assert!(!District::is_valid("Limassol".to_string()));
    assert!(!District::is_valid("".to_string()));
}

#[test]
fn unknown_district_value() {
    let u = District::unknown();
    assert_eq!(u.id, "unknown");
    assert_eq!(u.name_en, "Unknown");
    assert_eq!(u.name_el, "Αγνωστο");
    assert!(u.areas.is_none());
}

#[test]
fn catalog_lists_the_five_districts_in_order() {
    let all = districts();
    let ids: Vec<&str> = all.iter().map(|d| d.id.as_str()).collect();
    assert_eq!(ids, vec!["famagusta", "larnaca", "limassol", "nicosia", "paphos"]);
    assert_eq!(all[2].name_en, "Limassol");
    assert_eq!(all[2].name_el, "Λεμεσός");
    for d in &all {
        assert!(District::is_valid(d.id.clone()));
        assert!(d.areas.is_none());
    }
}

#[test]
fn equality_is_by_id_alone() {
    let a = District::new("Limassol".to_string(), "Λεμεσός".to_string());
    let mut b = District::new("Limassol".to_string(), "Λεμεσός".to_string());
    b.name_el = "other".to_string();
    assert_eq!(a, b);
    let c = District::new("Paphos".to_string(), "Πάφος".to_string());
    assert_ne!(a, c);
}

#[test]
fn duplicate_copies_every_field() {
    let mut d = District::new("Limassol".to_string(), "Λεμεσός".to_string());
    d.areas = Some(vec!["Lemesos".to_string(), "Λεμεσός".to_string()]);
    let c = d.duplicate();
    assert_eq!(c.id, d.id);
    assert_eq!(c.name_en, d.name_en);
    assert_eq!(c.name_el, d.name_el);
    assert_eq!(c.areas, d.areas);
}
