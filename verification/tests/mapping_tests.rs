use cygaz::area::Area;
use cygaz::district::District;
use cygaz::mapping::{
    AreaMap, DistrictAreas, build_area_mapping, district_by_id, districts_with_areas,
    find_areas_for_district, find_district,
};

fn limassol() -> District {
    District::new("Limassol".to_string(), "Λεμεσός".to_string())
}

fn paphos() -> District {
    District::new("Paphos".to_string(), "Πάφος".to_string())
}

#[test]
fn find_district_hit_and_miss() {
    let mut mapping = AreaMap::new();
    mapping.insert("Lemesos".to_string(), limassol());
    let hit = find_district(&"Lemesos".to_string(), &mapping);
    assert_eq!(hit.id, "limassol");
    let miss = find_district(&"Nowhere".to_string(), &mapping);
    assert_eq!(miss.id, "unknown");
}

#[test]
fn lookup_is_case_sensitive() {
    let mut mapping = AreaMap::new();
    mapping.insert("Lemesos".to_string(), limassol());
    assert_eq!(find_district(&"lemesos".to_string(), &mapping).id, "unknown");
}

#[test]
fn insert_overwrites_the_previous_district() {
    let mut mapping = AreaMap::new();
    mapping.insert("Border Town".to_string(), limassol());
    mapping.insert("Border Town".to_string(), paphos());
    assert_eq!(find_district(&"Border Town".to_string(), &mapping).id, "paphos");
    assert_eq!(mapping.len(), 1);
}

#[test]
fn areas_for_district_filters_by_identity() {
    let mut mapping = AreaMap::new();
    mapping.insert("Lemesos".to_string(), limassol());
    mapping.insert("Λεμεσός".to_string(), limassol());
    mapping.insert("Pafos".to_string(), paphos());
    let mut areas = find_areas_for_district(&limassol(), &mapping);
    areas.sort();
    assert_eq!(areas, vec!["Lemesos".to_string(), "Λεμεσός".to_string()]);
}

#[test]
fn build_mapping_inserts_both_spellings() {
    let fetched = vec![
        DistrictAreas {
            district: limassol(),
            areas: vec![Area { name_en: "Lemesos".to_string(), name_el: "Λεμεσός".to_string() }],
        },
        DistrictAreas {
            district: paphos(),
            areas: vec![Area { name_en: "Pafos".to_string(), name_el: "Πάφος".to_string() }],
        },
    ];
    let mapping = build_area_mapping(&fetched);
    assert_eq!(mapping.len(), 4);
    assert_eq!(find_district(&"Lemesos".to_string(), &mapping).id, "limassol");
    assert_eq!(find_district(&"Λεμεσός".to_string(), &mapping).id, "limassol");
    assert_eq!(find_district(&"Pafos".to_string(), &mapping).id, "paphos");
    assert_eq!(find_district(&"Πάφος".to_string(), &mapping).id, "paphos");
}

#[test]
fn build_mapping_from_no_results_is_empty() {
    let mapping = build_area_mapping(&vec![]);
    assert_eq!(mapping.len(), 0);
}

#[test]
fn districts_with_areas_annotates_the_catalog() {
    let mut mapping = AreaMap::new();
    mapping.insert("Lemesos".to_string(), limassol());
    let all = districts_with_areas(&mapping);
    assert_eq!(all.len(), 5);
    for d in &all {
        let areas = d.areas.as_ref().unwrap();
        if d.id == "limassol" {
            assert_eq!(areas, &vec!["Lemesos".to_string()]);
        } else {
            assert!(areas.is_empty());
        }
    }
}

#[test]
fn district_by_id_annotates_or_falls_back() {
    let mut mapping = AreaMap::new();
    mapping.insert("Lemesos".to_string(), limassol());
    let d = district_by_id(&"limassol".to_string(), &mapping);
    assert_eq!(d.id, "limassol");
    assert_eq!(d.name_en, "Limassol");
    assert_eq!(d.areas.unwrap(), vec!["Lemesos".to_string()]);

    let u = district_by_id(&"atlantis".to_string(), &mapping);
    assert_eq!(u.id, "unknown");
    assert_eq!(u.name_en, "Unknown");
    assert_eq!(u.areas.unwrap(), Vec::<String>::new());
}
