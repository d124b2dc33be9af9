use splogbook::station_profiles::{
    add_profile, clone_profile, delete_profile, display_name, ensure_profile, find_active, reference_field,
    StationProfile,
};

fn prof(id: &str, name: &str, call: &str) -> StationProfile {
    StationProfile {
        id: id.to_string(),
        name: name.to_string(),
        callsign: call.to_string(),
        operator: "Jan".to_string(),
        gridsquare: "JO81".to_string(),
        city: "Wrocław".to_string(),
        country: "Poland".to_string(),
        itu_zone: 28,
        cq_zone: 15,
        pga_gmina: Some("WR01".to_string()),
        sota_ref: None,
        pota_ref: None,
        power_watts: 500,
        default_rig: Some("IC-7610".to_string()),
        default_antenna: None,
    }
}

#[test]
fn empty_list_gets_default_profile() {
    let mut list = Vec::new();
    let mut active = "x".to_string();
    ensure_profile(&mut list, &mut active, &prof("", "", "SP6INA"), "Domyślny");
    assert_eq!(list.len(), 1);
    assert_eq!(list[0].id, "default");
    assert_eq!(list[0].name, "Domyślny");
    assert_eq!(list[0].power_watts, 500);
    assert_eq!(active, "default");

    let mut list2 = vec![prof("p1", "Home", "SP6INA")];
    let mut active2 = "p1".to_string();
    ensure_profile(&mut list2, &mut active2, &prof("", "", "X"), "Domyślny");
    assert_eq!(list2.len(), 1);
    assert_eq!(active2, "p1");
}

#[test]
fn deleting_active_profile_activates_first() {
    let mut list = vec![prof("a", "A", "C1"), prof("b", "B", "C2"), prof("c", "C", "C3")];
    let mut active = "b".to_string();
    assert!(delete_profile(&mut list, &mut active, 1));
    assert_eq!(active, "a");
    assert_eq!(list.len(), 2);
    assert!(!delete_profile(&mut list, &mut active, 1));
    assert_eq!(active, "a");
    assert_eq!(list[0].id, "a");
}

#[test]
fn clone_and_add() {
    let mut list = vec![prof("a", "Home", "SP6INA")];
    clone_profile(&mut list, 0, "prof-17".to_string());
    assert_eq!(list[1].id, "prof-17");
    assert_eq!(list[1].name, "Home (2)");
    assert_eq!(list[1].pga_gmina, Some("WR01".to_string()));
    add_profile(&mut list, "prof-18".to_string(), "Nowy", &prof("z", "Z", "SP6INA/P"));
    assert_eq!(list[2].callsign, "SP6INA/P");
    assert_eq!(list[2].power_watts, 100);
    assert_eq!(list[2].pga_gmina, None);
    assert_eq!(list[2].default_rig, None);
    assert_eq!(find_active(&list, "prof-18"), Some(2));
    assert_eq!(find_active(&list, "none"), None);
}

#[test]
fn names_and_references() {
    assert_eq!(display_name(&prof("a", "", "SP6INA")), "SP6INA");
    assert_eq!(display_name(&prof("a", "Home", "SP6INA")), "Home");
    assert_eq!(reference_field("  sp/bz-001 "), Some("SP/BZ-001".to_string()));
    assert_eq!(reference_field("   "), None);
}
