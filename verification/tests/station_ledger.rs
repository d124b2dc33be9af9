use splogbook::station_ledger::{EquipmentCategory, EquipmentForm, EquipmentLedger};

fn form(model: &str) -> EquipmentForm {
    EquipmentForm {
        category: EquipmentCategory::Transceiver,
        manufacturer: "  Icom ".to_string(),
        model: model.to_string(),
        serial_number: "  ".to_string(),
        purchase_date: String::new(),
        notes: " 100W ".to_string(),
    }
}

fn ledger() -> EquipmentLedger {
    EquipmentLedger { items: Vec::new(), editing_id: None, new_form: form(" IC-7610 "), edit_form: form("") }
}

#[test]
fn add_trims_and_numbers() {
    let mut l = ledger();
    assert!(l.add_from_form("2024-05-01"));
    let it = &l.items[0];
    assert_eq!(it.id, "eq-1");
    assert_eq!(it.manufacturer, "Icom");
    assert_eq!(it.model, "IC-7610");
    assert_eq!(it.serial_number, None);
    assert_eq!(it.purchase_date, Some("2024-05-01".to_string()));
    assert_eq!(it.notes, Some("100W".to_string()));
    assert_eq!(l.new_form.model, "");
    assert_eq!(l.new_form.notes, "");
    assert_eq!(l.new_form.manufacturer, "  Icom ");
}

#[test]
fn blank_model_adds_nothing() {
    let mut l = ledger();
    l.new_form.model = "   ".to_string();
    assert!(!l.add_from_form("2024-05-01"));
    assert!(l.items.is_empty());
    assert_eq!(l.new_form.notes, " 100W ");
}

#[test]
fn edit_and_save() {
    let mut l = ledger();
    l.add_from_form("2024-05-01");
    l.start_edit(0);
    assert_eq!(l.editing_id, Some("eq-1".to_string()));
    assert_eq!(l.edit_form.model, "IC-7610");
    assert_eq!(l.edit_form.serial_number, "");
    assert_eq!(l.edit_form.purchase_date, "2024-05-01");
    l.edit_form.serial_number = " 12345 ".to_string();
    l.edit_form.purchase_date = " ".to_string();
    l.save_edited("eq-1");
    assert_eq!(l.editing_id, None);
    assert_eq!(l.items[0].id, "eq-1");
    assert_eq!(l.items[0].serial_number, Some("12345".to_string()));
    assert_eq!(l.items[0].purchase_date, None);
}

#[test]
fn save_of_unknown_id_changes_nothing_but_ends_editing() {
    let mut l = ledger();
    l.add_from_form("2024-05-01");
    l.start_edit(0);
    l.edit_form.model = "X".to_string();
    l.save_edited("eq-9");
    assert_eq!(l.items[0].model, "IC-7610");
    assert_eq!(l.editing_id, None);
}

#[test]
fn delete_removes_and_ends_editing() {
    let mut l = ledger();
    l.add_from_form("2024-05-01");
    l.new_form.model = "FT-891".to_string();
    l.add_from_form("2024-05-02");
    l.start_edit(1);
    l.delete("eq-1");
    assert_eq!(l.items.len(), 1);
    assert_eq!(l.items[0].id, "eq-2");
    assert_eq!(l.editing_id, Some("eq-2".to_string()));
    l.delete("eq-2");
    assert!(l.items.is_empty());
    assert_eq!(l.editing_id, None);
}

#[test]
fn ids_follow_the_count() {
    // After a deletion the next id repeats one still in use.
    let mut l = ledger();
    l.add_from_form("d");
    l.new_form.model = "B".to_string();
    l.add_from_form("d");
    l.delete("eq-1");
    l.new_form.model = "C".to_string();
    l.add_from_form("d");
    assert_eq!(l.items[0].id, "eq-2");
    assert_eq!(l.items[1].id, "eq-2");
}
