use splogbook::history::{keyboard_shortcuts, redo_target, DeletionHistory, HISTORY_LIMIT};
use splogbook::qso::QsoRecord;
use std::cell::RefCell;

fn qso(id: Option<i64>, call: &str, date: &str, time: &str) -> QsoRecord {
    QsoRecord {
        id,
        callsign: call.to_string(),
        qso_date: date.to_string(),
        time_on: time.to_string(),
        band: "20m".to_string(),
        mode: "CW".to_string(),
        rst_rcvd: "599".to_string(),
        dxcc: None,
        cqz: None,
        qsl_sent: "N".to_string(),
        qsl_rcvd: "N".to_string(),
        lotw_qsl_rcvd: "N".to_string(),
        eqsl_qsl_rcvd: "N".to_string(),
        country: None,
        comment: None,
    }
}

#[test]
fn undo_restores_without_id_then_redo_deletes_again() {
    let mut h = DeletionHistory::new();
    assert!(!h.can_undo());
    h.record_deletion(qso(Some(7), "DL1ABC", "20240101", "1200"));
    assert!(h.can_undo());
    assert!(!h.can_redo());

    let inserted = RefCell::new(Vec::new());
    let r = h.perform_undo(|q: QsoRecord| -> Result<(), String> {
        inserted.borrow_mut().push(q);
        Ok(())
    });
    assert_eq!(r, Some(Ok("Przywrócono łączność z: DL1ABC".to_string())));
    let ins = inserted.into_inner();
    assert_eq!(ins.len(), 1);
    assert_eq!(ins[0].id, None);
    assert_eq!(ins[0].callsign, "DL1ABC");
    assert!(!h.can_undo());
    assert!(h.can_redo());

    let deleted = RefCell::new(Vec::new());
    let recent = vec![
        qso(Some(40), "DL1ABC", "20240101", "1300"),
        qso(None, "DL1ABC", "20240101", "1200"),
        qso(Some(41), "DL1ABC", "20240101", "1200"),
        qso(Some(42), "DL1ABC", "20240101", "1200"),
    ];
    let r = h.perform_redo(|| -> Result<Vec<QsoRecord>, String> { Ok(recent.clone()) }, |id: i64| {
        deleted.borrow_mut().push(id);
    });
    assert_eq!(r, Some(("Redo: usunięto łączność z: DL1ABC".to_string(), Some(41))));
    assert_eq!(deleted.into_inner(), vec![41]);
    assert!(h.can_undo());
    assert!(!h.can_redo());
    assert_eq!(h.undo_stack[0].id, Some(7));
}

#[test]
fn failed_restore_drops_the_entry() {
    let mut h = DeletionHistory::new();
    h.record_deletion(qso(Some(1), "A1A", "20240101", "1200"));
    let r = h.perform_undo(|_q: QsoRecord| -> Result<(), String> { Err("db locked".to_string()) });
    assert_eq!(r, Some(Err("db locked".to_string())));
    assert!(!h.can_undo());
    assert!(!h.can_redo());
}

#[test]
fn nothing_to_undo_or_redo() {
    let mut h = DeletionHistory::new();
    let r = h.perform_undo(|_q: QsoRecord| -> Result<(), String> { panic!("not called") });
    assert_eq!(r, None);
    let r = h.perform_redo(|| -> Result<Vec<QsoRecord>, String> { panic!("not called") }, |_id: i64| {});
    assert_eq!(r, None);
}

#[test]
fn redo_moves_back_even_without_match() {
    let mut h = DeletionHistory::new();
    h.record_deletion(qso(Some(1), "A1A", "20240101", "1200"));
    let _ = h.perform_undo(|_q: QsoRecord| -> Result<(), String> { Ok(()) });
    let r = h.perform_redo(|| -> Result<Vec<QsoRecord>, String> { Err("offline".to_string()) }, |_id: i64| {
        panic!("no delete")
    });
    assert_eq!(r, Some(("Redo: usunięto łączność z: A1A".to_string(), None)));
    assert!(h.can_undo());
}

#[test]
fn history_is_capped_and_recording_clears_redo() {
    let mut h = DeletionHistory::new();
    for i in 0..25i64 {
        h.record_deletion(qso(Some(i), "A1A", "20240101", "1200"));
    }
    assert_eq!(h.undo_stack.len(), HISTORY_LIMIT);
    assert_eq!(h.undo_stack[0].id, Some(24));
    assert_eq!(h.undo_stack[HISTORY_LIMIT - 1].id, Some(5));
    let _ = h.perform_undo(|_q: QsoRecord| -> Result<(), String> { Ok(()) });
    assert!(h.can_redo());
    h.record_deletion(qso(Some(99), "B1B", "20240101", "1200"));
    assert!(!h.can_redo());
    assert_eq!(h.undo_stack.len(), HISTORY_LIMIT);
}

#[test]
fn redo_target_needs_call_date_time_and_id() {
    let q = qso(Some(1), "A1A", "20240101", "1200");
    assert_eq!(redo_target(&vec![qso(Some(5), "A1A", "20240102", "1200")], &q), None);
    assert_eq!(redo_target(&vec![qso(None, "A1A", "20240101", "1200")], &q), None);
    assert_eq!(redo_target(&vec![qso(Some(6), "A1A", "20240101", "1200")], &q), Some(6));
}

#[test]
fn shortcuts() {
    // (z, y, s, ctrl, shift) -> (undo, redo, stats)
    assert_eq!(keyboard_shortcuts(true, false, false, true, false), (true, false, false));
    assert_eq!(keyboard_shortcuts(true, false, false, true, true), (false, true, false));
    assert_eq!(keyboard_shortcuts(false, true, false, true, false), (false, true, false));
    assert_eq!(keyboard_shortcuts(false, false, true, true, true), (false, false, true));
    assert_eq!(keyboard_shortcuts(true, true, true, false, true), (false, false, false));
}
