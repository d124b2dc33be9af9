use splogbook::duplicates::{scan_summary, select_duplicates, KeepRule};
use splogbook::qso::QsoRecord;
use std::collections::HashSet;

fn qso(id: Option<i64>, lotw: &str, eqsl: &str, card: &str) -> QsoRecord {
    QsoRecord {
        id,
        callsign: "DL1ABC".to_string(),
        qso_date: "20240101".to_string(),
        time_on: "1200".to_string(),
        band: "20m".to_string(),
        mode: "CW".to_string(),
        rst_rcvd: "599".to_string(),
        dxcc: None,
        cqz: None,
        qsl_sent: "N".to_string(),
        qsl_rcvd: card.to_string(),
        lotw_qsl_rcvd: lotw.to_string(),
        eqsl_qsl_rcvd: eqsl.to_string(),
        country: None,
        comment: None,
    }
}

fn plain(id: i64) -> QsoRecord {
    qso(Some(id), "N", "N", "N")
}

fn set(ids: &[i64]) -> HashSet<i64> {
    ids.iter().cloned().collect()
}

fn groups() -> Vec<Vec<QsoRecord>> {
    vec![
        vec![plain(1), plain(2), plain(3)],
        vec![plain(4), qso(Some(5), "V", "N", "N")],
        vec![qso(Some(6), "N", "Y", "N"), plain(7), qso(None, "N", "N", "N")],
        vec![plain(8)],
    ]
}

#[test]
fn keep_oldest_marks_all_but_first() {
    let mut sel = set(&[99]);
    select_duplicates(&groups(), KeepRule::Oldest, &mut sel);
    assert_eq!(sel, set(&[2, 3, 5, 7]));
}

#[test]
fn keep_newest_marks_all_but_last() {
    let mut sel = HashSet::new();
    select_duplicates(&groups(), KeepRule::Newest, &mut sel);
    assert_eq!(sel, set(&[1, 2, 4, 6, 7]));
}

#[test]
fn keep_confirmed_marks_unconfirmed_of_confirmed_groups() {
    let mut sel = HashSet::new();
    select_duplicates(&groups(), KeepRule::Confirmed, &mut sel);
    // Group 1 has no confirmed QSO and stays whole; LoTW "V" counts.
    assert_eq!(sel, set(&[4, 7]));
}

#[test]
fn paper_card_confirms() {
    let g = vec![vec![plain(1), qso(Some(2), "N", "N", "Y")]];
    let mut sel = HashSet::new();
    select_duplicates(&g, KeepRule::Confirmed, &mut sel);
    assert_eq!(sel, set(&[1]));
}

#[test]
fn empty_scan_selects_nothing() {
    let mut sel = set(&[1, 2]);
    select_duplicates(&Vec::new(), KeepRule::Oldest, &mut sel);
    assert!(sel.is_empty());
}

#[test]
fn summary_counts_groups_and_records() {
    assert_eq!(scan_summary(&groups()), "Found 4 duplicate groups (total 9 records)");
    assert_eq!(scan_summary(&Vec::new()), "Found 0 duplicate groups (total 0 records)");
}
