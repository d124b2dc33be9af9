use splogbook::awards::{
    award_entries_view, award_entry_matches, award_totals, band_mode_status, band_qso_count, dxcc_band_matrix,
    AwardEntry, AwardQso, CellStatus,
};
use splogbook::qso::QsoRecord;

fn qso(band: &str, mode: &str, lotw: &str, card: &str, eqsl: &str) -> QsoRecord {
    QsoRecord {
        id: None,
        callsign: "JA1XYZ".to_string(),
        qso_date: "20240101".to_string(),
        time_on: "1200".to_string(),
        band: band.to_string(),
        mode: mode.to_string(),
        rst_rcvd: "599".to_string(),
        dxcc: Some(339),
        cqz: Some(25),
        qsl_sent: "N".to_string(),
        qsl_rcvd: card.to_string(),
        lotw_qsl_rcvd: lotw.to_string(),
        eqsl_qsl_rcvd: eqsl.to_string(),
        country: None,
        comment: None,
    }
}

fn log() -> Vec<QsoRecord> {
    vec![
        qso("20m", "CW", "Y", "N", "N"),
        qso("20m", "FT4", "N", "N", "N"),
        qso("40m", "SSB", "N", "N", "Y"),
        qso("40m", "RTTY", "V", "N", "N"),
        qso("10m", "FM", "N", "Y", "N"),
    ]
}

#[test]
fn cell_states() {
    let l = log();
    assert_eq!(band_mode_status(&l, "20m", "CW"), CellStatus::Confirmed);
    assert_eq!(band_mode_status(&l, "20m", "DIGI"), CellStatus::Worked);
    assert_eq!(band_mode_status(&l, "20m", "SSB"), CellStatus::Needed);
    assert_eq!(band_mode_status(&l, "20m", "MIXED"), CellStatus::Confirmed);
    // LoTW "V" does not confirm in the matrix.
    assert_eq!(band_mode_status(&l, "40m", "DIGI"), CellStatus::Worked);
    assert_eq!(band_mode_status(&l, "40m", "SSB"), CellStatus::Confirmed);
    // A mode with no column of its own still counts under MIXED.
    assert_eq!(band_mode_status(&l, "10m", "MIXED"), CellStatus::Confirmed);
    assert_eq!(band_mode_status(&l, "10m", "CW"), CellStatus::Needed);
}

#[test]
fn band_counts() {
    let l = log();
    assert_eq!(band_qso_count(&l, "20m"), 2);
    assert_eq!(band_qso_count(&l, "10m"), 1);
    assert_eq!(band_qso_count(&l, "6m"), 0);
}

#[test]
fn full_matrix() {
    let rows = dxcc_band_matrix(&log());
    assert_eq!(rows.len(), 14);
    assert_eq!(rows[0].band, "160m");
    assert_eq!(rows[13].band, "70cm");
    let r20 = &rows[5];
    assert_eq!(r20.band, "20m");
    assert_eq!(
        r20.cells,
        vec![CellStatus::Confirmed, CellStatus::Needed, CellStatus::Worked, CellStatus::Confirmed]
    );
    assert_eq!(r20.qso_count, 2);
    let r40 = &rows[3];
    assert_eq!(r40.band, "40m");
    assert_eq!(
        r40.cells,
        vec![CellStatus::Needed, CellStatus::Confirmed, CellStatus::Worked, CellStatus::Confirmed]
    );
    assert_eq!(rows[0].cells, vec![CellStatus::Needed; 4]);
    assert_eq!(rows[0].qso_count, 0);
}

fn aq(call: &str, band: &str, mode: &str, date: &str, conf: bool) -> AwardQso {
    AwardQso {
        callsign: call.to_string(),
        band: band.to_string(),
        mode: mode.to_string(),
        qso_date: date.to_string(),
        is_confirmed: conf,
    }
}

fn entries() -> Vec<AwardEntry> {
    vec![
        AwardEntry { key: "SP6".to_string(), qsos: vec![aq("SP6ABC", "40m", "CW", "20240101", false)] },
        AwardEntry {
            key: "DL1".to_string(),
            qsos: vec![aq("DL1AA", "20m", "SSB", "20230505", false), aq("DL1BB", "20m", "FT8", "20240202", true)],
        },
        AwardEntry { key: "K1".to_string(), qsos: vec![aq("K1ZZ", "15m", "cw", "20220101", false)] },
    ]
}

#[test]
fn entries_sorted_by_key() {
    assert_eq!(award_entries_view(&entries(), ""), vec![1, 2, 0]);
}

#[test]
fn entries_search() {
    let e = entries();
    assert_eq!(award_entries_view(&e, " dl "), vec![1]);
    assert_eq!(award_entries_view(&e, "cw"), vec![2, 0]);
    assert_eq!(award_entries_view(&e, "2024"), vec![1, 0]);
    assert_eq!(award_entries_view(&e, "ft8"), vec![1]);
    assert_eq!(award_entries_view(&e, "x"), Vec::<usize>::new());
    assert!(award_entry_matches(&e[0], "SP"));
    assert!(!award_entry_matches(&e[0], "sp"));
}

#[test]
fn entries_totals() {
    assert_eq!(award_totals(&entries()), (3, 1, 4));
    assert_eq!(award_totals(&Vec::new()), (0, 0, 0));
}
