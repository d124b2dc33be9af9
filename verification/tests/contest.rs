use splogbook::contest::{
    custom_contest_score, find_custom_contest, ContestTally, is_custom_dupe, CustomContest, CustomContestEditor,
};
use splogbook::qso::QsoRecord;

fn contest(name: &str, points: u32) -> CustomContest {
    CustomContest {
        name: name.to_string(),
        exchange_format: "RST + NR".to_string(),
        points_per_qso: points,
        bands: vec!["20m".to_string()],
        description: String::new(),
    }
}

fn qso(call: &str, band: &str, dxcc: Option<u32>, cqz: Option<u32>, rst: &str) -> QsoRecord {
    QsoRecord {
        id: None,
        callsign: call.to_string(),
        qso_date: "20240101".to_string(),
        time_on: "1200".to_string(),
        band: band.to_string(),
        mode: "CW".to_string(),
        rst_rcvd: rst.to_string(),
        dxcc,
        cqz,
        qsl_sent: "N".to_string(),
        qsl_rcvd: "N".to_string(),
        lotw_qsl_rcvd: "N".to_string(),
        eqsl_qsl_rcvd: "N".to_string(),
        country: None,
        comment: None,
    }
}

#[test]
fn score_counts_points_and_distinct_multipliers() {
    let log = vec![
        qso("DL1A", "20m", Some(230), Some(14), "599"),
        qso("DL2B", "20m", Some(230), None, "599"),
        qso("W1AW", "40m", None, Some(5), "599"),
        qso("K1AB", "40m", Some(5), None, "599"),
        qso("SP9X", "80m", None, None, "001"),
        qso("SP8Y", "80m", None, None, ""),
    ];
    // Multipliers: "230", "5" (zone 5 and entity 5 are the same text), "001".
    assert_eq!(custom_contest_score(&contest("Club", 2), &log), (12, 3, 36));
}

#[test]
fn empty_log_scores_nothing() {
    assert_eq!(custom_contest_score(&contest("Club", 5), &Vec::new()), (0, 0, 0));
}

#[test]
fn dupe_needs_same_call_and_band() {
    let log = vec![qso("DL1A", "20m", None, None, "599")];
    assert!(is_custom_dupe(&log, "DL1A", "20m"));
    assert!(!is_custom_dupe(&log, "DL1A", "40m"));
    assert!(!is_custom_dupe(&log, "dl1a", "20m"));
}

#[test]
fn finds_first_contest_by_name() {
    let list = vec![contest("A", 1), contest("B", 2), contest("B", 3)];
    assert_eq!(find_custom_contest(&list, "B"), Some(1));
    assert_eq!(find_custom_contest(&list, "C"), None);
}

#[test]
fn clone_keeps_every_field() {
    let c = contest("Club", 7);
    let d = c.clone();
    assert_eq!(d.name, "Club");
    assert_eq!(d.exchange_format, "RST + NR");
    assert_eq!(d.points_per_qso, 7);
    assert_eq!(d.bands, vec!["20m".to_string()]);
}

#[test]
fn editor_adds_edits_and_deletes() {
    let mut e = CustomContestEditor::new(Vec::new());
    e.draft.name = "Club".to_string();
    e.draft.points_per_qso = 2;
    e.save();
    assert_eq!(e.contests.len(), 1);
    assert_eq!(e.contests[0].name, "Club");
    assert_eq!(e.draft.name, "");
    assert_eq!(e.edit_idx, None);

    e.start_edit(0);
    assert_eq!(e.edit_idx, Some(0));
    e.draft.points_per_qso = 4;
    e.save();
    assert_eq!(e.contests.len(), 1);
    assert_eq!(e.contests[0].points_per_qso, 4);

    e.start_edit(0);
    e.delete(0);
    assert!(e.contests.is_empty());
    assert_eq!(e.edit_idx, None);
    assert_eq!(e.draft.name, "");
}

#[test]
fn saving_without_name_does_nothing() {
    let mut e = CustomContestEditor::new(vec![contest("A", 1)]);
    e.draft.points_per_qso = 9;
    e.save();
    assert_eq!(e.contests.len(), 1);
    assert_eq!(e.draft.points_per_qso, 9);
}

#[test]
fn deleting_another_contest_keeps_the_form() {
    let mut e = CustomContestEditor::new(vec![contest("A", 1), contest("B", 2)]);
    e.start_edit(1);
    e.delete(0);
    assert_eq!(e.edit_idx, Some(1));
    assert_eq!(e.draft.name, "B");
    e.start_new();
    assert_eq!(e.edit_idx, None);
    assert_eq!(e.draft.name, "");
}

#[test]
fn band_toggle() {
    let mut e = CustomContestEditor::new(Vec::new());
    e.toggle_band("20m");
    e.toggle_band("40m");
    assert_eq!(e.draft.bands, vec!["20m".to_string(), "40m".to_string()]);
    e.toggle_band("20m");
    assert_eq!(e.draft.bands, vec!["40m".to_string()]);
}

#[test]
fn saved_qso_moves_counters() {
    let mut t = ContestTally { qsos: 4, points: 12, mults: 2, stx: 5 };
    t.count_saved_qso();
    assert_eq!((t.qsos, t.points, t.mults, t.stx), (5, 15, 3, 6));
}
