use splogbook::logbook_table::{log_matches, log_view, page_count};
use splogbook::qso::QsoRecord;

fn qso(call: &str, band: &str, mode: &str, date: &str, time: &str, country: Option<&str>, comment: Option<&str>) -> QsoRecord {
    QsoRecord {
        id: None,
        callsign: call.to_string(),
        qso_date: date.to_string(),
        time_on: time.to_string(),
        band: band.to_string(),
        mode: mode.to_string(),
        rst_rcvd: "599".to_string(),
        dxcc: None,
        cqz: None,
        qsl_sent: "N".to_string(),
        qsl_rcvd: "N".to_string(),
        lotw_qsl_rcvd: "N".to_string(),
        eqsl_qsl_rcvd: "N".to_string(),
        country: country.map(|c| c.to_string()),
        comment: comment.map(|c| c.to_string()),
    }
}

fn log() -> Vec<QsoRecord> {
    vec![
        qso("SP5ABC", "20m", "CW", "20240102", "0900", Some("Poland"), None),
        qso("DL1XYZ", "40m", "SSB", "20240101", "2300", Some("Germany"), Some("nice op")),
        qso("SP9QQ", "20m", "FT8", "20240102", "0800", Some("Poland"), None),
        qso("JA1AAA", "15m", "CW", "20240101", "2300", None, Some("first japan")),
    ]
}

#[test]
fn empty_search_lists_all_by_date_and_time() {
    // Column 0: date then time, rising; equal keys (rows 1 and 3) stay in log order.
    assert_eq!(log_view(&log(), "", 0, true), vec![1, 3, 2, 0]);
    // Falling: equal keys still in log order.
    assert_eq!(log_view(&log(), "", 0, false), vec![0, 2, 1, 3]);
}

#[test]
fn sort_by_call_band_mode_country() {
    assert_eq!(log_view(&log(), "", 1, true), vec![1, 3, 0, 2]);
    assert_eq!(log_view(&log(), "", 2, true), vec![3, 0, 2, 1]);
    assert_eq!(log_view(&log(), "", 3, false), vec![1, 2, 0, 3]);
    // A missing country sorts as empty text, first.
    assert_eq!(log_view(&log(), "", 4, true), vec![3, 1, 0, 2]);
}

#[test]
fn search_is_trimmed_and_case_blind() {
    assert_eq!(log_view(&log(), "  sp ", 1, true), vec![0, 2]);
    assert_eq!(log_view(&log(), "poland", 0, true), vec![2, 0]);
    assert_eq!(log_view(&log(), "JAPAN", 0, true), vec![3]);
    assert_eq!(log_view(&log(), "ft", 0, true), vec![2]);
    assert_eq!(log_view(&log(), "zzz", 0, true), Vec::<usize>::new());
}

#[test]
fn single_match_takes_prepared_query() {
    let q = qso("SP5ABC", "20m", "CW", "20240102", "0900", None, Some("qrp"));
    assert!(log_matches(&q, "QRP"));
    assert!(!log_matches(&q, "qrp"));
    assert!(log_matches(&q, ""));
}

#[test]
fn pager_counts_pages() {
    assert_eq!(page_count(0, 25), 1);
    assert_eq!(page_count(25, 25), 1);
    assert_eq!(page_count(26, 25), 2);
    assert_eq!(page_count(100, 50), 2);
}
