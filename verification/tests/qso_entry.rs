use splogbook::qso::QsoRecord;
use splogbook::qso_entry::{
    add_note, callbook_messages, clear_qso_form, fill_if_empty, merge_callbook, CallLookup, CallbookData, EntryForm, is_entry_dupe, is_repeat, has_callsign, memo_file_name, optional_text, save_alert, saved_message, AwardFlags,
    SaveAlert,
};

#[test]
fn blank_call_is_not_saved() {
    assert!(!has_callsign("   "));
    assert!(!has_callsign(""));
    assert!(has_callsign(" sp6ina "));
}

#[test]
fn optional_fields() {
    assert_eq!(optional_text(""), None);
    assert_eq!(optional_text("Jan"), Some("Jan".to_string()));
}

#[test]
fn prefill_only_empty_fields() {
    let mut name = String::new();
    fill_if_empty(&mut name, &Some("Jan".to_string()));
    assert_eq!(name, "Jan");
    fill_if_empty(&mut name, &Some("Piotr".to_string()));
    assert_eq!(name, "Jan");
    let mut qth = String::new();
    fill_if_empty(&mut qth, &None);
    assert_eq!(qth, "");
}

#[test]
fn memo_name_cleans_call() {
    assert_eq!(memo_file_name(" sp6ina/p ", "20240101", "1200"), "QSO_SP6INA_P_20240101_1200.wav");
    assert_eq!(memo_file_name("dl/sp6ina/mm", "20231231", "2359"), "QSO_DL_SP6INA_MM_20231231_2359.wav");
}

#[test]
fn alert_choice() {
    let flags = |d: bool, i: bool, w: bool| Some(AwardFlags { is_new_dxcc: d, is_new_iota: i, is_worked_b4: w });
    assert_eq!(save_alert(false, &flags(true, true, true)), None);
    assert_eq!(save_alert(true, &flags(true, true, true)), Some(SaveAlert::NewDxcc));
    assert_eq!(save_alert(true, &flags(false, true, true)), Some(SaveAlert::NewIota));
    assert_eq!(save_alert(true, &flags(false, false, true)), Some(SaveAlert::WorkedBefore));
    assert_eq!(save_alert(true, &flags(false, false, false)), Some(SaveAlert::Saved));
    assert_eq!(save_alert(true, &None), Some(SaveAlert::Saved));
}

#[test]
fn saved_toast() {
    assert_eq!(saved_message("SP6INA", "20m", "CW"), "Zapisano łączność z: SP6INA (20m, CW)");
}

#[test]
fn notes_join_the_comment() {
    let mut c = String::new();
    add_note(&mut c, "IOTA", "EU-005");
    assert_eq!(c, "IOTA: EU-005");
    add_note(&mut c, "State", "CA");
    assert_eq!(c, "IOTA: EU-005 State: CA");
}

fn past(band: &str, mode: &str) -> QsoRecord {
    QsoRecord {
        id: Some(1),
        callsign: "DL1ABC".to_string(),
        qso_date: "20240101".to_string(),
        time_on: "1200".to_string(),
        band: band.to_string(),
        mode: mode.to_string(),
        rst_rcvd: "599".to_string(),
        dxcc: None,
        cqz: None,
        qsl_sent: "N".to_string(),
        qsl_rcvd: "N".to_string(),
        lotw_qsl_rcvd: "N".to_string(),
        eqsl_qsl_rcvd: "N".to_string(),
        country: None,
        comment: None,
    }
}

#[test]
fn dupe_warning() {
    let prev = vec![past("20m", "CW"), past("40m", "SSB")];
    assert!(is_entry_dupe("DL1ABC", "40m", "SSB", &prev));
    assert!(!is_entry_dupe("DL1ABC", "40m", "CW", &prev));
    assert!(!is_entry_dupe("", "20m", "CW", &prev));
    assert!(is_repeat(&prev[0], "20m", "CW"));
    assert!(!is_repeat(&prev[0], "20m", "SSB"));
}

#[test]
fn clearing_keeps_band_mode_and_reports() {
    let t = |x: &str| x.to_string();
    let mut f = EntryForm {
        callsign: t("DL1ABC"), band: t("20m"), mode: t("CW"), rst_sent: t("599"), rst_rcvd: t("579"),
        name: t("Hans"), qth: t("Berlin"), grid: t("JO62"), pga: t("X"), comment: t("tnx"),
        iota: t("EU-005"), state: t("CA"), sota: t("S"), pota: t("P"), qsl_manager: t("M"),
    };
    f.clear();
    assert_eq!((f.band.as_str(), f.mode.as_str(), f.rst_sent.as_str(), f.rst_rcvd.as_str()), ("20m", "CW", "599", "579"));
    assert!(f.callsign.is_empty() && f.name.is_empty() && f.comment.is_empty() && f.qsl_manager.is_empty());
    assert!(f.iota.is_empty() && f.state.is_empty() && f.grid.is_empty() && f.pota.is_empty());
}

fn form(call: &str) -> EntryForm {
    let t = |x: &str| x.to_string();
    EntryForm {
        callsign: t(call), band: t("20m"), mode: t("CW"), rst_sent: t("599"), rst_rcvd: t("599"),
        name: t(""), qth: t("Old QTH"), grid: t("JO62"), pga: t(""), comment: t("c"),
        iota: t(""), state: t(""), sota: t(""), pota: t(""), qsl_manager: t(""),
    }
}

fn answer(call: &str, grid: Option<&str>) -> CallbookData {
    CallbookData {
        callsign: call.to_string(),
        name: Some("Hans".to_string()),
        qth: None,
        gridsquare: grid.map(|g| g.to_string()),
        state: None,
        qsl_manager: Some("DL9ZZ".to_string()),
        image_url: None,
    }
}

#[test]
fn callbook_answer_fills_the_form() {
    let mut f = form(" dl1abc ");
    assert_eq!(merge_callbook(&mut f, &answer("DL1ABC", Some("JO62"))), Some(false));
    assert_eq!(f.name, "Hans");
    assert_eq!(f.qth, "Old QTH");
    assert_eq!(f.qsl_manager, "DL9ZZ");
    assert_eq!(merge_callbook(&mut f, &answer("DL1ABC", Some("JO31"))), Some(true));
    assert_eq!(f.grid, "JO31");
    assert_eq!(merge_callbook(&mut f, &answer("DL1ABC", None)), Some(false));
    assert_eq!(f.comment, "c");
}

#[test]
fn callbook_answer_for_another_call_is_ignored() {
    let mut f = form("DL1ABC");
    assert_eq!(merge_callbook(&mut f, &answer("DL2XYZ", Some("JO31"))), None);
    assert_eq!(f.grid, "JO62");
    assert_eq!(f.name, "");
}

#[test]
fn callbook_message_texts() {
    let (a, b) = callbook_messages("DL1ABC", "Hans");
    assert_eq!(a, "Pobrano dane Callbook dla: DL1ABC (Hans)");
    assert_eq!(b, "Pobrano dane korespondenta DL1ABC!");
}

#[test]
fn clearing_forgets_lookups() {
    let mut f = form("DL1ABC");
    let mut l: CallLookup<String, String, u8, String, String> = CallLookup {
        suggestions: vec!["DL1ABD".to_string()],
        prefix_info: Some("Germany".to_string()),
        polish_district: None,
        award_status: None,
        propagation: Some(3),
        clubs: vec!["DARC".to_string()],
        past_qsos: vec![past("20m", "CW")],
        qsl_manager_record: Some("mgr".to_string()),
    };
    clear_qso_form(&mut f, &mut l);
    assert!(f.callsign.is_empty() && f.comment.is_empty());
    assert_eq!(f.band, "20m");
    assert!(l.suggestions.is_empty() && l.clubs.is_empty() && l.past_qsos.is_empty());
    assert!(l.prefix_info.is_none() && l.propagation.is_none() && l.qsl_manager_record.is_none());
}
