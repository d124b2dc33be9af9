use splogbook::audio_recorder::AudioRecorder;
use splogbook::dialogs::{
    AstronomyDialog, IotaBrowserDialog, Journal, JournalManagerDialog, PhotoViewerDialog,
    PrefixManagerDialog, QslManagerDialog, SotaDialog, WolDialog,
};
use splogbook::filter::AdvancedFilterDialog;
use splogbook::logbook_table::{col_display_name, page_range};
use splogbook::qsl_labels::{LabelSheetFormat, QslDesignerDialog};
use splogbook::qso::QsoRecord;
use splogbook::station_ledger::{category_label, EquipmentCategory};
use std::cell::Cell;

fn journal(id: &str, is_default: bool) -> Journal {
    Journal {
        id: id.to_string(),
        name: format!("Journal {}", id),
        station_callsign: "SP6INA".to_string(),
        operator: "Op".to_string(),
        my_gridsquare: "JO81".to_string(),
        my_pga: String::new(),
        description: String::new(),
        is_default,
    }
}

fn qso(call: &str, qsl_sent: &str) -> QsoRecord {
    QsoRecord {
        id: None,
        callsign: call.to_string(),
        qso_date: "20240101".to_string(),
        time_on: "1200".to_string(),
        band: "20m".to_string(),
        mode: "CW".to_string(),
        rst_rcvd: "599".to_string(),
        dxcc: None,
        cqz: None,
        qsl_sent: qsl_sent.to_string(),
        qsl_rcvd: "N".to_string(),
        lotw_qsl_rcvd: "N".to_string(),
        eqsl_qsl_rcvd: "N".to_string(),
        country: None,
        comment: None,
    }
}

#[test]
fn simple_dialogs_open() {
    let mut a = AstronomyDialog::new();
    assert!(!a.is_open);
    a.open();
    assert!(a.is_open);
    assert!(!AstronomyDialog::default().is_open);

    let mut w = WolDialog::new();
    assert_eq!(w.broadcast_ip, "255.255.255.255");
    assert_eq!(w.port, 9);
    assert!(w.mac_address.is_empty() && w.status.is_none() && !w.is_open);
    w.open();
    assert!(w.is_open);
}

#[test]
fn photo_viewer_upper_cases_callsign() {
    let mut p = PhotoViewerDialog::new();
    assert!(p.photo_url.is_none());
    p.open("sp6ina", Some("http://x/y.jpg".to_string()));
    assert!(p.is_open);
    assert_eq!(p.callsign, "SP6INA");
    assert_eq!(p.photo_url.as_deref(), Some("http://x/y.jpg"));
}

#[test]
fn sota_dialog_keeps_entered_activator() {
    let mut s = SotaDialog::new();
    assert_eq!(s.summit_ref, "SP/BZ-001");
    s.open("sq6abc");
    assert_eq!(s.activator_call, "SQ6ABC");
    s.open("other");
    assert_eq!(s.activator_call, "SQ6ABC");
    assert!(s.is_open);
}

#[test]
fn prefix_search_skips_blank_query() {
    let calls = Cell::new(0);
    let search = |q: &str| {
        calls.set(calls.get() + 1);
        vec![q.to_string()]
    };
    let mut d: PrefixManagerDialog<String> = PrefixManagerDialog::new();
    d.results = vec!["old".to_string()];
    d.search_query = "   ".to_string();
    d.execute_search(&search);
    assert!(d.results.is_empty());
    assert_eq!(calls.get(), 0);
    d.search_query = " 3Z ".to_string();
    d.execute_search(&search);
    assert_eq!(d.results, vec![" 3Z ".to_string()]);
    assert_eq!(calls.get(), 1);
    d.open();
    assert!(d.is_open);
}

#[test]
fn qsl_manager_open_for_call_searches_trimmed_upper_call() {
    let mut d: QslManagerDialog<String> = QslManagerDialog::new();
    d.open_for_call("  vp8g ", |q: &str| vec![format!("mgr of {}", q)]);
    assert!(d.is_open);
    assert_eq!(d.search_query, "VP8G");
    assert_eq!(d.results, vec!["mgr of VP8G".to_string()]);
    d.open_for_call("   ", |q: &str| vec![q.to_string()]);
    assert_eq!(d.search_query, "");
    assert!(d.results.is_empty());
    assert!(d.selected_manager.is_none());
}

#[test]
fn iota_reload_runs_even_blank_query() {
    let mut d: IotaBrowserDialog<String> = IotaBrowserDialog::new();
    d.open();
    d.reload(|q: &str| vec![format!("[{}]", q)]);
    assert_eq!(d.results, vec!["[]".to_string()]);
    let d2: IotaBrowserDialog<u8> = IotaBrowserDialog::default();
    assert!(!d2.is_open && d2.results.is_empty());
}

#[test]
fn journal_reload_selects_default() {
    let mut d = JournalManagerDialog::default();
    d.reload::<String>(Ok(vec![journal("A", false), journal("B", true), journal("C", true)]));
    assert_eq!(d.journals.len(), 3);
    assert_eq!(d.selected_index, 1);
    d.reload::<String>(Ok(vec![journal("A", false), journal("B", false)]));
    assert_eq!(d.selected_index, 0);
    d.reload::<String>(Err("db locked".to_string()));
    assert_eq!(d.journals.len(), 2);
    d.reload::<String>(Ok(vec![]));
    assert!(d.journals.is_empty());
    assert_eq!(d.selected_index, 0);
}

#[test]
fn qsl_queue_takes_unsent_and_requested() {
    let mut d = QslDesignerDialog::default();
    assert_eq!(d.sheet_format, LabelSheetFormat::Avery3x8);
    d.queue_unprinted::<String>(Ok(vec![qso("A", "N"), qso("B", "Y"), qso("C", "R"), qso("D", "")]));
    let calls: Vec<&str> = d.queued_qsos.iter().map(|q| q.callsign.as_str()).collect();
    assert_eq!(calls, vec!["A", "C"]);
    assert_eq!(d.status_message.as_deref(), Some("Dodano 2 łączności do kolejki druku."));
}

#[test]
fn qsl_queue_is_limited_to_forty_eight() {
    let mut d = QslDesignerDialog::default();
    let all: Vec<QsoRecord> = (0..60).map(|i| qso(&format!("C{}", i), "N")).collect();
    d.queue_unprinted::<String>(Ok(all));
    assert_eq!(d.queued_qsos.len(), 48);
    assert_eq!(d.queued_qsos[47].callsign, "C47");
    assert_eq!(d.status_message.as_deref(), Some("Dodano 48 łączności do kolejki druku."));
    d.queue_unprinted::<String>(Err("fail".to_string()));
    assert_eq!(d.queued_qsos.len(), 48);
}

#[test]
fn qsl_queue_empty_log() {
    let mut d = QslDesignerDialog::default();
    d.queue_unprinted::<String>(Ok(vec![]));
    assert_eq!(d.status_message.as_deref(), Some("Dodano 0 łączności do kolejki druku."));
}

#[test]
fn build_filter_maps_fields() {
    let mut d = AdvancedFilterDialog::default();
    let f = d.build_filter(None);
    assert!(f.date_from.is_none() && f.date_to.is_none() && f.callsign_query.is_none());
    assert!(f.lotw_confirmed.is_none() && f.eqsl_confirmed.is_none() && f.qsl_rcvd.is_none());
    assert!(f.bands.is_empty() && f.journal_id.is_none());
    d.date_from = "2024-01-01".to_string();
    d.selected_bands = vec!["20m".to_string(), "40m".to_string()];
    d.selected_modes = vec!["FT8".to_string()];
    d.lotw_only = true;
    d.qsl_rcvd_only = true;
    d.call_query = "SP".to_string();
    let f = d.build_filter(Some("J1"));
    assert_eq!(f.date_from.as_deref(), Some("2024-01-01"));
    assert!(f.date_to.is_none());
    assert_eq!(f.bands, vec!["20m".to_string(), "40m".to_string()]);
    assert_eq!(f.modes, vec!["FT8".to_string()]);
    assert_eq!(f.lotw_confirmed, Some(true));
    assert_eq!(f.eqsl_confirmed, None);
    assert_eq!(f.qsl_rcvd, Some(true));
    assert_eq!(f.callsign_query.as_deref(), Some("SP"));
    assert_eq!(f.journal_id.as_deref(), Some("J1"));
}

#[test]
fn column_headers() {
    let tr = |k: &str| format!("T({})", k);
    assert_eq!(col_display_name("nr", "x", tr), "Nr");
    assert_eq!(col_display_name("qsl", "x", tr), "QSL");
    assert_eq!(col_display_name("rst_s", "x", tr), "T(qso.rst_sent)");
    assert_eq!(col_display_name("cqz", "x", tr), "T(geo.cq_zone)");
    assert_eq!(col_display_name("custom", "My Column", tr), "My Column");
}

#[test]
fn equipment_category_names() {
    let tr = |k: &str| k.to_uppercase();
    assert_eq!(category_label(&EquipmentCategory::PowerSupply, tr), "LEDGER.CAT_POWERSUPPLY");
    assert_eq!(category_label(&EquipmentCategory::Other, tr), "LEDGER.CAT_OTHER");
}

#[test]
fn page_bounds() {
    assert_eq!(page_range(0, 0, 17), (0, 17));
    assert_eq!(page_range(0, 10, 17), (0, 10));
    assert_eq!(page_range(1, 10, 17), (10, 17));
    assert_eq!(page_range(3, 10, 17), (30, 17));
    for p in 0..5 {
        let (_, end) = page_range(p, 4, 17);
        let (next_start, _) = page_range(p + 1, 4, 17);
        assert_eq!(end, next_start.min(17));
    }
}

#[test]
fn recorder_state() {
    let mut r = AudioRecorder::new();
    assert!(!r.is_recording() && !r.is_playing());
    assert_eq!(
        r.stop_and_save(|| Ok::<u32, String>(1)).unwrap_err(),
        "Nagrywanie nie było aktywne"
    );
    assert!(r.start_recording(|| Ok(())).is_ok());
    assert!(r.is_recording());
    let started_again = Cell::new(false);
    assert!(r.start_recording(|| { started_again.set(true); Ok(()) }).is_ok());
    assert!(!started_again.get());
    assert_eq!(r.stop_and_save(|| Ok::<u32, String>(7)), Ok(7));
    assert!(!r.is_recording());
    assert!(r.start_recording(|| Err("no device".to_string())).is_err());
    assert!(!r.is_recording());
    assert!(r.play_audio(|| Ok(())).is_ok());
    assert!(r.is_playing());
    assert!(r.stop_audio(|| ()).is_ok());
    assert!(!r.is_playing());
    assert!(r.play_audio(|| Err("bad file".to_string())).is_err());
    assert!(!r.is_playing());
}

#[test]
fn advanced_filter_apply_and_clear() {
    let mut d = AdvancedFilterDialog::default();
    d.call_query = "SP".to_string();
    d.lotw_only = true;
    let shown = d.apply_search::<u32, String>(Ok(vec![1, 2, 3]));
    assert_eq!(shown, Some(vec![1, 2, 3]));
    assert_eq!(d.filtered_count, 3);
    assert!(d.is_filtered_active);
    assert_eq!(d.status_message.as_deref(), Some("Znaleziono 3 łączności spełniających kryteria."));
    assert_eq!(d.apply_search::<u32, String>(Err("db".to_string())), None);
    assert_eq!(d.filtered_count, 3);
    d.clear_criteria();
    assert!(!d.is_filtered_active && !d.lotw_only && d.call_query.is_empty());
    assert_eq!(d.status_message.as_deref(), Some("Filtry zresetowane - wyświetlanie pełnego logu."));
}
