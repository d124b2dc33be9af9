use splogbook::online_sync::{check_credentials, SyncService, SyncTab};

#[test]
fn tab_labels() {
    assert_eq!(SyncTab::first(), SyncTab::Lotw);
    assert_eq!(SyncTab::Lotw.label(0), "🏆 LoTW");
    assert_eq!(SyncTab::Databases.label(3), "🔄 Bazy");
    assert_eq!(SyncTab::Logs.label(12), "📋 Logi (12)");
    assert_eq!(SyncTab::Logs.label(0), "📋 Logi (0)");
}

#[test]
fn credentials() {
    assert_eq!(check_credentials(SyncService::Lotw, "sp6ina", "pw"), None);
    assert_eq!(
        check_credentials(SyncService::Lotw, "", "pw"),
        Some("[LoTW] Błąd: Brak loginu lub hasła do LoTW.".to_string())
    );
    assert_eq!(
        check_credentials(SyncService::Eqsl, "u", ""),
        Some("[eQSL] Błąd: Brak loginu lub hasła do eQSL.cc.".to_string())
    );
    assert_eq!(
        check_credentials(SyncService::Clublog, "", ""),
        Some("[Club Log] Błąd: Brak znaku lub hasła do Club Log.".to_string())
    );
    assert_eq!(check_credentials(SyncService::Qrz, "", "key"), None);
    assert_eq!(
        check_credentials(SyncService::Qrz, "x", ""),
        Some("[QRZ.com] Błąd: Brak klucza API logbooka QRZ.".to_string())
    );
}
