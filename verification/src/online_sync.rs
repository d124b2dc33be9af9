//! Tabs of the online-sync window and their labels, and the credential
//! check before a transfer to a service.

use vstd::prelude::*;
use crate::text::{decimal, decimal_string};

verus! {

/// The services and views of the online-sync window.
#[derive(Clone, Copy, Debug, PartialEq, Eq, Structural)]
pub enum SyncTab {
    Lotw,
    Eqsl,
    Clublog,
    QrzHamqth,
    CloudlogHrdlog,
    Fldigi,
    PskReporter,
    Databases,
    Logs,
}

/// The label of a tab; the log tab shows how many log lines there are.
pub open spec fn tab_text(tab: SyncTab, log_lines: nat) -> Seq<char> {
    match tab {
        SyncTab::Lotw => "🏆 LoTW"@,
        SyncTab::Eqsl => "📨 eQSL.cc"@,
        SyncTab::Clublog => "📡 Club Log"@,
        SyncTab::QrzHamqth => "📖 QRZ & HamQTH"@,
        SyncTab::CloudlogHrdlog => "☁ Cloudlog / HRDLog"@,
        SyncTab::Fldigi => "💻 FLDigi"@,
        SyncTab::PskReporter => "📡 PSK Reporter"@,
        SyncTab::Databases => "🔄 Bazy"@,
        SyncTab::Logs => "📋 Logi ("@ + decimal(log_lines) + ")"@,
    }
}

impl SyncTab {
    /// The tab the window opens on.
    pub fn first() -> (t: SyncTab)
        ensures
            t == SyncTab::Lotw,
    {
        SyncTab::Lotw
    }

    /// The label of the tab, with `log_lines` lines in the sync log.
    pub fn label(&self, log_lines: usize) -> (s: String)
        ensures
            s@ == tab_text(*self, log_lines as nat),
    {
        match self {
            SyncTab::Lotw => String::from_str("🏆 LoTW"),
            SyncTab::Eqsl => String::from_str("📨 eQSL.cc"),
            SyncTab::Clublog => String::from_str("📡 Club Log"),
            SyncTab::QrzHamqth => String::from_str("📖 QRZ & HamQTH"),
            SyncTab::CloudlogHrdlog => String::from_str("☁ Cloudlog / HRDLog"),
            SyncTab::Fldigi => String::from_str("💻 FLDigi"),
            SyncTab::PskReporter => String::from_str("📡 PSK Reporter"),
            SyncTab::Databases => String::from_str("🔄 Bazy"),
            SyncTab::Logs => {
                let mut s = String::from_str("📋 Logi (");
                let n = decimal_string(log_lines as u64);
                s.append(n.as_str());
                s.append(")");
                s
            },
        }
    }
}

/// The services the sync window sends to or fetches from.
#[derive(Clone, Copy, Debug, PartialEq, Eq, Structural)]
pub enum SyncService {
    Lotw,
    Eqsl,
    Clublog,
    Qrz,
}

/// The log line that refuses a transfer for missing credentials, or none
/// when the credentials are there: LoTW and eQSL need a user name and a
/// password, Club Log a call and a password, QRZ.com its API key (`secret`;
/// `login` is not read).
pub open spec fn credentials_refusal(service: SyncService, login: Seq<char>, secret: Seq<char>) -> Option<Seq<char>> {
    match service {
        SyncService::Lotw => if login.len() == 0 || secret.len() == 0 {
            Some("[LoTW] Błąd: Brak loginu lub hasła do LoTW."@)
        } else {
            None
        },
        SyncService::Eqsl => if login.len() == 0 || secret.len() == 0 {
            Some("[eQSL] Błąd: Brak loginu lub hasła do eQSL.cc."@)
        } else {
            None
        },
        SyncService::Clublog => if login.len() == 0 || secret.len() == 0 {
            Some("[Club Log] Błąd: Brak znaku lub hasła do Club Log."@)
        } else {
            None
        },
        SyncService::Qrz => if secret.len() == 0 {
            Some("[QRZ.com] Błąd: Brak klucza API logbooka QRZ."@)
        } else {
            None
        },
    }
}

/// Checks the credentials before a transfer: the line to add to the sync
/// log when they are missing, `None` when the transfer may start.
pub fn check_credentials(service: SyncService, login: &str, secret: &str) -> (r: Option<String>)
    ensures
        match r {
            Some(m) => credentials_refusal(service, login@, secret@) == Some(m@),
            None => credentials_refusal(service, login@, secret@) is None,
        },
{
    match service {
        SyncService::Lotw => if login.is_empty() || secret.is_empty() {
            Some(String::from_str("[LoTW] Błąd: Brak loginu lub hasła do LoTW."))
        } else {
            None
        },
        SyncService::Eqsl => if login.is_empty() || secret.is_empty() {
            Some(String::from_str("[eQSL] Błąd: Brak loginu lub hasła do eQSL.cc."))
        } else {
            None
        },
        SyncService::Clublog => if login.is_empty() || secret.is_empty() {
            Some(String::from_str("[Club Log] Błąd: Brak znaku lub hasła do Club Log."))
        } else {
            None
        },
        SyncService::Qrz => if secret.is_empty() {
            Some(String::from_str("[QRZ.com] Błąd: Brak klucza API logbooka QRZ."))
        } else {
            None
        },
    }
}


/// The credential rules: LoTW, eQSL and Club Log refuse when the login or
/// the secret is empty and go ahead when both are given; QRZ.com refuses
/// exactly when its API key is empty, whatever the login.
pub proof fn lemma_credential_rules(login: Seq<char>, secret: Seq<char>)
    ensures
        (login.len() == 0 || secret.len() == 0) ==> credentials_refusal(SyncService::Lotw, login, secret) is Some
            && credentials_refusal(SyncService::Eqsl, login, secret) is Some && credentials_refusal(
            SyncService::Clublog,
            login,
            secret,
        ) is Some,
        (login.len() > 0 && secret.len() > 0) ==> credentials_refusal(SyncService::Lotw, login, secret) is None
            && credentials_refusal(SyncService::Eqsl, login, secret) is None && credentials_refusal(
            SyncService::Clublog,
            login,
            secret,
        ) is None,
        credentials_refusal(SyncService::Qrz, login, secret) is Some <==> secret.len() == 0,
{
}

} // verus!
