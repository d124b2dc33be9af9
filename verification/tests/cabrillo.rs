use splogbook::cabrillo::{cabrillo_log, CabrilloQso, CabrilloStation};

fn station() -> CabrilloStation {
    CabrilloStation {
        callsign: "SP6INA".to_string(),
        operator: "Mariusz".to_string(),
        city: "Wroclaw".to_string(),
        country: "Poland".to_string(),
    }
}

fn qso(freq: Option<u64>, band: &str, mode: &str, date: &str, time: &str, call: &str, rst: &str, srx: Option<u32>) -> CabrilloQso {
    CabrilloQso {
        freq_khz: freq,
        band: band.to_string(),
        mode: mode.to_string(),
        qso_date: date.to_string(),
        time_on: time.to_string(),
        callsign: call.to_string(),
        rst_rcvd: rst.to_string(),
        srx,
    }
}

const HEADER_TAIL: &str = "OPERATORS: SP6INA\nNAME: Mariusz\nADDRESS: Wroclaw, Poland\nSOAPBOX: Created with SPLogbook by SP6INA (GPLv3)\n";

fn header(contest: &str, score: u32) -> String {
    format!(
        "START-OF-LOG: 3.0\nCONTEST: {}\nCALLSIGN: SP6INA\nCATEGORY-OPERATOR: SINGLE-OP\nCATEGORY-TRANSMITTER: ONE\nCATEGORY-POWER: HIGH\nCATEGORY-BAND: ALL\nCATEGORY-MODE: MIXED\nCATEGORY-STATION: FIXED\nCLAIMED-SCORE: {}\n{}",
        contest, score, HEADER_TAIL
    )
}

#[test]
fn empty_log_has_header_and_end() {
    let text = cabrillo_log("SP DX", &station(), 0, 0, &vec![], "2024-05-01", "1200");
    assert_eq!(text, format!("{}END-OF-LOG:\n", header("SP DX", 0)));
}

#[test]
fn score_counts_at_least_one_multiplier() {
    let text = cabrillo_log("X", &station(), 12, 0, &vec![], "d", "t");
    assert!(text.contains("CLAIMED-SCORE: 12\n"));
    let text = cabrillo_log("X", &station(), 12, 5, &vec![], "d", "t");
    assert!(text.contains("CLAIMED-SCORE: 60\n"));
}

#[test]
fn qso_lines_oldest_first_with_serials() {
    let qsos = vec![
        qso(None, "40m", "SSB", "20240502", "1830", "DL1ABC", "59", Some(7)),
        qso(Some(14025), "20m", "CW", "20240501", "0915", "W1AW", "599", None),
    ];
    let text = cabrillo_log("SP DX", &station(), 3, 2, &qsos, "2024-05-03", "0000");
    let l1 = format!(
        "QSO: {:5} {:2} {} {} {:10} {:3} {:03} {:10} {:3} {:03}\n",
        14025u64, "CW", "2024-05-01", "0915", "SP6INA", "599", 1, "W1AW", "599", 1u32
    );
    let l2 = format!(
        "QSO: {:5} {:2} {} {} {:10} {:3} {:03} {:10} {:3} {:03}\n",
        7100u64, "PH", "2024-05-02", "1830", "SP6INA", "59", 2, "DL1ABC", "59", 7u32
    );
    assert_eq!(text, format!("{}{}{}END-OF-LOG:\n", header("SP DX", 6), l1, l2));
    assert!(text.contains("QSO: 14025 CW 2024-05-01 0915 SP6INA     599 001 W1AW       599 001\n"));
    assert!(text.contains("QSO:  7100 PH 2024-05-02 1830 SP6INA     59  002 DL1ABC     59  007\n"));
}

#[test]
fn band_defaults_and_fallback_date_time() {
    let qsos = vec![
        qso(None, "6m", "FT8", "2024", "12", "K1TTT", "-10", None),
        qso(None, "160m", "CW", "20241231", "235959", "VP8G", "5NN", Some(1234)),
    ];
    let text = cabrillo_log("T", &station(), 1, 1, &qsos, "2025-01-01", "0101");
    assert!(text.contains("QSO:  1840 CW 2024-12-31 2359 SP6INA     599 001 VP8G       5NN 1234\n"));
    assert!(text.contains("QSO: 14000 PH 2025-01-01 0101 SP6INA     59  002 K1TTT      -10 001\n"));
}

#[test]
fn long_fields_are_not_cut() {
    let qsos = vec![qso(Some(123456), "20m", "CW", "20240101", "1200", "VERYLONGCALL/P", "5999", Some(1))];
    let text = cabrillo_log("T", &station(), 1, 1, &qsos, "d", "t");
    assert!(text.contains("QSO: 123456 CW 2024-01-01 1200 SP6INA     599 001 VERYLONGCALL/P 5999 001\n"));
}
