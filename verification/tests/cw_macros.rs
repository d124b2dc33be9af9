use splogbook::cw_macros::{expand_cw_macro, keying_message, CwMacroSet};

#[test]
fn placeholders_are_filled() {
    assert_eq!(
        expand_cw_macro("CQ TEST %MYCALL% %MYCALL% TEST", "SP6INA", "DL1ABC", "599", 7),
        "CQ TEST SP6INA SP6INA TEST"
    );
    assert_eq!(expand_cw_macro("%HISCALL% 5NN %SERIAL%", "SP6INA", "DL1ABC", "599", 7), "DL1ABC 5NN 007");
    assert_eq!(expand_cw_macro("%RST% %SERIAL%", "SP6INA", "DL1ABC", "579", 1234), "579 1234");
}

#[test]
fn unknown_placeholders_and_plain_text_pass_through() {
    assert_eq!(expand_cw_macro("QTH %MYQTH% LOC %MYLOC%", "SP6INA", "X", "599", 1), "QTH %MYQTH% LOC %MYLOC%");
    assert_eq!(expand_cw_macro("?", "SP6INA", "X", "599", 1), "?");
    assert_eq!(expand_cw_macro("%MYCALL", "SP6INA", "X", "599", 1), "%MYCALL");
}

#[test]
fn replacement_text_is_not_rescanned_for_its_own_pattern() {
    // The station call itself holds a placeholder: later placeholders are still filled.
    assert_eq!(expand_cw_macro("%MYCALL%", "%HISCALL%", "DL1ABC", "599", 1), "DL1ABC");
    assert_eq!(expand_cw_macro("%MYCALL%%MYCALL%", "A%MYCALL%", "B", "5", 1), "A%MYCALL%A%MYCALL%");
}

#[test]
fn status_line() {
    assert_eq!(keying_message(28, "CQ TEST"), "Nadawanie CW (28 WPM): CQ TEST");
}

#[test]
fn default_macros() {
    let m = CwMacroSet::default();
    assert_eq!(m.wpm, 28);
    assert_eq!(m.macros.len(), 8);
    assert_eq!(m.macros[0], "CQ TEST %MYCALL% %MYCALL% TEST");
    assert_eq!(m.macros[7], "?");
}
