use splogbook::spots::{
    cap_spots, extract_pota_sota, filter_spots, receive_spot, find_refs_in_upper, spot_passes_filter, ClusterSpot, SpotFilter,
};

#[test]
fn test_extract_pota_sota() {
    let (pota, sota) = extract_pota_sota("CQ POTA SP-0123 from park");
    assert_eq!(pota, Some("SP-0123".to_string()));
    assert_eq!(sota, None);

    let (pota, sota) = extract_pota_sota("QRV SOTA SP/BZ-001 atop peak");
    assert_eq!(pota, None);
    assert_eq!(sota, Some("SP/BZ-001".to_string()));

    let (pota, sota) = extract_pota_sota("Dual act: POTA K-1234 & SOTA W6/NC-421 good sig");
    assert_eq!(pota, Some("K-1234".to_string()));
    assert_eq!(sota, Some("W6/NC-421".to_string()));

    let (pota, sota) = extract_pota_sota("Just regular 599 tu 73");
    assert_eq!(pota, None);
    assert_eq!(sota, None);
}

#[test]
fn references_are_upper_cased() {
    let (pota, sota) = extract_pota_sota("pota sp-0123 and sota sp/bz-001");
    assert_eq!(pota, Some("SP-0123".to_string()));
    assert_eq!(sota, Some("SP/BZ-001".to_string()));
}

#[test]
fn edge_punctuation_is_trimmed() {
    let (pota, sota) = extract_pota_sota("(K-1234), [W6/NC-421]!");
    assert_eq!(pota, Some("K-1234".to_string()));
    assert_eq!(sota, Some("W6/NC-421".to_string()));
}

#[test]
fn last_reference_of_each_kind_wins() {
    let (pota, sota) = extract_pota_sota("K-1234 then SP-0001 and W6/NC-421 then SP/BZ-002");
    assert_eq!(pota, Some("SP-0001".to_string()));
    assert_eq!(sota, Some("SP/BZ-002".to_string()));
}

#[test]
fn park_number_length_bounds() {
    assert_eq!(extract_pota_sota("K-12").0, None);
    assert_eq!(extract_pota_sota("K-123").0, Some("K-123".to_string()));
    assert_eq!(extract_pota_sota("K-12345").0, Some("K-12345".to_string()));
    assert_eq!(extract_pota_sota("K-123456").0, None);
    assert_eq!(extract_pota_sota("ABCDE-123").0, None);
    assert_eq!(extract_pota_sota("-123").0, None);
    assert_eq!(extract_pota_sota("K-12A").0, None);
}

#[test]
fn park_prefix_counts_bytes() {
    // 'É' takes two bytes: "ÉSP" is four bytes, "ÉSPX" five.
    assert_eq!(extract_pota_sota("ésp-123").0, Some("ÉSP-123".to_string()));
    assert_eq!(extract_pota_sota("éspx-123").0, None);
}

#[test]
fn summit_needs_one_slash_and_two_letter_region() {
    assert_eq!(extract_pota_sota("W6/NCX-421").1, None);
    assert_eq!(extract_pota_sota("W6/NC-42").1, None);
    assert_eq!(extract_pota_sota("W6/NC-4210").1, Some("W6/NC-4210".to_string()));
    assert_eq!(extract_pota_sota("A/W6/NC-421").1, None);
    assert_eq!(extract_pota_sota("W6/NC421").1, None);
    // The number has 3 or 4 digits, the association 1 to 3 characters.
    assert_eq!(extract_pota_sota("QRV W6/NC-42100"), (None, None));
    assert_eq!(extract_pota_sota("VK3A/VC-001").1, None);
    assert_eq!(extract_pota_sota("/VC-001").1, None);
    assert_eq!(extract_pota_sota("G/LD-001").1, Some("G/LD-001".to_string()));
    assert_eq!(extract_pota_sota("3Y0/BV-0001").1, Some("3Y0/BV-0001".to_string()));
}

#[test]
fn unicode_whitespace_separates_words() {
    let (pota, sota) = extract_pota_sota("K-1234\u{3000}W6/NC-421\u{a0}x");
    assert_eq!(pota, Some("K-1234".to_string()));
    assert_eq!(sota, Some("W6/NC-421".to_string()));
}

#[test]
fn a_word_is_never_both_kinds() {
    let (pota, sota) = extract_pota_sota("SP/BZ-001");
    assert_eq!(pota, None);
    assert_eq!(sota, Some("SP/BZ-001".to_string()));
}

#[test]
fn find_refs_in_upper_reads_text_as_given() {
    let (pota, _) = find_refs_in_upper("sp-0123");
    assert_eq!(pota, Some("sp-0123".to_string()));
    assert_eq!(find_refs_in_upper(""), (None, None));
}

fn spot(call: &str, spotter: &str, comment: &str, band: &str, ft8: bool, skimmer: bool) -> ClusterSpot {
    ClusterSpot {
        frequency_hz: 14_025_000,
        dx_call: call.to_string(),
        spotter: spotter.to_string(),
        comment: comment.to_string(),
        band: band.to_string(),
        is_ft8: ft8,
        is_skimmer: skimmer,
    }
}

fn filter(query: &str, band: &str, mode: &str, source: &str, pota_sota_only: bool) -> SpotFilter {
    SpotFilter {
        search_query: query.to_string(),
        band: band.to_string(),
        mode: mode.to_string(),
        source: source.to_string(),
        pota_sota_only,
    }
}

fn sample_spots() -> Vec<ClusterSpot> {
    vec![
        spot("SP5ABC", "DL1XX", "CQ POTA SP-0123", "20m", false, false),
        spot("K1ABC", "W1AW-#", "CW 24 dB 22 WPM", "40m", false, true),
        spot("JA1XYZ", "SP9QQ", "FT8 -12 dB", "20m", true, false),
        spot("G4ABC", "EI2ZZ", "ssb 59 sota G/LD-001", "40m", false, false),
    ]
}

#[test]
fn no_filter_shows_every_spot() {
    let spots = sample_spots();
    let f = filter("", "ALL", "ALL", "ALL", false);
    assert_eq!(filter_spots(&spots, &f, "20m"), vec![0, 1, 2, 3]);
}

#[test]
fn reference_only_filter() {
    let spots = sample_spots();
    let f = filter("", "ALL", "ALL", "ALL", true);
    assert_eq!(filter_spots(&spots, &f, "20m"), vec![0, 3]);
}

#[test]
fn search_matches_call_comment_or_spotter_without_case() {
    let spots = sample_spots();
    assert_eq!(filter_spots(&spots, &filter("  sp", "ALL", "ALL", "ALL", false), "20m"), vec![0, 2]);
    assert_eq!(filter_spots(&spots, &filter("wpm ", "ALL", "ALL", "ALL", false), "20m"), vec![1]);
    assert_eq!(filter_spots(&spots, &filter("ei2", "ALL", "ALL", "ALL", false), "20m"), vec![3]);
    assert_eq!(filter_spots(&spots, &filter("nothing", "ALL", "ALL", "ALL", false), "20m"), Vec::<usize>::new());
}

#[test]
fn band_filter_by_name_and_by_vfo() {
    let spots = sample_spots();
    assert_eq!(filter_spots(&spots, &filter("", "40m", "ALL", "ALL", false), "20m"), vec![1, 3]);
    assert_eq!(filter_spots(&spots, &filter("", "VFO", "ALL", "ALL", false), "20m"), vec![0, 2]);
    assert_eq!(filter_spots(&spots, &filter("", "VFO", "ALL", "ALL", false), "40m"), vec![1, 3]);
}

#[test]
fn mode_filters() {
    let spots = sample_spots();
    // CW drops FT8 spots and comments naming FT8 or SSB (upper-cased first).
    assert_eq!(filter_spots(&spots, &filter("", "ALL", "CW", "ALL", false), "20m"), vec![0, 1]);
    // SSB drops FT8 spots and comments naming CW.
    assert_eq!(filter_spots(&spots, &filter("", "ALL", "SSB", "ALL", false), "20m"), vec![0, 3]);
    assert_eq!(filter_spots(&spots, &filter("", "ALL", "DIGI", "ALL", false), "20m"), vec![2]);
}

#[test]
fn source_filters() {
    let spots = sample_spots();
    assert_eq!(filter_spots(&spots, &filter("", "ALL", "ALL", "HUMAN", false), "20m"), vec![0, 2, 3]);
    assert_eq!(filter_spots(&spots, &filter("", "ALL", "ALL", "RBN", false), "20m"), vec![1]);
}

#[test]
fn single_spot_check_takes_prepared_query() {
    let s = spot("SP5ABC", "DL1XX", "CQ POTA SP-0123", "20m", false, false);
    let f = filter("ignored here", "ALL", "ALL", "ALL", false);
    assert!(spot_passes_filter(&s, &f, "5AB", "20m"));
    assert!(!spot_passes_filter(&s, &f, "5ab", "20m"));
    assert!(spot_passes_filter(&s, &f, "", "20m"));
}

fn at(call: &str, band: &str, hz: u64) -> ClusterSpot {
    let mut s = spot(call, "DL1XX", "", band, false, false);
    s.frequency_hz = hz;
    s
}

#[test]
fn repeated_spots_are_dropped() {
    let mut list = Vec::new();
    assert!(receive_spot(&mut list, at("K1ABC", "20m", 14_025_000)));
    assert!(!receive_spot(&mut list, at("K1ABC", "20m", 14_026_999)));
    assert!(receive_spot(&mut list, at("K1ABC", "20m", 14_027_000)));
    assert!(receive_spot(&mut list, at("K1ABC", "40m", 7_025_000)));
    assert!(receive_spot(&mut list, at("W1AW", "20m", 14_025_000)));
    assert_eq!(list.len(), 4);
    assert_eq!(list[0].dx_call, "W1AW");
    assert_eq!(list[3].frequency_hz, 14_025_000);
}

#[test]
fn only_the_newest_thirty_are_checked() {
    let mut list = Vec::new();
    receive_spot(&mut list, at("K1ABC", "20m", 14_025_000));
    for i in 0..30u64 {
        receive_spot(&mut list, at("W1AW", "20m", 14_000_000 + i * 10_000));
    }
    assert!(receive_spot(&mut list, at("K1ABC", "20m", 14_025_000)));
    assert_eq!(list.len(), 32);
}

#[test]
fn list_is_capped() {
    let mut list = Vec::new();
    for i in 0..250u64 {
        receive_spot(&mut list, at("W1AW", "20m", 14_000_000 + i * 10_000));
    }
    cap_spots(&mut list);
    assert_eq!(list.len(), 200);
    assert_eq!(list[0].frequency_hz, 14_000_000 + 249 * 10_000);
}
