use splogbook::wol::WolClient;

#[test]
fn test_wol_magic_packet() {
    let mac_str = "00:11:22:33:44:55";
    let mac = WolClient::parse_mac(mac_str).unwrap();
    assert_eq!(mac, [0x00, 0x11, 0x22, 0x33, 0x44, 0x55]);

    let packet = WolClient::build_magic_packet(&mac);
    assert_eq!(packet.len(), 102);
    assert_eq!(&packet[0..6], &[0xFF, 0xFF, 0xFF, 0xFF, 0xFF, 0xFF]);
    assert_eq!(&packet[6..12], &[0x00, 0x11, 0x22, 0x33, 0x44, 0x55]);
    assert_eq!(&packet[96..102], &[0x00, 0x11, 0x22, 0x33, 0x44, 0x55]);
}

#[test]
fn parse_mac_accepts_the_three_notations() {
    let expected = [0xAA, 0xBB, 0xCC, 0xDD, 0xEE, 0xFF];
    assert_eq!(WolClient::parse_mac("AA:BB:CC:DD:EE:FF").unwrap(), expected);
    assert_eq!(WolClient::parse_mac("AA-BB-CC-DD-EE-FF").unwrap(), expected);
    assert_eq!(WolClient::parse_mac("AABBCCDDEEFF").unwrap(), expected);
    assert_eq!(WolClient::parse_mac("aa:bb:cc:dd:ee:ff").unwrap(), expected);
}

#[test]
fn parse_mac_ignores_other_characters() {
    assert_eq!(
        WolClient::parse_mac(" 01.23 45|67 89 Ab ").unwrap(),
        [0x01, 0x23, 0x45, 0x67, 0x89, 0xAB]
    );
}

#[test]
fn parse_mac_refuses_wrong_length() {
    assert_eq!(
        WolClient::parse_mac("AA:BB:CC:DD:EE").unwrap_err(),
        "Nieprawidłowa długość adresu MAC: AA:BB:CC:DD:EE"
    );
    assert_eq!(
        WolClient::parse_mac("AA:BB:CC:DD:EE:FF:00").unwrap_err(),
        "Nieprawidłowa długość adresu MAC: AA:BB:CC:DD:EE:FF:00"
    );
    assert!(WolClient::parse_mac("").is_err());
    assert!(WolClient::parse_mac("GG:HH:II:JJ:KK:LL").is_err());
}

#[test]
fn magic_packet_repeats_the_address_sixteen_times() {
    let mac = [1, 2, 3, 4, 5, 6];
    let packet = WolClient::build_magic_packet(&mac);
    for rep in 0..16 {
        let off = 6 + rep * 6;
        assert_eq!(&packet[off..off + 6], &mac);
    }
}

#[test]
fn wol_datagram_defaults_to_broadcast_port_nine() {
    let (packet, dest) = WolClient::wol_datagram("00-11-22-33-44-55", None).unwrap();
    assert_eq!(dest, "255.255.255.255:9");
    assert_eq!(&packet[0..6], &[0xFF; 6]);
    assert_eq!(&packet[6..12], &[0x00, 0x11, 0x22, 0x33, 0x44, 0x55]);
    let (_, dest) = WolClient::wol_datagram("001122334455", Some("192.168.1.255:7")).unwrap();
    assert_eq!(dest, "192.168.1.255:7");
    assert_eq!(
        WolClient::wol_datagram("0011", None).unwrap_err(),
        "Nieprawidłowa długość adresu MAC: 0011"
    );
}

#[test]
fn parse_mac_reads_back_usual_notation() {
    let mac = [0x0A, 0xF0, 0x00, 0x9C, 0x7E, 0xFF];
    let text = mac.iter().map(|b| format!("{:02X}", b)).collect::<Vec<_>>().join("-");
    assert_eq!(WolClient::parse_mac(&text).unwrap(), mac);
}
