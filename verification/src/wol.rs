//! Wake-on-LAN: MAC address parsing and magic packet construction.

use vstd::prelude::*;

verus! {

/// `char::is_ascii_hexdigit`: `0-9`, `a-f`, `A-F`.
pub open spec fn is_hex_digit(c: char) -> bool {
    ('0' <= c && c <= '9') || ('a' <= c && c <= 'f') || ('A' <= c && c <= 'F')
}

/// Value of a hexadecimal digit.
pub open spec fn hex_value(c: char) -> int {
    if '0' <= c && c <= '9' {
        c as int - '0' as int
    } else if 'a' <= c && c <= 'f' {
        c as int - 'a' as int + 10
    } else {
        c as int - 'A' as int + 10
    }
}

/// The hexadecimal digits of a MAC string, in order; every other character
/// (separators such as `:` or `-`, spaces, anything else) is ignored.
pub open spec fn mac_hex_digits(s: Seq<char>) -> Seq<char> {
    s.filter(|c: char| is_hex_digit(c))
}

/// The six bytes that twelve hexadecimal digits spell, two digits per byte.
pub open spec fn mac_from_digits(d: Seq<char>) -> Seq<u8> {
    Seq::new(6, |i: int| (16 * hex_value(d[2 * i]) + hex_value(d[2 * i + 1])) as u8)
}

/// The message of a refused MAC string.
pub open spec fn bad_mac_length_message(s: Seq<char>) -> Seq<char> {
    "Nieprawidłowa długość adresu MAC: "@ + s
}

/// A magic packet: six `0xFF` bytes, then the MAC sixteen times.
pub open spec fn magic_packet(mac: Seq<u8>) -> Seq<u8> {
    Seq::new(102, |i: int| if i < 6 { 0xFFu8 } else { mac[(i - 6) % 6] })
}

/// The hexadecimal digit of `n` (0 to 15): `a` to `f` in lower case when
/// `lower`, else `A` to `F`.
pub open spec fn hex_char(n: int, lower: bool) -> char {
    if n < 10 {
        (n + 48) as char
    } else if lower {
        (n + 87) as char
    } else {
        (n + 55) as char
    }
}

/// The two hexadecimal digits of a byte.
pub open spec fn byte_hex(b: u8, lower: bool) -> Seq<char> {
    seq![hex_char(b as int / 16, lower), hex_char(b as int % 16, lower)]
}

/// The first `n` bytes of `mac` written in hexadecimal, `sep` between
/// bytes (`AA:BB:...` for `sep` = `:` in upper case, `aa:bb:...` in lower
/// case).
pub open spec fn mac_text(mac: Seq<u8>, sep: Seq<char>, n: int, lower: bool) -> Seq<char>
    decreases n,
{
    if n <= 0 {
        Seq::empty()
    } else if n == 1 {
        byte_hex(mac[0], lower)
    } else {
        mac_text(mac, sep, n - 1, lower) + sep + byte_hex(mac[n - 1], lower)
    }
}

proof fn lemma_hex_char(n: int, lower: bool)
    requires
        0 <= n < 16,
    ensures
        is_hex_digit(hex_char(n, lower)),
        hex_value(hex_char(n, lower)) == n,
{
}

proof fn lemma_mac_text_digits(mac: Seq<u8>, sep: Seq<char>, n: int, lower: bool)
    requires
        1 <= n <= mac.len(),
        forall|i: int| 0 <= i < sep.len() ==> !is_hex_digit(#[trigger] sep[i]),
    ensures
        mac_hex_digits(mac_text(mac, sep, n, lower)).len() == 2 * n,
        forall|j: int|
            0 <= j < n ==> mac_hex_digits(mac_text(mac, sep, n, lower))[2 * j] == hex_char(mac[j] as int / 16, lower)
                && mac_hex_digits(mac_text(mac, sep, n, lower))[2 * j + 1] == hex_char(mac[j] as int % 16, lower),
    decreases n,
{
    let p = |c: char| is_hex_digit(c);
    lemma_hex_char(mac[n - 1] as int / 16, lower);
    lemma_hex_char(mac[n - 1] as int % 16, lower);
    let b = byte_hex(mac[n - 1], lower);
    reveal_with_fuel(Seq::filter, 3);
    assert(b.drop_last() =~= seq![hex_char(mac[n - 1] as int / 16, lower)]);
    assert(b.drop_last().drop_last() =~= Seq::<char>::empty());
    assert(b.filter(p) =~= b);
    if n == 1 {
        assert(mac_text(mac, sep, 1, lower) == b);
    } else {
        lemma_mac_text_digits(mac, sep, n - 1, lower);
        let prev = mac_text(mac, sep, n - 1, lower);
        Seq::filter_distributes_over_add(prev + sep, b, p);
        Seq::filter_distributes_over_add(prev, sep, p);
        sep.lemma_all_neg_filter_empty(p);
        assert(sep.filter(p) =~= Seq::<char>::empty());
        let d = mac_hex_digits(mac_text(mac, sep, n, lower));
        let dp = mac_hex_digits(prev);
        assert(d =~= dp + b);
        assert forall|j: int| 0 <= j < n implies d[2 * j] == hex_char(mac[j] as int / 16, lower)
            && d[2 * j + 1] == hex_char(mac[j] as int % 16, lower) by {
            if j < n - 1 {
                assert(d[2 * j] == dp[2 * j]);
                assert(d[2 * j + 1] == dp[2 * j + 1]);
            }
        }
    }
}

/// `parse_mac` reads back the usual notation of a MAC address: its six
/// bytes as hexadecimal pairs, in upper or in lower case, joined by any
/// separator without hexadecimal digits (`:`, `-`, or none).
pub proof fn lemma_parse_mac_notation(mac: Seq<u8>, sep: Seq<char>, lower: bool)
    requires
        mac.len() == 6,
        forall|i: int| 0 <= i < sep.len() ==> !is_hex_digit(#[trigger] sep[i]),
    ensures
        mac_hex_digits(mac_text(mac, sep, 6, lower)).len() == 12,
        mac_from_digits(mac_hex_digits(mac_text(mac, sep, 6, lower))) == mac,
{
    lemma_mac_text_digits(mac, sep, 6, lower);
    let d = mac_hex_digits(mac_text(mac, sep, 6, lower));
    assert forall|i: int| 0 <= i < 6 implies mac_from_digits(d)[i] == mac[i] by {
        lemma_hex_char(mac[i] as int / 16, lower);
        lemma_hex_char(mac[i] as int % 16, lower);
        assert(d[2 * i] == hex_char(mac[i] as int / 16, lower));
        assert(d[2 * i + 1] == hex_char(mac[i] as int % 16, lower));
    }
    assert(mac_from_digits(d) =~= mac);
}

/// Client that wakes a station computer or transceiver over the LAN.
pub struct WolClient;

fn hex_digit_check(c: char) -> (b: bool)
    ensures
        b == is_hex_digit(c),
{
    ('0' <= c && c <= '9') || ('a' <= c && c <= 'f') || ('A' <= c && c <= 'F')
}

fn hex_digit_value(c: char) -> (v: u8)
    requires
        is_hex_digit(c),
    ensures
        v as int == hex_value(c),
        v < 16,
{
    let n = c as u32;
    if '0' <= c && c <= '9' {
        (n - ('0' as u32)) as u8
    } else if 'a' <= c && c <= 'f' {
        (n - ('a' as u32) + 10) as u8
    } else {
        (n - ('A' as u32) + 10) as u8
    }
}

impl WolClient {
    /// Parses a MAC address written as `AA:BB:CC:DD:EE:FF`, `AA-BB-CC-DD-EE-FF`
    /// or `AABBCCDDEEFF`: the hexadecimal digits of the string are taken in
    /// order, and there must be exactly twelve of them.
    pub fn parse_mac(mac_str: &str) -> (res: Result<[u8; 6], String>)
        ensures
            match res {
                Ok(mac) => mac_hex_digits(mac_str@).len() == 12 && mac@ == mac_from_digits(
                    mac_hex_digits(mac_str@),
                ),
                Err(msg) => mac_hex_digits(mac_str@).len() != 12 && msg@ == bad_mac_length_message(
                    mac_str@,
                ),
            },
    {
        let n = mac_str.unicode_len();
        let mut clean: Vec<char> = Vec::new();
        let mut i: usize = 0;
        while i < n
            invariant
                n == mac_str@.len(),
                i <= n,
                clean@ == mac_str@.take(i as int).filter(|c: char| is_hex_digit(c)),
            decreases n - i,
        {
            let c = mac_str.get_char(i);
            proof {
                reveal(Seq::filter);
                assert(mac_str@.take(i + 1).drop_last() =~= mac_str@.take(i as int));
            }
            if hex_digit_check(c) {
                clean.push(c);
            }
            i = i + 1;
        }
        assert(mac_str@.take(n as int) =~= mac_str@);
        if clean.len() != 12 {
            let mut msg = String::from_str("Nieprawidłowa długość adresu MAC: ");
            msg.append(mac_str);
            return Err(msg);
        }
        let mut mac = [0u8; 6];
        let mut k: usize = 0;
        while k < 6
            invariant
                k <= 6,
                clean@.len() == 12,
                forall|j: int| #![trigger clean@[j]] 0 <= j < 12 ==> is_hex_digit(clean@[j]),
                forall|j: int| 0 <= j < k ==> mac@[j] == mac_from_digits(clean@)[j],
            decreases 6 - k,
        {
            let hi = hex_digit_value(clean[2 * k]);
            let lo = hex_digit_value(clean[2 * k + 1]);
            mac[k] = hi * 16 + lo;
            k = k + 1;
        }
        assert(mac@ =~= mac_from_digits(clean@));
        Ok(mac)
    }

    /// Builds the magic packet for `mac`: six `0xFF` bytes followed by
    /// sixteen copies of the address, 102 bytes in all.
    pub fn build_magic_packet(mac: &[u8; 6]) -> (packet: [u8; 102])
        ensures
            packet@ == magic_packet(mac@),
    {
        let mut packet = [0u8; 102];
        let mut i: usize = 0;
        while i < 6
            invariant
                i <= 6,
                packet@.len() == 102,
                forall|j: int| 0 <= j < i ==> packet@[j] == 0xFFu8,
            decreases 6 - i,
        {
            packet[i] = 0xFF;
            i = i + 1;
        }
        let mut k: usize = 0;
        while i < 102
            invariant
                6 <= i <= 102,
                k < 6,
                k == (i - 6) % 6,
                packet@.len() == 102,
                forall|j: int| 0 <= j < 6 ==> packet@[j] == 0xFFu8,
                forall|j: int| 6 <= j < i ==> packet@[j] == mac@[(j - 6) % 6],
            decreases 102 - i,
        {
            packet[i] = mac[k];
            k = if k == 5 { 0 } else { k + 1 };
            i = i + 1;
        }
        assert(packet@ =~= magic_packet(mac@));
        packet
    }

    /// What `send_wol` sends, and where: the magic packet of `mac_str`, to
    /// `target_broadcast`, by default `255.255.255.255:9`; a MAC string
    /// that `parse_mac` refuses is refused with its message.
    pub fn wol_datagram(mac_str: &str, target_broadcast: Option<&str>) -> (res: Result<([u8; 102], String), String>)
        ensures
            match res {
                Ok((packet, dest)) => {
                    &&& mac_hex_digits(mac_str@).len() == 12
                    &&& packet@ == magic_packet(mac_from_digits(mac_hex_digits(mac_str@)))
                    &&& dest@ == match target_broadcast {
                        Some(t) => t@,
                        None => "255.255.255.255:9"@,
                    }
                },
                Err(msg) => mac_hex_digits(mac_str@).len() != 12 && msg@ == bad_mac_length_message(
                    mac_str@,
                ),
            },
    {
        let mac = match Self::parse_mac(mac_str) {
            Ok(mac) => mac,
            Err(msg) => return Err(msg),
        };
        let packet = Self::build_magic_packet(&mac);
        let dest = match target_broadcast {
            Some(t) => String::from_str(t),
            None => String::from_str("255.255.255.255:9"),
        };
        Ok((packet, dest))
    }
}

} // verus!
