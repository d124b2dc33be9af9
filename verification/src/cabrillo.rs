//! Cabrillo 3.0 contest log: the text of the file written for a contest.

use vstd::prelude::*;
use crate::text::{
    char_utf8_width, chars_of, decimal, decimal_string, lemma_utf8_len_push, same_text, utf8_len,
};

verus! {

/// The operating station, as the log's header names it.
pub struct CabrilloStation {
    pub callsign: String,
    pub operator: String,
    pub city: String,
    pub country: String,
}

/// A logged QSO, as a Cabrillo `QSO:` line reads it. `freq_khz` is the
/// logged frequency in kHz, where one was logged.
pub struct CabrilloQso {
    pub freq_khz: Option<u64>,
    pub band: String,
    pub mode: String,
    pub qso_date: String,
    pub time_on: String,
    pub callsign: String,
    pub rst_rcvd: String,
    pub srx: Option<u32>,
}

/// `n` copies of `c`.
pub open spec fn repeat(c: char, n: int) -> Seq<char> {
    Seq::new(if n < 0 { 0 } else { n as nat }, |i: int| c)
}

/// `s` padded with spaces at the end to at least `w` characters (`{:w}` for
/// text).
pub open spec fn pad_end(s: Seq<char>, w: int) -> Seq<char> {
    s + repeat(' ', w - s.len())
}

/// `s` padded with `fill` at the start to at least `w` characters (`{:w}`
/// for numbers with `fill` a space, `{:0w}` with `fill` a zero).
pub open spec fn pad_start(s: Seq<char>, w: int, fill: char) -> Seq<char> {
    repeat(fill, w - s.len()) + s
}

/// The frequency (kHz) a band stands for where no frequency was logged.
pub open spec fn band_khz(band: Seq<char>) -> nat {
    if band == "160m"@ {
        1840
    } else if band == "80m"@ {
        3700
    } else if band == "40m"@ {
        7100
    } else if band == "20m"@ {
        14200
    } else if band == "15m"@ {
        21200
    } else if band == "10m"@ {
        28500
    } else {
        14000
    }
}

/// A QSO without a logged frequency is filed inside its own band: 160 m
/// at 1800–2000 kHz, 80 m at 3500–4000, 40 m at 7000–7300, 20 m at
/// 14000–14350, 15 m at 21000–21450, 10 m at 28000–29700; a band not in
/// this list is filed at 14000 kHz.
pub proof fn lemma_band_khz_in_band(q: CabrilloQso)
    requires
        q.freq_khz is None,
    ensures
        q.band@ == "160m"@ ==> 1800 <= qso_khz(q) <= 2000,
        q.band@ == "80m"@ ==> 3500 <= qso_khz(q) <= 4000,
        q.band@ == "40m"@ ==> 7000 <= qso_khz(q) <= 7300,
        q.band@ == "20m"@ ==> 14000 <= qso_khz(q) <= 14350,
        q.band@ == "15m"@ ==> 21000 <= qso_khz(q) <= 21450,
        q.band@ == "10m"@ ==> 28000 <= qso_khz(q) <= 29700,
        q.band@ != "160m"@ && q.band@ != "80m"@ && q.band@ != "40m"@ && q.band@ != "20m"@ && q.band@ != "15m"@
            && q.band@ != "10m"@ ==> qso_khz(q) == 14000,
{
    reveal_strlit("160m");
    reveal_strlit("80m");
    reveal_strlit("40m");
    reveal_strlit("20m");
    reveal_strlit("15m");
    reveal_strlit("10m");
    let b = q.band@;
    if b == "80m"@ || b == "40m"@ || b == "20m"@ || b == "15m"@ || b == "10m"@ {
        assert(b.len() != "160m"@.len());
    }
    if b == "40m"@ || b == "20m"@ || b == "15m"@ || b == "10m"@ {
        assert(b[0] != "80m"@[0]);
    }
    if b == "20m"@ || b == "15m"@ || b == "10m"@ {
        assert(b[0] != "40m"@[0]);
    }
    if b == "15m"@ || b == "10m"@ {
        assert(b[0] != "20m"@[0]);
    }
    if b == "10m"@ {
        assert(b[1] != "15m"@[1]);
    }
}

/// Byte offset `b` of the UTF-8 encoding of `s` falls between characters.
pub open spec fn is_byte_boundary(s: Seq<char>, b: int) -> bool {
    exists|k: int| 0 <= k <= s.len() && utf8_len(s.take(k)) == b
}

/// The number of characters that the first `b` bytes of `s` encode.
pub open spec fn chars_before_byte(s: Seq<char>, b: int) -> int {
    choose|k: int| 0 <= k <= s.len() && utf8_len(s.take(k)) == b
}

/// The characters of `s` that its bytes `a..b` encode (`&s[a..b]`).
pub open spec fn byte_slice(s: Seq<char>, a: int, b: int) -> Seq<char> {
    s.subrange(chars_before_byte(s, a), chars_before_byte(s, b))
}

/// A QSO's date as `YYYY-MM-DD`: an 8-byte `YYYYMMDD` is split, anything
/// else gives `today`.
pub open spec fn cabrillo_date(d: Seq<char>, today: Seq<char>) -> Seq<char> {
    if utf8_len(d) == 8 {
        byte_slice(d, 0, 4) + "-"@ + byte_slice(d, 4, 6) + "-"@ + byte_slice(d, 6, 8)
    } else {
        today
    }
}

/// A QSO's time as `HHMM`: its first 4 bytes, or `now` where it is shorter.
pub open spec fn cabrillo_time(t: Seq<char>, now: Seq<char>) -> Seq<char> {
    if utf8_len(t) >= 4 {
        byte_slice(t, 0, 4)
    } else {
        now
    }
}

/// The slices that the date and time of a QSO are cut into fall between
/// characters.
pub open spec fn cuts_fall_between_chars(q: CabrilloQso) -> bool {
    &&& utf8_len(q.qso_date@) == 8 ==> is_byte_boundary(q.qso_date@, 4) && is_byte_boundary(
        q.qso_date@,
        6,
    )
    &&& utf8_len(q.time_on@) >= 4 ==> is_byte_boundary(q.time_on@, 4)
}

/// The kHz figure of a QSO: the logged frequency, or its band's.
pub open spec fn qso_khz(q: CabrilloQso) -> nat {
    match q.freq_khz {
        Some(k) => k as nat,
        None => band_khz(q.band@),
    }
}

/// The first fields of a `QSO:` line: frequency, mode, date and time.
pub open spec fn qso_line_head(q: CabrilloQso, today: Seq<char>, now: Seq<char>) -> Seq<char> {
    let cw = q.mode@ == "CW"@;
    "QSO: "@ + pad_start(decimal(qso_khz(q)), 5, ' ') + " "@ + pad_end(if cw { "CW"@ } else { "PH"@ }, 2)
        + " "@ + cabrillo_date(q.qso_date@, today) + " "@ + cabrillo_time(q.time_on@, now) + " "@
}

/// The exchange fields of a `QSO:` line: the sent call, report and serial
/// number, then the received ones.
pub open spec fn qso_line_exchange(q: CabrilloQso, serial: nat, my_call: Seq<char>) -> Seq<char> {
    let cw = q.mode@ == "CW"@;
    let received = match q.srx {
        Some(n) => n as nat,
        None => 1,
    };
    pad_end(my_call, 10) + " "@ + pad_end(if cw { "599"@ } else { "59"@ }, 3) + " "@ + pad_start(
        decimal(serial),
        3,
        '0',
    ) + " "@ + pad_end(q.callsign@, 10) + " "@ + pad_end(q.rst_rcvd@, 3) + " "@ + pad_start(
        decimal(received),
        3,
        '0',
    ) + "\n"@
}

/// The `QSO:` line of `q`, sent serial number `serial`.
pub open spec fn qso_line(
    q: CabrilloQso,
    serial: nat,
    my_call: Seq<char>,
    today: Seq<char>,
    now: Seq<char>,
) -> Seq<char> {
    qso_line_head(q, today, now) + qso_line_exchange(q, serial, my_call)
}

/// The `QSO:` lines of the first `n` QSOs of `qs`, numbered from 1.
pub open spec fn qso_lines(
    qs: Seq<CabrilloQso>,
    n: int,
    my_call: Seq<char>,
    today: Seq<char>,
    now: Seq<char>,
) -> Seq<char>
    decreases n,
{
    if n <= 0 {
        Seq::empty()
    } else {
        qso_lines(qs, n - 1, my_call, today, now) + qso_line(qs[n - 1], n as nat, my_call, today, now)
    }
}

/// The header of the log.
pub open spec fn cabrillo_header(contest: Seq<char>, st: CabrilloStation, score: nat) -> Seq<char> {
    "START-OF-LOG: 3.0\n"@ + "CONTEST: "@ + contest + "\n"@ + "CALLSIGN: "@ + st.callsign@ + "\n"@
        + "CATEGORY-OPERATOR: SINGLE-OP\n"@ + "CATEGORY-TRANSMITTER: ONE\n"@
        + "CATEGORY-POWER: HIGH\n"@ + "CATEGORY-BAND: ALL\n"@ + "CATEGORY-MODE: MIXED\n"@
        + "CATEGORY-STATION: FIXED\n"@ + "CLAIMED-SCORE: "@ + decimal(score) + "\n"@
        + "OPERATORS: "@ + st.callsign@ + "\n"@ + "NAME: "@ + st.operator@ + "\n"@ + "ADDRESS: "@
        + st.city@ + ", "@ + st.country@ + "\n"@
        + "SOAPBOX: Created with SPLogbook by SP6INA (GPLv3)\n"@
}

/// The claimed score: points times multipliers, counting at least one
/// multiplier.
pub open spec fn claimed_score(points: u32, mults: u32) -> nat {
    (points * if mults < 1 { 1 } else { mults }) as nat
}

/// The whole log: header, one `QSO:` line per QSO from the oldest (the
/// last of `qsos`, which lists the newest first), and the end marker.
pub open spec fn cabrillo_text(
    contest: Seq<char>,
    st: CabrilloStation,
    points: u32,
    mults: u32,
    qsos: Seq<CabrilloQso>,
    today: Seq<char>,
    now: Seq<char>,
) -> Seq<char> {
    cabrillo_header(contest, st, claimed_score(points, mults)) + qso_lines(
        qsos.reverse(),
        qsos.len() as int,
        st.callsign@,
        today,
        now,
    ) + "END-OF-LOG:\n"@
}

proof fn lemma_utf8_len_strictly_grows(s: Seq<char>, k1: int, k2: int)
    requires
        0 <= k1 < k2 <= s.len(),
    ensures
        utf8_len(s.take(k1)) < utf8_len(s.take(k2)),
    decreases k2 - k1,
{
    vstd::utf8::char_is_scalar(s[k2 - 1]);
    assert(s.take(k2) =~= s.take(k2 - 1).push(s[k2 - 1]));
    lemma_utf8_len_push(s.take(k2 - 1), s[k2 - 1]);
    if k1 < k2 - 1 {
        lemma_utf8_len_strictly_grows(s, k1, k2 - 1);
    }
}

proof fn lemma_chars_before_byte(s: Seq<char>, b: int, k: int)
    requires
        0 <= k <= s.len(),
        utf8_len(s.take(k)) == b,
    ensures
        is_byte_boundary(s, b),
        chars_before_byte(s, b) == k,
{
    let c = chars_before_byte(s, b);
    if c < k {
        lemma_utf8_len_strictly_grows(s, c, k);
    } else if c > k {
        lemma_utf8_len_strictly_grows(s, k, c);
    }
}

/// The number of characters that the first `b` bytes of `chars` encode,
/// where byte `b` falls between characters.
fn char_index_at_byte(chars: &Vec<char>, b: usize) -> (r: Option<usize>)
    requires
        b <= 64,
    ensures
        match r {
            Some(k) => is_byte_boundary(chars@, b as int) && k == chars_before_byte(chars@, b as int),
            None => !is_byte_boundary(chars@, b as int),
        },
{
    let mut sum: usize = 0;
    let mut k: usize = 0;
    assert(chars@.take(0) =~= Seq::<char>::empty());
    assert(utf8_len(Seq::<char>::empty()) == 0);
    while k < chars.len() && sum < b
        invariant
            k <= chars@.len(),
            b <= 64,
            sum <= b,
            sum == utf8_len(chars@.take(k as int)),
        decreases chars@.len() - k,
    {
        let w: usize = char_utf8_width(chars[k]);
        proof {
            assert(chars@.take(k + 1) =~= chars@.take(k as int).push(chars@[k as int]));
            lemma_utf8_len_push(chars@.take(k as int), chars@[k as int]);
        }
        if sum + w > b {
            proof {
                assert forall|j: int| 0 <= j <= chars@.len() implies utf8_len(#[trigger] chars@.take(j)) != b by {
                    if j <= k {
                        if j < k {
                            lemma_utf8_len_strictly_grows(chars@, j, k as int);
                        }
                    } else {
                        if j > k + 1 {
                            lemma_utf8_len_strictly_grows(chars@, k + 1, j);
                        }
                    }
                }
            }
            return None;
        }
        sum = sum + w;
        k = k + 1;
    }
    if sum == b {
        proof {
            lemma_chars_before_byte(chars@, b as int, k as int);
        }
        Some(k)
    } else {
        proof {
            assert(k == chars@.len());
            assert forall|j: int| 0 <= j <= chars@.len() implies utf8_len(#[trigger] chars@.take(j)) != b by {
                if j < k {
                    lemma_utf8_len_strictly_grows(chars@, j, k as int);
                }
            }
        }
        None
    }
}

/// The byte length of `chars`, or 9 where it exceeds 8.
fn utf8_len_up_to_nine(chars: &Vec<char>) -> (n: usize)
    ensures
        utf8_len(chars@) <= 8 ==> n == utf8_len(chars@),
        utf8_len(chars@) > 8 ==> n == 9,
{
    let r: usize = crate::text::utf8_len_capped(chars, 0, chars.len(), 8);
    assert(chars@.subrange(0, chars@.len() as int) =~= chars@);
    r
}

fn append_pad_end(out: &mut String, s: &str, w: usize)
    ensures
        final(out)@ == old(out)@ + pad_end(s@, w as int),
{
    let ghost base = out@;
    out.append(s);
    let n: usize = s.unicode_len();
    let mut k: usize = n;
    while k < w
        invariant
            n == s@.len(),
            n <= k,
            n >= w ==> k == n,
            n < w ==> k <= w,
            out@ == base + s@ + repeat(' ', k - n),
        decreases w - k,
    {
        out.push(' ');
        k = k + 1;
        assert(out@ =~= base + s@ + repeat(' ', k - n));
    }
    assert(out@ =~= base + pad_end(s@, w as int));
}

pub(crate) fn append_pad_start(out: &mut String, s: &str, w: usize, fill: char)
    ensures
        final(out)@ == old(out)@ + pad_start(s@, w as int, fill),
{
    let ghost base = out@;
    let n: usize = s.unicode_len();
    let mut k: usize = n;
    assert(out@ =~= base + repeat(fill, 0));
    while k < w
        invariant
            n == s@.len(),
            n <= k,
            n >= w ==> k == n,
            n < w ==> k <= w,
            out@ == base + repeat(fill, k - n),
        decreases w - k,
    {
        out.push(fill);
        k = k + 1;
        assert(out@ =~= base + repeat(fill, k - n));
    }
    out.append(s);
    assert(out@ =~= base + pad_start(s@, w as int, fill));
}

fn band_khz_of(band: &str) -> (k: u64)
    ensures
        k == band_khz(band@),
{
    if same_text(band, "160m") {
        1840
    } else if same_text(band, "80m") {
        3700
    } else if same_text(band, "40m") {
        7100
    } else if same_text(band, "20m") {
        14200
    } else if same_text(band, "15m") {
        21200
    } else if same_text(band, "10m") {
        28500
    } else {
        14000
    }
}

fn append_date(out: &mut String, date: &str, today: &str)
    requires
        utf8_len(date@) == 8 ==> is_byte_boundary(date@, 4) && is_byte_boundary(date@, 6),
    ensures
        final(out)@ == old(out)@ + cabrillo_date(date@, today@),
{
    let chars = chars_of(date);
    if utf8_len_up_to_nine(&chars) == 8 {
        proof {
            assert(chars@.take(chars@.len() as int) =~= chars@);
            lemma_chars_before_byte(chars@, 8, chars@.len() as int);
        }
        let k4 = char_index_at_byte(&chars, 4).unwrap();
        let k6 = char_index_at_byte(&chars, 6).unwrap();
        let k8 = char_index_at_byte(&chars, 8).unwrap();
        proof {
            assert(chars@.take(chars@.len() as int) =~= chars@);
            lemma_chars_before_byte(chars@, 8, chars@.len() as int);
            assert(chars@.take(0) =~= Seq::<char>::empty());
            lemma_chars_before_byte(chars@, 0, 0);
            if k6 < k4 {
                lemma_utf8_len_strictly_grows(chars@, k6 as int, k4 as int);
            }
            if k8 < k6 {
                lemma_utf8_len_strictly_grows(chars@, k8 as int, k6 as int);
            }
        }
        out.append(date.substring_char(0, k4));
        out.append("-");
        out.append(date.substring_char(k4, k6));
        out.append("-");
        out.append(date.substring_char(k6, k8));
    } else {
        out.append(today);
    }
}

fn append_time(out: &mut String, time: &str, now: &str)
    requires
        utf8_len(time@) >= 4 ==> is_byte_boundary(time@, 4),
    ensures
        final(out)@ == old(out)@ + cabrillo_time(time@, now@),
{
    let chars = chars_of(time);
    let n: usize = crate::text::utf8_len_capped(&chars, 0, chars.len(), 8);
    assert(chars@.subrange(0, chars@.len() as int) =~= chars@);
    if n >= 4 {
        let k4 = char_index_at_byte(&chars, 4).unwrap();
        proof {
            assert(chars@.take(0) =~= Seq::<char>::empty());
            lemma_chars_before_byte(chars@, 0, 0);
        }
        out.append(time.substring_char(0, k4));
    } else {
        out.append(now);
    }
}

fn append_qso_head(out: &mut String, q: &CabrilloQso, today: &str, now: &str)
    requires
        cuts_fall_between_chars(*q),
    ensures
        final(out)@ == old(out)@ + qso_line_head(*q, today@, now@),
{
    let ghost base = out@;
    let cw = same_text(q.mode.as_str(), "CW");
    let khz = match q.freq_khz {
        Some(k) => k,
        None => band_khz_of(q.band.as_str()),
    };
    out.append("QSO: ");
    append_pad_start(out, decimal_string(khz).as_str(), 5, ' ');
    let ghost a1 = out@;
    out.append(" ");
    append_pad_end(out, if cw { "CW" } else { "PH" }, 2);
    out.append(" ");
    let ghost a2 = out@;
    append_date(out, q.qso_date.as_str(), today);
    out.append(" ");
    append_time(out, q.time_on.as_str(), now);
    out.append(" ");
    assert(a1 =~= base + "QSO: "@ + pad_start(decimal(qso_khz(*q)), 5, ' '));
    assert(a2 =~= a1 + " "@ + pad_end(if cw { "CW"@ } else { "PH"@ }, 2) + " "@);
    assert(out@ =~= base + qso_line_head(*q, today@, now@));
}

fn append_qso_exchange(out: &mut String, q: &CabrilloQso, serial: u64, my_call: &str)
    ensures
        final(out)@ == old(out)@ + qso_line_exchange(*q, serial as nat, my_call@),
{
    let ghost base = out@;
    let cw = same_text(q.mode.as_str(), "CW");
    let received: u64 = match q.srx {
        Some(n) => n as u64,
        None => 1,
    };
    append_pad_end(out, my_call, 10);
    out.append(" ");
    append_pad_end(out, if cw { "599" } else { "59" }, 3);
    out.append(" ");
    append_pad_start(out, decimal_string(serial).as_str(), 3, '0');
    let ghost a1 = out@;
    out.append(" ");
    append_pad_end(out, q.callsign.as_str(), 10);
    out.append(" ");
    append_pad_end(out, q.rst_rcvd.as_str(), 3);
    out.append(" ");
    append_pad_start(out, decimal_string(received).as_str(), 3, '0');
    out.append("\n");
    assert(a1 =~= base + pad_end(my_call@, 10) + " "@ + pad_end(if cw { "599"@ } else { "59"@ }, 3) + " "@
        + pad_start(decimal(serial as nat), 3, '0'));
    assert(out@ =~= base + qso_line_exchange(*q, serial as nat, my_call@));
}

fn append_qso_line(out: &mut String, q: &CabrilloQso, serial: u64, my_call: &str, today: &str, now: &str)
    requires
        cuts_fall_between_chars(*q),
    ensures
        final(out)@ == old(out)@ + qso_line(*q, serial as nat, my_call@, today@, now@),
{
    let ghost base = out@;
    append_qso_head(out, q, today, now);
    append_qso_exchange(out, q, serial, my_call);
    assert(out@ =~= base + qso_line(*q, serial as nat, my_call@, today@, now@));
}

/// The Cabrillo 3.0 log of a contest: the header (contest, station, claimed
/// score), one `QSO:` line per QSO of `qsos` (which lists the newest first)
/// from the oldest, numbered from 1, and the end marker. `today` (`YYYY-MM-DD`)
/// and `now` (`HHMM`) stand in for a QSO's date and time where those are
/// not in the logged form.
pub fn cabrillo_log(
    contest_name: &str,
    station: &CabrilloStation,
    contest_points: u32,
    contest_mults: u32,
    qsos: &Vec<CabrilloQso>,
    today: &str,
    now: &str,
) -> (text: String)
    requires
        claimed_score(contest_points, contest_mults) <= u32::MAX,
        forall|i: int| 0 <= i < qsos@.len() ==> cuts_fall_between_chars(#[trigger] qsos@[i]),
    ensures
        text@ == cabrillo_text(contest_name@, *station, contest_points, contest_mults, qsos@, today@, now@),
{
    let mut out = String::new();
    out.append("START-OF-LOG: 3.0\n");
    out.append("CONTEST: ");
    out.append(contest_name);
    out.append("\n");
    out.append("CALLSIGN: ");
    out.append(station.callsign.as_str());
    out.append("\n");
    out.append("CATEGORY-OPERATOR: SINGLE-OP\n");
    out.append("CATEGORY-TRANSMITTER: ONE\n");
    out.append("CATEGORY-POWER: HIGH\n");
    out.append("CATEGORY-BAND: ALL\n");
    out.append("CATEGORY-MODE: MIXED\n");
    out.append("CATEGORY-STATION: FIXED\n");
    let mults: u32 = if contest_mults < 1 { 1 } else { contest_mults };
    let score: u32 = contest_points * mults;
    out.append("CLAIMED-SCORE: ");
    out.append(decimal_string(score as u64).as_str());
    out.append("\n");
    out.append("OPERATORS: ");
    out.append(station.callsign.as_str());
    out.append("\n");
    out.append("NAME: ");
    out.append(station.operator.as_str());
    out.append("\n");
    out.append("ADDRESS: ");
    out.append(station.city.as_str());
    out.append(", ");
    out.append(station.country.as_str());
    out.append("\n");
    out.append("SOAPBOX: Created with SPLogbook by SP6INA (GPLv3)\n");
    let ghost header = out@;
    assert(header =~= cabrillo_header(contest_name@, *station, claimed_score(contest_points, contest_mults)));
    let ghost rev = qsos@.reverse();
    let n: usize = qsos.len();
    let mut idx: usize = 0;
    while idx < n
        invariant
            n == qsos@.len(),
            idx <= n,
            rev == qsos@.reverse(),
            forall|i: int| 0 <= i < qsos@.len() ==> cuts_fall_between_chars(#[trigger] qsos@[i]),
            out@ == header + qso_lines(rev, idx as int, station.callsign@, today@, now@),
        decreases n - idx,
    {
        let q = &qsos[n - 1 - idx];
        assert(rev[idx as int] == qsos@[n - 1 - idx]);
        append_qso_line(&mut out, q, (idx + 1) as u64, station.callsign.as_str(), today, now);
        idx = idx + 1;
        assert(out@ =~= header + qso_lines(rev, idx as int, station.callsign@, today@, now@));
    }
    out.append("END-OF-LOG:\n");
    out
}

} // verus!
