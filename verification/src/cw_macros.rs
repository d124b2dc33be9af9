//! CW keying macros: the eight function-key texts, and how their
//! placeholders are filled in before sending.

use vstd::prelude::*;
use crate::cabrillo::{append_pad_start, pad_start};
use crate::text::{chars_of, decimal, decimal_string, has_substring};

verus! {

/// `s` with every occurrence of the non-empty `pat` replaced by `rep`,
/// scanning from the left without overlaps (`str::replace`).
pub open spec fn replace_all(s: Seq<char>, pat: Seq<char>, rep: Seq<char>) -> Seq<char>
    decreases s.len(),
{
    if s.len() == 0 {
        Seq::empty()
    } else if 0 < pat.len() <= s.len() && s.take(pat.len() as int) == pat {
        rep + replace_all(s.skip(pat.len() as int), pat, rep)
    } else {
        seq![s[0]] + replace_all(s.drop_first(), pat, rep)
    }
}

/// Whether `pat` starts at position `i` of `s`.
spec fn starts_at(s: Seq<char>, pat: Seq<char>, i: int) -> bool {
    i + pat.len() <= s.len() && s.subrange(i, i + pat.len()) == pat
}

fn matches_at(s: &Vec<char>, pat: &Vec<char>, i: usize) -> (b: bool)
    requires
        i <= s@.len(),
    ensures
        b == starts_at(s@, pat@, i as int),
{
    if pat.len() > s.len() - i {
        return false;
    }
    let mut k: usize = 0;
    while k < pat.len()
        invariant
            i + pat@.len() <= s@.len(),
            s@.len() == s.len(),
            pat@.len() == pat.len(),
            k <= pat@.len(),
            forall|m: int| 0 <= m < k ==> s@[i + m] == pat@[m],
        decreases pat@.len() - k,
    {
        if s[i + k] != pat[k] {
            assert(s@.subrange(i as int, i + pat@.len())[k as int] != pat@[k as int]);
            return false;
        }
        k = k + 1;
    }
    assert(s@.subrange(i as int, i + pat@.len()) =~= pat@);
    true
}

/// `s` with every occurrence of `pat` (not empty) replaced by `rep`.
fn replace_text(s: &str, pat: &str, rep: &str) -> (r: String)
    requires
        pat@.len() > 0,
    ensures
        r@ == replace_all(s@, pat@, rep@),
{
    let cs = chars_of(s);
    let ps = chars_of(pat);
    let mut out = String::new();
    let mut i: usize = 0;
    assert(cs@.skip(0) =~= cs@);
    while i < cs.len()
        invariant
            cs@ == s@,
            ps@ == pat@,
            pat@.len() > 0,
            i <= cs@.len(),
            out@ + replace_all(cs@.skip(i as int), pat@, rep@) == replace_all(s@, pat@, rep@),
        decreases cs@.len() - i,
    {
        let ghost rest = cs@.skip(i as int);
        if matches_at(&cs, &ps, i) {
            proof {
                assert(rest.take(pat@.len() as int) =~= cs@.subrange(i as int, i + pat@.len()));
                assert(rest.skip(pat@.len() as int) =~= cs@.skip(i + pat@.len()));
                assert(out@ + (rep@ + replace_all(rest.skip(pat@.len() as int), pat@, rep@)) =~= (out@ + rep@)
                    + replace_all(rest.skip(pat@.len() as int), pat@, rep@));
            }
            out.append(rep);
            i = i + ps.len();
        } else {
            let c = cs[i];
            proof {
                if 0 < pat@.len() <= rest.len() {
                    assert(rest.take(pat@.len() as int) =~= cs@.subrange(i as int, i + pat@.len()));
                }
                assert(rest.drop_first() =~= cs@.skip(i + 1));
                assert(rest[0] == c);
                assert(out@ + (seq![c] + replace_all(rest.drop_first(), pat@, rep@)) =~= out@.push(c)
                    + replace_all(rest.drop_first(), pat@, rep@));
            }
            out.push(c);
            i = i + 1;
        }
    }
    assert(cs@.skip(i as int) =~= Seq::<char>::empty());
    assert(out@ + Seq::<char>::empty() =~= out@);
    out
}

/// The contest serial as keyed: at least three digits, zero-padded.
pub open spec fn serial_text(serial: u32) -> Seq<char> {
    pad_start(decimal(serial as nat), 3, '0')
}

/// A macro with its placeholders filled in, in this order: `%MYCALL%` by
/// the station's call, `%HISCALL%` by the call on the entry line, `%RST%` by
/// the report sent, `%SERIAL%` by the contest serial.
pub open spec fn expanded(text: Seq<char>, my_call: Seq<char>, his_call: Seq<char>, rst: Seq<char>, serial: u32) -> Seq<char> {
    replace_all(
        replace_all(
            replace_all(replace_all(text, "%MYCALL%"@, my_call), "%HISCALL%"@, his_call),
            "%RST%"@,
            rst,
        ),
        "%SERIAL%"@,
        serial_text(serial),
    )
}

/// Fills in the placeholders of the macro `text` before it is keyed.
pub fn expand_cw_macro(text: &str, my_call: &str, his_call: &str, rst: &str, serial: u32) -> (r: String)
    ensures
        r@ == expanded(text@, my_call@, his_call@, rst@, serial),
{
    proof {
        reveal_strlit("%MYCALL%");
        reveal_strlit("%HISCALL%");
        reveal_strlit("%RST%");
        reveal_strlit("%SERIAL%");
    }
    let a = replace_text(text, "%MYCALL%", my_call);
    let b = replace_text(a.as_str(), "%HISCALL%", his_call);
    let c = replace_text(b.as_str(), "%RST%", rst);
    let digits = decimal_string(serial as u64);
    let mut serial_str = String::new();
    append_pad_start(&mut serial_str, digits.as_str(), 3, '0');
    assert(serial_str@ =~= serial_text(serial));
    replace_text(c.as_str(), "%SERIAL%", serial_str.as_str())
}

/// The status line while a macro is keyed.
pub open spec fn keying_text(wpm: u32, resolved: Seq<char>) -> Seq<char> {
    "Nadawanie CW ("@ + decimal(wpm as nat) + " WPM): "@ + resolved
}

/// The status line shown while the resolved macro is keyed at `wpm`.
pub fn keying_message(wpm: u32, resolved: &str) -> (m: String)
    ensures
        m@ == keying_text(wpm, resolved@),
{
    let mut m = String::from_str("Nadawanie CW (");
    let w = decimal_string(wpm as u64);
    m.append(w.as_str());
    m.append(" WPM): ");
    m.append(resolved);
    m
}

/// A text without `pat` passes through a replacement unchanged.
pub proof fn lemma_replace_absent(s: Seq<char>, pat: Seq<char>, rep: Seq<char>)
    requires
        pat.len() > 0,
        forall|i: int| 0 <= i && i + pat.len() <= s.len() ==> #[trigger] s.subrange(i, i + pat.len()) != pat,
    ensures
        replace_all(s, pat, rep) == s,
    decreases s.len(),
{
    if s.len() > 0 {
        if pat.len() <= s.len() {
            let z: int = 0;
            assert(s.subrange(z, z + pat.len()) != pat);
            assert(s.take(pat.len() as int) =~= s.subrange(z, z + pat.len()));
        }
        let t = s.drop_first();
        assert forall|i: int| 0 <= i && i + pat.len() <= t.len() implies #[trigger] t.subrange(i, i + pat.len()) != pat by {
            assert(t.subrange(i, i + pat.len()) =~= s.subrange(i + 1, i + 1 + pat.len()));
        }
        lemma_replace_absent(t, pat, rep);
        assert(seq![s[0]] + t =~= s);
    } else {
        assert(s =~= Seq::<char>::empty());
    }
}

/// The eight function-key macros and the keying speed.
pub struct CwMacroSet {
    pub wpm: u32,
    pub macros: Vec<String>,
}

/// The macros a new station starts with, F1 to F8.
pub open spec fn default_macro(k: int) -> Seq<char> {
    if k == 0 {
        "CQ TEST %MYCALL% %MYCALL% TEST"@
    } else if k == 1 {
        "%HISCALL% 5NN %SERIAL%"@
    } else if k == 2 {
        "TU %MYCALL% TEST"@
    } else if k == 3 {
        "%MYCALL%"@
    } else if k == 4 {
        "%HISCALL%"@
    } else if k == 5 {
        "QTH %MYQTH% LOC %MYLOC%"@
    } else if k == 6 {
        "%SERIAL%"@
    } else {
        "?"@
    }
}

impl Default for CwMacroSet {
    /// 28 WPM and the standard contest macros.
    fn default() -> (m: Self)
        ensures
            m.wpm == 28,
            m.macros@.len() == 8,
            forall|k: int| 0 <= k < 8 ==> (#[trigger] m.macros@[k])@ == default_macro(k),
    {
        let mut macros: Vec<String> = Vec::new();
        macros.push(String::from_str("CQ TEST %MYCALL% %MYCALL% TEST"));
        macros.push(String::from_str("%HISCALL% 5NN %SERIAL%"));
        macros.push(String::from_str("TU %MYCALL% TEST"));
        macros.push(String::from_str("%MYCALL%"));
        macros.push(String::from_str("%HISCALL%"));
        macros.push(String::from_str("QTH %MYQTH% LOC %MYLOC%"));
        macros.push(String::from_str("%SERIAL%"));
        macros.push(String::from_str("?"));
        CwMacroSet { wpm: 28, macros }
    }
}


/// A macro holding none of the four placeholders `%MYCALL%`, `%HISCALL%`,
/// `%RST%`, `%SERIAL%` is keyed exactly as written.
pub proof fn lemma_plain_macro_unchanged(text: Seq<char>, my_call: Seq<char>, his_call: Seq<char>, rst: Seq<char>, serial: u32)
    requires
        !has_substring(text, "%MYCALL%"@),
        !has_substring(text, "%HISCALL%"@),
        !has_substring(text, "%RST%"@),
        !has_substring(text, "%SERIAL%"@),
    ensures
        expanded(text, my_call, his_call, rst, serial) == text,
{
    reveal_strlit("%MYCALL%");
    reveal_strlit("%HISCALL%");
    reveal_strlit("%RST%");
    reveal_strlit("%SERIAL%");
    lemma_absent_from(text, "%MYCALL%"@);
    lemma_replace_absent(text, "%MYCALL%"@, my_call);
    lemma_absent_from(text, "%HISCALL%"@);
    lemma_replace_absent(text, "%HISCALL%"@, his_call);
    lemma_absent_from(text, "%RST%"@);
    lemma_replace_absent(text, "%RST%"@, rst);
    lemma_absent_from(text, "%SERIAL%"@);
    lemma_replace_absent(text, "%SERIAL%"@, serial_text(serial));
}

proof fn lemma_absent_from(s: Seq<char>, pat: Seq<char>)
    requires
        !has_substring(s, pat),
    ensures
        forall|i: int| 0 <= i && i + pat.len() <= s.len() ==> #[trigger] s.subrange(i, i + pat.len()) != pat,
{
}

} // verus!
