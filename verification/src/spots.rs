//! Park (POTA) and summit (SOTA) references in DX-cluster spot comments.

use vstd::prelude::*;
use crate::text::{
    utf8_len, utf8_len_capped,
    alphanumeric, chars_of, is_alphanumeric, is_white_space, lemma_trim_end_step, lemma_trim_end_stop,
    lemma_trim_start_step, lemma_trim_start_stop, lemma_words_skip_space, lemma_words_take_word,
    to_uppercase, trim_by, trim_end_by, trim_start_by, uppercase, white_space_check, words,
    contains_text, has_substring, same_text, trim, trim_white_space, opt_text,
};

verus! {

/// Every character is an ASCII digit `0`-`9`.
pub open spec fn all_ascii_digits(s: Seq<char>) -> bool {
    forall|i: int| 0 <= i < s.len() ==> '0' <= #[trigger] s[i] <= '9'
}

/// Characters cut from both ends of a word before it is examined: those that
/// are neither alphanumeric nor `-` nor `/`.
pub open spec fn is_edge_noise(c: char) -> bool {
    !alphanumeric(c) && c != '-' && c != '/'
}

/// A word without its leading and trailing noise characters.
pub open spec fn clean_word(w: Seq<char>) -> Seq<char> {
    trim_by(w, |c: char| is_edge_noise(c))
}

/// A park reference: `PREFIX-NUMBER` split at the first `-`, where the prefix
/// is 1 to 4 bytes long and holds no `/`, and the number is 3 to 5 ASCII
/// digits (e.g. `SP-0123`).
pub open spec fn is_park_ref(c: Seq<char>) -> bool {
    match c.index_of_first('-') {
        Some(d) => {
            let prefix = c.take(d);
            let number = c.skip(d + 1);
            &&& prefix.len() > 0
            &&& utf8_len(prefix) <= 4
            &&& 3 <= utf8_len(number) <= 5
            &&& all_ascii_digits(number)
            &&& !prefix.contains('/')
        },
        None => false,
    }
}

/// A summit reference: `ASSOCIATION/REGION-NUMBER` with exactly one `/`;
/// the association before it is 1 to 3 bytes long; after it, split at the
/// first `-`, the region is 2 bytes long and the number is 3 or 4 ASCII
/// digits (e.g. `SP/BZ-001`, `W6/NC-4210`).
pub open spec fn is_summit_ref(c: Seq<char>) -> bool {
    match c.index_of_first('/') {
        Some(p) => {
            let rest = c.skip(p + 1);
            &&& 1 <= utf8_len(c.take(p)) <= 3
            &&& !rest.contains('/')
            &&& match rest.index_of_first('-') {
                Some(d) => {
                    &&& utf8_len(rest.take(d)) == 2
                    &&& 3 <= utf8_len(rest.skip(d + 1)) <= 4
                    &&& all_ascii_digits(rest.skip(d + 1))
                },
                None => false,
            }
        },
        None => false,
    }
}

/// Scans the words from the first to the last: each cleaned word that is a
/// park (summit) reference replaces the park (summit) reference found so far.
pub open spec fn scan_refs(
    ws: Seq<Seq<char>>,
    park: Option<Seq<char>>,
    summit: Option<Seq<char>>,
) -> (Option<Seq<char>>, Option<Seq<char>>)
    decreases ws.len(),
{
    if ws.len() == 0 {
        (park, summit)
    } else {
        let c = clean_word(ws[0]);
        scan_refs(
            ws.drop_first(),
            if is_park_ref(c) { Some(c) } else { park },
            if is_summit_ref(c) { Some(c) } else { summit },
        )
    }
}

/// The park and summit references of an upper-cased comment: for each, the
/// last cleaned word that has its form.
pub open spec fn refs_in_upper(s: Seq<char>) -> (Option<Seq<char>>, Option<Seq<char>>) {
    scan_refs(words(s), None, None)
}

proof fn lemma_index_of_first_found(s: Seq<char>, x: char, k: int)
    requires
        0 <= k < s.len(),
        s[k] == x,
        forall|m: int| 0 <= m < k ==> s[m] != x,
    ensures
        s.index_of_first(x) == Some(k),
{
    s.index_of_first_ensures(x);
    let r = s.index_of_first(x);
    assert(r is Some);
    let idx = r->0;
    if idx < k {
        assert(s[idx] != x);
    } else if idx > k {
        assert(s[k] != x);
    }
}

proof fn lemma_index_of_first_absent(s: Seq<char>, x: char)
    requires
        forall|m: int| 0 <= m < s.len() ==> s[m] != x,
    ensures
        s.index_of_first(x) is None,
        !s.contains(x),
{
    s.index_of_first_ensures(x);
}

proof fn lemma_contains_iff_found(s: Seq<char>, x: char)
    ensures
        s.contains(x) <==> s.index_of_first(x) is Some,
{
    s.index_of_first_ensures(x);
}

/// The first position of `x` in `chars[lo..hi]`.
fn find_char(chars: &Vec<char>, lo: usize, hi: usize, x: char) -> (r: Option<usize>)
    requires
        lo <= hi <= chars@.len(),
    ensures
        match r {
            Some(k) => lo <= k < hi && chars@.subrange(lo as int, hi as int).index_of_first(x)
                == Some(k - lo),
            None => chars@.subrange(lo as int, hi as int).index_of_first(x) is None,
        },
{
    let ghost sub = chars@.subrange(lo as int, hi as int);
    let mut k: usize = lo;
    while k < hi
        invariant
            lo <= k <= hi <= chars@.len(),
            sub == chars@.subrange(lo as int, hi as int),
            forall|m: int| lo <= m < k ==> chars@[m] != x,
        decreases hi - k,
    {
        if chars[k] == x {
            proof {
                assert forall|m: int| 0 <= m < k - lo implies sub[m] != x by {
                    assert(sub[m] == chars@[lo + m]);
                }
                lemma_index_of_first_found(sub, x, k - lo);
            }
            return Some(k);
        }
        k = k + 1;
    }
    proof {
        assert forall|m: int| 0 <= m < sub.len() implies sub[m] != x by {
            assert(sub[m] == chars@[lo + m]);
        }
        lemma_index_of_first_absent(sub, x);
    }
    None
}

/// Whether `chars[lo..hi]` holds only ASCII digits.
fn all_digits_in(chars: &Vec<char>, lo: usize, hi: usize) -> (b: bool)
    requires
        lo <= hi <= chars@.len(),
    ensures
        b == all_ascii_digits(chars@.subrange(lo as int, hi as int)),
{
    let mut k: usize = lo;
    while k < hi
        invariant
            lo <= k <= hi <= chars@.len(),
            forall|m: int| lo <= m < k ==> '0' <= #[trigger] chars@[m] <= '9',
        decreases hi - k,
    {
        let c = chars[k];
        if !('0' <= c && c <= '9') {
            assert(chars@.subrange(lo as int, hi as int)[k - lo] == c);
            return false;
        }
        k = k + 1;
    }
    assert forall|i: int| 0 <= i < hi - lo implies '0' <= #[trigger] chars@.subrange(
        lo as int,
        hi as int,
    )[i] <= '9' by {
        assert(chars@.subrange(lo as int, hi as int)[i] == chars@[lo + i]);
    }
    true
}

fn edge_noise_check(c: char) -> (b: bool)
    ensures
        b == is_edge_noise(c),
{
    !is_alphanumeric(c) && c != '-' && c != '/'
}

/// The bounds of the cleaned word `chars[i..j]`.
fn clean_bounds(chars: &Vec<char>, i: usize, j: usize) -> (r: (usize, usize))
    requires
        i <= j <= chars@.len(),
    ensures
        i <= r.0 <= r.1 <= j,
        clean_word(chars@.subrange(i as int, j as int)) == chars@.subrange(r.0 as int, r.1 as int),
{
    let ghost p = |c: char| is_edge_noise(c);
    let mut a: usize = i;
    while a < j && edge_noise_check(chars[a])
        invariant
            p == (|c: char| is_edge_noise(c)),
            i <= a <= j <= chars@.len(),
            trim_start_by(chars@.subrange(i as int, j as int), p) == trim_start_by(
                chars@.subrange(a as int, j as int),
                p,
            ),
        decreases j - a,
    {
        proof {
            lemma_trim_start_step(chars@, a as int, j as int, p);
        }
        a = a + 1;
    }
    proof {
        lemma_trim_start_stop(chars@, a as int, j as int, p);
    }
    let mut b: usize = j;
    while b > a && edge_noise_check(chars[b - 1])
        invariant
            p == (|c: char| is_edge_noise(c)),
            i <= a <= b <= j <= chars@.len(),
            clean_word(chars@.subrange(i as int, j as int)) == trim_end_by(
                chars@.subrange(a as int, b as int),
                p,
            ),
        decreases b - a,
    {
        proof {
            lemma_trim_end_step(chars@, a as int, b as int, p);
        }
        b = b - 1;
    }
    proof {
        lemma_trim_end_stop(chars@, a as int, b as int, p);
    }
    (a, b)
}

/// Whether `chars[a..b]` is a park reference.
fn park_ref_at(chars: &Vec<char>, a: usize, b: usize) -> (r: bool)
    requires
        a <= b <= chars@.len(),
    ensures
        r == is_park_ref(chars@.subrange(a as int, b as int)),
{
    let ghost c = chars@.subrange(a as int, b as int);
    match find_char(chars, a, b, '-') {
        None => false,
        Some(d) => {
            proof {
                assert(c.take(d - a) =~= chars@.subrange(a as int, d as int));
                assert(c.skip(d - a + 1) =~= chars@.subrange(d + 1, b as int));
                lemma_contains_iff_found(chars@.subrange(a as int, d as int), '/');
            }
            if d == a {
                return false;
            }
            let prefix_len = utf8_len_capped(chars, a, d, 5);
            let number_len = utf8_len_capped(chars, d + 1, b, 5);
            if prefix_len > 4 || number_len < 3 || number_len > 5 {
                return false;
            }
            if !all_digits_in(chars, d + 1, b) {
                return false;
            }
            find_char(chars, a, d, '/').is_none()
        },
    }
}

/// Whether `chars[a..b]` is a summit reference.
fn summit_ref_at(chars: &Vec<char>, a: usize, b: usize) -> (r: bool)
    requires
        a <= b <= chars@.len(),
    ensures
        r == is_summit_ref(chars@.subrange(a as int, b as int)),
{
    let ghost c = chars@.subrange(a as int, b as int);
    match find_char(chars, a, b, '/') {
        None => false,
        Some(p) => {
            let ghost rest = c.skip(p - a + 1);
            proof {
                assert(rest =~= chars@.subrange(p + 1, b as int));
                assert(c.take(p - a) =~= chars@.subrange(a as int, p as int));
                lemma_contains_iff_found(rest, '/');
            }
            let assoc_len = utf8_len_capped(chars, a, p, 5);
            if assoc_len < 1 || assoc_len > 3 {
                return false;
            }
            if find_char(chars, p + 1, b, '/').is_some() {
                return false;
            }
            match find_char(chars, p + 1, b, '-') {
                None => false,
                Some(d) => {
                    proof {
                        assert(rest.take(d - (p + 1)) =~= chars@.subrange(p + 1, d as int));
                        assert(rest.skip(d - (p + 1) + 1) =~= chars@.subrange(d + 1, b as int));
                    }
                    let region_len = utf8_len_capped(chars, p + 1, d, 5);
                    let number_len = utf8_len_capped(chars, d + 1, b, 5);
                    region_len == 2 && number_len >= 3 && number_len <= 4 && all_digits_in(chars, d + 1, b)
                },
            }
        },
    }
}

/// The park and summit references of an already upper-cased comment: the
/// comment is split at whitespace, each word is cleaned of edge noise, and
/// the last word of each form is kept.
pub fn find_refs_in_upper(upper: &str) -> (res: (Option<String>, Option<String>))
    ensures
        (opt_text(res.0), opt_text(res.1)) == refs_in_upper(upper@),
{
    let chars = chars_of(upper);
    let n = chars.len();
    let mut park: Option<String> = None;
    let mut summit: Option<String> = None;
    let mut i: usize = 0;
    assert(chars@.skip(0) =~= chars@);
    while i < n
        invariant
            chars@ == upper@,
            n == chars@.len(),
            i <= n,
            refs_in_upper(upper@) == scan_refs(
                words(chars@.skip(i as int)),
                opt_text(park),
                opt_text(summit),
            ),
        decreases n - i,
    {
        if white_space_check(chars[i]) {
            proof {
                lemma_words_skip_space(chars@, i as int);
            }
            i = i + 1;
        } else {
            let mut j: usize = i + 1;
            while j < n && !white_space_check(chars[j])
                invariant
                    i < j <= n,
                    n == chars@.len(),
                    forall|k: int| i <= k < j ==> !is_white_space(#[trigger] chars@[k]),
                decreases n - j,
            {
                j = j + 1;
            }
            proof {
                lemma_words_take_word(chars@, i as int, j as int);
            }
            let ghost ws = words(chars@.skip(j as int));
            let ghost w = chars@.subrange(i as int, j as int);
            let (a, b) = clean_bounds(&chars, i, j);
            let is_park = park_ref_at(&chars, a, b);
            let is_summit = summit_ref_at(&chars, a, b);
            proof {
                let all = seq![w] + ws;
                assert(all.drop_first() =~= ws);
                assert(all[0] == w);
            }
            if is_park {
                park = Some(upper.substring_char(a, b).to_owned());
            }
            if is_summit {
                summit = Some(upper.substring_char(a, b).to_owned());
            }
            i = j;
        }
    }
    assert(chars@.skip(n as int) =~= Seq::<char>::empty());
    (park, summit)
}

/// Extracts the park (POTA, e.g. `SP-0123`) and the summit (SOTA, e.g.
/// `SP/BZ-001`) reference from a spot comment. The comment is upper-cased
/// first; for each kind the last word of that form wins.
pub fn extract_pota_sota(comment: &str) -> (res: (Option<String>, Option<String>))
    ensures
        (opt_text(res.0), opt_text(res.1)) == refs_in_upper(uppercase(comment@)),
{
    let upper = to_uppercase(comment);
    find_refs_in_upper(upper.as_str())
}

/// A DX-cluster spot: the frequency in Hz, the spotted and the spotting
/// call, the comment, the band, and whether it is an FT8 or a skimmer spot.
pub struct ClusterSpot {
    pub frequency_hz: u64,
    pub dx_call: String,
    pub spotter: String,
    pub comment: String,
    pub band: String,
    pub is_ft8: bool,
    pub is_skimmer: bool,
}

/// The spot list's filter settings: a search text, a band (`ALL`, `VFO`
/// for the band the radio is on, or a band name), a mode (`CW`, `SSB`,
/// `DIGI`, anything else for all), a source (`HUMAN`, `RBN`, anything else
/// for all), and whether only spots with a park or summit reference show.
pub struct SpotFilter {
    pub search_query: String,
    pub band: String,
    pub mode: String,
    pub source: String,
    pub pota_sota_only: bool,
}

/// Whether `s` shows under filter `f`, the radio being on `current_band`;
/// `query` is the filter's search text trimmed and upper-cased.
pub open spec fn spot_shown(s: ClusterSpot, f: SpotFilter, query: Seq<char>, current_band: Seq<char>) -> bool {
    let comment = uppercase(s.comment@);
    let refs = refs_in_upper(comment);
    &&& !(f.pota_sota_only && refs.0 is None && refs.1 is None)
    &&& (query.len() == 0 || has_substring(uppercase(s.dx_call@), query) || has_substring(comment, query)
        || has_substring(uppercase(s.spotter@), query))
    &&& if f.band@ == "VFO"@ {
        s.band@ == current_band
    } else if f.band@ != "ALL"@ {
        s.band@ == f.band@
    } else {
        true
    }
    &&& if f.mode@ == "CW"@ {
        !(s.is_ft8 || has_substring(comment, "FT8"@) || has_substring(comment, "SSB"@))
    } else if f.mode@ == "SSB"@ {
        !(s.is_ft8 || has_substring(comment, "CW"@))
    } else if f.mode@ == "DIGI"@ {
        s.is_ft8
    } else {
        true
    }
    &&& if f.source@ == "HUMAN"@ {
        !s.is_skimmer
    } else if f.source@ == "RBN"@ {
        s.is_skimmer
    } else {
        true
    }
}

/// Whether spot `s` passes filter `f`; `query` is the filter's search text
/// already trimmed and upper-cased.
pub fn spot_passes_filter(s: &ClusterSpot, f: &SpotFilter, query: &str, current_band: &str) -> (b: bool)
    ensures
        b == spot_shown(*s, *f, query@, current_band@),
{
    let comment = to_uppercase(s.comment.as_str());
    let (pota, sota) = find_refs_in_upper(comment.as_str());
    if f.pota_sota_only && pota.is_none() && sota.is_none() {
        return false;
    }
    if !query.is_empty() {
        let call = to_uppercase(s.dx_call.as_str());
        let spotter = to_uppercase(s.spotter.as_str());
        if !contains_text(call.as_str(), query) && !contains_text(comment.as_str(), query)
            && !contains_text(spotter.as_str(), query) {
            return false;
        }
    }
    if same_text(f.band.as_str(), "VFO") {
        if !same_text(s.band.as_str(), current_band) {
            return false;
        }
    } else if !same_text(f.band.as_str(), "ALL") && !same_text(s.band.as_str(), f.band.as_str()) {
        return false;
    }
    if same_text(f.mode.as_str(), "CW") {
        if s.is_ft8 || contains_text(comment.as_str(), "FT8") || contains_text(comment.as_str(), "SSB") {
            return false;
        }
    } else if same_text(f.mode.as_str(), "SSB") {
        if s.is_ft8 || contains_text(comment.as_str(), "CW") {
            return false;
        }
    } else if same_text(f.mode.as_str(), "DIGI") && !s.is_ft8 {
        return false;
    }
    if same_text(f.source.as_str(), "HUMAN") {
        if s.is_skimmer {
            return false;
        }
    } else if same_text(f.source.as_str(), "RBN") && !s.is_skimmer {
        return false;
    }
    true
}

/// The positions, in order, of the spots that pass filter `f` (its search
/// text trimmed and upper-cased), the radio being on `current_band`.
pub fn filter_spots(spots: &Vec<ClusterSpot>, f: &SpotFilter, current_band: &str) -> (shown: Vec<usize>)
    ensures
        forall|k: int| 0 <= k < shown@.len() ==> #[trigger] shown@[k] < spots@.len(),
        forall|a: int, b: int| #![trigger shown@[a], shown@[b]] 0 <= a < b < shown@.len() ==> shown@[a] < shown@[b],
        forall|i: int|
            0 <= i < spots@.len() ==> (shown@.contains(i as usize) <==> spot_shown(
                #[trigger] spots@[i],
                *f,
                uppercase(trim_white_space(f.search_query@)),
                current_band@,
            )),
{
    let query = to_uppercase(trim(f.search_query.as_str()));
    let mut shown: Vec<usize> = Vec::new();
    let mut i: usize = 0;
    while i < spots.len()
        invariant
            i <= spots@.len(),
            query@ == uppercase(trim_white_space(f.search_query@)),
            forall|k: int| 0 <= k < shown@.len() ==> #[trigger] shown@[k] < i,
            forall|a: int, b: int| #![trigger shown@[a], shown@[b]] 0 <= a < b < shown@.len() ==> shown@[a] < shown@[b],
            forall|j: int|
                0 <= j < i ==> (shown@.contains(j as usize) <==> spot_shown(
                    #[trigger] spots@[j],
                    *f,
                    query@,
                    current_band@,
                )),
        decreases spots@.len() - i,
    {
        let ghost before = shown@;
        if spot_passes_filter(&spots[i], f, query.as_str(), current_band) {
            shown.push(i);
            proof {
                assert(shown@[before.len() as int] == i);
                assert forall|j: int| 0 <= j < i implies (#[trigger] shown@.contains(j as usize) <==> before.contains(j as usize)) by {
                    if shown@.contains(j as usize) {
                        let k = choose|k: int| 0 <= k < shown@.len() && shown@[k] == j as usize;
                        if k < before.len() {
                            assert(before[k] == shown@[k]);
                        }
                    }
                    if before.contains(j as usize) {
                        let k = choose|k: int| 0 <= k < before.len() && before[k] == j as usize;
                        assert(shown@[k] == before[k]);
                    }
                }
            }
        } else {
            proof {
                assert(!before.contains(i));
            }
        }
        i = i + 1;
    }
    shown
}

/// No cleaned word is both a park and a summit reference: a park reference
/// holds no `/`, a summit reference holds one.
pub proof fn lemma_park_summit_disjoint(c: Seq<char>)
    ensures
        !(is_park_ref(c) && is_summit_ref(c)),
{
    c.index_of_first_ensures('-');
    c.index_of_first_ensures('/');
    if is_park_ref(c) && is_summit_ref(c) {
        let d = c.index_of_first('-')->0;
        let p = c.index_of_first('/')->0;
        if p < d {
            assert(c.take(d)[p] == '/');
        } else {
            assert(c.skip(d + 1)[p - d - 1] == '/');
        }
    }
}

/// Most spots the list keeps.
pub const SPOT_LIMIT: usize = 200;

/// How many of the newest spots a new spot is checked against.
pub const DUPLICATE_WINDOW: usize = 30;

/// Two spots of the same call on the same band less than 2 kHz apart.
pub open spec fn same_spot(a: ClusterSpot, b: ClusterSpot) -> bool {
    &&& a.dx_call@ == b.dx_call@
    &&& a.band@ == b.band@
    &&& -2000 < a.frequency_hz - b.frequency_hz < 2000
}

/// Whether `spot` repeats one of the `DUPLICATE_WINDOW` newest spots of
/// `spots` (the newest first).
pub open spec fn repeats_recent(spots: Seq<ClusterSpot>, spot: ClusterSpot) -> bool {
    exists|i: int| 0 <= i < spots.len() && i < DUPLICATE_WINDOW && same_spot(#[trigger] spots[i], spot)
}

/// The spot list after `spot` came in: a repeat is dropped, anything else
/// goes in front.
pub open spec fn spots_after(spots: Seq<ClusterSpot>, spot: ClusterSpot) -> Seq<ClusterSpot> {
    if repeats_recent(spots, spot) {
        spots
    } else {
        seq![spot] + spots
    }
}

fn same_spot_check(a: &ClusterSpot, b: &ClusterSpot) -> (r: bool)
    ensures
        r == same_spot(*a, *b),
{
    let close = if a.frequency_hz >= b.frequency_hz {
        a.frequency_hz - b.frequency_hz < 2000
    } else {
        b.frequency_hz - a.frequency_hz < 2000
    };
    close && same_text(a.dx_call.as_str(), b.dx_call.as_str()) && same_text(a.band.as_str(), b.band.as_str())
}

/// Takes a spot from the cluster into the list, newest first, unless it
/// repeats a recent one. Returns whether it was added.
pub fn receive_spot(spots: &mut Vec<ClusterSpot>, spot: ClusterSpot) -> (added: bool)
    ensures
        final(spots)@ == spots_after(old(spots)@, spot),
        added == !repeats_recent(old(spots)@, spot),
{
    let mut i: usize = 0;
    while i < spots.len() && i < DUPLICATE_WINDOW
        invariant
            spots@ == old(spots)@,
            i <= spots@.len(),
            i <= DUPLICATE_WINDOW,
            forall|j: int| 0 <= j < i ==> !same_spot(#[trigger] spots@[j], spot),
        decreases spots@.len() - i,
    {
        if same_spot_check(&spots[i], &spot) {
            assert(same_spot(spots@[i as int], spot));
            return false;
        }
        i = i + 1;
    }
    let ghost before = spots@;
    spots.insert(0, spot);
    assert(spots@ =~= seq![spot] + before);
    true
}

/// A spot that comes in twice in a row is listed once: the second copy
/// repeats the first.
pub proof fn lemma_receive_twice(spots: Seq<ClusterSpot>, spot: ClusterSpot)
    ensures
        spots_after(spots_after(spots, spot), spot) == spots_after(spots, spot),
{
    if !repeats_recent(spots, spot) {
        let after = seq![spot] + spots;
        assert(after[0] == spot);
        assert(same_spot(after[0], spot));
    }
}

/// Keeps the `SPOT_LIMIT` newest spots.
pub fn cap_spots(spots: &mut Vec<ClusterSpot>)
    ensures
        final(spots)@ == if old(spots)@.len() > SPOT_LIMIT {
            old(spots)@.take(SPOT_LIMIT as int)
        } else {
            old(spots)@
        },
{
    if spots.len() > SPOT_LIMIT {
        spots.truncate(SPOT_LIMIT);
    }
}


/// The rules of the spot filter, each in its own terms: the CW filter
/// hides FT8 spots and spots whose comment names FT8 or SSB; the SSB filter
/// hides FT8 spots and spots whose comment names CW; the DIGI filter shows
/// only FT8 spots; HUMAN hides skimmer spots and RBN shows only them; VFO
/// shows only spots on the radio's band and a named band only its own;
/// a search text must occur in the call, the comment or the spotter; the
/// reference-only switch hides spots without a park or summit. With
/// every setting open (ALL, no search, switch off) every spot shows.
pub proof fn lemma_spot_filter_rules(s: ClusterSpot, f: SpotFilter, query: Seq<char>, current_band: Seq<char>)
    ensures
        f.mode@ == "CW"@ && (s.is_ft8 || has_substring(uppercase(s.comment@), "FT8"@) || has_substring(
            uppercase(s.comment@),
            "SSB"@,
        )) ==> !spot_shown(s, f, query, current_band),
        f.mode@ == "SSB"@ && (s.is_ft8 || has_substring(uppercase(s.comment@), "CW"@)) ==> !spot_shown(
            s,
            f,
            query,
            current_band,
        ),
        f.mode@ == "DIGI"@ && !s.is_ft8 ==> !spot_shown(s, f, query, current_band),
        f.source@ == "HUMAN"@ && s.is_skimmer ==> !spot_shown(s, f, query, current_band),
        f.source@ == "RBN"@ && !s.is_skimmer ==> !spot_shown(s, f, query, current_band),
        f.band@ == "VFO"@ && s.band@ != current_band ==> !spot_shown(s, f, query, current_band),
        f.band@ != "ALL"@ && f.band@ != "VFO"@ && s.band@ != f.band@ ==> !spot_shown(s, f, query, current_band),
        query.len() > 0 && !has_substring(uppercase(s.dx_call@), query) && !has_substring(uppercase(s.comment@), query)
            && !has_substring(uppercase(s.spotter@), query) ==> !spot_shown(s, f, query, current_band),
        f.pota_sota_only && refs_in_upper(uppercase(s.comment@)) == (None::<Seq<char>>, None::<Seq<char>>)
            ==> !spot_shown(s, f, query, current_band),
        f.band@ == "ALL"@ && f.mode@ == "ALL"@ && f.source@ == "ALL"@ && !f.pota_sota_only && query.len() == 0
            ==> spot_shown(s, f, query, current_band),
{
    reveal_strlit("ALL");
    reveal_strlit("VFO");
    reveal_strlit("CW");
    reveal_strlit("SSB");
    reveal_strlit("DIGI");
    reveal_strlit("HUMAN");
    reveal_strlit("RBN");
    if f.band@ == "ALL"@ {
        assert(f.band@[0] != "VFO"@[0]);
    }
    if f.mode@ == "ALL"@ {
        assert(f.mode@[0] != "CW"@[0]);
        assert(f.mode@[0] != "SSB"@[0]);
        assert(f.mode@[0] != "DIGI"@[0]);
    }
    if f.source@ == "ALL"@ {
        assert(f.source@[0] != "HUMAN"@[0]);
        assert(f.source@[0] != "RBN"@[0]);
    }
    if f.mode@ == "SSB"@ {
        assert(f.mode@.len() != "CW"@.len());
    }
    if f.mode@ == "DIGI"@ {
        assert(f.mode@.len() != "CW"@.len());
        assert(f.mode@.len() != "SSB"@.len());
    }
    if f.source@ == "RBN"@ {
        assert(f.source@.len() != "HUMAN"@.len());
    }
}


/// The park format, built up: a prefix of 1 to 4 bytes without `-` or
/// `/`, a `-`, and a number of ASCII digits is a park reference exactly
/// when the number has 3 to 5 digits.
pub proof fn lemma_park_format(prefix: Seq<char>, number: Seq<char>)
    requires
        1 <= utf8_len(prefix) <= 4,
        !prefix.contains('-'),
        !prefix.contains('/'),
        all_ascii_digits(number),
    ensures
        is_park_ref(prefix + seq!['-'] + number) <==> 3 <= number.len() <= 5,
{
    let c = prefix + seq!['-'] + number;
    let d = prefix.len() as int;
    assert forall|m: int| 0 <= m < d implies c[m] != '-' by {
        assert(c[m] == prefix[m]);
        if c[m] == '-' {
            assert(prefix.contains('-'));
        }
    }
    lemma_index_of_first_found(c, '-', d);
    assert(c.take(d) =~= prefix);
    assert(c.skip(d + 1) =~= number);
    lemma_utf8_len_ascii_digits(number);
    if prefix.len() == 0 {
        assert(prefix =~= Seq::<char>::empty());
    }
}

/// The byte length of ASCII digits is their count.
proof fn lemma_utf8_len_ascii_digits(s: Seq<char>)
    requires
        all_ascii_digits(s),
    ensures
        utf8_len(s) == s.len(),
    decreases s.len(),
{
    if s.len() > 0 {
        let t = s.drop_last();
        assert forall|i: int| 0 <= i < t.len() implies '0' <= #[trigger] t[i] <= '9' by {
            assert(t[i] == s[i]);
        }
        lemma_utf8_len_ascii_digits(t);
        assert(t.push(s.last()) =~= s);
        crate::text::lemma_utf8_len_push(t, s.last());
    } else {
        assert(s =~= Seq::<char>::empty());
    }
}

/// The summit format, built up: an association of 1 to 3 bytes without
/// `/`, a `/`, a region of 2 bytes without `/` or `-`, a `-`, and a number
/// of ASCII digits is a summit reference exactly when the number has 3 or
/// 4 digits.
pub proof fn lemma_summit_format(assoc: Seq<char>, region: Seq<char>, number: Seq<char>)
    requires
        1 <= utf8_len(assoc) <= 3,
        !assoc.contains('/'),
        utf8_len(region) == 2,
        !region.contains('/'),
        !region.contains('-'),
        all_ascii_digits(number),
    ensures
        is_summit_ref(assoc + seq!['/'] + region + seq!['-'] + number) <==> 3 <= number.len() <= 4,
{
    let c = assoc + seq!['/'] + region + seq!['-'] + number;
    let p = assoc.len() as int;
    assert forall|m: int| 0 <= m < p implies c[m] != '/' by {
        assert(c[m] == assoc[m]);
        if c[m] == '/' {
            assert(assoc.contains('/'));
        }
    }
    lemma_index_of_first_found(c, '/', p);
    assert(c.take(p) =~= assoc);
    let rest = c.skip(p + 1);
    assert(rest =~= region + seq!['-'] + number);
    let d = region.len() as int;
    assert forall|m: int| 0 <= m < d implies rest[m] != '-' by {
        assert(rest[m] == region[m]);
        if rest[m] == '-' {
            assert(region.contains('-'));
        }
    }
    lemma_index_of_first_found(rest, '-', d);
    assert(rest.take(d) =~= region);
    assert(rest.skip(d + 1) =~= number);
    assert forall|m: int| 0 <= m < rest.len() implies rest[m] != '/' by {
        if m < d {
            assert(rest[m] == region[m]);
            if rest[m] == '/' {
                assert(region.contains('/'));
            }
        } else if m > d {
            assert(rest[m] == number[m - d - 1]);
        }
    }
    lemma_index_of_first_absent(rest, '/');
    lemma_utf8_len_ascii_digits(number);
}

} // verus!
