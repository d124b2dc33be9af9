//! Text primitives shared by the parsers and dialogs: Unicode whitespace,
//! trimming, comparison, character access, decimal rendering, and the two
//! Unicode tables (upper-casing, alphanumeric) that the standard library owns.

use vstd::prelude::*;
use vstd::utf8::encode_utf8;
use vstd::utf8::encode_scalar;

verus! {

/// `char::is_whitespace`: the Unicode `White_Space` property.
pub open spec fn is_white_space(c: char) -> bool {
    let u = c as int;
    ||| 0x09 <= u <= 0x0D
    ||| u == 0x20
    ||| u == 0x85
    ||| u == 0xA0
    ||| u == 0x1680
    ||| 0x2000 <= u <= 0x200A
    ||| u == 0x2028
    ||| u == 0x2029
    ||| u == 0x202F
    ||| u == 0x205F
    ||| u == 0x3000
}

/// Drops the leading characters of `w` that satisfy `p`.
pub open spec fn trim_start_by(w: Seq<char>, p: spec_fn(char) -> bool) -> Seq<char>
    decreases w.len(),
{
    if w.len() > 0 && p(w[0]) {
        trim_start_by(w.drop_first(), p)
    } else {
        w
    }
}

/// Drops the trailing characters of `w` that satisfy `p`.
pub open spec fn trim_end_by(w: Seq<char>, p: spec_fn(char) -> bool) -> Seq<char>
    decreases w.len(),
{
    if w.len() > 0 && p(w.last()) {
        trim_end_by(w.drop_last(), p)
    } else {
        w
    }
}

/// Drops the leading and the trailing characters of `w` that satisfy `p`
/// (`str::trim_matches` with a character predicate).
pub open spec fn trim_by(w: Seq<char>, p: spec_fn(char) -> bool) -> Seq<char> {
    trim_end_by(trim_start_by(w, p), p)
}

/// `str::trim`: the text without leading and trailing whitespace.
pub open spec fn trim_white_space(s: Seq<char>) -> Seq<char> {
    trim_by(s, |c: char| is_white_space(c))
}

/// Length of the run of non-whitespace characters that starts `s`.
pub open spec fn word_len(s: Seq<char>) -> nat
    decreases s.len(),
{
    if s.len() == 0 || is_white_space(s[0]) {
        0
    } else {
        1 + word_len(s.drop_first())
    }
}

/// `str::split_whitespace`: the maximal runs of non-whitespace characters of
/// `s`, in order.
pub open spec fn words(s: Seq<char>) -> Seq<Seq<char>>
    decreases s.len(),
{
    if s.len() == 0 {
        Seq::empty()
    } else if is_white_space(s[0]) {
        words(s.drop_first())
    } else {
        proof {
            lemma_word_len_bounds(s);
        }
        seq![s.take(word_len(s) as int)] + words(s.skip(word_len(s) as int))
    }
}

pub proof fn lemma_word_len_bounds(s: Seq<char>)
    ensures
        word_len(s) <= s.len(),
        s.len() > 0 && !is_white_space(s[0]) ==> word_len(s) >= 1,
    decreases s.len(),
{
    if s.len() > 0 && !is_white_space(s[0]) {
        lemma_word_len_bounds(s.drop_first());
    }
}

proof fn lemma_word_len_exact(t: Seq<char>, k: int)
    requires
        0 <= k <= t.len(),
        forall|j: int| 0 <= j < k ==> !is_white_space(#[trigger] t[j]),
        k == t.len() || is_white_space(t[k]),
    ensures
        word_len(t) == k,
    decreases k,
{
    if k > 0 {
        let u = t.drop_first();
        assert forall|j: int| 0 <= j < k - 1 implies !is_white_space(#[trigger] u[j]) by {
            assert(u[j] == t[j + 1]);
        }
        if k < t.len() {
            assert(u[k - 1] == t[k]);
        }
        lemma_word_len_exact(u, k - 1);
    }
}

/// A whitespace character at position `i` separates no word.
pub proof fn lemma_words_skip_space(s: Seq<char>, i: int)
    requires
        0 <= i < s.len(),
        is_white_space(s[i]),
    ensures
        words(s.skip(i)) == words(s.skip(i + 1)),
{
    assert(s.skip(i).drop_first() =~= s.skip(i + 1));
}

/// A maximal run `s[i..j]` of non-whitespace characters is the next word.
pub proof fn lemma_words_take_word(s: Seq<char>, i: int, j: int)
    requires
        0 <= i < j <= s.len(),
        forall|k: int| i <= k < j ==> !is_white_space(#[trigger] s[k]),
        j == s.len() || is_white_space(s[j]),
    ensures
        words(s.skip(i)) == seq![s.subrange(i, j)] + words(s.skip(j)),
{
    let t = s.skip(i);
    assert forall|k: int| 0 <= k < j - i implies !is_white_space(#[trigger] t[k]) by {
        assert(t[k] == s[i + k]);
    }
    if j < s.len() {
        assert(t[j - i] == s[j]);
    }
    lemma_word_len_exact(t, j - i);
    assert(t.take(j - i) =~= s.subrange(i, j));
    assert(t.skip(j - i) =~= s.skip(j));
    assert(t[0] == s[i]);
}

/// Number of bytes of the UTF-8 encoding of `s` (what `str::len` gives).
pub open spec fn utf8_len(s: Seq<char>) -> nat {
    encode_utf8(s).len()
}

pub proof fn lemma_encode_utf8_concat(a: Seq<char>, b: Seq<char>)
    ensures
        encode_utf8(a + b) == encode_utf8(a) + encode_utf8(b),
    decreases a.len(),
{
    if a.len() == 0 {
        assert(a + b =~= b);
        assert(encode_utf8(a) + encode_utf8(b) =~= encode_utf8(b));
    } else {
        lemma_encode_utf8_concat(a.drop_first(), b);
        assert((a + b).drop_first() =~= a.drop_first() + b);
        assert((a + b)[0] == a[0]);
        assert(encode_utf8(a + b) =~= encode_utf8(a) + encode_utf8(b));
    }
}

pub proof fn lemma_utf8_len_push(a: Seq<char>, c: char)
    ensures
        utf8_len(a.push(c)) == utf8_len(a) + encode_scalar(c as u32).len(),
{
    lemma_encode_utf8_concat(a, seq![c]);
    assert(a.push(c) =~= a + seq![c]);
    assert(seq![c].drop_first() =~= Seq::<char>::empty());
    assert(encode_utf8(Seq::<char>::empty()) =~= Seq::<u8>::empty());
    assert(encode_utf8(seq![c]) =~= encode_scalar(c as u32));
}

/// Number of UTF-8 bytes of `c`.
pub fn char_utf8_width(c: char) -> (w: usize)
    ensures
        w == encode_scalar(c as u32).len(),
{
    proof {
        vstd::utf8::char_is_scalar(c);
    }
    let u = c as u32;
    if u <= 0x7F {
        1
    } else if u <= 0x7FF {
        2
    } else if u <= 0xFFFF {
        3
    } else {
        4
    }
}

/// The byte length of `chars[lo..hi]`, or `cap + 1` where it exceeds `cap`.
pub fn utf8_len_capped(chars: &Vec<char>, lo: usize, hi: usize, cap: usize) -> (m: usize)
    requires
        lo <= hi <= chars@.len(),
        cap < 64,
    ensures
        utf8_len(chars@.subrange(lo as int, hi as int)) <= cap ==> m == utf8_len(
            chars@.subrange(lo as int, hi as int),
        ),
        utf8_len(chars@.subrange(lo as int, hi as int)) > cap ==> m == cap + 1,
{
    let mut sum: usize = 0;
    let mut k: usize = lo;
    while k < hi
        invariant
            lo <= k <= hi <= chars@.len(),
            cap < 64,
            sum <= cap,
            sum == utf8_len(chars@.subrange(lo as int, k as int)),
        decreases hi - k,
    {
        let w = char_utf8_width(chars[k]);
        proof {
            assert(chars@.subrange(lo as int, k + 1) =~= chars@.subrange(lo as int, k as int).push(
                chars@[k as int],
            ));
            lemma_utf8_len_push(chars@.subrange(lo as int, k as int), chars@[k as int]);
        }
        if sum + w > cap {
            proof {
                lemma_encode_utf8_concat(
                    chars@.subrange(lo as int, k + 1),
                    chars@.subrange(k + 1, hi as int),
                );
                assert(chars@.subrange(lo as int, k + 1) + chars@.subrange(k + 1, hi as int)
                    =~= chars@.subrange(lo as int, hi as int));
            }
            return cap + 1;
        }
        sum = sum + w;
        k = k + 1;
    }
    sum
}

/// `needle` occurs in `hay` as a run of consecutive characters
/// (`str::contains` with a text pattern).
pub open spec fn has_substring(hay: Seq<char>, needle: Seq<char>) -> bool {
    exists|i: int|
        0 <= i && i + needle.len() <= hay.len() && #[trigger] hay.subrange(i, i + needle.len()) == needle
}

/// Whether `needle` occurs in `hay`.
pub fn contains_text(hay: &str, needle: &str) -> (b: bool)
    ensures
        b == has_substring(hay@, needle@),
{
    let h = chars_of(hay);
    let n = chars_of(needle);
    if n.len() > h.len() {
        proof {
            assert forall|i: int| 0 <= i && i + n@.len() <= h@.len() implies #[trigger] h@.subrange(i, i + n@.len()) != n@ by {}
        }
        return false;
    }
    let last = h.len() - n.len();
    let mut i: usize = 0;
    loop
        invariant
            h@ == hay@,
            n@ == needle@,
            last == h@.len() - n@.len(),
            n@.len() <= h@.len(),
            i <= last,
            forall|j: int| 0 <= j < i ==> #[trigger] h@.subrange(j, j + n@.len()) != n@,
        decreases last - i,
    {
        let mut k: usize = 0;
        while k < n.len() && h[i + k] == n[k]
            invariant
                i <= last,
                last == h@.len() - n@.len(),
                n@.len() <= h@.len(),
                i + n@.len() <= h@.len(),
                h@.len() == h.len(),
                n@.len() == n.len(),
                k <= n@.len(),
                forall|m: int| 0 <= m < k ==> h@[i + m] == n@[m],
            decreases n@.len() - k,
        {
            k = k + 1;
        }
        if k == n.len() {
            assert(h@.subrange(i as int, i + n@.len()) =~= n@);
            return true;
        }
        assert(h@.subrange(i as int, i + n@.len())[k as int] != n@[k as int]);
        if i == last {
            return false;
        }
        i = i + 1;
    }
}

/// The text of an optional string.
pub open spec fn opt_text(o: Option<String>) -> Option<Seq<char>> {
    match o {
        Some(s) => Some(s@),
        None => None,
    }
}

/// The texts held by a list of strings.
pub open spec fn texts(v: Seq<String>) -> Seq<Seq<char>> {
    v.map_values(|s: String| s@)
}

/// Whether every character of `s` is ASCII.
pub open spec fn is_ascii_text(s: Seq<char>) -> bool {
    forall|i: int| 0 <= i < s.len() ==> (#[trigger] s[i] as u32) < 128
}

/// The ASCII upper case of a character: `a` to `z` become `A` to `Z`.
pub open spec fn ascii_upper(c: char) -> char {
    if 'a' <= c && c <= 'z' {
        ((c as u32) - 32) as char
    } else {
        c
    }
}

/// A text with its ASCII letters upper-cased.
pub open spec fn ascii_upper_text(s: Seq<char>) -> Seq<char> {
    s.map_values(|c: char| ascii_upper(c))
}

/// An ASCII letter or digit.
pub open spec fn ascii_letter_or_digit(c: char) -> bool {
    ('a' <= c && c <= 'z') || ('A' <= c && c <= 'Z') || ('0' <= c && c <= '9')
}

/// What `str::to_uppercase` returns for a text (Unicode case mapping).
pub uninterp spec fn uppercase(s: Seq<char>) -> Seq<char>;

/// What `char::is_alphanumeric` returns for a character (Unicode
/// `Alphabetic` or `Numeric`).
pub uninterp spec fn alphanumeric(c: char) -> bool;

/// The decimal digits of `n`, most significant first, without leading zeros
/// (`"0"` for zero).
pub open spec fn decimal(n: nat) -> Seq<char>
    decreases n,
{
    if n < 10 {
        seq![(n + 48) as char]
    } else {
        decimal(n / 10).push(((n % 10) + 48) as char)
    }
}

pub proof fn lemma_trim_start_step(s: Seq<char>, a: int, b: int, p: spec_fn(char) -> bool)
    requires
        0 <= a < b <= s.len(),
        p(s[a]),
    ensures
        trim_start_by(s.subrange(a, b), p) == trim_start_by(s.subrange(a + 1, b), p),
{
    assert(s.subrange(a, b).drop_first() =~= s.subrange(a + 1, b));
}

pub proof fn lemma_trim_start_stop(s: Seq<char>, a: int, b: int, p: spec_fn(char) -> bool)
    requires
        0 <= a <= b <= s.len(),
        a == b || !p(s[a]),
    ensures
        trim_start_by(s.subrange(a, b), p) == s.subrange(a, b),
{
}

pub proof fn lemma_trim_end_step(s: Seq<char>, a: int, b: int, p: spec_fn(char) -> bool)
    requires
        0 <= a < b <= s.len(),
        p(s[b - 1]),
    ensures
        trim_end_by(s.subrange(a, b), p) == trim_end_by(s.subrange(a, b - 1), p),
{
    assert(s.subrange(a, b).drop_last() =~= s.subrange(a, b - 1));
}

pub proof fn lemma_trim_end_stop(s: Seq<char>, a: int, b: int, p: spec_fn(char) -> bool)
    requires
        0 <= a <= b <= s.len(),
        a == b || !p(s[b - 1]),
    ensures
        trim_end_by(s.subrange(a, b), p) == s.subrange(a, b),
{
}

/// Whether `c` is Unicode whitespace.
pub fn white_space_check(c: char) -> (b: bool)
    ensures
        b == is_white_space(c),
{
    let u = c as u32;
    (0x09 <= u && u <= 0x0D) || u == 0x20 || u == 0x85 || u == 0xA0 || u == 0x1680 || (0x2000 <= u
        && u <= 0x200A) || u == 0x2028 || u == 0x2029 || u == 0x202F || u == 0x205F || u == 0x3000
}

/// The characters of `s`, in order.
pub fn chars_of(s: &str) -> (v: Vec<char>)
    ensures
        v@ == s@,
{
    let n = s.unicode_len();
    let mut v: Vec<char> = Vec::new();
    let mut i: usize = 0;
    while i < n
        invariant
            n == s@.len(),
            i <= n,
            v@ == s@.take(i as int),
        decreases n - i,
    {
        v.push(s.get_char(i));
        i = i + 1;
        assert(v@ =~= s@.take(i as int));
    }
    assert(v@ =~= s@);
    v
}

/// `str::trim`: `s` without its leading and trailing whitespace.
pub fn trim(s: &str) -> (t: &str)
    ensures
        t@ == trim_white_space(s@),
{
    let chars = chars_of(s);
    let ghost p = |c: char| is_white_space(c);
    let n = chars.len();
    let mut a: usize = 0;
    assert(chars@.subrange(0, n as int) =~= chars@);
    while a < n && white_space_check(chars[a])
        invariant
            p == (|c: char| is_white_space(c)),
            chars@ == s@,
            n == chars@.len(),
            a <= n,
            trim_start_by(s@, p) == trim_start_by(chars@.subrange(a as int, n as int), p),
        decreases n - a,
    {
        proof {
            lemma_trim_start_step(chars@, a as int, n as int, p);
        }
        a = a + 1;
    }
    proof {
        lemma_trim_start_stop(chars@, a as int, n as int, p);
    }
    let mut b: usize = n;
    while b > a && white_space_check(chars[b - 1])
        invariant
            p == (|c: char| is_white_space(c)),
            chars@ == s@,
            n == chars@.len(),
            a <= b <= n,
            trim_start_by(s@, p) == chars@.subrange(a as int, n as int),
            trim_white_space(s@) == trim_end_by(chars@.subrange(a as int, b as int), p),
        decreases b - a,
    {
        proof {
            lemma_trim_end_step(chars@, a as int, b as int, p);
        }
        b = b - 1;
    }
    proof {
        lemma_trim_end_stop(chars@, a as int, b as int, p);
    }
    s.substring_char(a, b)
}

/// Whether the two texts are the same sequence of characters.
pub fn same_text(a: &str, b: &str) -> (eq: bool)
    ensures
        eq == (a@ == b@),
{
    let n = a.unicode_len();
    if n != b.unicode_len() {
        return false;
    }
    let mut i: usize = 0;
    while i < n
        invariant
            n == a@.len(),
            n == b@.len(),
            i <= n,
            forall|j: int| 0 <= j < i ==> a@[j] == b@[j],
        decreases n - i,
    {
        if a.get_char(i) != b.get_char(i) {
            return false;
        }
        i = i + 1;
    }
    assert(a@ =~= b@);
    true
}

/// `String::push`: appends one character to the end of the string.
pub assume_specification[ String::push ](s: &mut String, ch: char)
    ensures
        final(s)@ == old(s)@.push(ch),
;

/// The decimal rendering of `n` (what `n.to_string()` gives).
pub fn decimal_string(n: u64) -> (s: String)
    ensures
        s@ == decimal(n as nat),
    decreases n,
{
    let d = ((n % 10) as u8 + 48) as char;
    if n < 10 {
        let mut s = String::new();
        s.push(d);
        s
    } else {
        let mut s = decimal_string(n / 10);
        s.push(d);
        s
    }
}

/// `str::to_uppercase`: the text with every character mapped to its
/// uppercase form by Unicode's case tables. The result is named
/// (`uppercase`); beyond that, only its ASCII part is stated: a text of
/// ASCII characters has `a` to `z` turned into `A` to `Z` and everything
/// else kept. The rest of the tables takes pages.
#[verifier::external_body]
pub fn to_uppercase(s: &str) -> (u: String)
    ensures
        u@ == uppercase(s@),
        is_ascii_text(s@) ==> u@ == ascii_upper_text(s@),
{
    s.to_uppercase()
}

/// `char::is_alphanumeric`: whether `c` has the Unicode `Alphabetic` or
/// `Numeric` property. The result is named (`alphanumeric`); beyond that,
/// only ASCII is stated: there the alphanumeric characters are the letters
/// and the digits. The rest of the tables takes pages.
#[verifier::external_body]
pub fn is_alphanumeric(c: char) -> (b: bool)
    ensures
        b == alphanumeric(c),
        (c as u32) < 128 ==> (b <==> ascii_letter_or_digit(c)),
{
    c.is_alphanumeric()
}


/// Space, tab, line feed, carriage return and the no-break space are
/// white space; ASCII letters and digits are not.
pub proof fn lemma_white_space_examples(c: char)
    ensures
        c == ' ' || c == '\t' || c == '\n' || c == '\r' || c == '\u{a0}' ==> is_white_space(c),
        ascii_letter_or_digit(c) ==> !is_white_space(c),
{
}

} // verus!
