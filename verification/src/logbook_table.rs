//! Logbook table: which QSOs the search shows and in what order, the
//! column headers, and the page bounds.

use vstd::prelude::*;
use crate::qso::QsoRecord;
use crate::text::{chars_of, contains_text, has_substring, same_text, to_uppercase, trim, trim_white_space, uppercase};

verus! {

/// How the header of column `col_id` is made: `Some((false, text))` shows
/// `text` as it is, `Some((true, key))` shows the translation of `key`,
/// `None` shows the caller's default label.
pub open spec fn column_header_rule(col_id: Seq<char>) -> Option<(bool, Seq<char>)> {
    if col_id == "nr"@ {
        Some((false, "Nr"@))
    } else if col_id == "date"@ {
        Some((true, "qso.date"@))
    } else if col_id == "time"@ {
        Some((true, "qso.time"@))
    } else if col_id == "callsign"@ {
        Some((true, "qso.callsign"@))
    } else if col_id == "band"@ {
        Some((true, "qso.band"@))
    } else if col_id == "mode"@ {
        Some((true, "qso.mode"@))
    } else if col_id == "rst_s"@ {
        Some((true, "qso.rst_sent"@))
    } else if col_id == "rst_r"@ {
        Some((true, "qso.rst_rcvd"@))
    } else if col_id == "country"@ {
        Some((true, "geo.country"@))
    } else if col_id == "name"@ {
        Some((true, "qso.name"@))
    } else if col_id == "qsl"@ {
        Some((false, "QSL"@))
    } else if col_id == "freq"@ {
        Some((true, "qso.freq"@))
    } else if col_id == "cqz"@ {
        Some((true, "geo.cq_zone"@))
    } else if col_id == "iota"@ {
        Some((true, "qso.iota"@))
    } else if col_id == "comment"@ {
        Some((true, "qso.comment"@))
    } else {
        None
    }
}

fn translated<F: Fn(&str) -> String>(key: &str, translate: &F) -> (s: String)
    requires
        forall|k: &str| #[trigger] translate.requires((k,)),
    ensures
        exists|k: &str| #![trigger translate.ensures((k,), s)] k@ == key@ && translate.ensures((k,), s),
{
    let s = translate(key);
    assert(key@ == key@ && translate.ensures((key,), s));
    s
}

/// The header of the logbook column `col_id`: fixed text for `nr` and
/// `qsl`, the translation (by `translate`) of the column's key for the
/// known columns, and `default_label` for any other column.
pub fn col_display_name<F: Fn(&str) -> String>(col_id: &str, default_label: &str, translate: F) -> (s: String)
    requires
        forall|k: &str| #[trigger] translate.requires((k,)),
    ensures
        match column_header_rule(col_id@) {
            Some((false, text)) => s@ == text,
            Some((true, key)) => exists|k: &str|
                #![trigger translate.ensures((k,), s)]
                k@ == key && translate.ensures((k,), s),
            None => s@ == default_label@,
        },
{
    if same_text(col_id, "nr") {
        String::from_str("Nr")
    } else if same_text(col_id, "date") {
        translated("qso.date", &translate)
    } else if same_text(col_id, "time") {
        translated("qso.time", &translate)
    } else if same_text(col_id, "callsign") {
        translated("qso.callsign", &translate)
    } else if same_text(col_id, "band") {
        translated("qso.band", &translate)
    } else if same_text(col_id, "mode") {
        translated("qso.mode", &translate)
    } else if same_text(col_id, "rst_s") {
        translated("qso.rst_sent", &translate)
    } else if same_text(col_id, "rst_r") {
        translated("qso.rst_rcvd", &translate)
    } else if same_text(col_id, "country") {
        translated("geo.country", &translate)
    } else if same_text(col_id, "name") {
        translated("qso.name", &translate)
    } else if same_text(col_id, "qsl") {
        String::from_str("QSL")
    } else if same_text(col_id, "freq") {
        translated("qso.freq", &translate)
    } else if same_text(col_id, "cqz") {
        translated("geo.cq_zone", &translate)
    } else if same_text(col_id, "iota") {
        translated("qso.iota", &translate)
    } else if same_text(col_id, "comment") {
        translated("qso.comment", &translate)
    } else {
        String::from_str(default_label)
    }
}

/// The text of an optional field, or nothing.
pub open spec fn text_or_empty(t: Option<String>) -> Seq<char> {
    match t {
        Some(s) => s@,
        None => Seq::empty(),
    }
}

/// Whether QSO `q` shows under the search text `query` (already trimmed and
/// upper-cased): an empty query shows every QSO, any other must occur in
/// the upper-cased call, band, mode, country or comment.
pub open spec fn search_matches(q: QsoRecord, query: Seq<char>) -> bool {
    ||| query.len() == 0
    ||| has_substring(uppercase(q.callsign@), query)
    ||| has_substring(uppercase(q.band@), query)
    ||| has_substring(uppercase(q.mode@), query)
    ||| has_substring(uppercase(text_or_empty(q.country)), query)
    ||| has_substring(uppercase(text_or_empty(q.comment)), query)
}

/// The text the table sorts by in column `column`: 1 call, 2 band, 3 mode,
/// 4 country, any other the date followed by the time.
pub open spec fn sort_key(q: QsoRecord, column: usize) -> Seq<char> {
    if column == 1 {
        q.callsign@
    } else if column == 2 {
        q.band@
    } else if column == 3 {
        q.mode@
    } else if column == 4 {
        text_or_empty(q.country)
    } else {
        q.qso_date@ + q.time_on@
    }
}

/// Lexicographic order of texts by character code. This is the order of
/// `str`'s comparison, which compares UTF-8 bytes: UTF-8 keeps the order of
/// code points byte by byte.
pub open spec fn text_less(a: Seq<char>, b: Seq<char>) -> bool
    decreases a.len(),
{
    if a.len() == 0 {
        b.len() > 0
    } else if b.len() == 0 {
        false
    } else if a[0] != b[0] {
        a[0] < b[0]
    } else {
        text_less(a.drop_first(), b.drop_first())
    }
}

/// Whether row `i` of the log is listed before row `j`: by sort key,
/// rising or falling, and rows with equal keys in log order (the sort is
/// stable).
pub open spec fn row_before(qsos: Seq<QsoRecord>, column: usize, ascending: bool, i: int, j: int) -> bool {
    let a = sort_key(qsos[i], column);
    let b = sort_key(qsos[j], column);
    if a == b {
        i < j
    } else if ascending {
        text_less(a, b)
    } else {
        text_less(b, a)
    }
}

/// No text comes before itself.
pub proof fn lemma_text_less_irreflexive(a: Seq<char>)
    ensures
        !text_less(a, a),
    decreases a.len(),
{
    if a.len() > 0 {
        lemma_text_less_irreflexive(a.drop_first());
    }
}

/// Of two texts, at most one comes before the other.
pub proof fn lemma_text_less_asymmetric(a: Seq<char>, b: Seq<char>)
    ensures
        !(text_less(a, b) && text_less(b, a)),
    decreases a.len(),
{
    if a.len() > 0 && b.len() > 0 && a[0] == b[0] {
        lemma_text_less_asymmetric(a.drop_first(), b.drop_first());
    }
}

/// Of two different texts, one comes before the other.
pub proof fn lemma_text_less_total(a: Seq<char>, b: Seq<char>)
    requires
        a != b,
    ensures
        text_less(a, b) || text_less(b, a),
    decreases a.len(),
{
    if a.len() > 0 && b.len() > 0 && a[0] == b[0] {
        if a.drop_first() == b.drop_first() {
            assert(a =~= seq![a[0]] + a.drop_first());
            assert(b =~= seq![b[0]] + b.drop_first());
        }
        lemma_text_less_total(a.drop_first(), b.drop_first());
    } else if a.len() == 0 && b.len() == 0 {
        assert(a =~= b);
    }
}

/// The order of texts is transitive.
pub proof fn lemma_text_less_transitive(a: Seq<char>, b: Seq<char>, c: Seq<char>)
    requires
        text_less(a, b),
        text_less(b, c),
    ensures
        text_less(a, c),
    decreases a.len(),
{
    if a.len() > 0 && b.len() > 0 && c.len() > 0 && a[0] == b[0] && b[0] == c[0] {
        lemma_text_less_transitive(a.drop_first(), b.drop_first(), c.drop_first());
    } else if a.len() > 0 && b.len() > 0 && c.len() > 0 {
        assert(a[0] <= b[0]);
        assert(b[0] <= c[0]);
    }
}

/// Listing order is a strict total order on the rows: irreflexive,
/// transitive, and any two different rows are ordered one way.
pub proof fn lemma_row_before_order(qsos: Seq<QsoRecord>, column: usize, ascending: bool, i: int, j: int, k: int)
    ensures
        !row_before(qsos, column, ascending, i, i),
        i != j ==> row_before(qsos, column, ascending, i, j) || row_before(qsos, column, ascending, j, i),
        !(row_before(qsos, column, ascending, i, j) && row_before(qsos, column, ascending, j, i)),
        row_before(qsos, column, ascending, i, j) && row_before(qsos, column, ascending, j, k)
            ==> row_before(qsos, column, ascending, i, k),
{
    let a = sort_key(qsos[i], column);
    let b = sort_key(qsos[j], column);
    let c = sort_key(qsos[k], column);
    lemma_text_less_irreflexive(a);
    if a != b {
        lemma_text_less_total(a, b);
    }
    lemma_text_less_asymmetric(a, b);
    if row_before(qsos, column, ascending, i, j) && row_before(qsos, column, ascending, j, k) {
        if a != b && b != c {
            if ascending {
                lemma_text_less_transitive(a, b, c);
                if a == c {
                    lemma_text_less_asymmetric(a, b);
                }
            } else {
                lemma_text_less_transitive(c, b, a);
                if a == c {
                    lemma_text_less_asymmetric(a, b);
                }
            }
        }
    }
}

/// The search looks in five fields: a QSO whose upper-cased call, band,
/// mode, country or comment holds the (trimmed, upper-cased) query is
/// shown, every QSO is shown for an empty query, and no other QSO is.
pub proof fn lemma_search_fields(q: QsoRecord, query: Seq<char>)
    ensures
        query.len() == 0 ==> search_matches(q, query),
        has_substring(uppercase(q.callsign@), query) ==> search_matches(q, query),
        has_substring(uppercase(q.band@), query) ==> search_matches(q, query),
        has_substring(uppercase(q.mode@), query) ==> search_matches(q, query),
        (q.country matches Some(c) && has_substring(uppercase(c@), query)) ==> search_matches(q, query),
        (q.comment matches Some(c) && has_substring(uppercase(c@), query)) ==> search_matches(q, query),
        search_matches(q, query) ==> query.len() == 0 || has_substring(uppercase(q.callsign@), query)
            || has_substring(uppercase(q.band@), query) || has_substring(uppercase(q.mode@), query)
            || has_substring(uppercase(text_or_empty(q.country)), query) || has_substring(
            uppercase(text_or_empty(q.comment)),
            query,
        ),
{
}

/// The keys the table sorts by: column 1 orders by call, 2 by band, 3 by
/// mode, 4 by country (none counting as empty), any other column by date
/// and then time; rising, a row with a smaller key comes first, falling, a
/// row with a larger one; equal keys keep the log's order.
pub proof fn lemma_sort_keys(qsos: Seq<QsoRecord>, ascending: bool, i: int, j: int)
    requires
        0 <= i < qsos.len(),
        0 <= j < qsos.len(),
    ensures
        text_less(qsos[i].callsign@, qsos[j].callsign@) ==> row_before(qsos, 1, true, i, j) && row_before(qsos, 1, false, j, i),
        text_less(qsos[i].band@, qsos[j].band@) ==> row_before(qsos, 2, true, i, j) && row_before(qsos, 2, false, j, i),
        text_less(qsos[i].mode@, qsos[j].mode@) ==> row_before(qsos, 3, true, i, j) && row_before(qsos, 3, false, j, i),
        (qsos[i].country is None && (qsos[j].country matches Some(c) && c@.len() > 0)) ==> row_before(qsos, 4, true, i, j),
        text_less(qsos[i].qso_date@ + qsos[i].time_on@, qsos[j].qso_date@ + qsos[j].time_on@) ==> row_before(qsos, 0, true, i, j)
            && row_before(qsos, 0, false, j, i),
        (qsos[i].qso_date@ == qsos[j].qso_date@ && qsos[i].time_on@ == qsos[j].time_on@ && i < j) ==> row_before(qsos, 0, ascending, i, j),
{
    lemma_text_less_irreflexive(qsos[i].callsign@);
    lemma_text_less_irreflexive(qsos[i].band@);
    lemma_text_less_irreflexive(qsos[i].mode@);
    lemma_text_less_irreflexive(qsos[i].qso_date@ + qsos[i].time_on@);
    if let Some(c) = qsos[j].country {
        if c@.len() > 0 {
            assert(text_less(Seq::<char>::empty(), c@));
        }
    }
}

/// Whether QSO `q` matches the search text `query`, already trimmed and
/// upper-cased.
pub fn log_matches(q: &QsoRecord, query: &str) -> (b: bool)
    ensures
        b == search_matches(*q, query@),
{
    if query.is_empty() {
        return true;
    }
    let call = to_uppercase(q.callsign.as_str());
    if contains_text(call.as_str(), query) {
        return true;
    }
    let band = to_uppercase(q.band.as_str());
    if contains_text(band.as_str(), query) {
        return true;
    }
    let mode = to_uppercase(q.mode.as_str());
    if contains_text(mode.as_str(), query) {
        return true;
    }
    let country = match &q.country {
        Some(c) => to_uppercase(c.as_str()),
        None => to_uppercase(""),
    };
    proof {
        if q.country is None {
            reveal_strlit("");
            assert(""@ =~= text_or_empty(q.country));
        }
    }
    if contains_text(country.as_str(), query) {
        return true;
    }
    let comment = match &q.comment {
        Some(c) => to_uppercase(c.as_str()),
        None => to_uppercase(""),
    };
    proof {
        if q.comment is None {
            reveal_strlit("");
            assert(""@ =~= text_or_empty(q.comment));
        }
    }
    contains_text(comment.as_str(), query)
}

fn row_key(q: &QsoRecord, column: usize) -> (k: Vec<char>)
    ensures
        k@ == sort_key(*q, column),
{
    if column == 1 {
        chars_of(q.callsign.as_str())
    } else if column == 2 {
        chars_of(q.band.as_str())
    } else if column == 3 {
        chars_of(q.mode.as_str())
    } else if column == 4 {
        match &q.country {
            Some(c) => chars_of(c.as_str()),
            None => Vec::new(),
        }
    } else {
        let mut k = chars_of(q.qso_date.as_str());
        let mut t = chars_of(q.time_on.as_str());
        k.append(&mut t);
        k
    }
}

pub(crate) fn key_less(a: &Vec<char>, b: &Vec<char>) -> (r: bool)
    ensures
        r == text_less(a@, b@),
{
    let mut i: usize = 0;
    assert(a@.skip(0) =~= a@ && b@.skip(0) =~= b@);
    while i < a.len() && i < b.len() && a[i] == b[i]
        invariant
            i <= a@.len(),
            i <= b@.len(),
            text_less(a@, b@) == text_less(a@.skip(i as int), b@.skip(i as int)),
        decreases a@.len() - i,
    {
        proof {
            assert(a@.skip(i as int).drop_first() =~= a@.skip(i + 1));
            assert(b@.skip(i as int).drop_first() =~= b@.skip(i + 1));
        }
        i = i + 1;
    }
    if i == a.len() {
        i < b.len()
    } else if i == b.len() {
        false
    } else {
        assert(a@.skip(i as int)[0] == a@[i as int]);
        assert(b@.skip(i as int)[0] == b@[i as int]);
        a[i] < b[i]
    }
}

fn before_exec(qsos: &Vec<QsoRecord>, keys: &Vec<Vec<char>>, column: usize, ascending: bool, i: usize, j: usize) -> (r: bool)
    requires
        i < keys@.len(),
        j < keys@.len(),
        keys@.len() <= qsos@.len(),
        forall|k: int| 0 <= k < keys@.len() ==> (#[trigger] keys@[k])@ == sort_key(qsos@[k], column),
    ensures
        r == row_before(qsos@, column, ascending, i as int, j as int),
{
    let a = &keys[i];
    let b = &keys[j];
    let ab = key_less(a, b);
    let ba = key_less(b, a);
    proof {
        if a@ != b@ {
            lemma_text_less_total(a@, b@);
        }
        lemma_text_less_irreflexive(a@);
    }
    if !ab && !ba {
        i < j
    } else if ascending {
        ab
    } else {
        ba
    }
}

/// The rows the logbook lists: the positions of the QSOs that match the
/// search text `search` (trimmed and upper-cased first), ordered by the key
/// of column `column`, rising when `ascending`, falling otherwise, rows
/// with equal keys in log order.
pub fn log_view(qsos: &Vec<QsoRecord>, search: &str, column: usize, ascending: bool) -> (rows: Vec<usize>)
    ensures
        forall|k: int| 0 <= k < rows@.len() ==> #[trigger] rows@[k] < qsos@.len(),
        forall|a: int, b: int|
            #![trigger rows@[a], rows@[b]]
            0 <= a < b < rows@.len() ==> row_before(qsos@, column, ascending, rows@[a] as int, rows@[b] as int),
        forall|i: int|
            0 <= i < qsos@.len() ==> (rows@.contains(i as usize) <==> search_matches(
                #[trigger] qsos@[i],
                uppercase(trim_white_space(search@)),
            )),
{
    let query = to_uppercase(trim(search));
    let mut keys: Vec<Vec<char>> = Vec::new();
    let mut rows: Vec<usize> = Vec::new();
    let mut i: usize = 0;
    while i < qsos.len()
        invariant
            i <= qsos@.len(),
            query@ == uppercase(trim_white_space(search@)),
            keys@.len() == i,
            forall|k: int| 0 <= k < i ==> (#[trigger] keys@[k])@ == sort_key(qsos@[k], column),
            forall|k: int| 0 <= k < rows@.len() ==> #[trigger] rows@[k] < i,
            forall|a: int, b: int|
                #![trigger rows@[a], rows@[b]]
                0 <= a < b < rows@.len() ==> row_before(qsos@, column, ascending, rows@[a] as int, rows@[b] as int),
            forall|j: int|
                0 <= j < i ==> (rows@.contains(j as usize) <==> search_matches(#[trigger] qsos@[j], query@)),
        decreases qsos@.len() - i,
    {
        let k = row_key(&qsos[i], column);
        keys.push(k);
        let ghost before = rows@;
        if log_matches(&qsos[i], query.as_str()) {
            let mut p: usize = 0;
            while p < rows.len() && !before_exec(qsos, &keys, column, ascending, i, rows[p])
                invariant
                    i < qsos@.len(),
                    keys@.len() == i + 1,
                    forall|k: int| 0 <= k <= i ==> (#[trigger] keys@[k])@ == sort_key(qsos@[k], column),
                    rows@ == before,
                    forall|k: int| 0 <= k < rows@.len() ==> #[trigger] rows@[k] < i,
                    p <= rows@.len(),
                    forall|k: int| 0 <= k < p ==> row_before(qsos@, column, ascending, #[trigger] rows@[k] as int, i as int),
                decreases rows@.len() - p,
            {
                proof {
                    lemma_row_before_order(qsos@, column, ascending, i as int, rows@[p as int] as int, 0);
                }
                p = p + 1;
            }
            proof {
                assert forall|k: int| p <= k < rows@.len() implies row_before(qsos@, column, ascending, i as int, #[trigger] rows@[k] as int) by {
                    if k > p {
                        assert(row_before(qsos@, column, ascending, rows@[p as int] as int, rows@[k] as int));
                        lemma_row_before_order(qsos@, column, ascending, i as int, rows@[p as int] as int, rows@[k] as int);
                    }
                }
            }
            rows.insert(p, i);
            proof {
                assert(rows@ == before.insert(p as int, i));
                assert forall|a: int, b: int|
                    #![trigger rows@[a], rows@[b]]
                    0 <= a < b < rows@.len() implies row_before(qsos@, column, ascending, rows@[a] as int, rows@[b] as int) by {
                    if a < p && b == p {
                        assert(rows@[a] == before[a]);
                    } else if a < p && b > p {
                        assert(rows@[a] == before[a] && rows@[b] == before[b - 1]);
                        assert(row_before(qsos@, column, ascending, before[a] as int, before[b - 1] as int));
                    } else if a == p {
                        assert(rows@[b] == before[b - 1]);
                    } else if a > p {
                        assert(rows@[a] == before[a - 1] && rows@[b] == before[b - 1]);
                        assert(row_before(qsos@, column, ascending, before[a - 1] as int, before[b - 1] as int));
                    } else {
                        assert(rows@[a] == before[a] && rows@[b] == before[b]);
                        assert(row_before(qsos@, column, ascending, before[a] as int, before[b] as int));
                    }
                }
                assert forall|j: int| 0 <= j <= i implies (rows@.contains(j as usize) <==> search_matches(#[trigger] qsos@[j], query@)) by {
                    if j < i {
                        if rows@.contains(j as usize) {
                            let t = choose|t: int| 0 <= t < rows@.len() && rows@[t] == j as usize;
                            if t < p {
                                assert(before[t] == j as usize);
                            } else if t > p {
                                assert(before[t - 1] == j as usize);
                            }
                        }
                        if before.contains(j as usize) {
                            let t = choose|t: int| 0 <= t < before.len() && before[t] == j as usize;
                            if t < p {
                                assert(rows@[t] == j as usize);
                            } else {
                                assert(rows@[t + 1] == j as usize);
                            }
                        }
                    } else {
                        assert(rows@[p as int] == i);
                    }
                }
                assert forall|k: int| 0 <= k < rows@.len() implies #[trigger] rows@[k] < i + 1 by {
                    if k < p {
                        assert(rows@[k] == before[k]);
                    } else if k > p {
                        assert(rows@[k] == before[k - 1]);
                    }
                }
            }
        } else {
            proof {
                assert(!before.contains(i));
            }
        }
        i = i + 1;
    }
    rows
}

/// The rows `start..end` of page `page`: a page size of 0 means one page
/// holding every row; otherwise the page starts at `page * page_size` and
/// ends `page_size` rows later or at the last row, whichever comes first.
pub fn page_range(page: usize, page_size: usize, total: usize) -> (r: (usize, usize))
    requires
        page_size == 0 || page * page_size + page_size <= usize::MAX,
    ensures
        page_size == 0 ==> r == (0usize, total),
        page_size != 0 ==> r.0 == page * page_size && r.1 == if page * page_size + page_size < total {
            page * page_size + page_size
        } else {
            total as int
        },
{
    if page_size == 0 {
        return (0, total);
    }
    let start = page * page_size;
    let end = if start + page_size < total { start + page_size } else { total };
    (start, end)
}

/// The number of pages shown in the pager for `total` rows of `page_size`
/// (not 0) each: the rows divided by the page size, rounded up, and at least
/// one.
pub fn page_count(total: usize, page_size: usize) -> (n: usize)
    requires
        page_size > 0,
        total + page_size <= usize::MAX,
    ensures
        n == if total == 0 { 1 } else { (total + page_size - 1) as int / page_size as int },
{
    let pages: usize = (total + page_size - 1) / page_size;
    if total == 0 {
        assert(pages == 0) by (nonlinear_arith)
            requires
                pages == (page_size - 1) as int / page_size as int,
                page_size > 0,
        ;
    } else {
        assert(pages >= 1) by (nonlinear_arith)
            requires
                pages == (total + page_size - 1) as int / page_size as int,
                page_size > 0,
                total > 0,
        ;
    }
    if pages < 1 {
        1
    } else {
        pages
    }
}

/// Consecutive pages meet: a page ends where the next one starts, or at
/// the last row.
pub proof fn lemma_pages_adjacent(page: int, page_size: int, total: int)
    requires
        0 <= page,
        0 < page_size,
        0 <= total,
    ensures
        (if page * page_size + page_size < total { page * page_size + page_size } else { total })
            == if (page + 1) * page_size < total { (page + 1) * page_size } else { total },
{
    assert((page + 1) * page_size == page * page_size + page_size) by (nonlinear_arith);
}

} // verus!
