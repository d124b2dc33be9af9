//! The award window: the DXCC band/mode matrix (for each band and mode
//! column, whether the log holds a confirmed QSO, only worked ones, or
//! none), and the entries of the other awards with their search and totals.

use vstd::prelude::*;
use crate::qso::QsoRecord;
use crate::logbook_table::{
    key_less, lemma_text_less_asymmetric, lemma_text_less_irreflexive, lemma_text_less_total,
    lemma_text_less_transitive, text_less,
};
use crate::text::{chars_of, contains_text, has_substring, same_text, to_uppercase, trim, trim_white_space, uppercase};

verus! {

/// The state of one cell of the matrix.
#[derive(Clone, Copy, Debug, PartialEq, Eq, Structural)]
pub enum CellStatus {
    /// A QSO of the cell is confirmed.
    Confirmed,
    /// The cell holds QSOs, none confirmed.
    Worked,
    /// The cell holds no QSO.
    Needed,
}

/// Whether a QSO of mode `q_mode` counts in column `column`: `MIXED` takes
/// every mode, `DIGI` also takes FT8, FT4 and RTTY, any other column its
/// own mode.
pub open spec fn in_column(q_mode: Seq<char>, column: Seq<char>) -> bool {
    column == "MIXED"@ || q_mode == column || (column == "DIGI"@ && (q_mode == "FT8"@ || q_mode
        == "FT4"@ || q_mode == "RTTY"@))
}

/// Confirmed for the matrix: LoTW, paper card or eQSL status `Y`.
pub open spec fn award_confirmed(q: QsoRecord) -> bool {
    q.lotw_qsl_rcvd@ == "Y"@ || q.qsl_rcvd@ == "Y"@ || q.eqsl_qsl_rcvd@ == "Y"@
}

/// Whether QSO `q` falls in the cell of `band` and `column`.
pub open spec fn in_cell(q: QsoRecord, band: Seq<char>, column: Seq<char>) -> bool {
    q.band@ == band && in_column(q.mode@, column)
}

/// The state of the cell of `band` and `column`.
pub open spec fn cell_status(qsos: Seq<QsoRecord>, band: Seq<char>, column: Seq<char>) -> CellStatus {
    if exists|i: int| 0 <= i < qsos.len() && in_cell(#[trigger] qsos[i], band, column) && award_confirmed(qsos[i]) {
        CellStatus::Confirmed
    } else if exists|i: int| 0 <= i < qsos.len() && in_cell(#[trigger] qsos[i], band, column) {
        CellStatus::Worked
    } else {
        CellStatus::Needed
    }
}

/// How far a cell is along: needed, worked, confirmed.
pub open spec fn progress(s: CellStatus) -> int {
    match s {
        CellStatus::Needed => 0,
        CellStatus::Worked => 1,
        CellStatus::Confirmed => 2,
    }
}

/// The QSOs of a log on `band`.
pub open spec fn on_band(qsos: Seq<QsoRecord>, band: Seq<char>) -> Seq<QsoRecord> {
    qsos.filter(|q: QsoRecord| q.band@ == band)
}

/// The bands of the matrix, in its row order.
pub open spec fn matrix_band(i: int) -> Seq<char> {
    if i == 0 {
        "160m"@
    } else if i == 1 {
        "80m"@
    } else if i == 2 {
        "60m"@
    } else if i == 3 {
        "40m"@
    } else if i == 4 {
        "30m"@
    } else if i == 5 {
        "20m"@
    } else if i == 6 {
        "17m"@
    } else if i == 7 {
        "15m"@
    } else if i == 8 {
        "12m"@
    } else if i == 9 {
        "10m"@
    } else if i == 10 {
        "6m"@
    } else if i == 11 {
        "4m"@
    } else if i == 12 {
        "2m"@
    } else {
        "70cm"@
    }
}

/// The mode columns of the matrix, in order.
pub open spec fn matrix_column(j: int) -> Seq<char> {
    if j == 0 {
        "CW"@
    } else if j == 1 {
        "SSB"@
    } else if j == 2 {
        "DIGI"@
    } else {
        "MIXED"@
    }
}

/// Number of band rows.
pub const MATRIX_BANDS: usize = 14;

/// Number of mode columns.
pub const MATRIX_COLUMNS: usize = 4;

fn band_label(i: usize) -> (s: &'static str)
    requires
        i < MATRIX_BANDS,
    ensures
        s@ == matrix_band(i as int),
{
    match i {
        0 => "160m",
        1 => "80m",
        2 => "60m",
        3 => "40m",
        4 => "30m",
        5 => "20m",
        6 => "17m",
        7 => "15m",
        8 => "12m",
        9 => "10m",
        10 => "6m",
        11 => "4m",
        12 => "2m",
        _ => "70cm",
    }
}

fn column_label(j: usize) -> (s: &'static str)
    requires
        j < MATRIX_COLUMNS,
    ensures
        s@ == matrix_column(j as int),
{
    match j {
        0 => "CW",
        1 => "SSB",
        2 => "DIGI",
        _ => "MIXED",
    }
}

fn mode_in_column(mode: &str, column: &str) -> (b: bool)
    ensures
        b == in_column(mode@, column@),
{
    same_text(column, "MIXED") || same_text(mode, column) || (same_text(column, "DIGI") && (
    same_text(mode, "FT8") || same_text(mode, "FT4") || same_text(mode, "RTTY")))
}

fn qso_award_confirmed(q: &QsoRecord) -> (b: bool)
    ensures
        b == award_confirmed(*q),
{
    same_text(q.lotw_qsl_rcvd.as_str(), "Y") || same_text(q.qsl_rcvd.as_str(), "Y") || same_text(
        q.eqsl_qsl_rcvd.as_str(),
        "Y",
    )
}

/// The state of the matrix cell of `band` and mode column `column`.
pub fn band_mode_status(qsos: &Vec<QsoRecord>, band: &str, column: &str) -> (s: CellStatus)
    ensures
        s == cell_status(qsos@, band@, column@),
{
    let mut worked = false;
    let mut i: usize = 0;
    while i < qsos.len()
        invariant
            i <= qsos@.len(),
            worked == exists|j: int| 0 <= j < i && in_cell(#[trigger] qsos@[j], band@, column@),
            forall|j: int|
                0 <= j < i ==> !(in_cell(#[trigger] qsos@[j], band@, column@) && award_confirmed(
                    qsos@[j],
                )),
        decreases qsos@.len() - i,
    {
        let q = &qsos[i];
        if same_text(q.band.as_str(), band) && mode_in_column(q.mode.as_str(), column) {
            if qso_award_confirmed(q) {
                assert(in_cell(qsos@[i as int], band@, column@) && award_confirmed(qsos@[i as int]));
                return CellStatus::Confirmed;
            }
            worked = true;
        }
        i = i + 1;
    }
    if worked {
        CellStatus::Worked
    } else {
        CellStatus::Needed
    }
}

/// The number of QSOs of the log on `band`.
pub fn band_qso_count(qsos: &Vec<QsoRecord>, band: &str) -> (n: usize)
    ensures
        n == on_band(qsos@, band@).len(),
{
    let mut n: usize = 0;
    let mut i: usize = 0;
    while i < qsos.len()
        invariant
            i <= qsos@.len(),
            n == on_band(qsos@.take(i as int), band@).len(),
            n <= i,
        decreases qsos@.len() - i,
    {
        proof {
            reveal(Seq::filter);
            assert(qsos@.take(i + 1).drop_last() =~= qsos@.take(i as int));
        }
        if same_text(qsos[i].band.as_str(), band) {
            n = n + 1;
        }
        i = i + 1;
    }
    assert(qsos@.take(qsos@.len() as int) =~= qsos@);
    n
}

/// One band row of the matrix: the band, the state of each mode column,
/// and the number of QSOs on the band.
pub struct MatrixRow {
    pub band: String,
    pub cells: Vec<CellStatus>,
    pub qso_count: usize,
}

/// Whether `row` is the matrix row of band `i` for the log `qsos`.
pub open spec fn is_matrix_row(row: MatrixRow, qsos: Seq<QsoRecord>, i: int) -> bool {
    &&& row.band@ == matrix_band(i)
    &&& row.cells@.len() == MATRIX_COLUMNS
    &&& forall|j: int| 0 <= j < MATRIX_COLUMNS ==> #[trigger] row.cells@[j] == cell_status(qsos, matrix_band(i), matrix_column(j))
    &&& row.qso_count == on_band(qsos, matrix_band(i)).len()
}

/// The DXCC band/mode matrix of a log: one row per band, from 160 m to
/// 70 cm, with the CW, SSB, DIGI and MIXED columns.
pub fn dxcc_band_matrix(qsos: &Vec<QsoRecord>) -> (rows: Vec<MatrixRow>)
    ensures
        rows@.len() == MATRIX_BANDS,
        forall|i: int| 0 <= i < MATRIX_BANDS ==> is_matrix_row(#[trigger] rows@[i], qsos@, i),
{
    let mut rows: Vec<MatrixRow> = Vec::new();
    let mut i: usize = 0;
    while i < MATRIX_BANDS
        invariant
            i <= MATRIX_BANDS,
            rows@.len() == i,
            forall|k: int| 0 <= k < i ==> is_matrix_row(#[trigger] rows@[k], qsos@, k),
        decreases MATRIX_BANDS - i,
    {
        let band = band_label(i);
        let mut cells: Vec<CellStatus> = Vec::new();
        let mut j: usize = 0;
        while j < MATRIX_COLUMNS
            invariant
                j <= MATRIX_COLUMNS,
                i < MATRIX_BANDS,
                band@ == matrix_band(i as int),
                cells@.len() == j,
                forall|k: int| 0 <= k < j ==> #[trigger] cells@[k] == cell_status(qsos@, matrix_band(i as int), matrix_column(k)),
            decreases MATRIX_COLUMNS - j,
        {
            let s = band_mode_status(qsos, band, column_label(j));
            cells.push(s);
            j = j + 1;
        }
        let count: usize = band_qso_count(qsos, band);
        let row = MatrixRow { band: band.to_string(), cells, qso_count: count };
        assert(is_matrix_row(row, qsos@, i as int));
        rows.push(row);
        i = i + 1;
    }
    rows
}

/// A QSO counted for an entry of an award.
pub struct AwardQso {
    pub callsign: String,
    pub band: String,
    pub mode: String,
    pub qso_date: String,
    pub is_confirmed: bool,
}

/// One entry of an award (a prefix, island, grid square, summit, park or
/// commune) with its QSOs, oldest first.
pub struct AwardEntry {
    pub key: String,
    pub qsos: Vec<AwardQso>,
}

/// Whether some QSO of the entry is confirmed.
pub open spec fn entry_confirmed(e: AwardEntry) -> bool {
    exists|k: int| 0 <= k < e.qsos@.len() && (#[trigger] e.qsos@[k]).is_confirmed
}

/// Whether QSO `q` matches the search text `query` (trimmed, upper-cased):
/// in its upper-cased call, band or mode, or in its date as it is.
pub open spec fn award_qso_matches(q: AwardQso, query: Seq<char>) -> bool {
    ||| has_substring(uppercase(q.callsign@), query)
    ||| has_substring(uppercase(q.band@), query)
    ||| has_substring(uppercase(q.mode@), query)
    ||| has_substring(q.qso_date@, query)
}

/// Whether entry `e` shows under the search text `query` (trimmed,
/// upper-cased): every entry for an empty query, else one whose upper-cased
/// key holds it or that has a matching QSO.
pub open spec fn entry_matches(e: AwardEntry, query: Seq<char>) -> bool {
    ||| query.len() == 0
    ||| has_substring(uppercase(e.key@), query)
    ||| exists|k: int| 0 <= k < e.qsos@.len() && award_qso_matches(#[trigger] e.qsos@[k], query)
}

/// Whether entry `i` is listed before entry `j`: by key, in text order;
/// entries with the same key in the order given.
pub open spec fn entry_before(entries: Seq<AwardEntry>, i: int, j: int) -> bool {
    let a = entries[i].key@;
    let b = entries[j].key@;
    if a == b {
        i < j
    } else {
        text_less(a, b)
    }
}

/// The number of confirmed entries.
pub open spec fn confirmed_count(entries: Seq<AwardEntry>) -> nat
    decreases entries.len(),
{
    if entries.len() == 0 {
        0
    } else {
        confirmed_count(entries.drop_last()) + if entry_confirmed(entries.last()) {
            1nat
        } else {
            0nat
        }
    }
}

/// The number of QSOs over all entries.
pub open spec fn qso_total(entries: Seq<AwardEntry>) -> nat
    decreases entries.len(),
{
    if entries.len() == 0 {
        0
    } else {
        qso_total(entries.drop_last()) + entries.last().qsos@.len()
    }
}

proof fn lemma_entry_before_order(entries: Seq<AwardEntry>, i: int, j: int, k: int)
    ensures
        !entry_before(entries, i, i),
        i != j ==> entry_before(entries, i, j) || entry_before(entries, j, i),
        !(entry_before(entries, i, j) && entry_before(entries, j, i)),
        entry_before(entries, i, j) && entry_before(entries, j, k) ==> entry_before(entries, i, k),
{
    let a = entries[i].key@;
    let b = entries[j].key@;
    let c = entries[k].key@;
    lemma_text_less_irreflexive(a);
    if a != b {
        lemma_text_less_total(a, b);
    }
    lemma_text_less_asymmetric(a, b);
    if entry_before(entries, i, j) && entry_before(entries, j, k) && a != b && b != c {
        lemma_text_less_transitive(a, b, c);
        if a == c {
            lemma_text_less_asymmetric(a, b);
        }
    }
}

fn qso_is_match(q: &AwardQso, query: &str) -> (b: bool)
    ensures
        b == award_qso_matches(*q, query@),
{
    let c = to_uppercase(q.callsign.as_str());
    if contains_text(c.as_str(), query) {
        return true;
    }
    let b = to_uppercase(q.band.as_str());
    if contains_text(b.as_str(), query) {
        return true;
    }
    let m = to_uppercase(q.mode.as_str());
    if contains_text(m.as_str(), query) {
        return true;
    }
    contains_text(q.qso_date.as_str(), query)
}

/// Whether entry `e` matches the search text `query`, already trimmed and
/// upper-cased.
pub fn award_entry_matches(e: &AwardEntry, query: &str) -> (b: bool)
    ensures
        b == entry_matches(*e, query@),
{
    if query.is_empty() {
        return true;
    }
    let key = to_uppercase(e.key.as_str());
    if contains_text(key.as_str(), query) {
        return true;
    }
    let mut k: usize = 0;
    while k < e.qsos.len()
        invariant
            k <= e.qsos@.len(),
            forall|j: int| 0 <= j < k ==> !award_qso_matches(#[trigger] e.qsos@[j], query@),
        decreases e.qsos@.len() - k,
    {
        if qso_is_match(&e.qsos[k], query) {
            return true;
        }
        k = k + 1;
    }
    false
}

fn entry_before_exec(entries: &Vec<AwardEntry>, keys: &Vec<Vec<char>>, i: usize, j: usize) -> (r: bool)
    requires
        i < keys@.len(),
        j < keys@.len(),
        keys@.len() <= entries@.len(),
        forall|k: int| 0 <= k < keys@.len() ==> (#[trigger] keys@[k])@ == entries@[k].key@,
    ensures
        r == entry_before(entries@, i as int, j as int),
{
    let a = &keys[i];
    let b = &keys[j];
    let ab = key_less(a, b);
    let ba = key_less(b, a);
    proof {
        if a@ != b@ {
            lemma_text_less_total(a@, b@);
        }
        lemma_text_less_irreflexive(a@);
    }
    if !ab && !ba {
        i < j
    } else {
        ab
    }
}

/// The entries an award's list shows: those matching the search text
/// `search` (trimmed and upper-cased first), in the text order of their
/// keys.
pub fn award_entries_view(entries: &Vec<AwardEntry>, search: &str) -> (rows: Vec<usize>)
    ensures
        forall|k: int| 0 <= k < rows@.len() ==> #[trigger] rows@[k] < entries@.len(),
        forall|a: int, b: int|
            #![trigger rows@[a], rows@[b]]
            0 <= a < b < rows@.len() ==> entry_before(entries@, rows@[a] as int, rows@[b] as int),
        forall|i: int|
            0 <= i < entries@.len() ==> (rows@.contains(i as usize) <==> entry_matches(
                #[trigger] entries@[i],
                uppercase(trim_white_space(search@)),
            )),
{
    let query = to_uppercase(trim(search));
    let mut keys: Vec<Vec<char>> = Vec::new();
    let mut rows: Vec<usize> = Vec::new();
    let mut i: usize = 0;
    while i < entries.len()
        invariant
            i <= entries@.len(),
            query@ == uppercase(trim_white_space(search@)),
            keys@.len() == i,
            forall|k: int| 0 <= k < i ==> (#[trigger] keys@[k])@ == entries@[k].key@,
            forall|k: int| 0 <= k < rows@.len() ==> #[trigger] rows@[k] < i,
            forall|a: int, b: int|
                #![trigger rows@[a], rows@[b]]
                0 <= a < b < rows@.len() ==> entry_before(entries@, rows@[a] as int, rows@[b] as int),
            forall|j: int| 0 <= j < i ==> (rows@.contains(j as usize) <==> entry_matches(#[trigger] entries@[j], query@)),
        decreases entries@.len() - i,
    {
        let k = chars_of(entries[i].key.as_str());
        keys.push(k);
        let ghost before = rows@;
        if award_entry_matches(&entries[i], query.as_str()) {
            let mut p: usize = 0;
            while p < rows.len() && !entry_before_exec(entries, &keys, i, rows[p])
                invariant
                    i < entries@.len(),
                    keys@.len() == i + 1,
                    forall|k: int| 0 <= k <= i ==> (#[trigger] keys@[k])@ == entries@[k].key@,
                    rows@ == before,
                    forall|k: int| 0 <= k < rows@.len() ==> #[trigger] rows@[k] < i,
                    p <= rows@.len(),
                    forall|k: int| 0 <= k < p ==> entry_before(entries@, #[trigger] rows@[k] as int, i as int),
                decreases rows@.len() - p,
            {
                proof {
                    lemma_entry_before_order(entries@, i as int, rows@[p as int] as int, 0);
                }
                p = p + 1;
            }
            proof {
                assert forall|k: int| p <= k < rows@.len() implies entry_before(entries@, i as int, #[trigger] rows@[k] as int) by {
                    if k > p {
                        assert(entry_before(entries@, rows@[p as int] as int, rows@[k] as int));
                        lemma_entry_before_order(entries@, i as int, rows@[p as int] as int, rows@[k] as int);
                    }
                }
            }
            rows.insert(p, i);
            proof {
                assert(rows@ == before.insert(p as int, i));
                assert forall|a: int, b: int|
                    #![trigger rows@[a], rows@[b]]
                    0 <= a < b < rows@.len() implies entry_before(entries@, rows@[a] as int, rows@[b] as int) by {
                    if a < p && b == p {
                        assert(rows@[a] == before[a]);
                    } else if a < p && b > p {
                        assert(rows@[a] == before[a] && rows@[b] == before[b - 1]);
                        assert(entry_before(entries@, before[a] as int, before[b - 1] as int));
                    } else if a == p {
                        assert(rows@[b] == before[b - 1]);
                    } else if a > p {
                        assert(rows@[a] == before[a - 1] && rows@[b] == before[b - 1]);
                        assert(entry_before(entries@, before[a - 1] as int, before[b - 1] as int));
                    } else {
                        assert(rows@[a] == before[a] && rows@[b] == before[b]);
                        assert(entry_before(entries@, before[a] as int, before[b] as int));
                    }
                }
                assert forall|j: int| 0 <= j <= i implies (rows@.contains(j as usize) <==> entry_matches(#[trigger] entries@[j], query@)) by {
                    if j < i {
                        if rows@.contains(j as usize) {
                            let t = choose|t: int| 0 <= t < rows@.len() && rows@[t] == j as usize;
                            if t < p {
                                assert(before[t] == j as usize);
                            } else if t > p {
                                assert(before[t - 1] == j as usize);
                            }
                        }
                        if before.contains(j as usize) {
                            let t = choose|t: int| 0 <= t < before.len() && before[t] == j as usize;
                            if t < p {
                                assert(rows@[t] == j as usize);
                            } else {
                                assert(rows@[t + 1] == j as usize);
                            }
                        }
                    } else {
                        assert(rows@[p as int] == i);
                    }
                }
                assert forall|k: int| 0 <= k < rows@.len() implies #[trigger] rows@[k] < i + 1 by {
                    if k < p {
                        assert(rows@[k] == before[k]);
                    } else if k > p {
                        assert(rows@[k] == before[k - 1]);
                    }
                }
            }
        } else {
            proof {
                assert(!before.contains(i));
            }
        }
        i = i + 1;
    }
    rows
}

fn any_confirmed_qso(e: &AwardEntry) -> (b: bool)
    ensures
        b == entry_confirmed(*e),
{
    let mut k: usize = 0;
    while k < e.qsos.len()
        invariant
            k <= e.qsos@.len(),
            forall|j: int| 0 <= j < k ==> !(#[trigger] e.qsos@[j]).is_confirmed,
        decreases e.qsos@.len() - k,
    {
        if e.qsos[k].is_confirmed {
            return true;
        }
        k = k + 1;
    }
    false
}

proof fn lemma_totals_prefix(entries: Seq<AwardEntry>, n: int)
    requires
        0 <= n <= entries.len(),
    ensures
        qso_total(entries.take(n)) <= qso_total(entries),
        confirmed_count(entries.take(n)) <= n,
    decreases entries.len(), n,
{
    if n < entries.len() {
        assert(entries.drop_last().take(n) =~= entries.take(n));
        lemma_totals_prefix(entries.drop_last(), n);
    } else {
        assert(entries.take(n) =~= entries);
        if n > 0 {
            assert(entries.drop_last() =~= entries.take(n - 1));
            lemma_totals_prefix(entries, n - 1);
        }
    }
}

/// The summary line of an award: how many entries are worked, how many of
/// them confirmed, and how many QSOs they hold.
pub fn award_totals(entries: &Vec<AwardEntry>) -> (t: (usize, usize, usize))
    requires
        qso_total(entries@) <= usize::MAX,
    ensures
        t.0 == entries@.len(),
        t.1 == confirmed_count(entries@),
        t.2 == qso_total(entries@),
{
    let mut confirmed: usize = 0;
    let mut total: usize = 0;
    let mut i: usize = 0;
    while i < entries.len()
        invariant
            i <= entries@.len(),
            confirmed == confirmed_count(entries@.take(i as int)),
            total == qso_total(entries@.take(i as int)),
            qso_total(entries@) <= usize::MAX,
        decreases entries@.len() - i,
    {
        proof {
            assert(entries@.take(i + 1).drop_last() =~= entries@.take(i as int));
            lemma_totals_prefix(entries@, i + 1);
        }
        total = total + entries[i].qsos.len();
        if any_confirmed_qso(&entries[i]) {
            confirmed = confirmed + 1;
        }
        i = i + 1;
    }
    assert(entries@.take(entries@.len() as int) =~= entries@);
    (entries.len(), confirmed, total)
}

/// The MIXED column of a band is always at least as far along as any other
/// column of that band: every QSO counts in it.
pub proof fn lemma_mixed_dominates(qsos: Seq<QsoRecord>, band: Seq<char>, column: Seq<char>)
    ensures
        progress(cell_status(qsos, band, "MIXED"@)) >= progress(cell_status(qsos, band, column)),
{
    if exists|i: int| 0 <= i < qsos.len() && in_cell(#[trigger] qsos[i], band, column) && award_confirmed(qsos[i]) {
        let i = choose|i: int| 0 <= i < qsos.len() && in_cell(#[trigger] qsos[i], band, column) && award_confirmed(qsos[i]);
        assert(in_cell(qsos[i], band, "MIXED"@));
    } else if exists|i: int| 0 <= i < qsos.len() && in_cell(#[trigger] qsos[i], band, column) {
        let i = choose|i: int| 0 <= i < qsos.len() && in_cell(#[trigger] qsos[i], band, column);
        assert(in_cell(qsos[i], band, "MIXED"@));
    }
}

/// A cell that is not needed has at least one QSO on its band, so its row
/// counts at least one QSO.
pub proof fn lemma_cell_implies_band_qsos(qsos: Seq<QsoRecord>, band: Seq<char>, column: Seq<char>)
    requires
        cell_status(qsos, band, column) != CellStatus::Needed,
    ensures
        on_band(qsos, band).len() > 0,
{
    let i = choose|i: int| 0 <= i < qsos.len() && in_cell(#[trigger] qsos[i], band, column);
    lemma_filter_keeps(qsos, band, i);
}

proof fn lemma_filter_keeps(qsos: Seq<QsoRecord>, band: Seq<char>, i: int)
    requires
        0 <= i < qsos.len(),
        qsos[i].band@ == band,
    ensures
        on_band(qsos, band).len() > 0,
    decreases qsos.len(),
{
    reveal(Seq::filter);
    if i < qsos.len() - 1 {
        lemma_filter_keeps(qsos.drop_last(), band, i);
        assert(on_band(qsos.drop_last(), band).len() <= on_band(qsos, band).len());
    }
}


/// A QSO made in FT8, FT4 or RTTY counts in the DIGI column of its band:
/// that cell is at least worked, and confirmed when the QSO carries a
/// LoTW, paper-card or eQSL status `Y`.
pub proof fn lemma_digital_modes_count_in_digi(qsos: Seq<QsoRecord>, i: int)
    requires
        0 <= i < qsos.len(),
        qsos[i].mode@ == "FT8"@ || qsos[i].mode@ == "FT4"@ || qsos[i].mode@ == "RTTY"@,
    ensures
        cell_status(qsos, qsos[i].band@, "DIGI"@) != CellStatus::Needed,
        (qsos[i].lotw_qsl_rcvd@ == "Y"@ || qsos[i].qsl_rcvd@ == "Y"@ || qsos[i].eqsl_qsl_rcvd@ == "Y"@)
            ==> cell_status(qsos, qsos[i].band@, "DIGI"@) == CellStatus::Confirmed,
{
    assert(in_cell(qsos[i], qsos[i].band@, "DIGI"@));
}

/// A QSO counts in the column of its own mode and in MIXED on its band:
/// those cells are at least worked, and confirmed when the QSO carries a
/// LoTW, paper-card or eQSL status `Y`.
pub proof fn lemma_qso_counts_in_own_column(qsos: Seq<QsoRecord>, i: int)
    requires
        0 <= i < qsos.len(),
    ensures
        cell_status(qsos, qsos[i].band@, qsos[i].mode@) != CellStatus::Needed,
        cell_status(qsos, qsos[i].band@, "MIXED"@) != CellStatus::Needed,
        (qsos[i].lotw_qsl_rcvd@ == "Y"@ || qsos[i].qsl_rcvd@ == "Y"@ || qsos[i].eqsl_qsl_rcvd@ == "Y"@)
            ==> cell_status(qsos, qsos[i].band@, qsos[i].mode@) == CellStatus::Confirmed
            && cell_status(qsos, qsos[i].band@, "MIXED"@) == CellStatus::Confirmed,
{
    assert(in_cell(qsos[i], qsos[i].band@, qsos[i].mode@));
    assert(in_cell(qsos[i], qsos[i].band@, "MIXED"@));
}

/// The CW and SSB columns take only their own mode: where no QSO on the
/// band has that mode, the cell is needed; and a cell is confirmed only by
/// a QSO on the band with a LoTW, paper-card or eQSL status `Y`.
pub proof fn lemma_plain_columns_take_own_mode(qsos: Seq<QsoRecord>, band: Seq<char>, column: Seq<char>)
    requires
        column == "CW"@ || column == "SSB"@,
    ensures
        (forall|i: int| 0 <= i < qsos.len() && (#[trigger] qsos[i]).band@ == band ==> qsos[i].mode@ != column)
            ==> cell_status(qsos, band, column) == CellStatus::Needed,
        cell_status(qsos, band, column) == CellStatus::Confirmed ==> exists|i: int|
            0 <= i < qsos.len() && (#[trigger] qsos[i]).band@ == band && qsos[i].mode@ == column && (
            qsos[i].lotw_qsl_rcvd@ == "Y"@ || qsos[i].qsl_rcvd@ == "Y"@ || qsos[i].eqsl_qsl_rcvd@ == "Y"@),
{
    reveal_strlit("CW");
    reveal_strlit("SSB");
    reveal_strlit("MIXED");
    reveal_strlit("DIGI");
    assert(column != "MIXED"@ && column != "DIGI"@) by {
        if column == "CW"@ {
            assert(column.len() != "MIXED"@.len());
            assert(column.len() != "DIGI"@.len());
        } else {
            assert(column.len() != "MIXED"@.len());
            assert(column[0] != "DIGI"@[0]);
        }
    }
    if cell_status(qsos, band, column) == CellStatus::Confirmed {
        let i = choose|i: int| 0 <= i < qsos.len() && in_cell(#[trigger] qsos[i], band, column) && award_confirmed(qsos[i]);
        assert(qsos[i].band@ == band);
    }
}


/// The award-entry search looks in the entry's key (upper-cased) and in
/// each of its QSOs' call, band and mode (upper-cased) and date (as it
/// is); a confirmed entry is one with a confirmed QSO.
pub proof fn lemma_entry_search_fields(e: AwardEntry, query: Seq<char>, k: int)
    requires
        0 <= k < e.qsos@.len(),
    ensures
        query.len() == 0 ==> entry_matches(e, query),
        has_substring(uppercase(e.key@), query) ==> entry_matches(e, query),
        has_substring(uppercase(e.qsos@[k].callsign@), query) ==> entry_matches(e, query),
        has_substring(uppercase(e.qsos@[k].band@), query) ==> entry_matches(e, query),
        has_substring(uppercase(e.qsos@[k].mode@), query) ==> entry_matches(e, query),
        has_substring(e.qsos@[k].qso_date@, query) ==> entry_matches(e, query),
        e.qsos@[k].is_confirmed ==> entry_confirmed(e),
{
    assert(award_qso_matches(e.qsos@[k], query) == award_qso_matches(e.qsos@[k], query));
}

} // verus!
