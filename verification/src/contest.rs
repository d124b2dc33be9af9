//! User-defined contests: their definitions, the editor that keeps the list
//! of them, the running score of the log and the dupe check of the entry
//! line.

use vstd::prelude::*;
use crate::qso::QsoRecord;
use crate::text::{decimal, decimal_string, same_text, texts};

verus! {

/// A contest defined by the operator: its name, the exchange it asks for,
/// the points each QSO scores, the bands it runs on and a description.
pub struct CustomContest {
    pub name: String,
    pub exchange_format: String,
    pub points_per_qso: u32,
    pub bands: Vec<String>,
    pub description: String,
}

/// What a contest definition holds, as plain values.
#[verifier::ext_equal]
pub struct ContestDef {
    pub name: Seq<char>,
    pub exchange_format: Seq<char>,
    pub points_per_qso: u32,
    pub bands: Seq<Seq<char>>,
    pub description: Seq<char>,
}

impl View for CustomContest {
    type V = ContestDef;

    open spec fn view(&self) -> ContestDef {
        ContestDef {
            name: self.name@,
            exchange_format: self.exchange_format@,
            points_per_qso: self.points_per_qso,
            bands: texts(self.bands@),
            description: self.description@,
        }
    }
}

/// The definition that a new contest starts from: everything empty, no
/// points.
pub open spec fn empty_def() -> ContestDef {
    ContestDef {
        name: Seq::empty(),
        exchange_format: Seq::empty(),
        points_per_qso: 0,
        bands: Seq::empty(),
        description: Seq::empty(),
    }
}

impl Default for CustomContest {
    fn default() -> (c: Self)
        ensures
            c@ == empty_def(),
    {
        let c = CustomContest {
            name: String::new(),
            exchange_format: String::new(),
            points_per_qso: 0,
            bands: Vec::new(),
            description: String::new(),
        };
        assert(c@ =~= empty_def());
        c
    }
}

impl Clone for CustomContest {
    fn clone(&self) -> (c: Self)
        ensures
            c@ == self@,
    {
        let bands = self.bands.clone();
        proof {
            assert forall|i: int| 0 <= i < bands@.len() implies bands@[i] == self.bands@[i] by {
                assert(cloned::<String>(self.bands[i], bands[i]));
            }
            assert(bands@ =~= self.bands@);
        }
        let c = CustomContest {
            name: self.name.clone(),
            exchange_format: self.exchange_format.clone(),
            points_per_qso: self.points_per_qso,
            bands,
            description: self.description.clone(),
        };
        assert(c@ =~= self@);
        c
    }
}

/// The definitions held by a list of contests.
pub open spec fn defs(v: Seq<CustomContest>) -> Seq<ContestDef> {
    v.map_values(|c: CustomContest| c@)
}

/// The list of user-defined contests with the one being edited: `draft` is
/// the definition on the form, `edit_idx` the position it was taken from,
/// `None` for a new contest.
pub struct CustomContestEditor {
    pub contests: Vec<CustomContest>,
    pub edit_idx: Option<usize>,
    pub draft: CustomContest,
}

/// `bands` with `band` taken out wherever it occurs.
pub open spec fn without_band(bands: Seq<Seq<char>>, band: Seq<char>) -> Seq<Seq<char>> {
    bands.filter(|b: Seq<char>| b != band)
}

fn contains_text_item(v: &Vec<String>, t: &str) -> (b: bool)
    ensures
        b == texts(v@).contains(t@),
{
    let mut i: usize = 0;
    while i < v.len()
        invariant
            i <= v@.len(),
            forall|j: int| 0 <= j < i ==> (#[trigger] v@[j])@ != t@,
        decreases v@.len() - i,
    {
        if same_text(v[i].as_str(), t) {
            assert(texts(v@)[i as int] == t@);
            return true;
        }
        i = i + 1;
    }
    proof {
        if texts(v@).contains(t@) {
            let j = choose|j: int| 0 <= j < texts(v@).len() && texts(v@)[j] == t@;
            assert(v@[j]@ == t@);
        }
    }
    false
}

impl CustomContestEditor {
    /// An editor over `contests` with a fresh, empty draft.
    pub fn new(contests: Vec<CustomContest>) -> (e: Self)
        ensures
            defs(e.contests@) == defs(contests@),
            e.edit_idx is None,
            e.draft@ == empty_def(),
    {
        CustomContestEditor { contests, edit_idx: None, draft: CustomContest::default() }
    }

    /// Puts a copy of contest `i` on the form, to be saved back in its place.
    pub fn start_edit(&mut self, i: usize)
        requires
            i < old(self).contests@.len(),
        ensures
            defs(final(self).contests@) == defs(old(self).contests@),
            final(self).edit_idx == Some(i),
            final(self).draft@ == old(self).contests@[i as int]@,
    {
        self.edit_idx = Some(i);
        self.draft = self.contests[i].clone();
    }

    /// Removes contest `i`; when it was the one being edited, the form is
    /// cleared and becomes a new contest.
    pub fn delete(&mut self, i: usize)
        requires
            i < old(self).contests@.len(),
        ensures
            defs(final(self).contests@) == defs(old(self).contests@).remove(i as int),
            old(self).edit_idx == Some(i) ==> final(self).edit_idx is None && final(self).draft@
                == empty_def(),
            old(self).edit_idx != Some(i) ==> final(self).edit_idx == old(self).edit_idx
                && final(self).draft@ == old(self).draft@,
    {
        self.contests.remove(i);
        assert(defs(self.contests@) =~= defs(old(self).contests@).remove(i as int));
        if self.edit_idx == Some(i) {
            self.edit_idx = None;
            self.draft = CustomContest::default();
        }
    }

    /// Clears the form for a new contest.
    pub fn start_new(&mut self)
        ensures
            defs(final(self).contests@) == defs(old(self).contests@),
            final(self).edit_idx is None,
            final(self).draft@ == empty_def(),
    {
        self.edit_idx = None;
        self.draft = CustomContest::default();
    }

    /// Ticks or unticks `band` on the form: a band that is listed is taken
    /// out (every copy of it), one that is not is added at the end.
    pub fn toggle_band(&mut self, band: &str)
        ensures
            defs(final(self).contests@) == defs(old(self).contests@),
            final(self).edit_idx == old(self).edit_idx,
            final(self).draft@.name == old(self).draft@.name,
            final(self).draft@.exchange_format == old(self).draft@.exchange_format,
            final(self).draft@.points_per_qso == old(self).draft@.points_per_qso,
            final(self).draft@.description == old(self).draft@.description,
            old(self).draft@.bands.contains(band@) ==> final(self).draft@.bands == without_band(
                old(self).draft@.bands,
                band@,
            ),
            !old(self).draft@.bands.contains(band@) ==> final(self).draft@.bands == old(
                self,
            ).draft@.bands.push(band@),
    {
        if contains_text_item(&self.draft.bands, band) {
            let ghost src = texts(self.draft.bands@);
            let mut kept: Vec<String> = Vec::new();
            let mut i: usize = 0;
            while i < self.draft.bands.len()
                invariant
                    i <= self.draft.bands@.len(),
                    src == texts(self.draft.bands@),
                    texts(kept@) == src.take(i as int).filter(|b: Seq<char>| b != band@),
                decreases self.draft.bands@.len() - i,
            {
                proof {
                    reveal(Seq::filter);
                    assert(src.take(i + 1).drop_last() =~= src.take(i as int));
                }
                if !same_text(self.draft.bands[i].as_str(), band) {
                    let b = self.draft.bands[i].clone();
                    kept.push(b);
                    assert(texts(kept@) =~= src.take(i as int).filter(|b: Seq<char>| b != band@).push(
                        src[i as int],
                    ));
                }
                i = i + 1;
            }
            assert(src.take(src.len() as int) =~= src);
            self.draft.bands = kept;
        } else {
            let ghost before = texts(self.draft.bands@);
            self.draft.bands.push(band.to_string());
            assert(texts(self.draft.bands@) =~= before.push(band@));
        }
    }

    /// Saves the form when its name is not empty: back in place of the
    /// contest it was taken from, or at the end of the list for a new one;
    /// the form is then cleared. With an empty name nothing changes.
    pub fn save(&mut self)
        requires
            old(self).edit_idx matches Some(i) ==> i < old(self).contests@.len(),
        ensures
            old(self).draft@.name.len() == 0 ==> defs(final(self).contests@) == defs(
                old(self).contests@,
            ) && final(self).edit_idx == old(self).edit_idx && final(self).draft@ == old(
                self,
            ).draft@,
            old(self).draft@.name.len() > 0 ==> {
                &&& final(self).edit_idx is None
                &&& final(self).draft@ == empty_def()
                &&& match old(self).edit_idx {
                    Some(i) => defs(final(self).contests@) == defs(old(self).contests@).update(
                        i as int,
                        old(self).draft@,
                    ),
                    None => defs(final(self).contests@) == defs(old(self).contests@).push(
                        old(self).draft@,
                    ),
                }
            },
    {
        if !self.draft.name.as_str().is_empty() {
            let d = self.draft.clone();
            match self.edit_idx {
                Some(i) => {
                    self.contests.set(i, d);
                    assert(defs(self.contests@) =~= defs(old(self).contests@).update(
                        i as int,
                        old(self).draft@,
                    ));
                },
                None => {
                    self.contests.push(d);
                    assert(defs(self.contests@) =~= defs(old(self).contests@).push(old(self).draft@));
                },
            }
            self.edit_idx = None;
            self.draft = CustomContest::default();
        }
    }
}

/// The position of the first user-defined contest named `name`, if any: the
/// contest window scores the log by it.
pub fn find_custom_contest(contests: &Vec<CustomContest>, name: &str) -> (r: Option<usize>)
    ensures
        match r {
            Some(i) => i < contests@.len() && contests@[i as int].name@ == name@ && forall|j: int|
                0 <= j < i ==> (#[trigger] contests@[j]).name@ != name@,
            None => forall|j: int| 0 <= j < contests@.len() ==> (#[trigger] contests@[j]).name@ != name@,
        },
{
    let mut i: usize = 0;
    while i < contests.len()
        invariant
            i <= contests@.len(),
            forall|j: int| 0 <= j < i ==> (#[trigger] contests@[j]).name@ != name@,
        decreases contests@.len() - i,
    {
        if same_text(contests[i].name.as_str(), name) {
            return Some(i);
        }
        i = i + 1;
    }
    None
}

/// The running contest counters of the entry line: QSOs, points,
/// multipliers and the next serial number sent.
pub struct ContestTally {
    pub qsos: u32,
    pub points: u32,
    pub mults: u32,
    pub stx: u32,
}

impl ContestTally {
    /// Counts a saved QSO: one more QSO, three more points, one more
    /// multiplier, and the serial number moves on by one.
    pub fn count_saved_qso(&mut self)
        requires
            old(self).qsos < u32::MAX,
            old(self).points <= u32::MAX - 3,
            old(self).mults < u32::MAX,
            old(self).stx < u32::MAX,
        ensures
            final(self).qsos == old(self).qsos + 1,
            final(self).points == old(self).points + 3,
            final(self).mults == old(self).mults + 1,
            final(self).stx == old(self).stx + 1,
    {
        self.qsos = self.qsos + 1;
        self.points = self.points + 3;
        self.mults = self.mults + 1;
        self.stx = self.stx + 1;
    }
}

/// The multiplier a QSO brings in a user-defined contest: its DXCC entity,
/// else its CQ zone, else its received report when not empty; numbers count
/// by their decimal text, so entity 5 and zone 5 are one multiplier.
pub open spec fn mult_key(q: QsoRecord) -> Option<Seq<char>> {
    match q.dxcc {
        Some(d) => Some(decimal(d as nat)),
        None => match q.cqz {
            Some(z) => Some(decimal(z as nat)),
            None => if q.rst_rcvd@.len() > 0 {
                Some(q.rst_rcvd@)
            } else {
                None
            },
        },
    }
}

/// The distinct multipliers of the first `n` QSOs.
pub open spec fn mult_keys_upto(qsos: Seq<QsoRecord>, n: int) -> Set<Seq<char>> {
    Set::new(|k: Seq<char>| exists|i: int| 0 <= i < n && mult_key(#[trigger] qsos[i]) == Some(k))
}

/// The distinct multipliers of a log.
pub open spec fn mult_keys(qsos: Seq<QsoRecord>) -> Set<Seq<char>> {
    mult_keys_upto(qsos, qsos.len() as int)
}

fn qso_mult_key(q: &QsoRecord) -> (k: Option<String>)
    ensures
        match k {
            Some(s) => mult_key(*q) == Some(s@),
            None => mult_key(*q) is None,
        },
{
    match q.dxcc {
        Some(d) => Some(decimal_string(d as u64)),
        None => match q.cqz {
            Some(z) => Some(decimal_string(z as u64)),
            None => if !q.rst_rcvd.as_str().is_empty() {
                Some(q.rst_rcvd.clone())
            } else {
                None
            },
        },
    }
}

/// The score of a log in a user-defined contest: the QSO points (each QSO
/// scores the contest's points), the number of distinct multipliers, and
/// their product.
///
/// The distinct multipliers are gathered in a list kept free of
/// duplicates: vstd specifies `HashSet` only for integer and `bool` keys,
/// so a set of texts would leave its size unproved.
pub fn custom_contest_score(contest: &CustomContest, qsos: &Vec<QsoRecord>) -> (r: (u32, u32, u32))
    requires
        qsos@.len() * contest.points_per_qso <= u32::MAX,
        mult_keys(qsos@).len() <= u32::MAX,
        qsos@.len() * contest.points_per_qso * mult_keys(qsos@).len() <= u32::MAX,
    ensures
        r.0 == qsos@.len() * contest.points_per_qso,
        r.1 == mult_keys(qsos@).len(),
        r.2 == r.0 * r.1,
{
    let pts: u32 = contest.points_per_qso;
    let mut p: u32 = 0;
    let mut keys: Vec<String> = Vec::new();
    let mut i: usize = 0;
    while i < qsos.len()
        invariant
            i <= qsos@.len(),
            pts == contest.points_per_qso,
            qsos@.len() * pts <= u32::MAX,
            p == i * pts,
            texts(keys@).no_duplicates(),
            texts(keys@).to_set() == mult_keys_upto(qsos@, i as int),
        decreases qsos@.len() - i,
    {
        assert(p + pts <= u32::MAX) by (nonlinear_arith)
            requires
                p == i * pts,
                i < qsos@.len(),
                qsos@.len() * pts <= u32::MAX,
        ;
        p = p + pts;
        assert(p == (i + 1) * pts) by (nonlinear_arith)
            requires
                p == i * pts + pts,
        ;
        let ghost before = texts(keys@);
        if let Some(k) = qso_mult_key(&qsos[i]) {
            if !contains_text_item(&keys, k.as_str()) {
                keys.push(k);
                proof {
                    assert(texts(keys@) =~= before.push(k@));
                    assert forall|a: int, b: int|
                        0 <= a < b < texts(keys@).len() implies texts(keys@)[a] != texts(keys@)[b] by {
                        if b == before.len() {
                            assert(before[a] == texts(keys@)[a]);
                        }
                    }
                }
            }
        }
        proof {
            let s0 = mult_keys_upto(qsos@, i as int);
            let s1 = mult_keys_upto(qsos@, i + 1);
            assert forall|x: Seq<char>| #[trigger] s1.contains(x) <==> texts(keys@).to_set().contains(x) by {
                if s1.contains(x) {
                    let j = choose|j: int| 0 <= j < i + 1 && mult_key(#[trigger] qsos@[j]) == Some(x);
                    if j < i {
                        assert(s0.contains(x));
                        assert(before.contains(x));
                        let t = choose|t: int| 0 <= t < before.len() && before[t] == x;
                        assert(texts(keys@)[t] == x);
                    } else {
                        if before.contains(x) {
                            let t = choose|t: int| 0 <= t < before.len() && before[t] == x;
                            assert(texts(keys@)[t] == x);
                        } else {
                            assert(texts(keys@)[before.len() as int] == x);
                        }
                    }
                }
                if texts(keys@).to_set().contains(x) {
                    let t = choose|t: int| 0 <= t < texts(keys@).len() && texts(keys@)[t] == x;
                    if t < before.len() {
                        assert(before[t] == x);
                        assert(before.to_set().contains(x));
                        let j = choose|j: int| 0 <= j < i && mult_key(#[trigger] qsos@[j]) == Some(x);
                        assert(mult_key(qsos@[j]) == Some(x));
                    } else {
                        assert(mult_key(qsos@[i as int]) == Some(x));
                    }
                }
            }
            assert(s1 =~= texts(keys@).to_set());
        }
        i = i + 1;
    }
    proof {
        texts(keys@).unique_seq_to_set();
    }
    let m: u32 = keys.len() as u32;
    assert(p * m <= u32::MAX);
    (p, m, p * m)
}

/// Whether the log already holds a QSO with `callsign` on `band`: the dupe
/// warning of the entry line in a user-defined contest.
pub fn is_custom_dupe(qsos: &Vec<QsoRecord>, callsign: &str, band: &str) -> (b: bool)
    ensures
        b == exists|i: int|
            0 <= i < qsos@.len() && (#[trigger] qsos@[i]).callsign@ == callsign@ && qsos@[i].band@
                == band@,
{
    let mut i: usize = 0;
    while i < qsos.len()
        invariant
            i <= qsos@.len(),
            forall|j: int|
                0 <= j < i ==> !((#[trigger] qsos@[j]).callsign@ == callsign@ && qsos@[j].band@ == band@),
        decreases qsos@.len() - i,
    {
        if same_text(qsos[i].callsign.as_str(), callsign) && same_text(qsos[i].band.as_str(), band) {
            return true;
        }
        i = i + 1;
    }
    false
}

/// Taking contest `i` onto the form and saving it back unchanged leaves the
/// list of contests as it was (its name being non-empty, the save happens).
pub proof fn lemma_edit_then_save_unchanged(contests: Seq<CustomContest>, i: int)
    requires
        0 <= i < contests.len(),
        contests[i]@.name.len() > 0,
    ensures
        defs(contests).update(i, contests[i]@) == defs(contests),
{
    assert(defs(contests).update(i, contests[i]@) =~= defs(contests));
}

/// The multipliers of a log never outnumber its QSOs.
pub proof fn lemma_mults_at_most_qsos(qsos: Seq<QsoRecord>)
    ensures
        mult_keys(qsos).finite(),
        mult_keys(qsos).len() <= qsos.len(),
    decreases qsos.len(),
{
    if qsos.len() == 0 {
        assert(mult_keys(qsos) =~= Set::empty());
    } else {
        let rest = qsos.drop_last();
        lemma_mults_at_most_qsos(rest);
        let s0 = mult_keys(rest);
        let s1 = mult_keys(qsos);
        let n = qsos.len() - 1;
        let grown = match mult_key(qsos[n]) {
            Some(k) => s0.insert(k),
            None => s0,
        };
        assert forall|x: Seq<char>| #[trigger] s1.contains(x) <==> grown.contains(x) by {
            if s1.contains(x) {
                let j = choose|j: int| 0 <= j < qsos.len() && mult_key(#[trigger] qsos[j]) == Some(x);
                if j < n {
                    assert(rest[j] == qsos[j]);
                }
            }
            if s0.contains(x) {
                let j = choose|j: int| 0 <= j < rest.len() && mult_key(#[trigger] rest[j]) == Some(x);
                assert(rest[j] == qsos[j]);
            }
            if grown.contains(x) && !s0.contains(x) {
                assert(mult_key(qsos[n]) == Some(x));
            }
        }
        assert(s1 =~= grown);
    }
}


/// Where a QSO's multiplier comes from: a QSO with a DXCC entity adds that
/// entity's number, one without an entity but with a CQ zone adds the
/// zone's number, one with neither adds its received report when that is
/// not empty; so two QSOs with the same entity are one multiplier. Every
/// multiplier comes from a QSO in one of these ways.
pub proof fn lemma_mult_sources(qsos: Seq<QsoRecord>, i: int)
    requires
        0 <= i < qsos.len(),
    ensures
        qsos[i].dxcc is Some ==> mult_keys(qsos).contains(decimal(qsos[i].dxcc->0 as nat)),
        (qsos[i].dxcc is None && qsos[i].cqz is Some) ==> mult_keys(qsos).contains(decimal(qsos[i].cqz->0 as nat)),
        (qsos[i].dxcc is None && qsos[i].cqz is None && qsos[i].rst_rcvd@.len() > 0) ==> mult_keys(qsos).contains(
            qsos[i].rst_rcvd@,
        ),
        forall|k: Seq<char>|
            #[trigger] mult_keys(qsos).contains(k) ==> exists|j: int|
                0 <= j < qsos.len() && (((#[trigger] qsos[j]).dxcc is Some && k == decimal(qsos[j].dxcc->0 as nat))
                    || (qsos[j].dxcc is None && qsos[j].cqz is Some && k == decimal(qsos[j].cqz->0 as nat)) || (
                qsos[j].dxcc is None && qsos[j].cqz is None && k == qsos[j].rst_rcvd@ && k.len() > 0)),
{
    assert(mult_key(qsos[i]) == mult_key(qsos[i]));
    assert forall|k: Seq<char>| #[trigger] mult_keys(qsos).contains(k) implies exists|j: int|
        0 <= j < qsos.len() && (((#[trigger] qsos[j]).dxcc is Some && k == decimal(qsos[j].dxcc->0 as nat))
            || (qsos[j].dxcc is None && qsos[j].cqz is Some && k == decimal(qsos[j].cqz->0 as nat)) || (
        qsos[j].dxcc is None && qsos[j].cqz is None && k == qsos[j].rst_rcvd@ && k.len() > 0)) by {
        let j = choose|j: int| 0 <= j < qsos.len() && mult_key(#[trigger] qsos[j]) == Some(k);
        assert(qsos[j] == qsos[j]);
    }
}

} // verus!
