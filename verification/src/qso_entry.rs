//! Decisions of the QSO entry line: whether there is a call to save, how
//! optional fields are stored, how empty fields are filled from earlier
//! data, the dupe warning, the file name of the audio memo, which sound marks the save and
//! the message shown after it.

use vstd::prelude::*;
use crate::qso::QsoRecord;
use crate::text::{same_text, to_uppercase, trim, trim_white_space, uppercase};

verus! {

/// Whether the call typed on the entry line is more than whitespace: only
/// then is a QSO saved.
pub fn has_callsign(entry_callsign: &str) -> (b: bool)
    ensures
        b == (trim_white_space(entry_callsign@).len() > 0),
{
    !trim(entry_callsign).is_empty()
}

/// How an optional field of the entry line is stored: nothing for an empty
/// field, else its text.
pub fn optional_text(field: &str) -> (r: Option<String>)
    ensures
        field@.len() == 0 ==> r is None,
        field@.len() > 0 ==> (r matches Some(s) && s@ == field@),
{
    if field.is_empty() {
        None
    } else {
        Some(field.to_string())
    }
}

/// Fills an empty field of the entry line with `value`, when there is one;
/// a field that holds text keeps it.
pub fn fill_if_empty(field: &mut String, value: &Option<String>)
    ensures
        old(field)@.len() > 0 ==> final(field)@ == old(field)@,
        old(field)@.len() == 0 ==> match value {
            Some(v) => final(field)@ == v@,
            None => final(field)@ == old(field)@,
        },
{
    if field.as_str().is_empty() {
        if let Some(v) = value {
            *field = v.clone();
        }
    }
}

/// `s` with every `/` replaced by `_`.
pub open spec fn slashes_to_underscores(s: Seq<char>) -> Seq<char> {
    s.map_values(|c: char| if c == '/' { '_' } else { c })
}

/// The audio memo of a QSO: `QSO_<call>_<date>_<time>.wav`, the call
/// trimmed, upper-cased and with `/` written as `_`.
pub open spec fn memo_name(callsign: Seq<char>, date: Seq<char>, time: Seq<char>) -> Seq<char> {
    "QSO_"@ + slashes_to_underscores(uppercase(trim_white_space(callsign))) + "_"@ + date + "_"@ + time
        + ".wav"@
}

/// The file name under which the audio memo of a QSO is kept.
pub fn memo_file_name(callsign: &str, date: &str, time: &str) -> (name: String)
    ensures
        name@ == memo_name(callsign@, date@, time@),
{
    let upper = to_uppercase(trim(callsign));
    let u = upper.as_str();
    let n: usize = u.unicode_len();
    let mut name = String::from_str("QSO_");
    let ghost head = name@;
    let mut i: usize = 0;
    while i < n
        invariant
            n == u@.len(),
            i <= n,
            name@ == head + slashes_to_underscores(u@.take(i as int)),
        decreases n - i,
    {
        let c = u.get_char(i);
        let ghost prev = name@;
        proof {
            reveal_strlit("_");
        }
        if c == '/' {
            name.append("_");
        } else {
            let mut one = String::new();
            one.push(c);
            assert(one@ =~= seq![c]);
            name.append(one.as_str());
        }
        proof {
            assert(name@ =~= prev.push(if c == '/' { '_' } else { c }));
            assert(u@.take(i + 1) =~= u@.take(i as int).push(c));
            assert(slashes_to_underscores(u@.take(i + 1)) =~= slashes_to_underscores(u@.take(i as int)).push(
                if c == '/' { '_' } else { c },
            ));
        }
        i = i + 1;
    }
    assert(u@.take(n as int) =~= u@);
    name.append("_");
    name.append(date);
    name.append("_");
    name.append(time);
    name.append(".wav");
    name
}

/// What the award check said of the call on the entry line.
pub struct AwardFlags {
    pub is_new_dxcc: bool,
    pub is_new_iota: bool,
    pub is_worked_b4: bool,
}

/// The sound that marks a saved QSO.
#[derive(Clone, Copy, Debug, PartialEq, Eq, Structural)]
pub enum SaveAlert {
    NewDxcc,
    NewIota,
    WorkedBefore,
    Saved,
}

/// The sound after a save: none when alerts are off; else, by the award
/// check, a new entity before a new island before a repeat contact, and
/// the plain one otherwise or without a check.
pub open spec fn alert_for(enabled: bool, status: Option<AwardFlags>) -> Option<SaveAlert> {
    if !enabled {
        None
    } else {
        match status {
            Some(s) => if s.is_new_dxcc {
                Some(SaveAlert::NewDxcc)
            } else if s.is_new_iota {
                Some(SaveAlert::NewIota)
            } else if s.is_worked_b4 {
                Some(SaveAlert::WorkedBefore)
            } else {
                Some(SaveAlert::Saved)
            },
            None => Some(SaveAlert::Saved),
        }
    }
}

/// The sound to play after a QSO was saved.
pub fn save_alert(enabled: bool, status: &Option<AwardFlags>) -> (a: Option<SaveAlert>)
    ensures
        a == alert_for(enabled, *status),
{
    if !enabled {
        return None;
    }
    match status {
        Some(s) => if s.is_new_dxcc {
            Some(SaveAlert::NewDxcc)
        } else if s.is_new_iota {
            Some(SaveAlert::NewIota)
        } else if s.is_worked_b4 {
            Some(SaveAlert::WorkedBefore)
        } else {
            Some(SaveAlert::Saved)
        },
        None => Some(SaveAlert::Saved),
    }
}

/// The message after a save.
pub open spec fn saved_text(callsign: Seq<char>, band: Seq<char>, mode: Seq<char>) -> Seq<char> {
    "Zapisano łączność z: "@ + callsign + " ("@ + band + ", "@ + mode + ")"@
}

/// The message shown after a QSO was saved.
pub fn saved_message(callsign: &str, band: &str, mode: &str) -> (m: String)
    ensures
        m@ == saved_text(callsign@, band@, mode@),
{
    let mut m = String::from_str("Zapisano łączność z: ");
    m.append(callsign);
    m.append(" (");
    m.append(band);
    m.append(", ");
    m.append(mode);
    m.append(")");
    m
}

/// The comment after a value picked in a browser (an island, a state) was
/// added under `label`: `label: value`, after a space when the comment
/// already holds text.
pub open spec fn with_note(comment: Seq<char>, label: Seq<char>, value: Seq<char>) -> Seq<char> {
    if comment.len() == 0 {
        label + ": "@ + value
    } else {
        comment + " "@ + label + ": "@ + value
    }
}

/// Adds `label: value` to the comment of the entry line.
pub fn add_note(comment: &mut String, label: &str, value: &str)
    ensures
        final(comment)@ == with_note(old(comment)@, label@, value@),
{
    if !comment.as_str().is_empty() {
        comment.append(" ");
    }
    comment.append(label);
    comment.append(": ");
    comment.append(value);
}

/// Whether an earlier QSO with the call is on the same band and mode.
pub open spec fn same_slot(q: QsoRecord, band: Seq<char>, mode: Seq<char>) -> bool {
    q.band@ == band && q.mode@ == mode
}

/// Whether an earlier QSO with the call repeats the band and mode on the
/// entry line: the mark of a row of the worked-before list.
pub fn is_repeat(prev: &QsoRecord, band: &str, mode: &str) -> (b: bool)
    ensures
        b == same_slot(*prev, band@, mode@),
{
    same_text(prev.band.as_str(), band) && same_text(prev.mode.as_str(), mode)
}

/// The dupe warning of the entry line: a call is typed and one of the
/// earlier QSOs with it (`past`) is on the same band and mode.
pub fn is_entry_dupe(callsign: &str, band: &str, mode: &str, past: &Vec<QsoRecord>) -> (b: bool)
    ensures
        b == (callsign@.len() > 0 && exists|i: int| 0 <= i < past@.len() && same_slot(#[trigger] past@[i], band@, mode@)),
{
    if callsign.is_empty() {
        return false;
    }
    let mut i: usize = 0;
    while i < past.len()
        invariant
            callsign@.len() > 0,
            i <= past@.len(),
            forall|j: int| 0 <= j < i ==> !same_slot(#[trigger] past@[j], band@, mode@),
        decreases past@.len() - i,
    {
        if is_repeat(&past[i], band, mode) {
            assert(same_slot(past@[i as int], band@, mode@));
            return true;
        }
        i = i + 1;
    }
    false
}

/// The fields of the QSO entry line.
pub struct EntryForm {
    pub callsign: String,
    pub band: String,
    pub mode: String,
    pub rst_sent: String,
    pub rst_rcvd: String,
    pub name: String,
    pub qth: String,
    pub grid: String,
    pub pga: String,
    pub comment: String,
    pub iota: String,
    pub state: String,
    pub sota: String,
    pub pota: String,
    pub qsl_manager: String,
}

impl EntryForm {
    /// Clears the entry line for the next QSO: every field is emptied but
    /// the band, the mode and the two reports, which carry over.
    pub fn clear(&mut self)
        ensures
            final(self).band == old(self).band,
            final(self).mode == old(self).mode,
            final(self).rst_sent == old(self).rst_sent,
            final(self).rst_rcvd == old(self).rst_rcvd,
            final(self).callsign@.len() == 0,
            final(self).name@.len() == 0,
            final(self).qth@.len() == 0,
            final(self).grid@.len() == 0,
            final(self).pga@.len() == 0,
            final(self).comment@.len() == 0,
            final(self).iota@.len() == 0,
            final(self).state@.len() == 0,
            final(self).sota@.len() == 0,
            final(self).pota@.len() == 0,
            final(self).qsl_manager@.len() == 0,
    {
        self.callsign = String::new();
        self.name = String::new();
        self.qth = String::new();
        self.grid = String::new();
        self.pga = String::new();
        self.comment = String::new();
        self.iota = String::new();
        self.state = String::new();
        self.sota = String::new();
        self.pota = String::new();
        self.qsl_manager = String::new();
    }
}

/// What the entry line has looked up for the typed call: call suggestions,
/// prefix data, district, award status, propagation forecast, clubs,
/// earlier QSOs with the call and the QSL manager. The data types of the
/// lookups are the caller's.
pub struct CallLookup<Prefix, District, Forecast, Club, Manager> {
    pub suggestions: Vec<String>,
    pub prefix_info: Option<Prefix>,
    pub polish_district: Option<District>,
    pub award_status: Option<AwardFlags>,
    pub propagation: Option<Forecast>,
    pub clubs: Vec<Club>,
    pub past_qsos: Vec<QsoRecord>,
    pub qsl_manager_record: Option<Manager>,
}

impl<Prefix, District, Forecast, Club, Manager> CallLookup<Prefix, District, Forecast, Club, Manager> {
    /// Whether nothing is looked up.
    pub open spec fn is_blank(&self) -> bool {
        &&& self.suggestions@.len() == 0
        &&& self.prefix_info is None
        &&& self.polish_district is None
        &&& self.award_status is None
        &&& self.propagation is None
        &&& self.clubs@.len() == 0
        &&& self.past_qsos@.len() == 0
        &&& self.qsl_manager_record is None
    }

    /// Forgets every lookup.
    pub fn clear(&mut self)
        ensures
            final(self).is_blank(),
    {
        self.suggestions = Vec::new();
        self.prefix_info = None;
        self.polish_district = None;
        self.award_status = None;
        self.propagation = None;
        self.clubs = Vec::new();
        self.past_qsos = Vec::new();
        self.qsl_manager_record = None;
    }
}

/// Clears the entry line for the next QSO: the form is emptied but for the
/// band, the mode and the reports, and every lookup for the old call is
/// forgotten.
pub fn clear_qso_form<Prefix, District, Forecast, Club, Manager>(
    form: &mut EntryForm,
    lookup: &mut CallLookup<Prefix, District, Forecast, Club, Manager>,
)
    ensures
        final(form).band == old(form).band,
        final(form).mode == old(form).mode,
        final(form).rst_sent == old(form).rst_sent,
        final(form).rst_rcvd == old(form).rst_rcvd,
        final(form).callsign@.len() == 0,
        final(form).name@.len() == 0,
        final(form).qth@.len() == 0,
        final(form).grid@.len() == 0,
        final(form).pga@.len() == 0,
        final(form).comment@.len() == 0,
        final(form).iota@.len() == 0,
        final(form).state@.len() == 0,
        final(form).sota@.len() == 0,
        final(form).pota@.len() == 0,
        final(form).qsl_manager@.len() == 0,
        final(lookup).is_blank(),
{
    form.clear();
    lookup.clear();
}

/// What an online callbook (QRZ, HamQTH, Callook) returned for a call.
pub struct CallbookData {
    pub callsign: String,
    pub name: Option<String>,
    pub qth: Option<String>,
    pub gridsquare: Option<String>,
    pub state: Option<String>,
    pub qsl_manager: Option<String>,
    pub image_url: Option<String>,
}

/// A field after a callbook answer: the answer's text where it gave one.
pub open spec fn answered(old_field: Seq<char>, answer: Option<String>) -> Seq<char> {
    match answer {
        Some(v) => v@,
        None => old_field,
    }
}

/// Whether a callbook answer is for the call now on the entry line: its
/// call equals the typed call trimmed and upper-cased.
pub open spec fn answer_applies(typed_call: Seq<char>, data: CallbookData) -> bool {
    data.callsign@ == uppercase(trim_white_space(typed_call))
}

fn take_answer(field: &mut String, answer: &Option<String>)
    ensures
        final(field)@ == answered(old(field)@, *answer),
{
    if let Some(v) = answer {
        *field = v.clone();
    }
}

/// Merges a callbook answer into the entry line, when it is for the call
/// typed there: the name, QTH, locator, state and QSL manager it gives
/// replace those on the form. Returns `None` (and changes nothing) for an
/// answer about another call, else whether the locator must be
/// recomputed: the answer gives one and the form's was empty or different.
pub fn merge_callbook(form: &mut EntryForm, data: &CallbookData) -> (r: Option<bool>)
    ensures
        !answer_applies(old(form).callsign@, *data) ==> r is None && *final(form) == *old(form),
        answer_applies(old(form).callsign@, *data) ==> {
            &&& r == Some(
                data.gridsquare matches Some(g) && (old(form).grid@.len() == 0 || old(form).grid@ != g@),
            )
            &&& final(form).name@ == answered(old(form).name@, data.name)
            &&& final(form).qth@ == answered(old(form).qth@, data.qth)
            &&& final(form).grid@ == answered(old(form).grid@, data.gridsquare)
            &&& final(form).state@ == answered(old(form).state@, data.state)
            &&& final(form).qsl_manager@ == answered(old(form).qsl_manager@, data.qsl_manager)
            &&& final(form).callsign == old(form).callsign
            &&& final(form).band == old(form).band
            &&& final(form).mode == old(form).mode
            &&& final(form).rst_sent == old(form).rst_sent
            &&& final(form).rst_rcvd == old(form).rst_rcvd
            &&& final(form).pga == old(form).pga
            &&& final(form).comment == old(form).comment
            &&& final(form).iota == old(form).iota
            &&& final(form).sota == old(form).sota
            &&& final(form).pota == old(form).pota
        },
{
    let typed = to_uppercase(trim(form.callsign.as_str()));
    if !same_text(data.callsign.as_str(), typed.as_str()) {
        return None;
    }
    let grid_changed = match &data.gridsquare {
        Some(g) => form.grid.as_str().is_empty() || !same_text(form.grid.as_str(), g.as_str()),
        None => false,
    };
    take_answer(&mut form.name, &data.name);
    take_answer(&mut form.qth, &data.qth);
    take_answer(&mut form.grid, &data.gridsquare);
    take_answer(&mut form.state, &data.state);
    take_answer(&mut form.qsl_manager, &data.qsl_manager);
    Some(grid_changed)
}

/// The status line after a callbook answer for `callsign`, the form's
/// name being `name`.
pub open spec fn callbook_status_text(callsign: Seq<char>, name: Seq<char>) -> Seq<char> {
    "Pobrano dane Callbook dla: "@ + callsign + " ("@ + name + ")"@
}

/// The status line and the pop-up note after a callbook answer was merged.
pub fn callbook_messages(callsign: &str, name: &str) -> (m: (String, String))
    ensures
        m.0@ == callbook_status_text(callsign@, name@),
        m.1@ == "Pobrano dane korespondenta "@ + callsign@ + "!"@,
{
    let mut a = String::from_str("Pobrano dane Callbook dla: ");
    a.append(callsign);
    a.append(" (");
    a.append(name);
    a.append(")");
    let mut b = String::from_str("Pobrano dane korespondenta ");
    b.append(callsign);
    b.append("!");
    (a, b)
}


/// The save sound, by rule: none with alerts off; with alerts on, a new
/// entity wins over a new island, which wins over a repeat contact, and
/// the plain sound is played otherwise or without an award check.
pub proof fn lemma_alert_priority(enabled: bool, status: Option<AwardFlags>)
    ensures
        !enabled ==> alert_for(enabled, status) is None,
        enabled && status is None ==> alert_for(enabled, status) == Some(SaveAlert::Saved),
        enabled && (status matches Some(s) && s.is_new_dxcc) ==> alert_for(enabled, status) == Some(SaveAlert::NewDxcc),
        enabled && (status matches Some(s) && !s.is_new_dxcc && s.is_new_iota) ==> alert_for(enabled, status)
            == Some(SaveAlert::NewIota),
        enabled && (status matches Some(s) && !s.is_new_dxcc && !s.is_new_iota && s.is_worked_b4) ==> alert_for(
            enabled,
            status,
        ) == Some(SaveAlert::WorkedBefore),
{
}

/// The dupe warning needs a typed call and an earlier QSO on the very band
/// and mode of the entry line; a QSO on another band or in another mode
/// never raises it.
pub proof fn lemma_dupe_needs_band_and_mode(q: QsoRecord, band: Seq<char>, mode: Seq<char>)
    ensures
        same_slot(q, band, mode) <==> (q.band@ == band && q.mode@ == mode),
{
}


/// A memo name keeps the call's length and holds no `/` in it: every `/`
/// of the call becomes `_` and no other character changes.
pub proof fn lemma_no_slash_in_memo_call(s: Seq<char>)
    ensures
        slashes_to_underscores(s).len() == s.len(),
        !slashes_to_underscores(s).contains('/'),
        forall|i: int| 0 <= i < s.len() && s[i] != '/' ==> #[trigger] slashes_to_underscores(s)[i] == s[i],
        forall|i: int| 0 <= i < s.len() && s[i] == '/' ==> #[trigger] slashes_to_underscores(s)[i] == '_',
{
}

} // verus!
