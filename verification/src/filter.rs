//! Advanced QSO search: the filter that the search window's fields describe.

use vstd::prelude::*;
use crate::text::{decimal, decimal_string, opt_text, texts};

verus! {

/// A logbook query: every present criterion must hold.
pub struct AdvancedQsoFilter {
    pub date_from: Option<String>,
    pub date_to: Option<String>,
    pub bands: Vec<String>,
    pub modes: Vec<String>,
    pub lotw_confirmed: Option<bool>,
    pub eqsl_confirmed: Option<bool>,
    pub qsl_rcvd: Option<bool>,
    pub callsign_query: Option<String>,
    pub journal_id: Option<String>,
}

/// The search window's fields.
pub struct AdvancedFilterDialog {
    pub is_open: bool,
    pub date_from: String,
    pub date_to: String,
    pub selected_bands: Vec<String>,
    pub selected_modes: Vec<String>,
    pub lotw_only: bool,
    pub eqsl_only: bool,
    pub qsl_rcvd_only: bool,
    pub call_query: String,
    pub is_filtered_active: bool,
    pub filtered_count: usize,
    pub status_message: Option<String>,
}

/// A text field as a criterion: absent where empty.
pub open spec fn text_criterion(field: Seq<char>) -> Option<Seq<char>> {
    if field.len() == 0 {
        None
    } else {
        Some(field)
    }
}

/// A check box as a criterion: required true where ticked, absent otherwise.
pub open spec fn flag_criterion(ticked: bool) -> Option<bool> {
    if ticked {
        Some(true)
    } else {
        None
    }
}

fn text_field(field: &String) -> (c: Option<String>)
    ensures
        opt_text(c) == text_criterion(field@),
{
    if field.as_str().is_empty() {
        None
    } else {
        Some(field.clone())
    }
}

fn copy_texts(v: &Vec<String>) -> (c: Vec<String>)
    ensures
        texts(c@) == texts(v@),
{
    let mut c: Vec<String> = Vec::new();
    let mut i: usize = 0;
    while i < v.len()
        invariant
            i <= v@.len(),
            c@.len() == i,
            forall|k: int| 0 <= k < i ==> #[trigger] c@[k]@ == v@[k]@,
        decreases v@.len() - i,
    {
        c.push(v[i].clone());
        i = i + 1;
    }
    assert(texts(c@) =~= texts(v@));
    c
}

impl Default for AdvancedFilterDialog {
    /// A closed window with every field empty or unticked.
    fn default() -> (d: Self)
        ensures
            !d.is_open,
            d.date_from@.len() == 0,
            d.date_to@.len() == 0,
            d.selected_bands@.len() == 0,
            d.selected_modes@.len() == 0,
            !d.lotw_only,
            !d.eqsl_only,
            !d.qsl_rcvd_only,
            d.call_query@.len() == 0,
            !d.is_filtered_active,
            d.filtered_count == 0,
            d.status_message is None,
    {
        AdvancedFilterDialog {
            is_open: false,
            date_from: String::new(),
            date_to: String::new(),
            selected_bands: Vec::new(),
            selected_modes: Vec::new(),
            lotw_only: false,
            eqsl_only: false,
            qsl_rcvd_only: false,
            call_query: String::new(),
            is_filtered_active: false,
            filtered_count: 0,
            status_message: None,
        }
    }
}

impl AdvancedFilterDialog {
    /// The filter the window describes: empty text fields and unticked boxes
    /// impose nothing, the band and mode lists are taken as they are, and
    /// the query is limited to `journal_id` where one is given.
    pub fn build_filter(&self, journal_id: Option<&str>) -> (f: AdvancedQsoFilter)
        ensures
            opt_text(f.date_from) == text_criterion(self.date_from@),
            opt_text(f.date_to) == text_criterion(self.date_to@),
            texts(f.bands@) == texts(self.selected_bands@),
            texts(f.modes@) == texts(self.selected_modes@),
            f.lotw_confirmed == flag_criterion(self.lotw_only),
            f.eqsl_confirmed == flag_criterion(self.eqsl_only),
            f.qsl_rcvd == flag_criterion(self.qsl_rcvd_only),
            opt_text(f.callsign_query) == text_criterion(self.call_query@),
            opt_text(f.journal_id) == match journal_id {
                Some(j) => Some(j@),
                None => None,
            },
    {
        AdvancedQsoFilter {
            date_from: text_field(&self.date_from),
            date_to: text_field(&self.date_to),
            bands: copy_texts(&self.selected_bands),
            modes: copy_texts(&self.selected_modes),
            lotw_confirmed: if self.lotw_only { Some(true) } else { None },
            eqsl_confirmed: if self.eqsl_only { Some(true) } else { None },
            qsl_rcvd: if self.qsl_rcvd_only { Some(true) } else { None },
            callsign_query: text_field(&self.call_query),
            journal_id: match journal_id {
                Some(j) => Some(j.to_owned()),
                None => None,
            },
        }
    }
}


/// The status line after a search found `n` QSOs.
pub open spec fn found_message(n: nat) -> Seq<char> {
    "Znaleziono "@ + decimal(n) + " łączności spełniających kryteria."@
}

impl AdvancedFilterDialog {
    /// Takes the result of the search that the filter ran: on success the
    /// dialog counts the QSOs found, marks the filter active, says how many
    /// were found and hands the QSOs on for the log view; on failure
    /// nothing changes and nothing is handed on.
    pub fn apply_search<R, E>(&mut self, found: Result<Vec<R>, E>) -> (shown: Option<Vec<R>>)
        ensures
            match found {
                Ok(v) => {
                    &&& shown == Some(v)
                    &&& final(self).filtered_count == v@.len()
                    &&& final(self).is_filtered_active
                    &&& final(self).status_message matches Some(m) && m@ == found_message(v@.len())
                },
                Err(_) => shown is None && *final(self) == *old(self),
            },
            final(self).is_open == old(self).is_open,
            final(self).date_from == old(self).date_from,
            final(self).date_to == old(self).date_to,
            final(self).selected_bands@ == old(self).selected_bands@,
            final(self).selected_modes@ == old(self).selected_modes@,
            final(self).lotw_only == old(self).lotw_only,
            final(self).eqsl_only == old(self).eqsl_only,
            final(self).qsl_rcvd_only == old(self).qsl_rcvd_only,
            final(self).call_query == old(self).call_query,
    {
        match found {
            Ok(v) => {
                self.filtered_count = v.len();
                self.is_filtered_active = true;
                let mut m = String::from_str("Znaleziono ");
                let d = decimal_string(v.len() as u64);
                m.append(d.as_str());
                m.append(" łączności spełniających kryteria.");
                self.status_message = Some(m);
                Some(v)
            },
            Err(_) => None,
        }
    }

    /// Resets every criterion and shows the whole log again.
    pub fn clear_criteria(&mut self)
        ensures
            final(self).is_open == old(self).is_open,
            final(self).filtered_count == old(self).filtered_count,
            final(self).date_from@.len() == 0,
            final(self).date_to@.len() == 0,
            final(self).selected_bands@.len() == 0,
            final(self).selected_modes@.len() == 0,
            !final(self).lotw_only,
            !final(self).eqsl_only,
            !final(self).qsl_rcvd_only,
            final(self).call_query@.len() == 0,
            !final(self).is_filtered_active,
            final(self).status_message matches Some(m) && m@
                == "Filtry zresetowane - wyświetlanie pełnego logu."@,
    {
        self.date_from = String::new();
        self.date_to = String::new();
        self.selected_bands = Vec::new();
        self.selected_modes = Vec::new();
        self.lotw_only = false;
        self.eqsl_only = false;
        self.qsl_rcvd_only = false;
        self.call_query = String::new();
        self.is_filtered_active = false;
        self.status_message = Some(String::from_str("Filtry zresetowane - wyświetlanie pełnego logu."));
    }
}

} // verus!
