//! State of the logbook's dialog windows: opening them, the searches they
//! run, the journal list, the QSL label queue and the advanced QSO filter.
//! The searches and listings read the station databases; the dialogs take
//! a database search as a function, or a listing as fetched, and decide what
//! they hold from it.

use vstd::prelude::*;
use crate::text::{to_uppercase, trim, trim_white_space, uppercase};

verus! {

/// A search runs for the query `q`: it is not blank (empty once leading and
/// trailing whitespace is trimmed).
pub open spec fn query_to_run(q: Seq<char>) -> bool {
    trim_white_space(q).len() != 0
}

/// Calculator window of Moon and Sun positions.
pub struct AstronomyDialog {
    pub is_open: bool,
}

impl Default for AstronomyDialog {
    /// The same as `new`.
    fn default() -> (d: Self)
        ensures
            !d.is_open,
    {
        Self::new()
    }
}

impl AstronomyDialog {
    /// A closed window.
    pub fn new() -> (d: Self)
        ensures
            !d.is_open,
    {
        AstronomyDialog { is_open: false }
    }

    /// Opens the window.
    pub fn open(&mut self)
        ensures
            final(self).is_open,
    {
        self.is_open = true;
    }
}

/// Browser of IOTA island groups; `R` is the island record.
pub struct IotaBrowserDialog<R> {
    pub is_open: bool,
    pub search_query: String,
    pub results: Vec<R>,
}

impl<R> Default for IotaBrowserDialog<R> {
    /// A closed browser with an empty query and no results.
    fn default() -> (d: Self)
        ensures
            !d.is_open,
            d.search_query@.len() == 0,
            d.results@.len() == 0,
    {
        IotaBrowserDialog { is_open: false, search_query: String::new(), results: Vec::new() }
    }
}

impl<R> IotaBrowserDialog<R> {
    /// A closed browser with an empty query and no results.
    pub fn new() -> (d: Self)
        ensures
            !d.is_open,
            d.search_query@.len() == 0,
            d.results@.len() == 0,
    {
        Self::default()
    }

    /// Opens the browser.
    pub fn open(&mut self)
        ensures
            final(self).is_open,
            final(self).search_query@ == old(self).search_query@,
            final(self).results@ == old(self).results@,
    {
        self.is_open = true;
    }

    /// Runs `search_iota` with the current query (even a blank one) and
    /// keeps what it returns.
    pub fn reload<F: Fn(&str) -> Vec<R>>(&mut self, search_iota: F)
        requires
            forall|q: &str| #[trigger] search_iota.requires((q,)),
        ensures
            final(self).is_open == old(self).is_open,
            final(self).search_query@ == old(self).search_query@,
            exists|q: &str|
                #![trigger search_iota.ensures((q,), final(self).results)]
                q@ == old(self).search_query@ && search_iota.ensures((q,), final(self).results),
    {
        let q = self.search_query.as_str();
        let found = search_iota(q);
        assert(q@ == self.search_query@ && search_iota.ensures((q,), found));
        self.results = found;
        assert(search_iota.ensures((q,), self.results));
    }
}

/// A logbook journal (a station profile with its own QSOs).
pub struct Journal {
    pub id: String,
    pub name: String,
    pub station_callsign: String,
    pub operator: String,
    pub my_gridsquare: String,
    pub my_pga: String,
    pub description: String,
    pub is_default: bool,
}

/// Position of the first default journal, or 0 where none is.
pub open spec fn default_journal_index(js: Seq<Journal>) -> int {
    match js.map_values(|j: Journal| j.is_default).index_of_first(true) {
        Some(i) => i,
        None => 0,
    }
}

/// Window that manages the journals.
pub struct JournalManagerDialog {
    pub is_open: bool,
    pub journals: Vec<Journal>,
    pub selected_index: usize,
    pub new_journal_id: String,
    pub new_journal_name: String,
    pub new_journal_callsign: String,
    pub new_journal_operator: String,
    pub new_journal_grid: String,
    pub new_journal_pga: String,
    pub new_journal_desc: String,
    pub show_create_form: bool,
}

impl Default for JournalManagerDialog {
    /// A closed window with no journals and an empty creation form.
    fn default() -> (d: Self)
        ensures
            !d.is_open,
            d.journals@.len() == 0,
            d.selected_index == 0,
            d.new_journal_id@.len() == 0,
            d.new_journal_name@.len() == 0,
            d.new_journal_callsign@.len() == 0,
            d.new_journal_operator@.len() == 0,
            d.new_journal_grid@.len() == 0,
            d.new_journal_pga@.len() == 0,
            d.new_journal_desc@.len() == 0,
            !d.show_create_form,
    {
        JournalManagerDialog {
            is_open: false,
            journals: Vec::new(),
            selected_index: 0,
            new_journal_id: String::new(),
            new_journal_name: String::new(),
            new_journal_callsign: String::new(),
            new_journal_operator: String::new(),
            new_journal_grid: String::new(),
            new_journal_pga: String::new(),
            new_journal_desc: String::new(),
            show_create_form: false,
        }
    }
}

impl JournalManagerDialog {
    /// Takes the journal list as fetched from the logbook database: on
    /// success it replaces the list and selects the first default journal
    /// (the first journal where none is the default), and the window and its
    /// new-journal form stay as they were; on failure nothing changes.
    pub fn reload<E>(&mut self, fetched: Result<Vec<Journal>, E>)
        ensures
            match fetched {
                Ok(list) => {
                    &&& final(self).journals@ == list@
                    &&& final(self).selected_index == default_journal_index(list@)
                    &&& final(self).is_open == old(self).is_open
                    &&& final(self).show_create_form == old(self).show_create_form
                    &&& final(self).new_journal_id == old(self).new_journal_id
                    &&& final(self).new_journal_name == old(self).new_journal_name
                    &&& final(self).new_journal_callsign == old(self).new_journal_callsign
                    &&& final(self).new_journal_operator == old(self).new_journal_operator
                    &&& final(self).new_journal_grid == old(self).new_journal_grid
                    &&& final(self).new_journal_pga == old(self).new_journal_pga
                    &&& final(self).new_journal_desc == old(self).new_journal_desc
                },
                Err(_) => *final(self) == *old(self),
            },
    {
        if let Ok(list) = fetched {
            let ghost flags = list@.map_values(|j: Journal| j.is_default);
            let mut i: usize = 0;
            while i < list.len() && !list[i].is_default
                invariant
                    i <= list@.len(),
                    flags == list@.map_values(|j: Journal| j.is_default),
                    forall|m: int| 0 <= m < i ==> flags[m] != true,
                decreases list@.len() - i,
            {
                i = i + 1;
            }
            proof {
                flags.index_of_first_ensures(true);
                if i < list@.len() {
                    assert(flags[i as int] == true);
                    let idx = flags.index_of_first(true)->0;
                    if idx < i {
                        assert(flags[idx] != true);
                    }
                    if idx > i {
                        assert(flags[i as int] != true);
                    }
                } else {
                    assert(!flags.contains(true));
                }
            }
            self.journals = list;
            self.selected_index = if i < self.journals.len() { i } else { 0 };
        }
    }
}

/// Viewer of a station's photo.
pub struct PhotoViewerDialog {
    pub is_open: bool,
    pub callsign: String,
    pub photo_url: Option<String>,
}

impl Default for PhotoViewerDialog {
    /// The same as `new`.
    fn default() -> (d: Self)
        ensures
            !d.is_open,
            d.callsign@.len() == 0,
            d.photo_url is None,
    {
        Self::new()
    }
}

impl PhotoViewerDialog {
    /// A closed viewer with no station.
    pub fn new() -> (d: Self)
        ensures
            !d.is_open,
            d.callsign@.len() == 0,
            d.photo_url is None,
    {
        PhotoViewerDialog { is_open: false, callsign: String::new(), photo_url: None }
    }

    /// Opens the viewer on `callsign` (upper-cased) and its photo address.
    pub fn open(&mut self, callsign: &str, photo_url: Option<String>)
        ensures
            final(self).is_open,
            final(self).callsign@ == uppercase(callsign@),
            final(self).photo_url == photo_url,
    {
        self.callsign = to_uppercase(callsign);
        self.photo_url = photo_url;
        self.is_open = true;
    }
}

/// Browser of prefixes and special callsigns; `R` is the callsign record.
pub struct PrefixManagerDialog<R> {
    pub is_open: bool,
    pub search_query: String,
    pub results: Vec<R>,
}

impl<R> Default for PrefixManagerDialog<R> {
    /// The same as `new`.
    fn default() -> (d: Self)
        ensures
            !d.is_open,
            d.search_query@.len() == 0,
            d.results@.len() == 0,
    {
        Self::new()
    }
}

impl<R> PrefixManagerDialog<R> {
    /// A closed browser with an empty query and no results.
    pub fn new() -> (d: Self)
        ensures
            !d.is_open,
            d.search_query@.len() == 0,
            d.results@.len() == 0,
    {
        PrefixManagerDialog { is_open: false, search_query: String::new(), results: Vec::new() }
    }

    /// Opens the browser.
    pub fn open(&mut self)
        ensures
            final(self).is_open,
            final(self).search_query@ == old(self).search_query@,
            final(self).results@ == old(self).results@,
    {
        self.is_open = true;
    }

    /// A blank query clears the results without searching; any other query
    /// is handed, as it stands, to `search_unique_calls`, whose answer
    /// becomes the results.
    pub fn execute_search<F: Fn(&str) -> Vec<R>>(&mut self, search_unique_calls: F)
        requires
            forall|q: &str| #[trigger] search_unique_calls.requires((q,)),
        ensures
            final(self).is_open == old(self).is_open,
            final(self).search_query@ == old(self).search_query@,
            !query_to_run(old(self).search_query@) ==> final(self).results@.len() == 0,
            query_to_run(old(self).search_query@) ==> exists|q: &str|
                #![trigger search_unique_calls.ensures((q,), final(self).results)]
                q@ == old(self).search_query@ && search_unique_calls.ensures((q,), final(self).results),
    {
        if trim(self.search_query.as_str()).is_empty() {
            self.results.clear();
        } else {
            let q = self.search_query.as_str();
            let found = search_unique_calls(q);
            assert(q@ == self.search_query@ && search_unique_calls.ensures((q,), found));
            self.results = found;
            assert(search_unique_calls.ensures((q,), self.results));
        }
    }
}

/// Browser of QSL managers; `R` is the manager record.
pub struct QslManagerDialog<R> {
    pub is_open: bool,
    pub search_query: String,
    pub results: Vec<R>,
    pub selected_manager: Option<String>,
}

impl<R> Default for QslManagerDialog<R> {
    /// The same as `new`.
    fn default() -> (d: Self)
        ensures
            !d.is_open,
            d.search_query@.len() == 0,
            d.results@.len() == 0,
            d.selected_manager is None,
    {
        Self::new()
    }
}

impl<R> QslManagerDialog<R> {
    /// A closed browser with an empty query, no results and no manager
    /// chosen.
    pub fn new() -> (d: Self)
        ensures
            !d.is_open,
            d.search_query@.len() == 0,
            d.results@.len() == 0,
            d.selected_manager is None,
    {
        QslManagerDialog {
            is_open: false,
            search_query: String::new(),
            results: Vec::new(),
            selected_manager: None,
        }
    }

    /// Opens the browser.
    pub fn open(&mut self)
        ensures
            final(self).is_open,
            final(self).search_query@ == old(self).search_query@,
            final(self).results@ == old(self).results@,
            final(self).selected_manager == old(self).selected_manager,
    {
        self.is_open = true;
    }

    /// Opens the browser on `call`: the query becomes `call` trimmed and
    /// upper-cased, and the search runs.
    pub fn open_for_call<F: Fn(&str) -> Vec<R>>(&mut self, call: &str, search_managers: F)
        requires
            forall|q: &str| #[trigger] search_managers.requires((q,)),
        ensures
            final(self).is_open,
            final(self).search_query@ == uppercase(trim_white_space(call@)),
            final(self).selected_manager == old(self).selected_manager,
            !query_to_run(final(self).search_query@) ==> final(self).results@.len() == 0,
            query_to_run(final(self).search_query@) ==> exists|q: &str|
                #![trigger search_managers.ensures((q,), final(self).results)]
                q@ == final(self).search_query@ && search_managers.ensures((q,), final(self).results),
    {
        self.search_query = to_uppercase(trim(call));
        self.is_open = true;
        self.execute_search(search_managers);
    }

    /// A blank query clears the results without searching; any other query
    /// is handed, as it stands, to `search_managers`, whose answer becomes
    /// the results.
    pub fn execute_search<F: Fn(&str) -> Vec<R>>(&mut self, search_managers: F)
        requires
            forall|q: &str| #[trigger] search_managers.requires((q,)),
        ensures
            final(self).is_open == old(self).is_open,
            final(self).search_query@ == old(self).search_query@,
            final(self).selected_manager == old(self).selected_manager,
            !query_to_run(old(self).search_query@) ==> final(self).results@.len() == 0,
            query_to_run(old(self).search_query@) ==> exists|q: &str|
                #![trigger search_managers.ensures((q,), final(self).results)]
                q@ == old(self).search_query@ && search_managers.ensures((q,), final(self).results),
    {
        if trim(self.search_query.as_str()).is_empty() {
            self.results.clear();
        } else {
            let q = self.search_query.as_str();
            let found = search_managers(q);
            assert(q@ == self.search_query@ && search_managers.ensures((q,), found));
            self.results = found;
            assert(search_managers.ensures((q,), self.results));
        }
    }
}

/// Export window for SOTA activation logs.
pub struct SotaDialog {
    pub is_open: bool,
    pub activator_call: String,
    pub summit_ref: String,
    pub filter_today_only: bool,
    pub status: Option<String>,
}

impl Default for SotaDialog {
    /// The same as `new`.
    fn default() -> (d: Self)
        ensures
            !d.is_open,
            d.activator_call@.len() == 0,
            d.summit_ref@ == "SP/BZ-001"@,
            !d.filter_today_only,
            d.status is None,
    {
        Self::new()
    }
}

impl SotaDialog {
    /// A closed window with no activator, summit `SP/BZ-001`, all QSOs, no
    /// status.
    pub fn new() -> (d: Self)
        ensures
            !d.is_open,
            d.activator_call@.len() == 0,
            d.summit_ref@ == "SP/BZ-001"@,
            !d.filter_today_only,
            d.status is None,
    {
        SotaDialog {
            is_open: false,
            activator_call: String::new(),
            summit_ref: String::from_str("SP/BZ-001"),
            filter_today_only: false,
            status: None,
        }
    }

    /// Opens the window; an empty activator callsign becomes `default_call`
    /// upper-cased, one already entered stays.
    pub fn open(&mut self, default_call: &str)
        ensures
            final(self).is_open,
            final(self).activator_call@ == if old(self).activator_call@.len() == 0 {
                uppercase(default_call@)
            } else {
                old(self).activator_call@
            },
            final(self).summit_ref@ == old(self).summit_ref@,
            final(self).filter_today_only == old(self).filter_today_only,
            final(self).status == old(self).status,
    {
        if self.activator_call.as_str().is_empty() {
            self.activator_call = to_uppercase(default_call);
        }
        self.is_open = true;
    }
}

/// Window that wakes a station computer over the LAN.
pub struct WolDialog {
    pub is_open: bool,
    pub mac_address: String,
    pub broadcast_ip: String,
    pub port: u16,
    pub status: Option<String>,
}

impl Default for WolDialog {
    /// The same as `new`.
    fn default() -> (d: Self)
        ensures
            !d.is_open,
            d.mac_address@.len() == 0,
            d.broadcast_ip@ == "255.255.255.255"@,
            d.port == 9,
            d.status is None,
    {
        Self::new()
    }
}

impl WolDialog {
    /// A closed window with no MAC address, broadcast address
    /// `255.255.255.255`, port 9 and no status.
    pub fn new() -> (d: Self)
        ensures
            !d.is_open,
            d.mac_address@.len() == 0,
            d.broadcast_ip@ == "255.255.255.255"@,
            d.port == 9,
            d.status is None,
    {
        WolDialog {
            is_open: false,
            mac_address: String::new(),
            broadcast_ip: String::from_str("255.255.255.255"),
            port: 9,
            status: None,
        }
    }

    /// Opens the window.
    pub fn open(&mut self)
        ensures
            final(self).is_open,
            final(self).mac_address@ == old(self).mac_address@,
            final(self).broadcast_ip@ == old(self).broadcast_ip@,
            final(self).port == old(self).port,
            final(self).status == old(self).status,
    {
        self.is_open = true;
    }
}

} // verus!
