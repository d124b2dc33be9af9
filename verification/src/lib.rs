//! Station-side logic of a ham-radio logbook, each part with its contract:
//! Wake-on-LAN packets, spot comment parsing and the spot filter, the
//! docked tile layout, the logbook's search and sort, undo and redo of
//! deletions, the duplicate finder, user-defined contests and their score,
//! the award matrix, CW macros, VFO tuning, the equipment ledger, station
//! profiles, the QSL
//! label queue, Cabrillo export text, dialog and recorder state.

pub mod audio_recorder;
pub mod awards;
pub mod cabrillo;
pub mod contest;
pub mod cw_macros;
pub mod dialogs;
pub mod duplicates;
pub mod filter;
pub mod history;
pub mod layout;
pub mod logbook_table;
pub mod online_sync;
pub mod qsl_labels;
pub mod qso;
pub mod qso_entry;
pub mod spots;
pub mod station_ledger;
pub mod station_profiles;
pub mod text;
pub mod vfo;
pub mod wol;
