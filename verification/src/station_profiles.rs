//! Station profiles: the list of the operator's station set-ups (home QTH,
//! portable, summits), which one is active, and how the list is kept.

use vstd::prelude::*;
use crate::text::{same_text, to_uppercase, trim, trim_white_space, uppercase};

verus! {

/// One station set-up.
pub struct StationProfile {
    pub id: String,
    pub name: String,
    pub callsign: String,
    pub operator: String,
    pub gridsquare: String,
    pub city: String,
    pub country: String,
    pub itu_zone: u32,
    pub cq_zone: u32,
    pub pga_gmina: Option<String>,
    pub sota_ref: Option<String>,
    pub pota_ref: Option<String>,
    pub power_watts: u32,
    pub default_rig: Option<String>,
    pub default_antenna: Option<String>,
}

fn copy_opt(t: &Option<String>) -> (c: Option<String>)
    ensures
        c == *t,
{
    match t {
        Some(s) => Some(s.clone()),
        None => None,
    }
}

impl Clone for StationProfile {
    fn clone(&self) -> (c: Self)
        ensures
            c == *self,
    {
        StationProfile {
            id: self.id.clone(),
            name: self.name.clone(),
            callsign: self.callsign.clone(),
            operator: self.operator.clone(),
            gridsquare: self.gridsquare.clone(),
            city: self.city.clone(),
            country: self.country.clone(),
            itu_zone: self.itu_zone,
            cq_zone: self.cq_zone,
            pga_gmina: copy_opt(&self.pga_gmina),
            sota_ref: copy_opt(&self.sota_ref),
            pota_ref: copy_opt(&self.pota_ref),
            power_watts: self.power_watts,
            default_rig: copy_opt(&self.default_rig),
            default_antenna: copy_opt(&self.default_antenna),
        }
    }
}

/// The name a profile is listed under: its name, or its call when it has
/// none.
pub open spec fn shown_name(p: StationProfile) -> Seq<char> {
    if p.name@.len() == 0 {
        p.callsign@
    } else {
        p.name@
    }
}

/// The name a profile is listed under.
pub fn display_name(p: &StationProfile) -> (s: &str)
    ensures
        s@ == shown_name(*p),
{
    if p.name.as_str().is_empty() {
        p.callsign.as_str()
    } else {
        p.name.as_str()
    }
}

/// How a reference field of the form (commune, summit, park) is stored:
/// trimmed and upper-cased, and absent when blank.
pub open spec fn stored_reference(field: Seq<char>) -> Option<Seq<char>> {
    if trim_white_space(field).len() == 0 {
        None
    } else {
        Some(uppercase(trim_white_space(field)))
    }
}

/// The stored form of a reference field.
pub fn reference_field(field: &str) -> (r: Option<String>)
    ensures
        match r {
            Some(s) => stored_reference(field@) == Some(s@),
            None => stored_reference(field@) is None,
        },
{
    let t = trim(field);
    if t.is_empty() {
        None
    } else {
        Some(to_uppercase(t))
    }
}

/// Makes sure the list is not empty: an empty list gets the current station
/// set-up `my_station` as its one profile, with id `default` and
/// `default_name` as name where those are empty, and `default` becomes the
/// active id. A list that has profiles is left as it is.
pub fn ensure_profile(
    profiles: &mut Vec<StationProfile>,
    active_id: &mut String,
    my_station: &StationProfile,
    default_name: &str,
)
    ensures
        old(profiles)@.len() > 0 ==> final(profiles)@ == old(profiles)@ && final(active_id)@ == old(
            active_id,
        )@,
        old(profiles)@.len() == 0 ==> {
            &&& final(profiles)@.len() == 1
            &&& final(profiles)@[0] == (StationProfile {
                id: final(profiles)@[0].id,
                name: final(profiles)@[0].name,
                ..*my_station
            })
            &&& final(profiles)@[0].id@ == if my_station.id@.len() == 0 {
                "default"@
            } else {
                my_station.id@
            }
            &&& final(profiles)@[0].name@ == if my_station.name@.len() == 0 {
                default_name@
            } else {
                my_station.name@
            }
            &&& final(active_id)@ == "default"@
        },
{
    if profiles.len() == 0 {
        let mut def = my_station.clone();
        if def.id.as_str().is_empty() {
            def.id = String::from_str("default");
        }
        if def.name.as_str().is_empty() {
            def.name = default_name.to_string();
        }
        profiles.push(def);
        *active_id = String::from_str("default");
    }
}

/// Deletes profile `idx`; when it was the active one and profiles remain,
/// the first remaining profile becomes active. Returns whether the active
/// profile changed.
pub fn delete_profile(profiles: &mut Vec<StationProfile>, active_id: &mut String, idx: usize) -> (switched: bool)
    requires
        idx < old(profiles)@.len(),
    ensures
        final(profiles)@ == old(profiles)@.remove(idx as int),
        switched == (old(profiles)@[idx as int].id@ == old(active_id)@ && final(profiles)@.len() > 0),
        switched ==> final(active_id)@ == final(profiles)@[0].id@,
        !switched ==> final(active_id)@ == old(active_id)@,
{
    let was_active = same_text(profiles[idx].id.as_str(), active_id.as_str());
    profiles.remove(idx);
    if was_active && profiles.len() > 0 {
        *active_id = profiles[0].id.clone();
        true
    } else {
        false
    }
}

/// Appends a copy of profile `idx` under id `new_id`, its name followed by
/// ` (2)`.
pub fn clone_profile(profiles: &mut Vec<StationProfile>, idx: usize, new_id: String)
    requires
        idx < old(profiles)@.len(),
    ensures
        final(profiles)@.len() == old(profiles)@.len() + 1,
        final(profiles)@.take(old(profiles)@.len() as int) == old(profiles)@,
        final(profiles)@.last() == (StationProfile {
            id: new_id,
            name: final(profiles)@.last().name,
            ..old(profiles)@[idx as int]
        }),
        final(profiles)@.last().name@ == old(profiles)@[idx as int].name@ + " (2)"@,
{
    let mut c = profiles[idx].clone();
    c.id = new_id;
    c.name.append(" (2)");
    profiles.push(c);
    assert(profiles@.take(old(profiles)@.len() as int) =~= old(profiles)@);
}

/// Appends a new profile under id `new_id` named `default_name`: the call,
/// operator, locator, city, country and zones of `my_station`, no
/// references, 100 W, no default rig or antenna.
pub fn add_profile(profiles: &mut Vec<StationProfile>, new_id: String, default_name: &str, my_station: &StationProfile)
    ensures
        final(profiles)@ == old(profiles)@.push(final(profiles)@.last()),
        final(profiles)@.last().id == new_id,
        final(profiles)@.last().name@ == default_name@,
        final(profiles)@.last().callsign == my_station.callsign,
        final(profiles)@.last().operator == my_station.operator,
        final(profiles)@.last().gridsquare == my_station.gridsquare,
        final(profiles)@.last().city == my_station.city,
        final(profiles)@.last().country == my_station.country,
        final(profiles)@.last().itu_zone == my_station.itu_zone,
        final(profiles)@.last().cq_zone == my_station.cq_zone,
        final(profiles)@.last().pga_gmina is None,
        final(profiles)@.last().sota_ref is None,
        final(profiles)@.last().pota_ref is None,
        final(profiles)@.last().power_watts == 100,
        final(profiles)@.last().default_rig is None,
        final(profiles)@.last().default_antenna is None,
{
    let p = StationProfile {
        id: new_id,
        name: default_name.to_string(),
        callsign: my_station.callsign.clone(),
        operator: my_station.operator.clone(),
        gridsquare: my_station.gridsquare.clone(),
        city: my_station.city.clone(),
        country: my_station.country.clone(),
        itu_zone: my_station.itu_zone,
        cq_zone: my_station.cq_zone,
        pga_gmina: None,
        sota_ref: None,
        pota_ref: None,
        power_watts: 100,
        default_rig: None,
        default_antenna: None,
    };
    profiles.push(p);
}

/// The position of the first profile with id `active_id`: the one whose
/// settings become the station's after a change.
pub fn find_active(profiles: &Vec<StationProfile>, active_id: &str) -> (r: Option<usize>)
    ensures
        match r {
            Some(i) => i < profiles@.len() && profiles@[i as int].id@ == active_id@ && forall|j: int|
                0 <= j < i ==> (#[trigger] profiles@[j]).id@ != active_id@,
            None => forall|j: int| 0 <= j < profiles@.len() ==> (#[trigger] profiles@[j]).id@ != active_id@,
        },
{
    let mut i: usize = 0;
    while i < profiles.len()
        invariant
            i <= profiles@.len(),
            forall|j: int| 0 <= j < i ==> (#[trigger] profiles@[j]).id@ != active_id@,
        decreases profiles@.len() - i,
    {
        if same_text(profiles[i].id.as_str(), active_id) {
            return Some(i);
        }
        i = i + 1;
    }
    None
}

} // verus!
