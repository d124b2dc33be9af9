//! A logged QSO, as the label queue, the duplicate finder, the contest
//! score and the award matrix read it.

use vstd::prelude::*;

verus! {

/// A logged QSO. Status fields hold the ADIF one-letter codes (`Y`, `N`,
/// `R`, `V`, ...); `dxcc`, `cqz` and `country` are the entity, CQ zone and
/// country name when known.
pub struct QsoRecord {
    pub id: Option<i64>,
    pub callsign: String,
    pub qso_date: String,
    pub time_on: String,
    pub band: String,
    pub mode: String,
    pub rst_rcvd: String,
    pub dxcc: Option<u32>,
    pub cqz: Option<u32>,
    pub qsl_sent: String,
    pub qsl_rcvd: String,
    pub lotw_qsl_rcvd: String,
    pub eqsl_qsl_rcvd: String,
    pub country: Option<String>,
    pub comment: Option<String>,
}

fn copy_text(t: &Option<String>) -> (c: Option<String>)
    ensures
        c == *t,
{
    match t {
        Some(s) => Some(s.clone()),
        None => None,
    }
}

impl Clone for QsoRecord {
    fn clone(&self) -> (c: Self)
        ensures
            c == *self,
    {
        QsoRecord {
            id: self.id,
            callsign: self.callsign.clone(),
            qso_date: self.qso_date.clone(),
            time_on: self.time_on.clone(),
            band: self.band.clone(),
            mode: self.mode.clone(),
            rst_rcvd: self.rst_rcvd.clone(),
            dxcc: self.dxcc,
            cqz: self.cqz,
            qsl_sent: self.qsl_sent.clone(),
            qsl_rcvd: self.qsl_rcvd.clone(),
            lotw_qsl_rcvd: self.lotw_qsl_rcvd.clone(),
            eqsl_qsl_rcvd: self.eqsl_qsl_rcvd.clone(),
            country: copy_text(&self.country),
            comment: copy_text(&self.comment),
        }
    }
}

} // verus!
