//! Print queue of QSL labels: which logged QSOs still await a card.

use vstd::prelude::*;
use crate::qso::QsoRecord;
use crate::text::{decimal, decimal_string, same_text};

verus! {

/// Self-adhesive A4 label sheets.
#[derive(Clone, Copy, Debug, PartialEq, Eq, Structural)]
pub enum LabelSheetFormat {
    Avery2x7,
    Avery2x8,
    Avery3x7,
    Avery3x8,
}

/// Most QSOs queued at once.
pub const QUEUE_LIMIT: usize = 48;

/// A QSO whose card has not been sent: QSL-sent status `N` (no) or `R`
/// (requested).
pub open spec fn awaits_card(q: QsoRecord) -> bool {
    q.qsl_sent@ == "N"@ || q.qsl_sent@ == "R"@
}

/// The QSOs awaiting a card, in log order, at most `QUEUE_LIMIT` of them.
pub open spec fn unprinted_queue(all: Seq<QsoRecord>) -> Seq<QsoRecord> {
    let waiting = all.filter(|q: QsoRecord| awaits_card(q));
    if waiting.len() <= QUEUE_LIMIT {
        waiting
    } else {
        waiting.take(QUEUE_LIMIT as int)
    }
}

/// The message after queueing `n` QSOs.
pub open spec fn queued_message(n: nat) -> Seq<char> {
    "Dodano "@ + decimal(n) + " łączności do kolejki druku."@
}

/// Designer and print queue of QSL labels.
pub struct QslDesignerDialog {
    pub is_open: bool,
    pub sheet_format: LabelSheetFormat,
    pub queued_qsos: Vec<QsoRecord>,
    pub status_message: Option<String>,
}

impl Default for QslDesignerDialog {
    /// A closed designer on 3x8 sheets with an empty queue and no message.
    fn default() -> (d: Self)
        ensures
            !d.is_open,
            d.sheet_format == LabelSheetFormat::Avery3x8,
            d.queued_qsos@.len() == 0,
            d.status_message is None,
    {
        QslDesignerDialog {
            is_open: false,
            sheet_format: LabelSheetFormat::Avery3x8,
            queued_qsos: Vec::new(),
            status_message: None,
        }
    }
}

fn awaits_card_check(q: &QsoRecord) -> (b: bool)
    ensures
        b == awaits_card(*q),
{
    same_text(q.qsl_sent.as_str(), "N") || same_text(q.qsl_sent.as_str(), "R")
}

impl QslDesignerDialog {
    /// Takes all QSOs of the log as fetched from the database: on success the
    /// queue becomes the first `QUEUE_LIMIT` QSOs awaiting a card, and the
    /// message says how many were queued; on failure nothing changes.
    pub fn queue_unprinted<E>(&mut self, fetched: Result<Vec<QsoRecord>, E>)
        ensures
            final(self).is_open == old(self).is_open,
            final(self).sheet_format == old(self).sheet_format,
            match fetched {
                Ok(all) => {
                    &&& final(self).queued_qsos@ == unprinted_queue(all@)
                    &&& final(self).status_message matches Some(m) && m@ == queued_message(
                        unprinted_queue(all@).len(),
                    )
                },
                Err(_) => final(self).queued_qsos@ == old(self).queued_qsos@
                    && final(self).status_message == old(self).status_message,
            },
    {
        if let Ok(all) = fetched {
            let ghost src = all@;
            let ghost p = |q: QsoRecord| awaits_card(q);
            let mut queue: Vec<QsoRecord> = Vec::new();
            for q in it: all.into_iter()
                invariant
                    src == it.seq(),
                    p == (|q: QsoRecord| awaits_card(q)),
                    queue@.len() <= QUEUE_LIMIT,
                    queue@.len() < QUEUE_LIMIT ==> queue@ == src.take(it.index()).filter(p),
                    queue@.len() == QUEUE_LIMIT ==> queue@ == src.take(it.index()).filter(p).take(
                        QUEUE_LIMIT as int,
                    ) && src.take(it.index()).filter(p).len() >= QUEUE_LIMIT,
            {
                proof {
                    reveal(Seq::filter);
                    assert(src.take(it.index() + 1).drop_last() =~= src.take(it.index()));
                }
                if awaits_card_check(&q) && queue.len() < QUEUE_LIMIT {
                    queue.push(q);
                }
                proof {
                    let before = src.take(it.index()).filter(p);
                    let after = src.take(it.index() + 1).filter(p);
                    if before.len() >= QUEUE_LIMIT {
                        assert(after.take(QUEUE_LIMIT as int) =~= before.take(QUEUE_LIMIT as int));
                    }
                    if before.len() < QUEUE_LIMIT && queue@.len() == QUEUE_LIMIT {
                        assert(after.take(QUEUE_LIMIT as int) =~= after);
                    }
                }
            }
            proof {
                assert(src.take(src.len() as int) =~= src);
                let w = src.filter(p);
                if queue@.len() == QUEUE_LIMIT {
                    assert(w.len() >= QUEUE_LIMIT);
                }
            }
            let n = queue.len();
            self.queued_qsos = queue;
            let mut msg = String::from_str("Dodano ");
            let digits = decimal_string(n as u64);
            msg.append(digits.as_str());
            msg.append(" łączności do kolejki druku.");
            self.status_message = Some(msg);
        }
    }
}


/// The label queue holds, in log order, QSOs whose card status is `N` or
/// `R`, at most `QUEUE_LIMIT` of them; every QSO marked `N` or `R` is in
/// it when fewer than `QUEUE_LIMIT` are waiting; a QSO marked anything else
/// (`Y` for a card sent) never is.
pub proof fn lemma_queue_by_status(all: Seq<QsoRecord>)
    ensures
        unprinted_queue(all).len() <= QUEUE_LIMIT,
        forall|k: int|
            0 <= k < unprinted_queue(all).len() ==> (#[trigger] unprinted_queue(all)[k]).qsl_sent@ == "N"@
                || unprinted_queue(all)[k].qsl_sent@ == "R"@,
        forall|k: int|
            0 <= k < all.len() && (#[trigger] all[k]).qsl_sent@ != "N"@ && all[k].qsl_sent@ != "R"@
                ==> !unprinted_queue(all).contains(all[k]),
        all.filter(|q: QsoRecord| awaits_card(q)).len() < QUEUE_LIMIT ==> forall|k: int|
            0 <= k < all.len() && ((#[trigger] all[k]).qsl_sent@ == "N"@ || all[k].qsl_sent@ == "R"@)
                ==> unprinted_queue(all).contains(all[k]),
{
    let p = |q: QsoRecord| awaits_card(q);
    let w = all.filter(p);
    broadcast use vstd::seq_lib::group_filter_ensures;
    let u = unprinted_queue(all);
    assert forall|k: int| 0 <= k < u.len() implies (#[trigger] u[k]).qsl_sent@ == "N"@ || u[k].qsl_sent@ == "R"@ by {
        assert(u[k] == w[k]);
        assert(p(w[k]));
    }
    assert forall|k: int|
        0 <= k < all.len() && (#[trigger] all[k]).qsl_sent@ != "N"@ && all[k].qsl_sent@ != "R"@
            implies !u.contains(all[k]) by {
        if u.contains(all[k]) {
            let t = choose|t: int| 0 <= t < u.len() && u[t] == all[k];
            assert(u[t] == w[t]);
            assert(p(w[t]));
        }
    }
    assert forall|k: int|
        0 <= k < all.len() && ((#[trigger] all[k]).qsl_sent@ == "N"@ || all[k].qsl_sent@ == "R"@) && w.len()
            < QUEUE_LIMIT implies u.contains(all[k]) by {
        assert(p(all[k]));
        assert(w.contains(all[k]));
    }
}

} // verus!
