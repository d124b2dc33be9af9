//! Undo and redo of deletions from the log. A deleted QSO is kept on the
//! undo stack; undo writes it back into the log and moves it to the redo
//! stack; redo deletes it again and moves it back. The log itself is
//! reached through the functions the caller hands in.

use vstd::prelude::*;
use std::collections::VecDeque;
use crate::qso::QsoRecord;
use crate::text::same_text;

verus! {

/// Most deletions the history holds.
pub const HISTORY_LIMIT: usize = 20;

/// The two stacks; the front of each is the most recent entry.
pub struct DeletionHistory {
    pub undo_stack: VecDeque<QsoRecord>,
    pub redo_stack: VecDeque<QsoRecord>,
}

/// The copy of a deleted QSO that undo writes back: the same QSO without an
/// id, so that the log gives it a new one.
pub open spec fn restoration(q: QsoRecord) -> QsoRecord {
    QsoRecord { id: None, ..q }
}

/// The message after a QSO with `callsign` was restored.
pub open spec fn undo_message(callsign: Seq<char>) -> Seq<char> {
    "Przywrócono łączność z: "@ + callsign
}

/// The message after a QSO with `callsign` was deleted again.
pub open spec fn redo_message(callsign: Seq<char>) -> Seq<char> {
    "Redo: usunięto łączność z: "@ + callsign
}

/// A logged QSO that redo may delete for `q`: same call, date and time,
/// and an id.
pub open spec fn redo_match(r: QsoRecord, q: QsoRecord) -> bool {
    r.callsign@ == q.callsign@ && r.qso_date@ == q.qso_date@ && r.time_on@ == q.time_on@ && r.id is Some
}

/// Whether `target` is the id that redo deletes for `q` among `recent`: the
/// id of the first matching QSO, `None` when none matches.
pub open spec fn is_redo_target(recent: Seq<QsoRecord>, q: QsoRecord, target: Option<i64>) -> bool {
    match target {
        Some(id) => exists|i: int|
            0 <= i < recent.len() && redo_match(#[trigger] recent[i], q) && recent[i].id == Some(id)
                && forall|j: int| 0 <= j < i ==> !redo_match(#[trigger] recent[j], q),
        None => forall|j: int| 0 <= j < recent.len() ==> !redo_match(#[trigger] recent[j], q),
    }
}

impl DeletionHistory {
    /// The history never holds more than `HISTORY_LIMIT` deletions in all.
    pub open spec fn wf(&self) -> bool {
        self.undo_stack@.len() + self.redo_stack@.len() <= HISTORY_LIMIT
    }

    /// An empty history.
    pub fn new() -> (h: Self)
        ensures
            h.undo_stack@ == Seq::<QsoRecord>::empty(),
            h.redo_stack@ == Seq::<QsoRecord>::empty(),
            h.wf(),
    {
        DeletionHistory { undo_stack: VecDeque::new(), redo_stack: VecDeque::new() }
    }

    /// Whether there is a deletion to undo.
    pub fn can_undo(&self) -> (b: bool)
        ensures
            b == (self.undo_stack@.len() > 0),
    {
        self.undo_stack.len() > 0
    }

    /// Whether there is an undone deletion to redo.
    pub fn can_redo(&self) -> (b: bool)
        ensures
            b == (self.redo_stack@.len() > 0),
    {
        self.redo_stack.len() > 0
    }

    /// Keeps `backup`, the copy of a QSO about to be deleted, as the newest
    /// entry to undo: when the undo stack is full its oldest entry goes;
    /// whatever was undone can no longer be redone.
    pub fn record_deletion(&mut self, backup: QsoRecord)
        ensures
            final(self).undo_stack@ == seq![backup] + (if old(self).undo_stack@.len() >= HISTORY_LIMIT {
                old(self).undo_stack@.drop_last()
            } else {
                old(self).undo_stack@
            }),
            final(self).redo_stack@ == Seq::<QsoRecord>::empty(),
            old(self).undo_stack@.len() <= HISTORY_LIMIT ==> final(self).wf(),
    {
        if self.undo_stack.len() >= HISTORY_LIMIT {
            self.undo_stack.pop_back();
        }
        self.undo_stack.push_front(backup);
        self.redo_stack.clear();
    }

    /// Undoes the newest deletion: takes it off the undo stack and hands its
    /// restoration copy to `insert`, which writes it into the log. When that
    /// succeeds the QSO becomes the newest entry to redo and the result is
    /// the message to show; when it fails the QSO is dropped from the
    /// history and the error is returned. `None` when there is nothing to
    /// undo.
    pub fn perform_undo<E, F: FnOnce(QsoRecord) -> Result<(), E>>(&mut self, insert: F) -> (r: Option<
        Result<String, E>,
    >)
        requires
            forall|q: QsoRecord| insert.requires((q,)),
        ensures
            old(self).undo_stack@.len() == 0 ==> r is None && final(self).undo_stack@ == old(
                self,
            ).undo_stack@ && final(self).redo_stack@ == old(self).redo_stack@,
            old(self).undo_stack@.len() > 0 ==> {
                let q = old(self).undo_stack@[0];
                &&& final(self).undo_stack@ == old(self).undo_stack@.drop_first()
                &&& match r {
                    Some(Ok(m)) => {
                        &&& insert.ensures((restoration(q),), Ok(()))
                        &&& m@ == undo_message(q.callsign@)
                        &&& (final(self).undo_stack@, final(self).redo_stack@) == undone(
                            old(self).undo_stack@,
                            old(self).redo_stack@,
                        )
                    },
                    Some(Err(e)) => {
                        &&& insert.ensures((restoration(q),), Err(e))
                        &&& final(self).redo_stack@ == old(self).redo_stack@
                    },
                    None => false,
                }
            },
            old(self).wf() ==> final(self).wf(),
    {
        match self.undo_stack.pop_front() {
            None => None,
            Some(qso) => {
                proof {
                    assert(self.undo_stack@ =~= old(self).undo_stack@.drop_first());
                }
                let mut restored = qso.clone();
                restored.id = None;
                assert(restored == restoration(qso));
                let ghost arg = restored;
                let res = insert(restored);
                assert(insert.ensures((arg,), res));
                match res {
                    Err(e) => Some(Err(e)),
                    Ok(u) => {
                        assert(res == Ok::<(), E>(u));
                        assert(u == ());
                        assert(insert.ensures((restoration(qso),), Ok(())));
                        let mut msg = String::from_str("Przywrócono łączność z: ");
                        msg.append(qso.callsign.as_str());
                        self.redo_stack.push_front(qso);
                        assert(self.redo_stack@ =~= seq![qso] + old(self).redo_stack@);
                        assert(self.undo_stack@ =~= old(self).undo_stack@.drop_first());
                        assert(msg@ == undo_message(qso.callsign@));
                        Some(Ok(msg))
                    },
                }
            },
        }
    }

    /// Redoes the newest undone deletion: takes it off the redo stack,
    /// loads the most recent QSOs of the log with `load_recent` and, when
    /// that succeeds and one of them matches, deletes the first match with
    /// `delete`; the QSO becomes the newest entry to undo again, whatever
    /// happened in the log. The result is the message to show and the id
    /// that was handed to `delete`; `None` when there is nothing to redo.
    pub fn perform_redo<E, R, L: FnOnce() -> Result<Vec<QsoRecord>, E>, D: FnOnce(i64) -> R>(
        &mut self,
        load_recent: L,
        delete: D,
    ) -> (r: Option<(String, Option<i64>)>)
        requires
            load_recent.requires(()),
            forall|id: i64| delete.requires((id,)),
        ensures
            old(self).redo_stack@.len() == 0 ==> r is None && final(self).undo_stack@ == old(
                self,
            ).undo_stack@ && final(self).redo_stack@ == old(self).redo_stack@,
            old(self).redo_stack@.len() > 0 ==> {
                let q = old(self).redo_stack@[0];
                &&& (final(self).undo_stack@, final(self).redo_stack@) == redone(
                    old(self).undo_stack@,
                    old(self).redo_stack@,
                )
                &&& r matches Some((m, deleted)) && m@ == redo_message(q.callsign@) && (match deleted {
                    Some(id) => (exists|recent: Vec<QsoRecord>|
                        load_recent.ensures((), Ok(recent)) && is_redo_target(recent@, q, Some(id)))
                        && exists|x: R| delete.ensures((id,), x),
                    None => exists|loaded: Result<Vec<QsoRecord>, E>|
                        load_recent.ensures((), loaded) && (loaded matches Ok(recent) ==> is_redo_target(
                            recent@,
                            q,
                            None,
                        )),
                })
            },
            old(self).wf() ==> final(self).wf(),
    {
        match self.redo_stack.pop_front() {
            None => None,
            Some(qso) => {
                proof {
                    assert(self.redo_stack@ =~= old(self).redo_stack@.drop_first());
                }
                let loaded = load_recent();
                let ghost out = loaded;
                let mut deleted: Option<i64> = None;
                if let Ok(recent) = loaded {
                    let target = redo_target(&recent, &qso);
                    if let Some(id) = target {
                        let x = delete(id);
                        assert(delete.ensures((id,), x));
                        deleted = Some(id);
                    }
                    assert(load_recent.ensures((), Ok(recent)));
                }
                assert(load_recent.ensures((), out));
                let mut msg = String::from_str("Redo: usunięto łączność z: ");
                msg.append(qso.callsign.as_str());
                self.undo_stack.push_front(qso);
                assert(self.undo_stack@ =~= seq![qso] + old(self).undo_stack@);
                Some((msg, deleted))
            },
        }
    }
}

/// The id that redo deletes for `q` among the `recent` QSOs of the log: that
/// of the first one with the same call, date and time that has an id.
pub fn redo_target(recent: &Vec<QsoRecord>, q: &QsoRecord) -> (target: Option<i64>)
    ensures
        is_redo_target(recent@, *q, target),
{
    let mut i: usize = 0;
    while i < recent.len()
        invariant
            i <= recent@.len(),
            forall|j: int| 0 <= j < i ==> !redo_match(#[trigger] recent@[j], *q),
        decreases recent@.len() - i,
    {
        let r = &recent[i];
        if same_text(r.callsign.as_str(), q.callsign.as_str()) && same_text(r.qso_date.as_str(), q.qso_date.as_str())
            && same_text(r.time_on.as_str(), q.time_on.as_str()) {
            if let Some(id) = r.id {
                assert(redo_match(recent@[i as int], *q));
                return Some(id);
            }
        }
        i = i + 1;
    }
    None
}

/// What the keys pressed in a frame ask for: undo on Ctrl+Z, redo on
/// Ctrl+Shift+Z or Ctrl+Y, the statistics window on Ctrl+Shift+S.
pub open spec fn shortcut_actions(z: bool, y: bool, s: bool, ctrl: bool, shift: bool) -> (bool, bool, bool) {
    (z && ctrl && !shift, (z && ctrl && shift) || (y && ctrl), s && ctrl && shift)
}

/// The undo, redo and statistics requests of a frame, from whether Z, Y and
/// S were pressed and the Ctrl and Shift modifiers.
pub fn keyboard_shortcuts(z: bool, y: bool, s: bool, ctrl: bool, shift: bool) -> (r: (bool, bool, bool))
    ensures
        r == shortcut_actions(z, y, s, ctrl, shift),
{
    (z && ctrl && !shift, (z && ctrl && shift) || (y && ctrl), s && ctrl && shift)
}

/// Redo deletes only a logged QSO with the undone QSO's call, date and
/// time, and the first such one that has an id; when it deletes nothing,
/// none of the loaded QSOs with that call, date and time has an id.
pub proof fn lemma_redo_target_fields(recent: Seq<QsoRecord>, q: QsoRecord, target: Option<i64>)
    requires
        is_redo_target(recent, q, target),
    ensures
        target matches Some(id) ==> exists|i: int|
            0 <= i < recent.len() && (#[trigger] recent[i]).id == Some(id) && recent[i].callsign@ == q.callsign@
                && recent[i].qso_date@ == q.qso_date@ && recent[i].time_on@ == q.time_on@ && forall|j: int|
                0 <= j < i && (#[trigger] recent[j]).callsign@ == q.callsign@ && recent[j].qso_date@ == q.qso_date@
                    && recent[j].time_on@ == q.time_on@ ==> recent[j].id is None,
        target is None ==> forall|j: int|
            0 <= j < recent.len() && (#[trigger] recent[j]).callsign@ == q.callsign@ && recent[j].qso_date@
                == q.qso_date@ && recent[j].time_on@ == q.time_on@ ==> recent[j].id is None,
{
    if let Some(id) = target {
        let i = choose|i: int|
            0 <= i < recent.len() && redo_match(#[trigger] recent[i], q) && recent[i].id == Some(id) && forall|j: int|
                0 <= j < i ==> !redo_match(#[trigger] recent[j], q);
        assert forall|j: int|
            0 <= j < i && (#[trigger] recent[j]).callsign@ == q.callsign@ && recent[j].qso_date@ == q.qso_date@
                && recent[j].time_on@ == q.time_on@ implies recent[j].id is None by {
            assert(!redo_match(recent[j], q));
        }
        assert(recent[i].id == Some(id));
    } else {
        assert forall|j: int|
            0 <= j < recent.len() && (#[trigger] recent[j]).callsign@ == q.callsign@ && recent[j].qso_date@
                == q.qso_date@ && recent[j].time_on@ == q.time_on@ implies recent[j].id is None by {
            assert(!redo_match(recent[j], q));
        }
    }
}

/// The stacks after a successful undo of the newest deletion.
pub open spec fn undone(undo: Seq<QsoRecord>, redo: Seq<QsoRecord>) -> (Seq<QsoRecord>, Seq<QsoRecord>) {
    (undo.drop_first(), seq![undo[0]] + redo)
}

/// The stacks after a redo of the newest undone deletion.
pub open spec fn redone(undo: Seq<QsoRecord>, redo: Seq<QsoRecord>) -> (Seq<QsoRecord>, Seq<QsoRecord>) {
    (seq![redo[0]] + undo, redo.drop_first())
}

/// A successful undo followed by a redo leaves both stacks as they were,
/// and so does a redo followed by a successful undo.
pub proof fn lemma_undo_redo_round_trip(undo: Seq<QsoRecord>, redo: Seq<QsoRecord>)
    ensures
        undo.len() > 0 ==> redone(undone(undo, redo).0, undone(undo, redo).1) == (undo, redo),
        redo.len() > 0 ==> undone(redone(undo, redo).0, redone(undo, redo).1) == (undo, redo),
{
    if undo.len() > 0 {
        let s = undone(undo, redo);
        assert(seq![s.1[0]] + s.0 =~= undo);
        assert(s.1.drop_first() =~= redo);
    }
    if redo.len() > 0 {
        let s = redone(undo, redo);
        assert(s.0.drop_first() =~= undo);
        assert(seq![s.0[0]] + s.1 =~= redo);
    }
}

/// Recording a deletion keeps it as the newest entry to undo and clears the
/// redo stack, so a later undo restores exactly the recorded QSO.
pub proof fn lemma_record_then_undo(undo: Seq<QsoRecord>, backup: QsoRecord)
    ensures
        ({
            let kept = if undo.len() >= HISTORY_LIMIT { undo.drop_last() } else { undo };
            let after = undone(seq![backup] + kept, Seq::empty());
            &&& after.0 == kept
            &&& after.1 == seq![backup]
        }),
{
    let kept = if undo.len() >= HISTORY_LIMIT { undo.drop_last() } else { undo };
    assert((seq![backup] + kept).drop_first() =~= kept);
    assert(seq![backup] + Seq::<QsoRecord>::empty() =~= seq![backup]);
}


/// The shortcuts: nothing happens without Ctrl; Ctrl+Z undoes without
/// Shift and redoes with it, never both; Ctrl+Y redoes; only Ctrl+Shift+S
/// opens the statistics.
pub proof fn lemma_shortcut_rules(z: bool, y: bool, s: bool, ctrl: bool, shift: bool)
    ensures
        !ctrl ==> shortcut_actions(z, y, s, ctrl, shift) == (false, false, false),
        (z && ctrl && !shift) ==> shortcut_actions(z, y, s, ctrl, shift).0,
        (z && ctrl && shift) ==> !shortcut_actions(z, y, s, ctrl, shift).0 && shortcut_actions(z, y, s, ctrl, shift).1,
        (y && ctrl) ==> shortcut_actions(z, y, s, ctrl, shift).1,
        shortcut_actions(z, y, s, ctrl, shift).0 ==> z && !shift,
        shortcut_actions(z, y, s, ctrl, shift).2 <==> (s && ctrl && shift),
{
}

} // verus!
