//! Duplicate finder: which QSOs of each group of duplicates are marked for
//! deletion, and the status line after a scan.

use vstd::prelude::*;
use std::collections::HashSet;
use crate::qso::QsoRecord;
use crate::text::{decimal, decimal_string, same_text};

verus! {

broadcast use vstd::std_specs::hash::group_hash_axioms;

/// Which QSOs of each group of duplicates stay.
#[derive(Clone, Copy, Debug, PartialEq, Eq, Structural)]
pub enum KeepRule {
    /// The first (oldest) QSO of each group stays.
    Oldest,
    /// The last (newest) QSO of each group stays.
    Newest,
    /// In a group holding a confirmed QSO the confirmed ones stay; a group
    /// without one stays whole.
    Confirmed,
}

/// Confirmed: LoTW status `Y` or `V`, or eQSL or paper-card status `Y`.
pub open spec fn is_confirmed(q: QsoRecord) -> bool {
    q.lotw_qsl_rcvd@ == "Y"@ || q.lotw_qsl_rcvd@ == "V"@ || q.eqsl_qsl_rcvd@ == "Y"@
        || q.qsl_rcvd@ == "Y"@
}

/// Whether some QSO of `group` is confirmed.
pub open spec fn group_has_confirmed(group: Seq<QsoRecord>) -> bool {
    exists|j: int| 0 <= j < group.len() && is_confirmed(#[trigger] group[j])
}

/// Whether the QSO at position `k` of `group` is marked for deletion.
pub open spec fn marked(rule: KeepRule, group: Seq<QsoRecord>, k: int) -> bool {
    &&& 0 <= k < group.len()
    &&& match rule {
        KeepRule::Oldest => k >= 1,
        KeepRule::Newest => k < group.len() - 1,
        KeepRule::Confirmed => group_has_confirmed(group) && !is_confirmed(group[k]),
    }
}

/// The ids of the marked QSOs in the groups before `gi` and among the first
/// `ki` QSOs of group `gi`.
pub open spec fn marked_ids_upto(rule: KeepRule, groups: Seq<Vec<QsoRecord>>, gi: int, ki: int) -> Set<i64> {
    Set::new(
        |id: i64|
            exists|g: int, k: int|
                #![trigger groups[g]@[k]]
                0 <= g < groups.len() && (g < gi || (g == gi && k < ki)) && marked(rule, groups[g]@, k)
                    && groups[g]@[k].id == Some(id),
    )
}

/// The ids of all marked QSOs (a QSO without an id is never selected).
pub open spec fn marked_ids(rule: KeepRule, groups: Seq<Vec<QsoRecord>>) -> Set<i64> {
    marked_ids_upto(rule, groups, groups.len() as int, 0)
}

/// No id is carried by two QSOs of the groups.
pub open spec fn ids_unique(groups: Seq<Vec<QsoRecord>>) -> bool {
    forall|g1: int, k1: int, g2: int, k2: int|
        #![trigger groups[g1]@[k1], groups[g2]@[k2]]
        0 <= g1 < groups.len() && 0 <= k1 < groups[g1]@.len() && 0 <= g2 < groups.len() && 0 <= k2
            < groups[g2]@.len() && groups[g1]@[k1].id is Some && groups[g1]@[k1].id == groups[g2]@[k2].id
            ==> g1 == g2 && k1 == k2
}

/// The number of QSOs in all groups.
pub open spec fn total_records(groups: Seq<Vec<QsoRecord>>) -> nat
    decreases groups.len(),
{
    if groups.len() == 0 {
        0
    } else {
        total_records(groups.drop_last()) + groups.last()@.len()
    }
}

/// The status line after a scan found `groups`.
pub open spec fn scan_summary_text(groups: Seq<Vec<QsoRecord>>) -> Seq<char> {
    "Found "@ + decimal(groups.len()) + " duplicate groups (total "@ + decimal(total_records(groups))
        + " records)"@
}

fn qso_is_confirmed(q: &QsoRecord) -> (b: bool)
    ensures
        b == is_confirmed(*q),
{
    same_text(q.lotw_qsl_rcvd.as_str(), "Y") || same_text(q.lotw_qsl_rcvd.as_str(), "V")
        || same_text(q.eqsl_qsl_rcvd.as_str(), "Y") || same_text(q.qsl_rcvd.as_str(), "Y")
}

fn any_confirmed(group: &Vec<QsoRecord>) -> (b: bool)
    ensures
        b == group_has_confirmed(group@),
{
    let mut j: usize = 0;
    while j < group.len()
        invariant
            j <= group@.len(),
            forall|i: int| 0 <= i < j ==> !is_confirmed(#[trigger] group@[i]),
        decreases group@.len() - j,
    {
        if qso_is_confirmed(&group[j]) {
            return true;
        }
        j = j + 1;
    }
    false
}

/// Replaces `selected` by the ids of the QSOs that `rule` marks for deletion
/// in `groups`.
pub fn select_duplicates(groups: &Vec<Vec<QsoRecord>>, rule: KeepRule, selected: &mut HashSet<i64>)
    ensures
        final(selected)@ == marked_ids(rule, groups@),
{
    selected.clear();
    proof {
        assert(selected@ =~= marked_ids_upto(rule, groups@, 0, 0));
    }
    let mut gi: usize = 0;
    while gi < groups.len()
        invariant
            gi <= groups@.len(),
            selected@ == marked_ids_upto(rule, groups@, gi as int, 0),
        decreases groups@.len() - gi,
    {
        let group = &groups[gi];
        let has_conf = any_confirmed(group);
        let mut ki: usize = 0;
        while ki < group.len()
            invariant
                gi < groups@.len(),
                *group == groups@[gi as int],
                has_conf == group_has_confirmed(group@),
                ki <= group@.len(),
                selected@ == marked_ids_upto(rule, groups@, gi as int, ki as int),
            decreases group@.len() - ki,
        {
            let q = &group[ki];
            let mark = match rule {
                KeepRule::Oldest => ki >= 1,
                KeepRule::Newest => ki + 1 < group.len(),
                KeepRule::Confirmed => has_conf && !qso_is_confirmed(q),
            };
            assert(mark == marked(rule, groups@[gi as int]@, ki as int));
            let ghost before = selected@;
            if mark {
                if let Some(id) = q.id {
                    selected.insert(id);
                }
            }
            proof {
                let s1 = marked_ids_upto(rule, groups@, gi as int, ki + 1);
                assert forall|x: i64| #[trigger] s1.contains(x) <==> selected@.contains(x) by {
                    if s1.contains(x) {
                        let (g, k) = choose|g: int, k: int|
                            #![trigger groups@[g]@[k]]
                            0 <= g < groups@.len() && (g < gi || (g == gi && k < ki + 1)) && marked(
                                rule,
                                groups@[g]@,
                                k,
                            ) && groups@[g]@[k].id == Some(x);
                        if !(g == gi && k == ki) {
                            assert(before.contains(x));
                        }
                    }
                    if selected@.contains(x) && before.contains(x) {
                        let (g, k) = choose|g: int, k: int|
                            #![trigger groups@[g]@[k]]
                            0 <= g < groups@.len() && (g < gi || (g == gi && k < ki)) && marked(
                                rule,
                                groups@[g]@,
                                k,
                            ) && groups@[g]@[k].id == Some(x);
                        assert(groups@[g]@[k] == groups@[g]@[k]);
                    }
                    if selected@.contains(x) && !before.contains(x) {
                        assert(groups@[gi as int]@[ki as int] == *q);
                    }
                }
                assert(s1 =~= selected@);
            }
            ki = ki + 1;
        }
        proof {
            let s0 = marked_ids_upto(rule, groups@, gi as int, ki as int);
            let s1 = marked_ids_upto(rule, groups@, gi + 1, 0);
            assert forall|x: i64| #[trigger] s1.contains(x) <==> s0.contains(x) by {
                if s1.contains(x) {
                    let (g, k) = choose|g: int, k: int|
                        #![trigger groups@[g]@[k]]
                        0 <= g < groups@.len() && (g < gi + 1 || (g == gi + 1 && k < 0)) && marked(
                            rule,
                            groups@[g]@,
                            k,
                        ) && groups@[g]@[k].id == Some(x);
                    assert(groups@[g]@[k] == groups@[g]@[k]);
                }
                if s0.contains(x) {
                    let (g, k) = choose|g: int, k: int|
                        #![trigger groups@[g]@[k]]
                        0 <= g < groups@.len() && (g < gi || (g == gi && k < ki)) && marked(
                            rule,
                            groups@[g]@,
                            k,
                        ) && groups@[g]@[k].id == Some(x);
                    assert(groups@[g]@[k] == groups@[g]@[k]);
                }
            }
            assert(s1 =~= s0);
        }
        gi = gi + 1;
    }
}

/// The status line after a scan that found `groups`.
pub fn scan_summary(groups: &Vec<Vec<QsoRecord>>) -> (s: String)
    requires
        total_records(groups@) <= u64::MAX,
    ensures
        s@ == scan_summary_text(groups@),
{
    let mut total: u64 = 0;
    let mut i: usize = 0;
    while i < groups.len()
        invariant
            i <= groups@.len(),
            total == total_records(groups@.take(i as int)),
            total_records(groups@) <= u64::MAX,
        decreases groups@.len() - i,
    {
        proof {
            assert(groups@.take(i + 1).drop_last() =~= groups@.take(i as int));
            lemma_total_records_prefix(groups@, i + 1);
        }
        total = total + groups[i].len() as u64;
        i = i + 1;
    }
    proof {
        assert(groups@.take(groups@.len() as int) =~= groups@);
    }
    let mut s = String::from_str("Found ");
    let n = decimal_string(groups.len() as u64);
    s.append(n.as_str());
    s.append(" duplicate groups (total ");
    let t = decimal_string(total);
    s.append(t.as_str());
    s.append(" records)");
    s
}

proof fn lemma_total_records_prefix(groups: Seq<Vec<QsoRecord>>, n: int)
    requires
        0 <= n <= groups.len(),
    ensures
        total_records(groups.take(n)) <= total_records(groups),
    decreases groups.len(),
{
    if n < groups.len() {
        assert(groups.drop_last().take(n) =~= groups.take(n));
        lemma_total_records_prefix(groups.drop_last(), n);
    } else {
        assert(groups.take(n) =~= groups);
    }
}

/// With ids unique, the id of a QSO is selected exactly when the rule marks
/// that QSO.
pub proof fn lemma_selected_iff_marked(rule: KeepRule, groups: Seq<Vec<QsoRecord>>, g: int, k: int)
    requires
        ids_unique(groups),
        0 <= g < groups.len(),
        0 <= k < groups[g]@.len(),
        groups[g]@[k].id is Some,
    ensures
        marked_ids(rule, groups).contains(groups[g]@[k].id->0) <==> marked(rule, groups[g]@, k),
{
    let x = groups[g]@[k].id->0;
    if marked_ids(rule, groups).contains(x) {
        let (g2, k2) = choose|g2: int, k2: int|
            #![trigger groups[g2]@[k2]]
            0 <= g2 < groups.len() && (g2 < groups.len() || (g2 == groups.len() && k2 < 0)) && marked(
                rule,
                groups[g2]@,
                k2,
            ) && groups[g2]@[k2].id == Some(x);
        assert(groups[g]@[k] == groups[g]@[k]);
    }
    if marked(rule, groups[g]@, k) {
        assert(groups[g]@[k] == groups[g]@[k]);
    }
}

/// With ids unique and every QSO carrying one, each non-empty group keeps
/// at least one QSO whatever the rule: the first under `Oldest`, the last
/// under `Newest`, a confirmed one (or the first, when none is) under
/// `Confirmed`.
pub proof fn lemma_each_group_keeps_one(rule: KeepRule, groups: Seq<Vec<QsoRecord>>, g: int)
    requires
        ids_unique(groups),
        0 <= g < groups.len(),
        groups[g]@.len() > 0,
        forall|k: int| 0 <= k < groups[g]@.len() ==> (#[trigger] groups[g]@[k]).id is Some,
    ensures
        exists|k: int|
            0 <= k < groups[g]@.len() && !marked_ids(rule, groups).contains(
                (#[trigger] groups[g]@[k]).id->0,
            ),
{
    let group = groups[g]@;
    let k = match rule {
        KeepRule::Oldest => 0,
        KeepRule::Newest => group.len() - 1,
        KeepRule::Confirmed => if group_has_confirmed(group) {
            choose|j: int| 0 <= j < group.len() && is_confirmed(#[trigger] group[j])
        } else {
            0
        },
    };
    lemma_selected_iff_marked(rule, groups, g, k);
    assert(groups[g]@[k] == group[k]);
}

/// With ids unique, the `Confirmed` rule never selects a confirmed QSO.
pub proof fn lemma_confirmed_never_selected(groups: Seq<Vec<QsoRecord>>, g: int, k: int)
    requires
        ids_unique(groups),
        0 <= g < groups.len(),
        0 <= k < groups[g]@.len(),
        groups[g]@[k].id is Some,
        is_confirmed(groups[g]@[k]),
    ensures
        !marked_ids(KeepRule::Confirmed, groups).contains(groups[g]@[k].id->0),
{
    lemma_selected_iff_marked(KeepRule::Confirmed, groups, g, k);
}


/// What each rule keeps, in terms of positions and QSL statuses: `Oldest`
/// keeps the first QSO of a group and marks the rest, `Newest` keeps the
/// last and marks the rest; `Confirmed`, in a group holding a QSO with LoTW
/// status `Y` or `V` or eQSL or paper-card status `Y`, keeps those QSOs and
/// marks every QSO with none of these statuses, and in a group without one
/// marks nothing.
pub proof fn lemma_rules_by_status(group: Seq<QsoRecord>, k: int)
    requires
        0 <= k < group.len(),
    ensures
        marked(KeepRule::Oldest, group, k) <==> k > 0,
        marked(KeepRule::Newest, group, k) <==> k + 1 < group.len(),
        ({
            let q = group[k];
            let has_status = q.lotw_qsl_rcvd@ == "Y"@ || q.lotw_qsl_rcvd@ == "V"@ || q.eqsl_qsl_rcvd@ == "Y"@
                || q.qsl_rcvd@ == "Y"@;
            &&& has_status ==> !marked(KeepRule::Confirmed, group, k)
            &&& (!has_status && exists|j: int|
                0 <= j < group.len() && ((#[trigger] group[j]).lotw_qsl_rcvd@ == "Y"@ || group[j].lotw_qsl_rcvd@
                    == "V"@ || group[j].eqsl_qsl_rcvd@ == "Y"@ || group[j].qsl_rcvd@ == "Y"@)) ==> marked(
                KeepRule::Confirmed,
                group,
                k,
            )
            &&& (forall|j: int|
                0 <= j < group.len() ==> !((#[trigger] group[j]).lotw_qsl_rcvd@ == "Y"@ || group[j].lotw_qsl_rcvd@
                    == "V"@ || group[j].eqsl_qsl_rcvd@ == "Y"@ || group[j].qsl_rcvd@ == "Y"@)) ==> !marked(
                KeepRule::Confirmed,
                group,
                k,
            )
        }),
{
    let q = group[k];
    if exists|j: int|
        0 <= j < group.len() && ((#[trigger] group[j]).lotw_qsl_rcvd@ == "Y"@ || group[j].lotw_qsl_rcvd@ == "V"@
            || group[j].eqsl_qsl_rcvd@ == "Y"@ || group[j].qsl_rcvd@ == "Y"@) {
        let j = choose|j: int|
            0 <= j < group.len() && ((#[trigger] group[j]).lotw_qsl_rcvd@ == "Y"@ || group[j].lotw_qsl_rcvd@ == "V"@
                || group[j].eqsl_qsl_rcvd@ == "Y"@ || group[j].qsl_rcvd@ == "Y"@);
        assert(is_confirmed(group[j]));
    }
    if group_has_confirmed(group) {
        let j = choose|j: int| 0 <= j < group.len() && is_confirmed(#[trigger] group[j]);
        assert(group[j] == group[j]);
    }
}

} // verus!
