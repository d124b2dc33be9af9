//! Docked tile layout of the main window: eight panels placed in three
//! columns, each docked panel listed in its column by its order number.

use vstd::prelude::*;
use crate::text::same_text;

verus! {

/// Placement of one panel.
#[derive(Clone, Copy)]
pub struct PanelConfig {
    pub visible: bool,
    pub floating: bool,
    pub column: usize,
    pub order: usize,
}

/// The panels of the main window, indexed in this order: VFO, QSO entry,
/// logbook, DX cluster, band map, solar data, satellites, world map.
pub struct TileLayout {
    pub panels: [PanelConfig; 8],
    pub show_bandmap_window: bool,
    pub show_satellites_window: bool,
    pub show_world_map_window: bool,
    pub reset_layout_requested: bool,
}

/// `p` with order number `o`.
pub open spec fn with_order(p: PanelConfig, o: usize) -> PanelConfig {
    PanelConfig { visible: p.visible, floating: p.floating, column: p.column, order: o }
}

/// `p` placed in column `c`.
pub open spec fn with_column(p: PanelConfig, c: usize) -> PanelConfig {
    PanelConfig { visible: p.visible, floating: p.floating, column: c, order: p.order }
}

/// `p` made floating (shown in a window of its own).
pub open spec fn popped_out(p: PanelConfig) -> PanelConfig {
    PanelConfig { visible: p.visible, floating: true, column: p.column, order: p.order }
}

/// `p` hidden.
pub open spec fn hidden(p: PanelConfig) -> PanelConfig {
    PanelConfig { visible: false, floating: p.floating, column: p.column, order: p.order }
}

/// The two layouts carry the same window flags.
pub open spec fn same_flags(a: TileLayout, b: TileLayout) -> bool {
    &&& a.show_bandmap_window == b.show_bandmap_window
    &&& a.show_satellites_window == b.show_satellites_window
    &&& a.show_world_map_window == b.show_world_map_window
    &&& a.reset_layout_requested == b.reset_layout_requested
}

/// The two layouts place every panel alike, order numbers aside.
pub open spec fn same_placement(a: TileLayout, b: TileLayout) -> bool {
    forall|i: int|
        0 <= i < 8 ==> {
            &&& (#[trigger] a.panels@[i]).visible == b.panels@[i].visible
            &&& a.panels@[i].floating == b.panels@[i].floating
            &&& a.panels@[i].column == b.panels@[i].column
        }
}

/// The placement that resetting the layout restores, panel by panel:
/// (visible, floating, column, order).
pub open spec fn default_panel(i: int) -> PanelConfig {
    if i == 0 {
        PanelConfig { visible: true, floating: true, column: 0, order: 0 }
    } else if i == 1 {
        PanelConfig { visible: true, floating: true, column: 0, order: 1 }
    } else if i == 2 {
        PanelConfig { visible: true, floating: true, column: 1, order: 0 }
    } else if i == 3 {
        PanelConfig { visible: true, floating: true, column: 1, order: 1 }
    } else if i == 4 {
        PanelConfig { visible: true, floating: true, column: 2, order: 0 }
    } else if i == 5 {
        PanelConfig { visible: true, floating: true, column: 2, order: 1 }
    } else if i == 6 {
        PanelConfig { visible: false, floating: true, column: 2, order: 2 }
    } else {
        PanelConfig { visible: false, floating: true, column: 2, order: 3 }
    }
}

/// `x` limited to the range `lo..=hi`.
pub open spec fn clamp(x: int, lo: int, hi: int) -> int {
    if x < lo {
        lo
    } else if x > hi {
        hi
    } else {
        x
    }
}

/// `r` with the entries at `p` and `q` exchanged.
pub open spec fn swapped(r: Seq<usize>, p: int, q: int) -> Seq<usize> {
    r.update(p, r[q]).update(q, r[p])
}

/// `r` without the entry `t`, where it holds one (a listing holds each panel
/// at most once).
pub open spec fn without(r: Seq<usize>, t: usize) -> Seq<usize> {
    match r.index_of_first(t) {
        Some(p) => r.remove(p),
        None => r,
    }
}

/// Where entry `a` of `without(r, t)` stood in `r`.
pub open spec fn without_index(r: Seq<usize>, t: usize, a: int) -> int {
    match r.index_of_first(t) {
        Some(p) => if a < p { a } else { a + 1 },
        None => a,
    }
}

/// The smaller of two integers.
pub open spec fn min_int(a: int, b: int) -> int {
    if a < b {
        a
    } else {
        b
    }
}

/// Panel `i` is docked in one of the three columns.
pub open spec fn docked_somewhere(l: TileLayout, i: int) -> bool {
    docked(l, i, l.panels@[i].column as int) && l.panels@[i].column < 3
}

/// What moving the known panel `t` to position `to` of column `tc` does to
/// the order numbers, layout `o` becoming `n`.
pub open spec fn known_tile_moved(o: TileLayout, n: TileLayout, t: int, tc: int, to: int) -> bool {
    let s = o.panels@[t].column as int;
    let dock = o.panels@[t].visible && !o.panels@[t].floating;
    &&& tc < 3 ==> forall|r: Seq<usize>|
        #[trigger] is_listing(o, tc, r) ==> {
            let d = without(r, t as usize);
            let k = min_int(to, d.len() as int);
            if dock {
                is_listing(n, tc, d.insert(k, t as usize)) && is_normalized_listing(
                    n,
                    d.insert(k, t as usize),
                )
            } else {
                is_listing(n, tc, d) && is_normalized_listing(n, d) && n.panels@[t].order == k
            }
        }
    &&& (tc < 3 && s != tc && s < 3) ==> forall|r: Seq<usize>|
        #[trigger] is_listing(o, s, r) ==> is_listing(n, s, without(r, t as usize))
            && is_normalized_listing(n, without(r, t as usize))
    &&& forall|c: int, r: Seq<usize>|
        0 <= c < 3 && c != s && c != min_int(tc, 2) && #[trigger] is_listing(o, c, r) ==> is_listing(
            n,
            c,
            r,
        ) && is_normalized_listing(n, r)
    &&& tc >= 3 ==> forall|r: Seq<usize>|
        #[trigger] is_listing(o, tc, r) ==> {
            let d = without(r, t as usize);
            let k = min_int(to, d.len() as int);
            &&& forall|m: int|
                0 <= m < d.len() ==> n.panels@[#[trigger] d[m] as int].order == if m < k {
                    m
                } else {
                    m + 1
                }
            &&& !dock ==> n.panels@[t].order == k
        }
    &&& forall|i: int|
        0 <= i < 8 && i != t && !docked_somewhere(o, i) && !docked(o, i, tc)
            ==> #[trigger] n.panels@[i] == o.panels@[i]
}

/// What a move with an unknown panel identifier does: the panels of column
/// `tc` are renumbered leaving a gap at position `to`, then columns 0 to 2
/// are renumbered.
pub open spec fn unknown_tile_moved(o: TileLayout, n: TileLayout, tc: int, to: int) -> bool {
    &&& forall|c: int, r: Seq<usize>|
        0 <= c < 3 && #[trigger] is_listing(o, c, r) ==> is_listing(n, c, r) && is_normalized_listing(
            n,
            r,
        )
    &&& tc >= 3 ==> forall|r: Seq<usize>|
        #[trigger] is_listing(o, tc, r) ==> forall|m: int|
            0 <= m < r.len() ==> n.panels@[#[trigger] r[m] as int].order == if m < min_int(
                to,
                r.len() as int,
            ) {
                m
            } else {
                m + 1
            }
    &&& forall|i: int|
        0 <= i < 8 && !docked_somewhere(o, i) && !docked(o, i, tc) ==> #[trigger] n.panels@[i]
            == o.panels@[i]
}

/// Layout `o` became `n` by moving the panel `ti` (`None`: an unknown
/// identifier) to position `to` of column `tc`: the panel goes to column
/// `tc` (at most 2) and takes that place in the column's listing, the
/// column it left closes up, and columns 0 to 2 are renumbered.
pub open spec fn tile_moved(o: TileLayout, n: TileLayout, ti: Option<usize>, tc: int, to: int) -> bool {
    &&& same_flags(n, o)
    &&& forall|i: int|
        0 <= i < 8 ==> {
            &&& (#[trigger] n.panels@[i]).visible == o.panels@[i].visible
            &&& n.panels@[i].floating == o.panels@[i].floating
            &&& n.panels@[i].column == if ti == Some(i as usize) {
                min_int(tc, 2) as usize
            } else {
                o.panels@[i].column
            }
        }
    &&& match ti {
        Some(t) => known_tile_moved(o, n, t as int, tc, to),
        None => unknown_tile_moved(o, n, tc, to),
    }
}

proof fn lemma_listing_distinct(l: TileLayout, c: int, r: Seq<usize>)
    requires
        is_listing(l, c, r),
    ensures
        forall|a: int, b: int| 0 <= a < b < r.len() ==> #[trigger] r[a] != #[trigger] r[b],
{
    assert forall|a: int, b: int| 0 <= a < b < r.len() implies #[trigger] r[a] != #[trigger] r[b] by {
        assert(tile_before(l, r[a] as int, r[b] as int));
    }
}

proof fn lemma_without(r: Seq<usize>, t: usize)
    requires
        forall|a: int, b: int| 0 <= a < b < r.len() ==> #[trigger] r[a] != #[trigger] r[b],
    ensures
        without(r, t).len() == if r.contains(t) { r.len() - 1 } else { r.len() as int },
        forall|a: int|
            0 <= a < without(r, t).len() ==> 0 <= without_index(r, t, a) < r.len()
                && #[trigger] without(r, t)[a] == r[without_index(r, t, a)] && r[without_index(r, t, a)] != t,
        forall|a: int, b: int|
            0 <= a < b < without(r, t).len() ==> without_index(r, t, a) < without_index(r, t, b),
        forall|x: usize| #[trigger] without(r, t).contains(x) <==> (r.contains(x) && x != t),
{
    r.index_of_first_ensures(t);
    let d = without(r, t);
    assert forall|x: usize| #[trigger] d.contains(x) <==> (r.contains(x) && x != t) by {
        match r.index_of_first(t) {
            Some(p) => {
                if d.contains(x) {
                    let a = choose|a: int| 0 <= a < d.len() && d[a] == x;
                    let ia = if a < p { a } else { a + 1 };
                    assert(d[a] == r[ia]);
                    if ia != p {
                        assert(r[ia] != r[p]) by {
                            if ia < p {
                            } else {
                                assert(r[p] != r[ia]);
                            }
                        }
                    }
                }
                if r.contains(x) && x != t {
                    let a = choose|a: int| 0 <= a < r.len() && r[a] == x;
                    let da = if a < p { a } else { a - 1 };
                    assert(d[da] == r[a]);
                }
            },
            None => {},
        }
    }
    assert forall|a: int| 0 <= a < d.len() implies 0 <= without_index(r, t, a) < r.len()
        && #[trigger] d[a] == r[without_index(r, t, a)] && r[without_index(r, t, a)] != t by {
        match r.index_of_first(t) {
            Some(p) => {
                let ia = without_index(r, t, a);
                if ia < p {
                } else {
                    assert(ia != p);
                    assert(r[p] != r[ia]);
                }
            },
            None => {
                assert(!r.contains(t));
                assert(r[a] != t);
            },
        }
    }
}

proof fn lemma_first_found<A>(s: Seq<A>, x: A, k: int)
    requires
        0 <= k < s.len(),
        s[k] == x,
        forall|m: int| 0 <= m < k ==> s[m] != x,
    ensures
        s.index_of_first(x) == Some(k),
{
    s.index_of_first_ensures(x);
    let idx = s.index_of_first(x)->0;
    if idx < k {
        assert(s[idx] != x);
    } else if idx > k {
        assert(s[k] != x);
    }
}

proof fn lemma_first_absent<A>(s: Seq<A>, x: A)
    requires
        forall|m: int| 0 <= m < s.len() ==> s[m] != x,
    ensures
        s.index_of_first(x) is None,
{
    s.index_of_first_ensures(x);
}

/// The facts that hold after the move's renumbering (`m2`) and the final
/// renumbering of columns 0 to 2 (`n`).
pub open spec fn after_renumbering(o: TileLayout, m2: TileLayout, n: TileLayout, dd: Seq<usize>) -> bool {
    &&& same_flags(m2, o)
    &&& forall|m: int| 0 <= m < dd.len() && #[trigger] dd[m] < 8 ==> m2.panels@[dd[m] as int].order == m
    &&& same_flags(n, m2)
    &&& same_placement(n, m2)
    &&& forall|c: int, r: Seq<usize>|
        0 <= c < 3 && #[trigger] is_listing(m2, c, r) ==> is_listing(n, c, r) && is_normalized_listing(n, r)
    &&& forall|i: int| 0 <= i < 8 && !docked_somewhere(m2, i) ==> #[trigger] n.panels@[i] == m2.panels@[i]
}

proof fn lemma_move_known(
    o: TileLayout,
    m2: TileLayout,
    n: TileLayout,
    t: int,
    tc: int,
    to: int,
    r: Seq<usize>,
)
    requires
        0 <= t < 8,
        0 <= tc,
        0 <= to,
        is_listing(o, tc, r),
        forall|i: int|
            0 <= i < 8 ==> {
                &&& (#[trigger] m2.panels@[i]).visible == o.panels@[i].visible
                &&& m2.panels@[i].floating == o.panels@[i].floating
                &&& m2.panels@[i].column == if i == t { min_int(tc, 2) as usize } else { o.panels@[i].column }
            },
        forall|j: int|
            0 <= j < 8 && !without(r, t as usize).insert(
                min_int(to, without(r, t as usize).len() as int),
                t as usize,
            ).contains(j as usize) ==> #[trigger] m2.panels@[j] == o.panels@[j],
        after_renumbering(o, m2, n, without(r, t as usize).insert(
            min_int(to, without(r, t as usize).len() as int),
            t as usize,
        )),
    ensures
        tile_moved(o, n, Some(t as usize), tc, to),
{
    let d = without(r, t as usize);
    let k = min_int(to, d.len() as int);
    let dd = d.insert(k, t as usize);
    let col = min_int(tc, 2);
    let s = o.panels@[t].column as int;
    let dock = o.panels@[t].visible && !o.panels@[t].floating;
    lemma_listing_distinct(o, tc, r);
    lemma_without(r, t as usize);
    assert(dd[k] == t as usize);
    assert forall|x: usize| #[trigger] dd.contains(x) implies x == t as usize || (r.contains(x) && x != t as usize) by {
        {
            let a = choose|a: int| 0 <= a < dd.len() && dd[a] == x;
            if a < k {
                assert(dd[a] == d[a]);
                assert(d.contains(x));
            } else if a > k {
                assert(dd[a] == d[a - 1]);
                assert(d.contains(x));
            }
        }
    }
    assert forall|m: int| 0 <= m < dd.len() implies #[trigger] dd[m] < 8 by {
        if m != k {
            let dm = if m < k { m } else { m - 1 };
            assert(dd[m] == d[dm]);
            assert(d.contains(d[dm]));
        }
    }
    // Placement of `n` as required.
    assert forall|i: int| 0 <= i < 8 implies {
        &&& (#[trigger] n.panels@[i]).visible == o.panels@[i].visible
        &&& n.panels@[i].floating == o.panels@[i].floating
        &&& n.panels@[i].column == if Some(t as usize) == Some(i as usize) {
            min_int(tc, 2) as usize
        } else {
            o.panels@[i].column
        }
    } by {
        assert(m2.panels@[i].visible == o.panels@[i].visible);
        assert(n.panels@[i].visible == m2.panels@[i].visible);
    }
    // Orders of the entries of `d` after the move's renumbering.
    assert forall|a: int| 0 <= a < d.len() implies m2.panels@[#[trigger] d[a] as int].order == if a < k {
        a
    } else {
        a + 1
    } by {
        if a < k {
            assert(dd[a] == d[a]);
        } else {
            assert(dd[a + 1] == d[a]);
        }
    }
    if tc < 3 {
        assert forall|r2: Seq<usize>| #[trigger] is_listing(o, tc, r2) implies ({
            let d2 = without(r2, t as usize);
            let k2 = min_int(to, d2.len() as int);
            if dock {
                is_listing(n, tc, d2.insert(k2, t as usize)) && is_normalized_listing(
                    n,
                    d2.insert(k2, t as usize),
                )
            } else {
                is_listing(n, tc, d2) && is_normalized_listing(n, d2) && n.panels@[t].order == k2
            }
        }) by {
            lemma_listing_unique(o, tc, r2, r);
            if dock {
                assert forall|m: int| 0 <= m < dd.len() implies #[trigger] dd[m] < 8 && docked(m2, dd[m] as int, tc) by {
                    if m != k {
                        let dm = if m < k { m } else { m - 1 };
                        assert(dd[m] == d[dm]);
                        assert(d.contains(d[dm]));
                        assert(r.contains(dd[m]));
                        let q = choose|q: int| 0 <= q < r.len() && r[q] == dd[m];
                        assert(docked(o, r[q] as int, tc));
                    }
                }
                assert forall|i: int| 0 <= i < 8 && docked(m2, i, tc) implies dd.contains(i as usize) by {
                    if i != t {
                        assert(docked(o, i, tc));
                        assert(r.contains(i as usize));
                        assert(d.contains(i as usize));
                        let a = choose|a: int| 0 <= a < d.len() && d[a] == i as usize;
                        if a < k {
                            assert(dd[a] == d[a]);
                        } else {
                            assert(dd[a + 1] == d[a]);
                        }
                    }
                }
                assert forall|a: int, b: int| 0 <= a < b < dd.len() implies tile_before(
                    m2,
                    #[trigger] dd[a] as int,
                    #[trigger] dd[b] as int,
                ) by {
                    assert(m2.panels@[dd[a] as int].order == a);
                    assert(m2.panels@[dd[b] as int].order == b);
                }
                assert(is_listing(m2, tc, dd));
            } else {
                assert forall|m: int| 0 <= m < d.len() implies #[trigger] d[m] < 8 && docked(m2, d[m] as int, tc) by {
                    assert(d.contains(d[m]));
                    let q = choose|q: int| 0 <= q < r.len() && r[q] == d[m];
                    assert(docked(o, r[q] as int, tc));
                }
                assert forall|i: int| 0 <= i < 8 && docked(m2, i, tc) implies d.contains(i as usize) by {
                    assert(docked(o, i, tc));
                    assert(r.contains(i as usize));
                }
                assert forall|a: int, b: int| 0 <= a < b < d.len() implies tile_before(
                    m2,
                    #[trigger] d[a] as int,
                    #[trigger] d[b] as int,
                ) by {
                    assert(m2.panels@[d[a] as int].order == if a < k { a } else { a + 1 });
                    assert(m2.panels@[d[b] as int].order == if b < k { b } else { b + 1 });
                }
                assert(is_listing(m2, tc, d));
                assert(!docked_somewhere(m2, t));
                assert(m2.panels@[t].order == k);
            }
        }
    }
    if tc < 3 && s != tc && s < 3 {
        assert forall|rs: Seq<usize>| #[trigger] is_listing(o, s, rs) implies is_listing(
            n,
            s,
            without(rs, t as usize),
        ) && is_normalized_listing(n, without(rs, t as usize)) by {
            lemma_listing_distinct(o, s, rs);
            lemma_without(rs, t as usize);
            let e = without(rs, t as usize);
            assert forall|i: int| 0 <= i < 8 && i != t && docked(o, i, s) implies !dd.contains(i as usize) by {
                if dd.contains(i as usize) {
                    {
                        assert(r.contains(i as usize));
                        let q = choose|q: int| 0 <= q < r.len() && r[q] == i as usize;
                        assert(docked(o, r[q] as int, tc));
                    }
                }
            }
            assert forall|m: int| 0 <= m < e.len() implies #[trigger] e[m] < 8 && docked(m2, e[m] as int, s) by {
                let q = without_index(rs, t as usize, m);
                assert(e[m] == rs[q]);
                assert(docked(o, rs[q] as int, s));
            }
            assert forall|i: int| 0 <= i < 8 && docked(m2, i, s) implies e.contains(i as usize) by {
                assert(docked(o, i, s));
                assert(rs.contains(i as usize));
            }
            assert forall|a: int, b: int| 0 <= a < b < e.len() implies tile_before(
                m2,
                #[trigger] e[a] as int,
                #[trigger] e[b] as int,
            ) by {
                let qa = without_index(rs, t as usize, a);
                let qb = without_index(rs, t as usize, b);
                assert(e[a] == rs[qa]);
                assert(e[b] == rs[qb]);
                assert(qa < qb);
                assert(tile_before(o, rs[qa] as int, rs[qb] as int));
                assert(docked(o, rs[qa] as int, s));
                assert(docked(o, rs[qb] as int, s));
                assert(m2.panels@[e[a] as int] == o.panels@[e[a] as int]);
                assert(m2.panels@[e[b] as int] == o.panels@[e[b] as int]);
            }
            assert(is_listing(m2, s, e));
        }
    }
    assert forall|c: int, rc: Seq<usize>|
        0 <= c < 3 && c != s && c != col && #[trigger] is_listing(o, c, rc) implies is_listing(n, c, rc)
            && is_normalized_listing(n, rc) by {
        assert forall|i: int| 0 <= i < 8 implies docked(o, i, c) == docked(m2, i, c) by {
            assert(m2.panels@[i].visible == o.panels@[i].visible);
        }
        assert forall|i: int| 0 <= i < 8 && docked(o, i, c) implies o.panels@[i].order == m2.panels@[i].order by {
            if dd.contains(i as usize) {
                if i != t {
                    assert(r.contains(i as usize));
                    let q = choose|q: int| 0 <= q < r.len() && r[q] == i as usize;
                    assert(docked(o, r[q] as int, tc));
                }
            }
        }
        lemma_listing_frame(o, m2, c, rc);
    }
    if tc >= 3 {
        assert forall|r2: Seq<usize>| #[trigger] is_listing(o, tc, r2) implies ({
            let d2 = without(r2, t as usize);
            let k2 = min_int(to, d2.len() as int);
            &&& forall|m: int|
                0 <= m < d2.len() ==> n.panels@[#[trigger] d2[m] as int].order == if m < k2 {
                    m
                } else {
                    m + 1
                }
            &&& !dock ==> n.panels@[t].order == k2
        }) by {
            lemma_listing_unique(o, tc, r2, r);
            assert forall|m: int| 0 <= m < d.len() implies n.panels@[#[trigger] d[m] as int].order
                == if m < k { m } else { m + 1 } by {
                assert(d.contains(d[m]));
                let q = choose|q: int| 0 <= q < r.len() && r[q] == d[m];
                assert(docked(o, r[q] as int, tc));
                assert(!docked_somewhere(m2, d[m] as int));
            }
            if !dock {
                assert(!docked_somewhere(m2, t));
            }
        }
    }
    assert forall|i: int|
        0 <= i < 8 && i != t && !docked_somewhere(o, i) && !docked(o, i, tc) implies #[trigger] n.panels@[i]
        == o.panels@[i] by {
        if dd.contains(i as usize) {
            assert(r.contains(i as usize));
            let q = choose|q: int| 0 <= q < r.len() && r[q] == i as usize;
            assert(docked(o, r[q] as int, tc));
        }
        assert(m2.panels@[i] == o.panels@[i]);
    }
}

proof fn lemma_move_unknown(o: TileLayout, m2: TileLayout, n: TileLayout, tc: int, to: int, r: Seq<usize>)
    requires
        0 <= tc,
        0 <= to,
        is_listing(o, tc, r),
        forall|i: int| 0 <= i < 8 ==> #[trigger] m2.panels@[i].visible == o.panels@[i].visible
            && m2.panels@[i].floating == o.panels@[i].floating && m2.panels@[i].column == o.panels@[i].column,
        forall|j: int|
            0 <= j < 8 && !r.insert(min_int(to, r.len() as int), 8).contains(j as usize)
                ==> #[trigger] m2.panels@[j] == o.panels@[j],
        after_renumbering(o, m2, n, r.insert(min_int(to, r.len() as int), 8)),
    ensures
        tile_moved(o, n, None, tc, to),
{
    let k = min_int(to, r.len() as int);
    let dd = r.insert(k, 8);
    assert forall|a: int| 0 <= a < r.len() implies m2.panels@[#[trigger] r[a] as int].order == if a < k {
        a
    } else {
        a + 1
    } by {
        if a < k {
            assert(dd[a] == r[a]);
        } else {
            assert(dd[a + 1] == r[a]);
        }
    }
    assert forall|i: int| 0 <= i < 8 && dd.contains(i as usize) implies docked(o, i, tc) by {
        let a = choose|a: int| 0 <= a < dd.len() && dd[a] == i as usize;
        if a < k {
            assert(dd[a] == r[a]);
        } else if a > k {
            assert(dd[a] == r[a - 1]);
        }
    }
    assert forall|i: int| 0 <= i < 8 implies {
        &&& (#[trigger] n.panels@[i]).visible == o.panels@[i].visible
        &&& n.panels@[i].floating == o.panels@[i].floating
        &&& n.panels@[i].column == if None::<usize> == Some(i as usize) {
            min_int(tc, 2) as usize
        } else {
            o.panels@[i].column
        }
    } by {
        assert(m2.panels@[i].visible == o.panels@[i].visible);
        assert(n.panels@[i].visible == m2.panels@[i].visible);
    }
    assert forall|c: int, rc: Seq<usize>|
        0 <= c < 3 && #[trigger] is_listing(o, c, rc) implies is_listing(n, c, rc)
            && is_normalized_listing(n, rc) by {
        if c == tc {
            lemma_listing_unique(o, tc, rc, r);
            assert forall|a: int, b: int| 0 <= a < b < r.len() implies tile_before(
                m2,
                #[trigger] r[a] as int,
                #[trigger] r[b] as int,
            ) by {
                assert(m2.panels@[r[a] as int].order == if a < k { a } else { a + 1 });
                assert(m2.panels@[r[b] as int].order == if b < k { b } else { b + 1 });
            }
            assert forall|m: int| 0 <= m < r.len() implies #[trigger] r[m] < 8 && docked(m2, r[m] as int, tc) by {
                assert(docked(o, r[m] as int, tc));
                assert(m2.panels@[r[m] as int].visible == o.panels@[r[m] as int].visible);
            }
            assert forall|i: int| 0 <= i < 8 && docked(m2, i, tc) implies r.contains(i as usize) by {
                assert(m2.panels@[i].visible == o.panels@[i].visible);
                assert(docked(o, i, tc));
            }
            assert(is_listing(m2, tc, r));
        } else {
            assert forall|i: int| 0 <= i < 8 implies docked(o, i, c) == docked(m2, i, c) by {
                assert(m2.panels@[i].visible == o.panels@[i].visible);
            }
            lemma_listing_frame(o, m2, c, rc);
        }
    }
    if tc >= 3 {
        assert forall|r2: Seq<usize>| #[trigger] is_listing(o, tc, r2) implies forall|m: int|
            0 <= m < r2.len() ==> n.panels@[#[trigger] r2[m] as int].order == if m < min_int(
                to,
                r2.len() as int,
            ) {
                m
            } else {
                m + 1
            } by {
            lemma_listing_unique(o, tc, r2, r);
            assert forall|m: int| 0 <= m < r.len() implies n.panels@[#[trigger] r[m] as int].order == if m < k {
                m
            } else {
                m + 1
            } by {
                assert(docked(o, r[m] as int, tc));
                assert(!docked_somewhere(m2, r[m] as int));
            }
        }
    }
    assert forall|i: int|
        0 <= i < 8 && !docked_somewhere(o, i) && !docked(o, i, tc) implies #[trigger] n.panels@[i]
        == o.panels@[i] by {
        assert(m2.panels@[i] == o.panels@[i]);
    }
}

/// Layout `o` became `n` by moving the panel `ti` (`None`: an unknown
/// identifier) `delta` places within its column, `changed` telling whether
/// anything moved.
pub open spec fn order_moved(o: TileLayout, n: TileLayout, ti: Option<usize>, delta: int, changed: bool) -> bool {
    &&& same_flags(n, o)
    &&& same_placement(n, o)
    &&& !changed ==> n.panels@ == o.panels@
    &&& match ti {
        None => !changed,
        Some(t) => known_order_moved(o, n, t, delta, changed),
    }
}

/// What moving the known panel `t` by `delta` places does to its column.
pub open spec fn known_order_moved(o: TileLayout, n: TileLayout, t: usize, delta: int, changed: bool) -> bool {
    let c = o.panels@[t as int].column as int;
    &&& !docked(o, t as int, c) ==> !changed
    &&& forall|r: Seq<usize>, p: int|
        #![trigger is_listing(o, c, r), r[p]]
        is_listing(o, c, r) && 0 <= p < r.len() && r[p] == t ==> {
            let q = clamp(p + delta, 0, r.len() - 1);
            &&& changed == (q != p)
            &&& changed ==> is_listing(n, c, swapped(r, p, q)) && is_normalized_listing(
                n,
                swapped(r, p, q),
            )
        }
    &&& forall|i: int|
        0 <= i < 8 && !docked(o, i, c) ==> #[trigger] n.panels@[i] == o.panels@[i]
}

/// Moving a docked panel one place down its column and then one place up
/// restores the column's listing, numbered `0, 1, 2, ...`.
pub proof fn lemma_move_down_then_up(
    o: TileLayout,
    m: TileLayout,
    n: TileLayout,
    t: usize,
    r: Seq<usize>,
    p: int,
    changed1: bool,
    changed2: bool,
)
    requires
        t < 8,
        is_listing(o, o.panels@[t as int].column as int, r),
        0 <= p,
        p + 1 < r.len(),
        r[p] == t,
        order_moved(o, m, Some(t), 1, changed1),
        order_moved(m, n, Some(t), -1, changed2),
    ensures
        changed1,
        changed2,
        is_listing(n, o.panels@[t as int].column as int, r),
        is_normalized_listing(n, r),
{
    let c = o.panels@[t as int].column as int;
    let r2 = swapped(r, p, p + 1);
    assert(known_order_moved(o, m, t, 1, changed1));
    assert(clamp(p + 1, 0, r.len() - 1) == p + 1);
    assert(is_listing(o, c, r) && r[p] == t);
    assert(is_listing(m, c, r2));
    assert(m.panels@[t as int].column == o.panels@[t as int].column);
    assert(known_order_moved(m, n, t, -1, changed2));
    assert(r2[p + 1] == t);
    assert(clamp(p + 1 - 1, 0, r2.len() - 1) == p);
    assert(swapped(r2, p + 1, p) =~= r);
}

/// Layout `o` became `n` by renumbering columns 0 to 2: every column keeps
/// its listing, now numbered `0, 1, 2, ...`, and nothing else changes.
pub open spec fn renumbered(o: TileLayout, n: TileLayout) -> bool {
    &&& same_flags(n, o)
    &&& same_placement(n, o)
    &&& forall|c: int, r: Seq<usize>|
        0 <= c < 3 && #[trigger] is_listing(o, c, r) ==> is_listing(n, c, r) && is_normalized_listing(n, r)
    &&& forall|i: int|
        0 <= i < 8 && !docked_somewhere(o, i) ==> #[trigger] n.panels@[i] == o.panels@[i]
}

/// The listing of the panels `0..n` docked in column `c`, built by
/// inserting each in turn.
pub open spec fn listing_upto(l: TileLayout, c: int, n: int) -> Seq<usize>
    decreases n,
{
    if n <= 0 {
        Seq::empty()
    } else if docked(l, n - 1, c) {
        sorted_insert(l, listing_upto(l, c, n - 1), (n - 1) as usize)
    } else {
        listing_upto(l, c, n - 1)
    }
}

/// `r` with `x` inserted before the first entry that `x` comes before.
pub open spec fn sorted_insert(l: TileLayout, r: Seq<usize>, x: usize) -> Seq<usize>
    decreases r.len(),
{
    if r.len() == 0 {
        seq![x]
    } else if tile_before(l, x as int, r[0] as int) {
        seq![x] + r
    } else {
        seq![r[0]] + sorted_insert(l, r.drop_first(), x)
    }
}

proof fn lemma_sorted_insert(l: TileLayout, r: Seq<usize>, x: usize)
    requires
        x < 8,
        forall|k: int| 0 <= k < r.len() ==> #[trigger] r[k] < 8 && r[k] != x,
        forall|a: int, b: int| #![trigger r[a], r[b]] 0 <= a < b < r.len() ==> tile_before(l, r[a] as int, r[b] as int),
    ensures
        sorted_insert(l, r, x).len() == r.len() + 1,
        forall|y: usize| #[trigger] sorted_insert(l, r, x).contains(y) <==> (r.contains(y) || y == x),
        forall|a: int, b: int|
            #![trigger sorted_insert(l, r, x)[a], sorted_insert(l, r, x)[b]]
            0 <= a < b < r.len() + 1 ==> tile_before(
                l,
                sorted_insert(l, r, x)[a] as int,
                sorted_insert(l, r, x)[b] as int,
            ),
    decreases r.len(),
{
    let s = sorted_insert(l, r, x);
    if r.len() == 0 {
        assert forall|y: usize| #[trigger] s.contains(y) <==> (r.contains(y) || y == x) by {
            if s.contains(y) {
                assert(s[0] == x);
            }
            if y == x {
                assert(s[0] == x);
            }
        }
    } else if tile_before(l, x as int, r[0] as int) {
        assert forall|y: usize| #[trigger] s.contains(y) <==> (r.contains(y) || y == x) by {
            if s.contains(y) {
                let k = choose|k: int| 0 <= k < s.len() && s[k] == y;
                if k > 0 {
                    assert(s[k] == r[k - 1]);
                }
            }
            if r.contains(y) {
                let k = choose|k: int| 0 <= k < r.len() && r[k] == y;
                assert(s[k + 1] == r[k]);
            }
            if y == x {
                assert(s[0] == x);
            }
        }
        assert forall|a: int, b: int| 0 <= a < b < r.len() + 1 implies tile_before(l, #[trigger] s[a] as int, #[trigger] s[b] as int) by {
            if a == 0 {
                assert(s[b] == r[b - 1]);
                if b - 1 > 0 {
                    assert(tile_before(l, r[0] as int, r[b - 1] as int));
                }
            } else {
                assert(s[a] == r[a - 1] && s[b] == r[b - 1]);
            }
        }
    } else {
        let t = r.drop_first();
        assert forall|a: int, b: int| 0 <= a < b < t.len() implies tile_before(l, #[trigger] t[a] as int, #[trigger] t[b] as int) by {
            assert(t[a] == r[a + 1] && t[b] == r[b + 1]);
        }
        assert forall|k: int| 0 <= k < t.len() implies #[trigger] t[k] < 8 && t[k] != x by {
            assert(t[k] == r[k + 1]);
        }
        lemma_sorted_insert(l, t, x);
        let u = sorted_insert(l, t, x);
        assert(s == seq![r[0]] + u);
        assert forall|y: usize| #[trigger] s.contains(y) <==> (r.contains(y) || y == x) by {
            if s.contains(y) {
                let k = choose|k: int| 0 <= k < s.len() && s[k] == y;
                if k > 0 {
                    assert(s[k] == u[k - 1]);
                    assert(u.contains(y));
                    if t.contains(y) {
                        let m = choose|m: int| 0 <= m < t.len() && t[m] == y;
                        assert(r[m + 1] == t[m]);
                    }
                } else {
                    assert(r[0] == y);
                }
            }
            if r.contains(y) {
                let k = choose|k: int| 0 <= k < r.len() && r[k] == y;
                if k == 0 {
                    assert(s[0] == y);
                } else {
                    assert(t[k - 1] == y);
                    assert(t.contains(y));
                    assert(u.contains(y));
                    let m = choose|m: int| 0 <= m < u.len() && u[m] == y;
                    assert(s[m + 1] == u[m]);
                }
            }
            if y == x {
                assert(u.contains(x));
                let m = choose|m: int| 0 <= m < u.len() && u[m] == x;
                assert(s[m + 1] == u[m]);
            }
        }
        assert forall|a: int, b: int| 0 <= a < b < r.len() + 1 implies tile_before(l, #[trigger] s[a] as int, #[trigger] s[b] as int) by {
            if a == 0 {
                assert(s[0] == r[0]);
                assert(s[b] == u[b - 1]);
                assert(u.contains(u[b - 1]));
                if u[b - 1] == x {
                    assert(!tile_before(l, x as int, r[0] as int));
                    assert(r[0] != x);
                } else {
                    assert(t.contains(u[b - 1]));
                    let m = choose|m: int| 0 <= m < t.len() && t[m] == u[b - 1];
                    assert(t[m] == r[m + 1]);
                }
            } else {
                assert(s[a] == u[a - 1] && s[b] == u[b - 1]);
            }
        }
    }
}

proof fn lemma_listing_upto(l: TileLayout, c: int, n: int)
    requires
        0 <= n <= 8,
    ensures
        forall|k: int| 0 <= k < listing_upto(l, c, n).len() ==> #[trigger] listing_upto(l, c, n)[k] < n
            && docked(l, listing_upto(l, c, n)[k] as int, c),
        forall|i: int| 0 <= i < n && docked(l, i, c) ==> #[trigger] listing_upto(l, c, n).contains(i as usize),
        forall|a: int, b: int|
            #![trigger listing_upto(l, c, n)[a], listing_upto(l, c, n)[b]]
            0 <= a < b < listing_upto(l, c, n).len() ==> tile_before(
                l,
                listing_upto(l, c, n)[a] as int,
                listing_upto(l, c, n)[b] as int,
            ),
    decreases n,
{
    if n > 0 {
        lemma_listing_upto(l, c, n - 1);
        let r = listing_upto(l, c, n - 1);
        if docked(l, n - 1, c) {
            lemma_sorted_insert(l, r, (n - 1) as usize);
            let s = listing_upto(l, c, n);
            assert forall|k: int| 0 <= k < s.len() implies #[trigger] s[k] < n && docked(l, s[k] as int, c) by {
                assert(s.contains(s[k]));
                if s[k] != (n - 1) as usize {
                    assert(r.contains(s[k]));
                    let m = choose|m: int| 0 <= m < r.len() && r[m] == s[k];
                }
            }
            assert forall|i: int| 0 <= i < n && docked(l, i, c) implies #[trigger] s.contains(i as usize) by {
                if i < n - 1 {
                    assert(r.contains(i as usize));
                }
            }
        }
    }
}

/// Every column has a listing.
pub proof fn lemma_listing_exists(l: TileLayout, c: int)
    ensures
        exists|r: Seq<usize>| is_listing(l, c, r),
{
    lemma_listing_upto(l, c, 8);
    let r = listing_upto(l, c, 8);
    assert(is_listing(l, c, r));
}

/// Renumbering a layout that is already renumbered changes nothing.
pub proof fn lemma_renumbering_idempotent(o: TileLayout, n1: TileLayout, n2: TileLayout)
    requires
        renumbered(o, n1),
        renumbered(n1, n2),
    ensures
        n2.panels@ == n1.panels@,
        same_flags(n2, n1),
{
    assert forall|i: int| 0 <= i < 8 implies #[trigger] n2.panels@[i] == n1.panels@[i] by {
        if docked_somewhere(n1, i) {
            let c = n1.panels@[i].column as int;
            lemma_listing_exists(o, c);
            let r = choose|r: Seq<usize>| is_listing(o, c, r);
            assert(is_listing(n1, c, r) && is_normalized_listing(n1, r));
            assert(is_listing(n2, c, r) && is_normalized_listing(n2, r));
            assert(r.contains(i as usize));
            let k = choose|k: int| 0 <= k < r.len() && r[k] == i as usize;
            assert(n1.panels@[r[k] as int].order == k);
            assert(n2.panels@[r[k] as int].order == k);
            assert(n2.panels@[i].visible == n1.panels@[i].visible);
        }
    }
    assert(n2.panels@ =~= n1.panels@);
}

/// Popping out or hiding panel `t` closes the gap it leaves in its column:
/// the column's listing loses `t` and keeps its order.
pub proof fn lemma_leaving_column(o: TileLayout, n: TileLayout, t: int, c: int, r: Seq<usize>)
    requires
        0 <= t < 8,
        n.panels@ == o.panels@.update(t, popped_out(o.panels@[t])) || n.panels@ == o.panels@.update(
            t,
            hidden(o.panels@[t]),
        ),
        is_listing(o, c, r),
    ensures
        is_listing(n, c, without(r, t as usize)),
{
    lemma_listing_distinct(o, c, r);
    lemma_without(r, t as usize);
    let d = without(r, t as usize);
    assert forall|k: int| 0 <= k < d.len() implies #[trigger] d[k] < 8 && docked(n, d[k] as int, c) by {
        let q = without_index(r, t as usize, k);
        assert(d[k] == r[q]);
        assert(docked(o, r[q] as int, c));
    }
    assert forall|i: int| 0 <= i < 8 && docked(n, i, c) implies d.contains(i as usize) by {
        assert(docked(o, i, c));
        assert(r.contains(i as usize));
    }
    assert forall|a: int, b: int| 0 <= a < b < d.len() implies tile_before(n, #[trigger] d[a] as int, #[trigger] d[b] as int) by {
        let qa = without_index(r, t as usize, a);
        let qb = without_index(r, t as usize, b);
        assert(d[a] == r[qa]);
        assert(d[b] == r[qb]);
        assert(qa < qb);
        assert(tile_before(o, r[qa] as int, r[qb] as int));
    }
}

/// The identifier of the panel with index `i`.
pub open spec fn tile_name(i: int) -> Seq<char> {
    if i == 0 {
        "vfo"@
    } else if i == 1 {
        "qso"@
    } else if i == 2 {
        "log"@
    } else if i == 3 {
        "cluster"@
    } else if i == 4 {
        "bandmap"@
    } else if i == 5 {
        "solar"@
    } else if i == 6 {
        "satellites"@
    } else {
        "world_map"@
    }
}

/// The index of the panel whose identifier is `s`.
pub open spec fn tile_of(s: Seq<char>) -> Option<usize> {
    if s == "vfo"@ {
        Some(0)
    } else if s == "qso"@ {
        Some(1)
    } else if s == "log"@ {
        Some(2)
    } else if s == "cluster"@ {
        Some(3)
    } else if s == "bandmap"@ {
        Some(4)
    } else if s == "solar"@ {
        Some(5)
    } else if s == "satellites"@ {
        Some(6)
    } else if s == "world_map"@ {
        Some(7)
    } else {
        None
    }
}

/// Panel `i` is shown docked (visible, not floating) in column `col`.
pub open spec fn docked(l: TileLayout, i: int, col: int) -> bool {
    &&& l.panels@[i].column == col
    &&& l.panels@[i].visible
    &&& !l.panels@[i].floating
}

/// Panel `a` comes before panel `b` in a column: smaller order number, and
/// on equal order numbers the smaller panel index.
pub open spec fn tile_before(l: TileLayout, a: int, b: int) -> bool {
    ||| l.panels@[a].order < l.panels@[b].order
    ||| (l.panels@[a].order == l.panels@[b].order && a < b)
}

/// `r` lists the panels docked in column `col`, each once, sorted by order
/// number and then by panel index.
pub open spec fn is_listing(l: TileLayout, col: int, r: Seq<usize>) -> bool {
    &&& forall|k: int| 0 <= k < r.len() ==> #[trigger] r[k] < 8 && docked(l, r[k] as int, col)
    &&& forall|i: int| 0 <= i < 8 && docked(l, i, col) ==> r.contains(i as usize)
    &&& forall|a: int, b: int|
        #![trigger r[a], r[b]]
        0 <= a < b < r.len() ==> tile_before(l, r[a] as int, r[b] as int)
}

/// The column listing `r` has consecutive order numbers `0, 1, 2, ...`.
pub open spec fn is_normalized_listing(l: TileLayout, r: Seq<usize>) -> bool {
    forall|k: int| 0 <= k < r.len() ==> l.panels@[#[trigger] r[k] as int].order == k
}

/// `r` enumerates, sorted by `tile_before`, exactly the panels that satisfy `s`.
pub open spec fn sorted_enumeration(l: TileLayout, s: spec_fn(int) -> bool, r: Seq<usize>) -> bool {
    &&& forall|k: int| 0 <= k < r.len() ==> #[trigger] r[k] < 8 && s(r[k] as int)
    &&& forall|i: int| 0 <= i < 8 && #[trigger] s(i) ==> r.contains(i as usize)
    &&& forall|a: int, b: int|
        #![trigger r[a], r[b]]
        0 <= a < b < r.len() ==> tile_before(l, r[a] as int, r[b] as int)
}

proof fn lemma_sorted_enumeration_unique(
    l: TileLayout,
    s: spec_fn(int) -> bool,
    r1: Seq<usize>,
    r2: Seq<usize>,
)
    requires
        sorted_enumeration(l, s, r1),
        sorted_enumeration(l, s, r2),
    ensures
        r1 == r2,
    decreases r1.len() + r2.len(),
{
    if r1.len() == 0 {
        if r2.len() > 0 {
            assert(s(r2[0] as int));
            assert(r1.contains(r2[0]));
        }
        assert(r1 =~= r2);
    } else if r2.len() == 0 {
        assert(s(r1[0] as int));
        assert(r2.contains(r1[0]));
    } else {
        let x1 = r1[0];
        let x2 = r2[0];
        assert(s(x2 as int));
        assert(r1.contains(x2));
        assert(s(x1 as int));
        assert(r2.contains(x1));
        if x1 != x2 {
            let k1 = choose|k: int| 0 <= k < r1.len() && r1[k] == x2;
            let k2 = choose|k: int| 0 <= k < r2.len() && r2[k] == x1;
            assert(tile_before(l, r1[0] as int, r1[k1] as int));
            assert(tile_before(l, r2[0] as int, r2[k2] as int));
        }
        let s2 = |i: int| s(i) && i != x1 as int;
        let t1 = r1.drop_first();
        let t2 = r2.drop_first();
        assert forall|k: int| 0 <= k < t1.len() implies #[trigger] t1[k] < 8 && s2(t1[k] as int) by {
            assert(t1[k] == r1[k + 1]);
            assert(tile_before(l, r1[0] as int, r1[k + 1] as int));
        }
        assert forall|k: int| 0 <= k < t2.len() implies #[trigger] t2[k] < 8 && s2(t2[k] as int) by {
            assert(t2[k] == r2[k + 1]);
            assert(tile_before(l, r2[0] as int, r2[k + 1] as int));
        }
        assert forall|i: int| 0 <= i < 8 && #[trigger] s2(i) implies t1.contains(i as usize) by {
            assert(r1.contains(i as usize));
            let k = choose|k: int| 0 <= k < r1.len() && r1[k] == i as usize;
            assert(k != 0);
            assert(t1[k - 1] == r1[k]);
        }
        assert forall|i: int| 0 <= i < 8 && #[trigger] s2(i) implies t2.contains(i as usize) by {
            assert(r2.contains(i as usize));
            let k = choose|k: int| 0 <= k < r2.len() && r2[k] == i as usize;
            assert(k != 0);
            assert(t2[k - 1] == r2[k]);
        }
        assert forall|a: int, b: int| 0 <= a < b < t1.len() implies tile_before(
            l,
            #[trigger] t1[a] as int,
            #[trigger] t1[b] as int,
        ) by {
            assert(t1[a] == r1[a + 1] && t1[b] == r1[b + 1]);
        }
        assert forall|a: int, b: int| 0 <= a < b < t2.len() implies tile_before(
            l,
            #[trigger] t2[a] as int,
            #[trigger] t2[b] as int,
        ) by {
            assert(t2[a] == r2[a + 1] && t2[b] == r2[b + 1]);
        }
        lemma_sorted_enumeration_unique(l, s2, t1, t2);
        assert(r1 =~= seq![x1] + t1);
        assert(r2 =~= seq![x2] + t2);
    }
}

/// A column has one listing: two listings of the same column are equal.
pub proof fn lemma_listing_unique(l: TileLayout, col: int, r1: Seq<usize>, r2: Seq<usize>)
    requires
        is_listing(l, col, r1),
        is_listing(l, col, r2),
    ensures
        r1 == r2,
{
    let s = |i: int| docked(l, i, col);
    lemma_sorted_enumeration_unique(l, s, r1, r2);
}

/// A column's listing depends only on which panels are docked in it and on
/// their order numbers.
pub proof fn lemma_listing_frame(l1: TileLayout, l2: TileLayout, col: int, r: Seq<usize>)
    requires
        forall|i: int| 0 <= i < 8 ==> docked(l1, i, col) == docked(l2, i, col),
        forall|i: int|
            0 <= i < 8 && docked(l1, i, col) ==> l1.panels@[i].order == l2.panels@[i].order,
        is_listing(l1, col, r),
    ensures
        is_listing(l2, col, r),
{
    assert forall|a: int, b: int| 0 <= a < b < r.len() implies tile_before(
        l2,
        #[trigger] r[a] as int,
        #[trigger] r[b] as int,
    ) by {
        assert(tile_before(l1, r[a] as int, r[b] as int));
    }
}

/// The index of the panel named `tile_id`.
pub fn tile_index(tile_id: &str) -> (r: Option<usize>)
    ensures
        r == tile_of(tile_id@),
        match r {
            Some(i) => i < 8 && tile_id@ == tile_name(i as int),
            None => forall|i: int| 0 <= i < 8 ==> tile_id@ != tile_name(i),
        },
{
    if same_text(tile_id, "vfo") {
        Some(0)
    } else if same_text(tile_id, "qso") {
        Some(1)
    } else if same_text(tile_id, "log") {
        Some(2)
    } else if same_text(tile_id, "cluster") {
        Some(3)
    } else if same_text(tile_id, "bandmap") {
        Some(4)
    } else if same_text(tile_id, "solar") {
        Some(5)
    } else if same_text(tile_id, "satellites") {
        Some(6)
    } else if same_text(tile_id, "world_map") {
        Some(7)
    } else {
        None
    }
}

/// The identifier of the panel with index `i`.
pub fn tile_id_of(i: usize) -> (s: &'static str)
    requires
        i < 8,
    ensures
        s@ == tile_name(i as int),
{
    if i == 0 {
        "vfo"
    } else if i == 1 {
        "qso"
    } else if i == 2 {
        "log"
    } else if i == 3 {
        "cluster"
    } else if i == 4 {
        "bandmap"
    } else if i == 5 {
        "solar"
    } else if i == 6 {
        "satellites"
    } else {
        "world_map"
    }
}

impl TileLayout {
    /// Indices of the panels docked in column `col`, sorted by order number
    /// and then by panel index.
    pub fn tiles_in_column(&self, col: usize) -> (r: Vec<usize>)
        ensures
            is_listing(*self, col as int, r@),
    {
        let mut r: Vec<usize> = Vec::new();
        let mut i: usize = 0;
        while i < 8
            invariant
                i <= 8,
                forall|k: int|
                    0 <= k < r@.len() ==> #[trigger] r@[k] < i && docked(*self, r@[k] as int, col as int),
                forall|j: int| 0 <= j < i && docked(*self, j, col as int) ==> r@.contains(j as usize),
                forall|a: int, b: int|
                    #![trigger r@[a], r@[b]]
                    0 <= a < b < r@.len() ==> tile_before(*self, r@[a] as int, r@[b] as int),
            decreases 8 - i,
        {
            let p = self.panels[i];
            if p.column == col && p.visible && !p.floating {
                let mut q: usize = 0;
                while q < r.len() && self.panels[r[q]].order <= p.order
                    invariant
                        q <= r@.len(),
                        i < 8,
                        p == self.panels@[i as int],
                        forall|k: int| 0 <= k < r@.len() ==> #[trigger] r@[k] < i,
                        forall|k: int|
                            0 <= k < q ==> self.panels@[#[trigger] r@[k] as int].order <= p.order,
                    decreases r@.len() - q,
                {
                    q = q + 1;
                }
                let ghost old_r = r@;
                proof {
                    assert forall|k: int| q <= k < old_r.len() implies p.order < self.panels@[
                        #[trigger] old_r[k] as int].order by {
                        if k > q {
                            assert(tile_before(*self, old_r[q as int] as int, old_r[k] as int));
                        }
                    }
                }
                r.insert(q, i);
                proof {
                    let nr = r@;
                    assert forall|a: int, b: int| 0 <= a < b < nr.len() implies tile_before(
                        *self,
                        #[trigger] nr[a] as int,
                        #[trigger] nr[b] as int,
                    ) by {
                        if b < q {
                            assert(nr[a] == old_r[a] && nr[b] == old_r[b]);
                        } else if b == q {
                            assert(nr[a] == old_r[a]);
                        } else if a < q {
                            assert(nr[a] == old_r[a] && nr[b] == old_r[b - 1]);
                        } else if a == q {
                            assert(nr[b] == old_r[b - 1]);
                        } else {
                            assert(nr[a] == old_r[a - 1] && nr[b] == old_r[b - 1]);
                        }
                    }
                    assert forall|j: int|
                        0 <= j < i + 1 && docked(*self, j, col as int) implies nr.contains(
                        j as usize,
                    ) by {
                        if j < i {
                            assert(old_r.contains(j as usize));
                            let k = choose|k: int| 0 <= k < old_r.len() && old_r[k] == j as usize;
                            if k < q {
                                assert(nr[k] == old_r[k]);
                            } else {
                                assert(nr[k + 1] == old_r[k]);
                            }
                        } else {
                            assert(nr[q as int] == i);
                        }
                    }
                    assert forall|k: int| 0 <= k < nr.len() implies #[trigger] nr[k] < i + 1
                        && docked(*self, nr[k] as int, col as int) by {
                        if k < q {
                            assert(nr[k] == old_r[k]);
                        } else if k > q {
                            assert(nr[k] == old_r[k - 1]);
                        }
                    }
                }
            }
            i = i + 1;
        }
        r
    }

    fn set_order_at(&mut self, i: usize, order: usize)
        requires
            i < 8,
        ensures
            final(self).panels@ == old(self).panels@.update(i as int, with_order(old(self).panels@[i as int], order)),
            same_flags(*final(self), *old(self)),
    {
        let mut p = self.panels[i];
        p.order = order;
        self.panels[i] = p;
    }

    fn set_column_at(&mut self, i: usize, column: usize)
        requires
            i < 8,
        ensures
            final(self).panels@ == old(self).panels@.update(i as int, with_column(old(self).panels@[i as int], column)),
            same_flags(*final(self), *old(self)),
    {
        let mut p = self.panels[i];
        p.column = column;
        self.panels[i] = p;
    }

    /// Gives the panel named `tile_id` the order number `order`; an unknown
    /// identifier changes nothing.
    pub fn set_tile_order(&mut self, tile_id: &str, order: usize)
        ensures
            same_flags(*final(self), *old(self)),
            match tile_of(tile_id@) {
                Some(i) => final(self).panels@ == old(self).panels@.update(i as int, with_order(old(self).panels@[i as int], order)),
                None => final(self).panels@ == old(self).panels@,
            },
    {
        match tile_index(tile_id) {
            Some(i) => self.set_order_at(i, order),
            None => {},
        }
    }

    /// Numbers the panels `r` consecutively: `r[k]` gets order number `k`;
    /// entries that name no panel (8 or more) keep their place in the count.
    fn renumber(&mut self, r: &Vec<usize>)
        requires
            forall|a: int, b: int| #![trigger r@[a], r@[b]] 0 <= a < b < r@.len() ==> r@[a] != r@[b],
        ensures
            same_flags(*final(self), *old(self)),
            same_placement(*final(self), *old(self)),
            forall|k: int|
                0 <= k < r@.len() && #[trigger] r@[k] < 8 ==> final(self).panels@[r@[k] as int].order
                    == k,
            (forall|k: int| 0 <= k < r@.len() ==> #[trigger] r@[k] < 8) ==> is_normalized_listing(
                *final(self),
                r@,
            ),
            forall|j: int|
                0 <= j < 8 && !r@.contains(j as usize) ==> #[trigger] final(self).panels@[j]
                    == old(self).panels@[j],
    {
        let ghost start = *self;
        let mut k: usize = 0;
        while k < r.len()
            invariant
                k <= r@.len(),
                forall|a: int, b: int| #![trigger r@[a], r@[b]] 0 <= a < b < r@.len() ==> r@[a] != r@[b],
                same_flags(*self, start),
                same_placement(*self, start),
                forall|m: int|
                    0 <= m < k && #[trigger] r@[m] < 8 ==> self.panels@[r@[m] as int].order == m,
                forall|j: int|
                    0 <= j < 8 && !r@.subrange(0, k as int).contains(j as usize)
                        ==> #[trigger] self.panels@[j] == start.panels@[j],
            decreases r@.len() - k,
        {
            let ghost before = *self;
            if r[k] < 8 {
                self.set_order_at(r[k], k);
            }
            proof {
                assert forall|j: int|
                    0 <= j < 8 && !r@.subrange(0, k + 1).contains(j as usize)
                        implies #[trigger] self.panels@[j] == start.panels@[j] by {
                    assert(r@.subrange(0, k + 1)[k as int] == r@[k as int]);
                    if r@.subrange(0, k as int).contains(j as usize) {
                        let m = choose|m: int| 0 <= m < k && r@.subrange(0, k as int)[m] == j as usize;
                        assert(r@.subrange(0, k + 1)[m] == r@.subrange(0, k as int)[m]);
                    }
                }
                assert forall|i: int| 0 <= i < 8 implies {
                    &&& (#[trigger] self.panels@[i]).visible == start.panels@[i].visible
                    &&& self.panels@[i].floating == start.panels@[i].floating
                    &&& self.panels@[i].column == start.panels@[i].column
                } by {
                    assert(before.panels@[i].visible == start.panels@[i].visible);
                }
            }
            k = k + 1;
        }
        proof {
            assert(r@.subrange(0, r@.len() as int) =~= r@);
        }
    }

    /// Renumbers the docked panels of columns 0, 1 and 2 so that each
    /// column's order numbers are `0, 1, 2, ...` in display order; nothing
    /// else changes.
    pub fn normalize_tile_orders(&mut self)
        ensures
            renumbered(*old(self), *final(self)),
    {
        let ghost start = *self;
        let mut col: usize = 0;
        while col < 3
            invariant
                col <= 3,
                same_flags(*self, start),
                same_placement(*self, start),
                forall|c: int, r: Seq<usize>|
                    0 <= c < col && #[trigger] is_listing(start, c, r) ==> is_listing(*self, c, r)
                        && is_normalized_listing(*self, r),
                forall|i: int|
                    0 <= i < 8 && !(docked(start, i, start.panels@[i].column as int)
                        && start.panels@[i].column < col) ==> #[trigger] self.panels@[i]
                        == start.panels@[i],
            decreases 3 - col,
        {
            let ghost before = *self;
            let r = self.tiles_in_column(col);
            proof {
                assert forall|i: int| 0 <= i < 8 implies docked(before, i, col as int) == docked(
                    start,
                    i,
                    col as int,
                ) by {
                    assert(before.panels@[i].visible == start.panels@[i].visible);
                }
                lemma_listing_frame(before, start, col as int, r@);
                assert forall|a: int, b: int| 0 <= a < b < r@.len() implies #[trigger] r@[a]
                    != #[trigger] r@[b] by {
                    assert(tile_before(before, r@[a] as int, r@[b] as int));
                }
            }
            self.renumber(&r);
            proof {
                let after = *self;
                assert forall|i: int| 0 <= i < 8 implies docked(after, i, col as int) == docked(
                    start,
                    i,
                    col as int,
                ) by {
                    assert(after.panels@[i].visible == start.panels@[i].visible);
                    assert(before.panels@[i].visible == start.panels@[i].visible);
                }
                assert forall|a: int, b: int| 0 <= a < b < r@.len() implies tile_before(
                    after,
                    #[trigger] r@[a] as int,
                    #[trigger] r@[b] as int,
                ) by {
                    assert(after.panels@[r@[a] as int].order == a);
                    assert(after.panels@[r@[b] as int].order == b);
                }
                assert(is_listing(after, col as int, r@));
                assert forall|c: int, r2: Seq<usize>|
                    0 <= c < col + 1 && #[trigger] is_listing(start, c, r2) implies is_listing(
                        after,
                        c,
                        r2,
                    ) && is_normalized_listing(after, r2) by {
                    if c == col {
                        lemma_listing_unique(start, c, r2, r@);
                    } else {
                        assert(is_listing(before, c, r2));
                        assert forall|i: int| 0 <= i < 8 implies docked(before, i, c) == docked(
                            after,
                            i,
                            c,
                        ) by {
                            assert(after.panels@[i].visible == start.panels@[i].visible);
                            assert(before.panels@[i].visible == start.panels@[i].visible);
                        }
                        assert forall|i: int|
                            0 <= i < 8 && docked(before, i, c) implies before.panels@[i].order
                            == after.panels@[i].order by {
                            if r@.contains(i as usize) {
                                let k = choose|k: int| 0 <= k < r@.len() && r@[k] == i as usize;
                                assert(docked(before, r@[k] as int, col as int));
                            }
                        }
                        lemma_listing_frame(before, after, c, r2);
                        assert forall|k: int| 0 <= k < r2.len() implies after.panels@[
                            #[trigger] r2[k] as int].order == k by {
                            assert(before.panels@[r2[k] as int].order == k);
                            assert(docked(before, r2[k] as int, c));
                        }
                    }
                }
                assert forall|i: int|
                    0 <= i < 8 && !(docked(start, i, start.panels@[i].column as int)
                        && start.panels@[i].column < col + 1) implies #[trigger] after.panels@[i]
                    == start.panels@[i] by {
                    if r@.contains(i as usize) {
                        let k = choose|k: int| 0 <= k < r@.len() && r@[k] == i as usize;
                        assert(docked(before, r@[k] as int, col as int));
                        assert(docked(start, i, col as int));
                    }
                    assert(before.panels@[i] == start.panels@[i]);
                }
            }
            col = col + 1;
        }
        assert(renumbered(start, *self));
    }

    /// Moves the docked panel `tile_id` by `delta` places within its column:
    /// its position in the column's listing plus `delta`, held to the
    /// listing's bounds, becomes its new position, the panel found there takes
    /// its old one, and the column is renumbered `0, 1, 2, ...`. Returns
    /// whether anything moved. A panel that is unknown, hidden or floating
    /// does not move.
    #[verifier::rlimit(40)]
    pub fn move_tile_order(&mut self, tile_id: &str, delta: i32) -> (changed: bool)
        ensures
            order_moved(*old(self), *final(self), tile_of(tile_id@), delta as int, changed),
    {
        let t = match tile_index(tile_id) {
            Some(t) => t,
            None => return false,
        };
        let col = self.panels[t].column;
        let mut tiles = self.tiles_in_column(col);
        let ghost r = tiles@;
        let mut pos: usize = 0;
        while pos < tiles.len() && tiles[pos] != t
            invariant
                pos <= tiles@.len(),
                forall|m: int| 0 <= m < pos ==> tiles@[m] != t,
            decreases tiles@.len() - pos,
        {
            pos = pos + 1;
        }
        proof {
            assert forall|a: int, b: int| 0 <= a < b < r.len() implies #[trigger] r[a] != #[trigger] r[b] by {
                assert(tile_before(*self, r[a] as int, r[b] as int));
            }
        }
        if pos == tiles.len() {
            proof {
                if docked(*self, t as int, col as int) {
                    assert(r.contains(t));
                }
            }
            return false;
        }
        let last: i128 = (tiles.len() - 1) as i128;
        let target: i128 = pos as i128 + delta as i128;
        let new_pos: usize = if target < 0 {
            0
        } else if target > last {
            last as usize
        } else {
            target as usize
        };
        proof {
            assert forall|r2: Seq<usize>, p: int|
                is_listing(*self, col as int, r2) && 0 <= p < r2.len() && r2[p] == t implies p == pos && r2 == r by {
                lemma_listing_unique(*self, col as int, r2, r);
                if p != pos {
                    if p < pos {
                        assert(r[p] != r[pos as int]);
                    } else {
                        assert(r[pos as int] != r[p]);
                    }
                }
            }
        }
        if new_pos == pos {
            return false;
        }
        let ghost before = *self;
        let a = tiles[pos];
        let b = tiles[new_pos];
        tiles.set(pos, b);
        tiles.set(new_pos, a);
        proof {
            let sw = tiles@;
            assert(sw =~= swapped(r, pos as int, new_pos as int));
            assert forall|x: int, y: int| 0 <= x < y < sw.len() implies #[trigger] sw[x] != #[trigger] sw[y] by {
                let ox = if x == pos { new_pos as int } else if x == new_pos { pos as int } else { x };
                let oy = if y == pos { new_pos as int } else if y == new_pos { pos as int } else { y };
                assert(sw[x] == r[ox] && sw[y] == r[oy]);
                if ox < oy {
                    assert(r[ox] != r[oy]);
                } else {
                    assert(r[oy] != r[ox]);
                }
            }
            assert forall|k: int| 0 <= k < sw.len() implies #[trigger] sw[k] < 8 by {
                let ok = if k == pos { new_pos as int } else if k == new_pos { pos as int } else { k };
                assert(sw[k] == r[ok]);
            }
        }
        self.renumber(&tiles);
        proof {
            let after = *self;
            let sw = tiles@;
            assert forall|i: int| 0 <= i < 8 implies docked(after, i, col as int) == docked(before, i, col as int) by {
                assert(after.panels@[i].visible == before.panels@[i].visible);
            }
            assert forall|k: int| 0 <= k < sw.len() implies #[trigger] sw[k] < 8 && docked(after, sw[k] as int, col as int) by {
                let ok = if k == pos { new_pos as int } else if k == new_pos { pos as int } else { k };
                assert(sw[k] == r[ok]);
            }
            assert forall|i: int| 0 <= i < 8 && docked(after, i, col as int) implies sw.contains(i as usize) by {
                assert(r.contains(i as usize));
                let k = choose|k: int| 0 <= k < r.len() && r[k] == i as usize;
                let sk = if k == pos { new_pos as int } else if k == new_pos { pos as int } else { k };
                assert(sw[sk] == r[k]);
            }
            assert forall|x: int, y: int| 0 <= x < y < sw.len() implies tile_before(
                after,
                #[trigger] sw[x] as int,
                #[trigger] sw[y] as int,
            ) by {
                assert(after.panels@[sw[x] as int].order == x);
                assert(after.panels@[sw[y] as int].order == y);
            }
            assert forall|i: int| 0 <= i < 8 && !docked(before, i, col as int) implies #[trigger] after.panels@[i]
                == before.panels@[i] by {
                if sw.contains(i as usize) {
                    let k = choose|k: int| 0 <= k < sw.len() && sw[k] == i as usize;
                    assert(docked(after, sw[k] as int, col as int));
                }
            }
        }
        true
    }

    /// Moves the panel `tile_id` to column `target_col` (at most 2) at
    /// position `target_order` of that column's listing (at most its end):
    /// the column's other panels keep their relative order around it, then
    /// columns 0 to 2 are renumbered `0, 1, 2, ...`.
    #[verifier::rlimit(80)]
    #[verifier::spinoff_prover]
    pub fn move_tile_to(&mut self, tile_id: &str, target_col: usize, target_order: usize)
        ensures
            tile_moved(*old(self), *final(self), tile_of(tile_id@), target_col as int, target_order as int),
    {
        let ghost o = *self;
        let ti = tile_index(tile_id);
        let mut dest = self.tiles_in_column(target_col);
        let ghost r = dest@;
        proof {
            lemma_listing_distinct(o, target_col as int, r);
        }
        match ti {
            Some(t) => {
                let mut p: usize = 0;
                while p < dest.len() && dest[p] != t
                    invariant
                        dest@ == r,
                        p <= r.len(),
                        forall|m: int| 0 <= m < p ==> r[m] != t,
                    decreases r.len() - p,
                {
                    p = p + 1;
                }
                if p < dest.len() {
                    proof {
                        lemma_first_found(r, t, p as int);
                    }
                    dest.remove(p);
                } else {
                    proof {
                        lemma_first_absent(r, t);
                    }
                }
                proof {
                    assert(dest@ =~= without(r, t));
                    lemma_without(r, t);
                }
            },
            None => {},
        }
        let k: usize = if target_order < dest.len() { target_order } else { dest.len() };
        let col: usize = if target_col < 2 { target_col } else { 2 };
        let ghost d = dest@;
        let ghost m1 = *self;
        match ti {
            Some(t) => {
                proof {
                    assert forall|a: int, b: int| 0 <= a < b < d.len() implies #[trigger] d[a] != #[trigger] d[b] by {
                        assert(without_index(r, t, a) < without_index(r, t, b));
                    }
                    assert forall|a: int| 0 <= a < d.len() implies #[trigger] d[a] != t by {
                        assert(d.contains(d[a]));
                    }
                }
                dest.insert(k, t);
                self.set_column_at(t, col);
            },
            None => {
                proof {
                    assert forall|a: int| 0 <= a < d.len() implies #[trigger] d[a] != 8 by {
                        assert(d[a] < 8);
                    }
                }
                dest.insert(k, 8);
            },
        }
        proof {
            let dd = dest@;
            assert forall|a: int, b: int| 0 <= a < b < dd.len() implies #[trigger] dd[a] != #[trigger] dd[b] by {
                if a < k && b < k {
                    assert(dd[a] == d[a] && dd[b] == d[b]);
                } else if a < k && b > k {
                    assert(dd[a] == d[a] && dd[b] == d[b - 1]);
                } else if a > k {
                    assert(dd[a] == d[a - 1] && dd[b] == d[b - 1]);
                } else if a == k {
                    assert(dd[b] == d[b - 1]);
                } else {
                    assert(dd[a] == d[a]);
                }
            }
        }
        let ghost mid = *self;
        self.renumber(&dest);
        let ghost m2 = *self;
        self.normalize_tile_orders();
        proof {
            let n = *self;
            match ti {
                Some(t) => {
                    assert forall|j: int|
                        0 <= j < 8 && !dest@.contains(j as usize) implies #[trigger] m2.panels@[j] == o.panels@[j] by {
                        assert(dest@[k as int] == t);
                        assert(mid.panels@[j] == m1.panels@[j]);
                    }
                    assert forall|i: int| 0 <= i < 8 implies {
                        &&& (#[trigger] m2.panels@[i]).visible == o.panels@[i].visible
                        &&& m2.panels@[i].floating == o.panels@[i].floating
                        &&& m2.panels@[i].column == if i == t as int { min_int(target_col as int, 2) as usize } else { o.panels@[i].column }
                    } by {
                        assert(m2.panels@[i].visible == mid.panels@[i].visible);
                    }
                    lemma_move_known(o, m2, n, t as int, target_col as int, target_order as int, r);
                },
                None => {
                    assert forall|i: int| 0 <= i < 8 implies #[trigger] m2.panels@[i].visible == o.panels@[i].visible
                        && m2.panels@[i].floating == o.panels@[i].floating && m2.panels@[i].column == o.panels@[i].column by {
                        assert(m2.panels@[i].visible == mid.panels@[i].visible);
                    }
                    lemma_move_unknown(o, m2, n, target_col as int, target_order as int, r);
                },
            }
        }
    }

    /// Moves the panel `tile_id` by `delta` columns, held to columns 0 to 2;
    /// where that changes its column it goes to the end of the new column
    /// (as `move_tile_to` with position 999).
    pub fn move_tile_column(&mut self, tile_id: &str, delta: i32)
        ensures
            match tile_of(tile_id@) {
                None => final(self).panels@ == old(self).panels@ && same_flags(*final(self), *old(self)),
                Some(t) => {
                    let cur = old(self).panels@[t as int].column as int;
                    let nc = clamp(cur + delta, 0, 2);
                    if nc == cur {
                        final(self).panels@ == old(self).panels@ && same_flags(*final(self), *old(self))
                    } else {
                        tile_moved(*old(self), *final(self), Some(t), nc, 999)
                    }
                },
            },
    {
        let t = match tile_index(tile_id) {
            Some(t) => t,
            None => return,
        };
        let cur = self.panels[t].column;
        let target: i128 = cur as i128 + delta as i128;
        let new_col: usize = if target < 0 {
            0
        } else if target > 2 {
            2
        } else {
            target as usize
        };
        if new_col != cur {
            self.move_tile_to(tile_id, new_col, 999);
        }
    }

    /// Detaches the panel `tile_id` into a window of its own; the band map,
    /// satellite and world map panels also raise their window flag.
    pub fn popout_tile(&mut self, tile_id: &str)
        ensures
            final(self).reset_layout_requested == old(self).reset_layout_requested,
            match tile_of(tile_id@) {
                None => final(self).panels@ == old(self).panels@ && same_flags(*final(self), *old(self)),
                Some(t) => {
                    &&& final(self).panels@ == old(self).panels@.update(t as int, popped_out(old(self).panels@[t as int]))
                    &&& final(self).show_bandmap_window == (t == 4 || old(self).show_bandmap_window)
                    &&& final(self).show_satellites_window == (t == 6 || old(self).show_satellites_window)
                    &&& final(self).show_world_map_window == (t == 7 || old(self).show_world_map_window)
                },
            },
    {
        if let Some(t) = tile_index(tile_id) {
            let mut p = self.panels[t];
            p.floating = true;
            self.panels[t] = p;
            if t == 4 {
                self.show_bandmap_window = true;
            } else if t == 6 {
                self.show_satellites_window = true;
            } else if t == 7 {
                self.show_world_map_window = true;
            }
        }
    }

    /// Hides the panel `tile_id`; the band map, satellite and world map
    /// panels also drop their window flag.
    pub fn close_tile(&mut self, tile_id: &str)
        ensures
            final(self).reset_layout_requested == old(self).reset_layout_requested,
            match tile_of(tile_id@) {
                None => final(self).panels@ == old(self).panels@ && same_flags(*final(self), *old(self)),
                Some(t) => {
                    &&& final(self).panels@ == old(self).panels@.update(t as int, hidden(old(self).panels@[t as int]))
                    &&& final(self).show_bandmap_window == (t != 4 && old(self).show_bandmap_window)
                    &&& final(self).show_satellites_window == (t != 6 && old(self).show_satellites_window)
                    &&& final(self).show_world_map_window == (t != 7 && old(self).show_world_map_window)
                },
            },
    {
        if let Some(t) = tile_index(tile_id) {
            let mut p = self.panels[t];
            p.visible = false;
            self.panels[t] = p;
            if t == 4 {
                self.show_bandmap_window = false;
            } else if t == 6 {
                self.show_satellites_window = false;
            } else if t == 7 {
                self.show_world_map_window = false;
            }
        }
    }

    /// Restores the default placement of every panel (see `default_panel`),
    /// closes the band map, satellite and world map windows, and asks for
    /// the window layout to be reset.
    pub fn reset_panel_layout(&mut self)
        ensures
            final(self).panels@ == Seq::new(8, |i: int| default_panel(i)),
            !final(self).show_bandmap_window,
            !final(self).show_satellites_window,
            !final(self).show_world_map_window,
            final(self).reset_layout_requested,
    {
        self.panels = [
            PanelConfig { visible: true, floating: true, column: 0, order: 0 },
            PanelConfig { visible: true, floating: true, column: 0, order: 1 },
            PanelConfig { visible: true, floating: true, column: 1, order: 0 },
            PanelConfig { visible: true, floating: true, column: 1, order: 1 },
            PanelConfig { visible: true, floating: true, column: 2, order: 0 },
            PanelConfig { visible: true, floating: true, column: 2, order: 1 },
            PanelConfig { visible: false, floating: true, column: 2, order: 2 },
            PanelConfig { visible: false, floating: true, column: 2, order: 3 },
        ];
        self.show_bandmap_window = false;
        self.show_satellites_window = false;
        self.show_world_map_window = false;
        self.reset_layout_requested = true;
        assert(self.panels@ =~= Seq::new(8, |i: int| default_panel(i)));
    }

    /// Identifiers of the panels docked in column `col`, in display order
    /// (order number, then panel index).
    pub fn get_tiles_in_column(&self, col: usize) -> (names: Vec<String>)
        ensures
            exists|r: Seq<usize>|
                is_listing(*self, col as int, r) && names@.len() == r.len() && forall|k: int|
                    0 <= k < r.len() ==> #[trigger] names@[k]@ == tile_name(r[k] as int),
    {
        let idx = self.tiles_in_column(col);
        let mut names: Vec<String> = Vec::new();
        let mut k: usize = 0;
        while k < idx.len()
            invariant
                k <= idx@.len(),
                is_listing(*self, col as int, idx@),
                names@.len() == k,
                forall|m: int| 0 <= m < k ==> #[trigger] names@[m]@ == tile_name(idx@[m] as int),
            decreases idx@.len() - k,
        {
            names.push(String::from_str(tile_id_of(idx[k])));
            k = k + 1;
        }
        names
    }
}

/// How the title of panel `tile_id` is made: `Some((text, None))` shows
/// `text`; `Some((prefix, Some(key)))` shows `prefix` followed by the
/// translation of `key`; `None` shows the identifier itself.
pub open spec fn tile_title_rule(tile_id: Seq<char>) -> Option<(Seq<char>, Option<Seq<char>>)> {
    if tile_id == "vfo"@ {
        Some(("📻 TRANSCEIVER VFO"@, None))
    } else if tile_id == "qso"@ {
        Some(("📝 "@, Some("tab.new_qso"@)))
    } else if tile_id == "log"@ {
        Some(("📋 "@, Some("tab.logbook"@)))
    } else if tile_id == "cluster"@ {
        Some(("📡 "@, Some("cluster.title"@)))
    } else if tile_id == "bandmap"@ {
        Some(("📶 "@, Some("bandmap.title"@)))
    } else if tile_id == "solar"@ {
        Some(("☀ "@, Some("solar.title"@)))
    } else if tile_id == "satellites"@ {
        Some(("🛰 ŚLEDZENIE SATELITÓW"@, None))
    } else if tile_id == "world_map"@ {
        Some(("🗺 "@, Some("map.world_title"@)))
    } else {
        None
    }
}

fn prefixed_translation<F: Fn(&str) -> String>(prefix: &str, key: &str, translate: &F) -> (s: String)
    requires
        forall|k: &str| #[trigger] translate.requires((k,)),
    ensures
        exists|k: &str, t: String|
            #![trigger translate.ensures((k,), t)]
            k@ == key@ && translate.ensures((k,), t) && s@ == prefix@ + t@,
{
    let t = translate(key);
    let mut s = String::from_str(prefix);
    s.append(t.as_str());
    assert(key@ == key@ && translate.ensures((key,), t) && s@ == prefix@ + t@);
    s
}

/// The title of panel `tile_id`, in the user's language (`translate`).
pub fn tile_title<F: Fn(&str) -> String>(tile_id: &str, translate: F) -> (s: String)
    requires
        forall|k: &str| #[trigger] translate.requires((k,)),
    ensures
        match tile_title_rule(tile_id@) {
            Some((text, None)) => s@ == text,
            Some((prefix, Some(key))) => exists|k: &str, t: String|
                #![trigger translate.ensures((k,), t)]
                k@ == key && translate.ensures((k,), t) && s@ == prefix + t@,
            None => s@ == tile_id@,
        },
{
    if same_text(tile_id, "vfo") {
        String::from_str("📻 TRANSCEIVER VFO")
    } else if same_text(tile_id, "qso") {
        prefixed_translation("📝 ", "tab.new_qso", &translate)
    } else if same_text(tile_id, "log") {
        prefixed_translation("📋 ", "tab.logbook", &translate)
    } else if same_text(tile_id, "cluster") {
        prefixed_translation("📡 ", "cluster.title", &translate)
    } else if same_text(tile_id, "bandmap") {
        prefixed_translation("📶 ", "bandmap.title", &translate)
    } else if same_text(tile_id, "solar") {
        prefixed_translation("☀ ", "solar.title", &translate)
    } else if same_text(tile_id, "satellites") {
        String::from_str("🛰 ŚLEDZENIE SATELITÓW")
    } else if same_text(tile_id, "world_map") {
        prefixed_translation("🗺 ", "map.world_title", &translate)
    } else {
        String::from_str(tile_id)
    }
}


/// A release over a drop slot of column `col`: the tile being dragged, if
/// any, stops being dragged and moves to position `slot` of that column
/// (slot 0 of an empty column, the slot after the last tile for the end).
/// Returns whether a tile was dropped.
pub fn drop_dragged_tile(layout: &mut TileLayout, dragging: &mut Option<String>, col: usize, slot: usize) -> (dropped: bool)
    ensures
        *final(dragging) is None,
        dropped == (*old(dragging) is Some),
        match *old(dragging) {
            Some(t) => tile_moved(*old(layout), *final(layout), tile_of(t@), col as int, slot as int),
            None => *final(layout) == *old(layout),
        },
{
    match dragging.take() {
        Some(t) => {
            layout.move_tile_to(t.as_str(), col, slot);
            true
        },
        None => false,
    }
}

/// Which move buttons the tile at position `idx` of a column listing `len`
/// tiles shows, for column `col`: down when a tile follows, up when one
/// precedes, right unless in the last column, left unless in the first.
pub fn tile_move_buttons(idx: usize, len: usize, col: usize) -> (b: (bool, bool, bool, bool))
    requires
        idx < len,
    ensures
        b == (idx + 1 < len, idx > 0, col < 2, col > 0),
{
    (idx + 1 < len, idx > 0, col < 2, col > 0)
}

} // verus!
