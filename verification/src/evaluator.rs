//! The workspace evaluator: given a workspace and a snapshot, decide which
//! windows must receive a maximize toggle.

use vstd::prelude::*;
use crate::model::WindowInfo;
use crate::snapshot::Snapshot;
use crate::snapshot::spec_is_maximized;

verus! {

/// Whether `w` is a tiled (non-floating) window on workspace `ws`.
pub open spec fn is_tiled_on(w: WindowInfo, ws: u64) -> bool {
    w.workspace_id == Some(ws) && !w.is_floating
}

/// The tiled windows on workspace `ws`, in snapshot order.
pub open spec fn tiled_on(s: Seq<WindowInfo>, ws: u64) -> Seq<WindowInfo>
    decreases s.len(),
{
    if s.len() == 0 {
        Seq::empty()
    } else {
        tiled_on(s.drop_last(), ws) + if is_tiled_on(s.last(), ws) {
            seq![s.last()]
        } else {
            Seq::empty()
        }
    }
}

/// The distinct columns occupied by placed windows of `t`, in order of
/// first appearance.
pub open spec fn distinct_columns(t: Seq<WindowInfo>) -> Seq<usize>
    decreases t.len(),
{
    if t.len() == 0 {
        Seq::empty()
    } else {
        let rest = distinct_columns(t.drop_last());
        if t.last().pos_in_scrolling_layout is Some && !rest.contains(
            (t.last().pos_in_scrolling_layout->0).0,
        ) {
            rest.push((t.last().pos_in_scrolling_layout->0).0)
        } else {
            rest
        }
    }
}

/// The first window of `t` placed in column `c`: the representative the
/// evaluator acts on for that column.
pub open spec fn first_in_column(t: Seq<WindowInfo>, c: usize) -> Option<WindowInfo>
    decreases t.len(),
{
    if t.len() == 0 {
        None
    } else if t[0].pos_in_scrolling_layout is Some && (t[0].pos_in_scrolling_layout->0).0 == c {
        Some(t[0])
    } else {
        first_in_column(t.drop_first(), c)
    }
}

/// The targets of the multi-column case: one representative per column, in
/// column order, kept when it is currently maximized.
pub open spec fn multi_column_targets(snap: Snapshot, t: Seq<WindowInfo>, cols: Seq<usize>) -> Seq<
    u64,
>
    decreases cols.len(),
{
    if cols.len() == 0 {
        Seq::empty()
    } else {
        multi_column_targets(snap, t, cols.drop_last()) + (match first_in_column(t, cols.last()) {
            Some(w) => if spec_is_maximized(snap, w.id) {
                seq![w.id]
            } else {
                Seq::empty()
            },
            None => Seq::empty(),
        })
    }
}

/// The windows the evaluator toggles for workspace `ws` under `snap`: with
/// no tiled window, none; with one occupied column, the first tiled window
/// unless it is already maximized; with several columns, each column's
/// representative that is currently maximized.
pub open spec fn spec_plan(snap: Snapshot, ws: u64) -> Seq<u64> {
    let t = tiled_on(snap.windows@, ws);
    if t.len() == 0 {
        Seq::empty()
    } else {
        let cols = distinct_columns(t);
        if cols.len() == 1 {
            if !spec_is_maximized(snap, t[0].id) {
                seq![t[0].id]
            } else {
                Seq::empty()
            }
        } else {
            multi_column_targets(snap, t, cols)
        }
    }
}

/// A workspace with exactly one tiled, placed window that is not yet
/// maximized gets exactly one toggle, targeting that window.
pub proof fn lemma_single_window_maximized(snap: Snapshot, ws: u64)
    requires
        tiled_on(snap.windows@, ws).len() == 1,
        tiled_on(snap.windows@, ws)[0].pos_in_scrolling_layout is Some,
        !spec_is_maximized(snap, tiled_on(snap.windows@, ws)[0].id),
    ensures
        spec_plan(snap, ws) =~= seq![tiled_on(snap.windows@, ws)[0].id],
{
    let t = tiled_on(snap.windows@, ws);
    let c = (t[0].pos_in_scrolling_layout->0).0;
    assert(t.drop_last() =~= Seq::<WindowInfo>::empty());
    assert(t.last() == t[0]);
    let rest = distinct_columns(t.drop_last());
    assert(rest =~= Seq::<usize>::empty());
    assert(!rest.contains(c));
    assert(distinct_columns(t) =~= seq![c]);
    assert(distinct_columns(t).len() == 1);
}

/// A workspace with two tiled windows in two distinct columns, both
/// currently maximized, gets exactly one toggle per column, targeting each
/// column's representative.
pub proof fn lemma_two_columns_both_toggled(snap: Snapshot, ws: u64)
    requires
        tiled_on(snap.windows@, ws).len() == 2,
        tiled_on(snap.windows@, ws)[0].pos_in_scrolling_layout is Some,
        tiled_on(snap.windows@, ws)[1].pos_in_scrolling_layout is Some,
        (tiled_on(snap.windows@, ws)[0].pos_in_scrolling_layout->0).0 != (tiled_on(
            snap.windows@,
            ws,
        )[1].pos_in_scrolling_layout->0).0,
        spec_is_maximized(snap, tiled_on(snap.windows@, ws)[0].id),
        spec_is_maximized(snap, tiled_on(snap.windows@, ws)[1].id),
    ensures
        spec_plan(snap, ws) =~= seq![
            tiled_on(snap.windows@, ws)[0].id,
            tiled_on(snap.windows@, ws)[1].id,
        ],
{
    let t = tiled_on(snap.windows@, ws);
    let c0 = (t[0].pos_in_scrolling_layout->0).0;
    let c1 = (t[1].pos_in_scrolling_layout->0).0;
    let d1 = t.drop_last();
    assert(d1.len() == 1);
    assert(d1[0] == t[0]);
    assert(d1.last() == t[0]);
    assert(d1.drop_last() =~= Seq::<WindowInfo>::empty());
    let rest0 = distinct_columns(d1.drop_last());
    assert(rest0 =~= Seq::<usize>::empty());
    assert(distinct_columns(d1) =~= seq![c0]);
    assert(t.last() == t[1]);
    assert forall|x: usize| seq![c0].contains(x) implies x == c0 by {
        let i = choose|i: int| 0 <= i < seq![c0].len() && seq![c0][i] == x;
        assert(i == 0);
    }
    assert(!distinct_columns(d1).contains(c1));
    let cols = distinct_columns(t);
    assert(cols =~= seq![c0, c1]);
    assert(cols.len() == 2);
    assert(first_in_column(t, c0) == Some(t[0]));
    assert(t.drop_first() =~= seq![t[1]]);
    assert(t.drop_first()[0] == t[1]);
    assert(first_in_column(t.drop_first(), c1) == Some(t[1]));
    assert(first_in_column(t, c1) == Some(t[1]));
    assert(cols.drop_last() =~= seq![c0]);
    assert(cols.last() == c1);
    assert(seq![c0].drop_last() =~= Seq::<usize>::empty());
    assert(seq![c0].last() == c0);
    assert(multi_column_targets(snap, t, Seq::<usize>::empty()) =~= Seq::<u64>::empty());
    assert(multi_column_targets(snap, t, seq![c0]) =~= seq![t[0].id]);
    assert(multi_column_targets(snap, t, cols) =~= seq![t[0].id, t[1].id]);
}

/// Whether `v` holds `x`.
fn contains_usize(v: &Vec<usize>, x: usize) -> (r: bool)
    ensures
        r == v@.contains(x),
{
    let n = v.len();
    let mut i: usize = 0;
    while i < n
        invariant
            n == v@.len(),
            i <= n,
            forall|j: int| 0 <= j < i ==> v@[j] != x,
        decreases n - i,
    {
        if v[i] == x {
            assert(v@.contains(x));
            return true;
        }
        i = i + 1;
    }
    false
}

/// The first window of `tiled` placed in column `c`.
fn find_first_in_column(tiled: &Vec<WindowInfo>, c: usize) -> (r: Option<WindowInfo>)
    ensures
        r == first_in_column(tiled@, c),
{
    let n = tiled.len();
    proof {
        assert(tiled@.skip(0) =~= tiled@);
    }
    let mut k: usize = 0;
    while k < n
        invariant
            n == tiled@.len(),
            k <= n,
            first_in_column(tiled@, c) == first_in_column(tiled@.skip(k as int), c),
        decreases n - k,
    {
        proof {
            assert(tiled@.skip(k as int)[0] == tiled@[k as int]);
            assert(tiled@.skip(k as int).drop_first() =~= tiled@.skip(k + 1 as int));
        }
        let w = tiled[k];
        if let Some((col, _tile)) = w.pos_in_scrolling_layout {
            if col == c {
                return Some(w);
            }
        }
        k = k + 1;
    }
    proof {
        assert(tiled@.skip(n as int) =~= Seq::<WindowInfo>::empty());
    }
    None
}

/// Evaluate workspace `ws_id` under `snap`: the ids returned are exactly
/// the windows the engine must send a maximize toggle, in order.
pub fn evaluate_workspace(snap: &Snapshot, ws_id: u64) -> (targets: Vec<u64>)
    ensures
        targets@ == spec_plan(*snap, ws_id),
{
    let mut tiled: Vec<WindowInfo> = Vec::new();
    let n = snap.windows.len();
    let mut i: usize = 0;
    while i < n
        invariant
            n == snap.windows@.len(),
            i <= n,
            tiled@ == tiled_on(snap.windows@.take(i as int), ws_id),
        decreases n - i,
    {
        let w = snap.windows[i];
        let on_ws = match w.workspace_id {
            Some(ws) => ws == ws_id,
            None => false,
        };
        if on_ws && !w.is_floating {
            tiled.push(w);
        }
        proof {
            assert(snap.windows@.take(i + 1 as int).drop_last() =~= snap.windows@.take(i as int));
            assert(snap.windows@.take(i + 1 as int).last() == snap.windows@[i as int]);
            assert(tiled@ =~= tiled_on(snap.windows@.take(i + 1 as int), ws_id));
        }
        i = i + 1;
    }
    proof {
        assert(snap.windows@.take(n as int) =~= snap.windows@);
    }
    let mut targets: Vec<u64> = Vec::new();
    if tiled.len() == 0 {
        return targets;
    }
    let mut cols: Vec<usize> = Vec::new();
    let t_len = tiled.len();
    let mut j: usize = 0;
    while j < t_len
        invariant
            t_len == tiled@.len(),
            j <= t_len,
            cols@ == distinct_columns(tiled@.take(j as int)),
        decreases t_len - j,
    {
        let w = tiled[j];
        if let Some((col, _tile)) = w.pos_in_scrolling_layout {
            if !contains_usize(&cols, col) {
                cols.push(col);
            }
        }
        proof {
            assert(tiled@.take(j + 1 as int).drop_last() =~= tiled@.take(j as int));
            assert(tiled@.take(j + 1 as int).last() == tiled@[j as int]);
        }
        j = j + 1;
    }
    proof {
        assert(tiled@.take(t_len as int) =~= tiled@);
    }
    if cols.len() == 1 {
        let win_id = tiled[0].id;
        if !snap.is_maximized(win_id) {
            targets.push(win_id);
            proof {
                assert(targets@ =~= seq![win_id]);
            }
        }
    } else {
        let c_len = cols.len();
        let mut k: usize = 0;
        while k < c_len
            invariant
                c_len == cols@.len(),
                k <= c_len,
                c_len != 1,
                targets@ == multi_column_targets(*snap, tiled@, cols@.take(k as int)),
            decreases c_len - k,
        {
            let c = cols[k];
            let rep = find_first_in_column(&tiled, c);
            if let Some(w) = rep {
                if snap.is_maximized(w.id) {
                    targets.push(w.id);
                }
            }
            proof {
                assert(cols@.take(k + 1 as int).drop_last() =~= cols@.take(k as int));
                assert(cols@.take(k + 1 as int).last() == cols@[k as int]);
                assert(targets@ =~= multi_column_targets(*snap, tiled@, cols@.take(k + 1 as int)));
            }
            k = k + 1;
        }
        proof {
            assert(cols@.take(c_len as int) =~= cols@);
        }
    }
    targets
}

} // verus!
