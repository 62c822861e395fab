//! The tracked-window index: the engine's persistent memory of which
//! windows are tiled and where.

use vstd::prelude::*;
use vstd::map::*;
use crate::model::WindowInfo;
use crate::model::WindowPosition;

verus! {

/// One compositor event, reduced to the plain values the engine reads.
/// Every event kind the engine ignores is `Ignored`.
pub enum Event {
    /// Full windows snapshot: replaces the whole index.
    WindowsChanged { windows: Vec<WindowInfo> },
    /// A single window opened or changed.
    WindowOpenedOrChanged { window: WindowInfo },
    /// Layout-only changes: window id and its new (column, tile), if placed.
    WindowLayoutsChanged { changes: Vec<(u64, Option<(usize, usize)>)> },
    /// A window closed.
    WindowClosed { id: u64 },
    /// Any other event kind.
    Ignored,
}

/// Whether `s` holds some entry with key `k`.
pub open spec fn has_key(s: Seq<(u64, WindowPosition)>, k: u64) -> bool {
    exists|i: int| 0 <= i < s.len() && (#[trigger] s[i]).0 == k
}

/// Some index at which `s` holds key `k` (unique when keys are distinct).
pub open spec fn index_of(s: Seq<(u64, WindowPosition)>, k: u64) -> int {
    choose|i: int| 0 <= i < s.len() && (#[trigger] s[i]).0 == k
}

/// Keys of `s` are pairwise distinct.
pub open spec fn distinct_keys(s: Seq<(u64, WindowPosition)>) -> bool {
    forall|i: int, j: int|
        0 <= i < j < s.len() ==> (#[trigger] s[i]).0 != (#[trigger] s[j]).0
}

/// The mapping an entry sequence denotes.
pub open spec fn entries_map(s: Seq<(u64, WindowPosition)>) -> Map<u64, WindowPosition> {
    Map::new(|k: u64| has_key(s, k), |k: u64| s[index_of(s, k)].1)
}

/// The tracked-window index: window id -> last-known placement.
/// A window is present iff it was last observed tiled, assigned to a
/// workspace, and positioned in the scrolling layout.
pub struct Tracker {
    entries: Vec<(u64, WindowPosition)>,
}

impl View for Tracker {
    type V = Map<u64, WindowPosition>;

    closed spec fn view(&self) -> Map<u64, WindowPosition> {
        entries_map(self.entries@)
    }
}

impl Tracker {
    /// Internal well-formedness: no window id occurs twice.
    pub closed spec fn wf(&self) -> bool {
        distinct_keys(self.entries@)
    }

    proof fn lemma_entry_in_map(s: Seq<(u64, WindowPosition)>, i: int)
        requires
            distinct_keys(s),
            0 <= i < s.len(),
        ensures
            entries_map(s).contains_key(s[i].0),
            entries_map(s)[s[i].0] == s[i].1,
    {
        assert(has_key(s, s[i].0));
        let j = index_of(s, s[i].0);
        assert(0 <= j < s.len() && s[j].0 == s[i].0);
        if i != j {
            assert(false);
        }
    }

    /// An empty index.
    pub fn new() -> (t: Tracker)
        ensures
            t.wf(),
            t@ == Map::<u64, WindowPosition>::empty(),
    {
        let t = Tracker { entries: Vec::new() };
        proof {
            assert_maps_equal!(entries_map(t.entries@), Map::<u64, WindowPosition>::empty());
        }
        t
    }

    /// Index of the first entry for `id`, if any.
    fn find(&self, id: u64) -> (r: Option<usize>)
        ensures
            match r {
                Some(i) => i < self.entries@.len() && self.entries@[i as int].0 == id,
                None => !has_key(self.entries@, id),
            },
    {
        let n = self.entries.len();
        let mut i: usize = 0;
        while i < n
            invariant
                n == self.entries@.len(),
                i <= n,
                forall|j: int| 0 <= j < i ==> (#[trigger] self.entries@[j]).0 != id,
            decreases n - i,
        {
            if self.entries[i].0 == id {
                return Some(i);
            }
            i = i + 1;
        }
        None
    }

    /// The placement tracked for `id`, if any.
    pub fn get(&self, id: u64) -> (r: Option<WindowPosition>)
        requires
            self.wf(),
        ensures
            r == if self@.contains_key(id) {
                Some(self@[id])
            } else {
                None::<WindowPosition>
            },
    {
        match self.find(id) {
            Some(i) => {
                proof {
                    Self::lemma_entry_in_map(self.entries@, i as int);
                }
                Some(self.entries[i].1)
            },
            None => None,
        }
    }

    /// Insert or overwrite the placement tracked for `id`.
    fn insert(&mut self, id: u64, pos: WindowPosition)
        requires
            old(self).wf(),
        ensures
            final(self).wf(),
            final(self)@ == old(self)@.insert(id, pos),
    {
        let found = self.find(id);
        match found {
            Some(i) => {
                let ghost s0 = self.entries@;
                self.entries.remove(i);
                proof {
                    lemma_remove_key(s0, i as int);
                }
            },
            None => {},
        }
        let ghost s1 = self.entries@;
        self.entries.push((id, pos));
        proof {
            lemma_push_key(s1, id, pos);
            assert_maps_equal!(entries_map(self.entries@), old(self)@.insert(id, pos));
        }
    }

    /// Remove the entry for `id`, returning the placement it held.
    fn remove(&mut self, id: u64) -> (r: Option<WindowPosition>)
        requires
            old(self).wf(),
        ensures
            final(self).wf(),
            final(self)@ == old(self)@.remove(id),
            r == if old(self)@.contains_key(id) {
                Some(old(self)@[id])
            } else {
                None::<WindowPosition>
            },
    {
        let found = self.find(id);
        match found {
            Some(i) => {
                proof {
                    Self::lemma_entry_in_map(self.entries@, i as int);
                }
                let pos = self.entries[i].1;
                let ghost s0 = self.entries@;
                self.entries.remove(i);
                proof {
                    lemma_remove_key(s0, i as int);
                }
                Some(pos)
            },
            None => {
                proof {
                    assert_maps_equal!(entries_map(self.entries@), old(self)@.remove(id));
                }
                None
            },
        }
    }
}

/// Removing entry `i` of a distinct-keyed sequence removes exactly its key
/// from the denoted map.
proof fn lemma_remove_key(s: Seq<(u64, WindowPosition)>, i: int)
    requires
        distinct_keys(s),
        0 <= i < s.len(),
    ensures
        distinct_keys(s.remove(i)),
        entries_map(s.remove(i)) == entries_map(s).remove(s[i].0),
        !has_key(s.remove(i), s[i].0),
{
    let r = s.remove(i);
    s.remove_ensures(i);
    assert forall|a: int, b: int| 0 <= a < b < r.len() implies (#[trigger] r[a]).0 != (
    #[trigger] r[b]).0 by {
        let oa = if a < i { a } else { a + 1 };
        let ob = if b < i { b } else { b + 1 };
        assert(r[a] == s[oa] && r[b] == s[ob]);
    }
    assert forall|k: u64| has_key(r, k) implies k != s[i].0 && has_key(s, k) by {
        let a = choose|a: int| 0 <= a < r.len() && (#[trigger] r[a]).0 == k;
        let oa = if a < i { a } else { a + 1 };
        assert(r[a] == s[oa]);
        assert(s[oa].0 == k);
        if k == s[i].0 {
            assert(oa != i ==> false);
        }
    }
    assert forall|k: u64| has_key(s, k) && k != s[i].0 implies has_key(r, k) by {
        let oa = choose|oa: int| 0 <= oa < s.len() && (#[trigger] s[oa]).0 == k;
        let a = if oa < i { oa } else { oa - 1 };
        assert(r[a] == s[oa]);
    }
    assert forall|k: u64| has_key(r, k) implies entries_map(r)[k] == entries_map(s)[k] by {
        let a = index_of(r, k);
        assert(0 <= a < r.len() && r[a].0 == k);
        let oa = if a < i { a } else { a + 1 };
        assert(r[a] == s[oa]);
        Tracker::lemma_entry_in_map(s, oa);
        let b = index_of(s, k);
        assert(s[b].0 == k && s[oa].0 == k);
        if b != oa {
            assert(false);
        }
    }
    assert_maps_equal!(entries_map(s.remove(i)), entries_map(s).remove(s[i].0));
}

/// Pushing a fresh key onto an entry sequence inserts it into the map.
proof fn lemma_push_key(s: Seq<(u64, WindowPosition)>, id: u64, pos: WindowPosition)
    requires
        distinct_keys(s),
        !has_key(s, id),
    ensures
        distinct_keys(s.push((id, pos))),
        entries_map(s.push((id, pos))) == entries_map(s).insert(id, pos),
{
    let p = s.push((id, pos));
    assert forall|a: int, b: int| 0 <= a < b < p.len() implies (#[trigger] p[a]).0 != (
    #[trigger] p[b]).0 by {
        if b < s.len() {
            assert(p[a] == s[a] && p[b] == s[b]);
        } else {
            assert(p[b] == (id, pos));
            assert(p[a] == s[a]);
            assert(s[a].0 == id ==> has_key(s, id));
        }
    }
    assert forall|k: u64| has_key(p, k) implies (k == id || has_key(s, k)) by {
        let a = choose|a: int| 0 <= a < p.len() && (#[trigger] p[a]).0 == k;
        if a < s.len() {
            assert(p[a] == s[a]);
        }
    }
    assert(p[s.len() as int] == (id, pos));
    assert(has_key(p, id));
    assert forall|k: u64| has_key(s, k) implies has_key(p, k) by {
        let a = choose|a: int| 0 <= a < s.len() && (#[trigger] s[a]).0 == k;
        assert(p[a] == s[a]);
    }
    assert forall|k: u64| has_key(p, k) implies entries_map(p)[k] == (if k == id {
        pos
    } else {
        entries_map(s)[k]
    }) by {
        let a = index_of(p, k);
        assert(0 <= a < p.len() && p[a].0 == k);
        if k == id {
            if a < s.len() {
                assert(p[a] == s[a]);
                assert(has_key(s, id));
            }
            assert(p[a].1 == pos);
        } else {
            assert(a < s.len());
            assert(p[a] == s[a]);
            Tracker::lemma_entry_in_map(s, a);
            let b = index_of(s, k);
            if b != a {
                assert(false);
            }
        }
    }
    assert_maps_equal!(entries_map(s.push((id, pos))), entries_map(s).insert(id, pos));
}

/// The index a full windows snapshot denotes: every tiled window with a
/// workspace and a layout position, keyed by id (later duplicates win).
pub open spec fn snapshot_index(ws: Seq<WindowInfo>) -> Map<u64, WindowPosition>
    decreases ws.len(),
{
    if ws.len() == 0 {
        Map::empty()
    } else {
        let m = snapshot_index(ws.drop_last());
        match ws.last().tracked_entry() {
            Some(p) => m.insert(ws.last().id, p),
            None => m,
        }
    }
}

/// Entry `e` is absent from `m` or tracked there with another placement.
pub open spec fn entry_changed(m: Map<u64, WindowPosition>, e: (u64, WindowPosition)) -> bool {
    !(m.contains_key(e.0) && m[e.0] == e.1)
}

/// The workspaces affected by replacing index `old_m` with `new_m`: every
/// workspace that lost or gained a tracked window or whose tracked window's
/// placement changed.
pub open spec fn full_affected(
    old_m: Map<u64, WindowPosition>,
    new_m: Map<u64, WindowPosition>,
) -> Set<u64> {
    Set::new(
        |ws: u64|
            (exists|id: u64|
                #[trigger] new_m.contains_key(id) && new_m[id].workspace_id == ws
                    && entry_changed(old_m, (id, new_m[id]))) || (exists|id: u64|
                #[trigger] old_m.contains_key(id) && old_m[id].workspace_id == ws
                    && entry_changed(new_m, (id, old_m[id]))),
    )
}

/// The index after one opened-or-changed event for window `w`.
pub open spec fn opened_index(m: Map<u64, WindowPosition>, w: WindowInfo) -> Map<
    u64,
    WindowPosition,
> {
    if w.is_floating {
        m.remove(w.id)
    } else {
        match w.tracked_entry() {
            Some(p) => m.insert(w.id, p),
            None => m,
        }
    }
}

/// The workspaces affected by one opened-or-changed event for window `w`.
pub open spec fn opened_affected(m: Map<u64, WindowPosition>, w: WindowInfo) -> Set<u64> {
    if w.is_floating {
        if m.contains_key(w.id) {
            set![m[w.id].workspace_id]
        } else {
            Set::empty()
        }
    } else {
        match w.tracked_entry() {
            Some(p) => {
                if m.contains_key(w.id) && m[w.id] == p {
                    Set::empty()
                } else {
                    if m.contains_key(w.id) && m[w.id].workspace_id != p.workspace_id {
                        set![p.workspace_id].insert(m[w.id].workspace_id)
                    } else {
                        set![p.workspace_id]
                    }
                }
            },
            None => Set::empty(),
        }
    }
}

/// One layout change applied to the index: a tracked window with a new
/// (column, tile) keeps its workspace and takes the new slot.
pub open spec fn layout_step_index(
    m: Map<u64, WindowPosition>,
    ch: (u64, Option<(usize, usize)>),
) -> Map<u64, WindowPosition> {
    if m.contains_key(ch.0) && ch.1 is Some && ((m[ch.0].column != (ch.1->0).0) || (m[ch.0].tile
        != (ch.1->0).1)) {
        m.insert(
            ch.0,
            WindowPosition {
                workspace_id: m[ch.0].workspace_id,
                column: (ch.1->0).0,
                tile: (ch.1->0).1,
            },
        )
    } else {
        m
    }
}

/// The workspace one layout change affects, if any.
pub open spec fn layout_step_affected(
    m: Map<u64, WindowPosition>,
    ch: (u64, Option<(usize, usize)>),
) -> Set<u64> {
    if m.contains_key(ch.0) && ch.1 is Some && ((m[ch.0].column != (ch.1->0).0) || (m[ch.0].tile
        != (ch.1->0).1)) {
        set![m[ch.0].workspace_id]
    } else {
        Set::empty()
    }
}

/// The index after a batch of layout changes, applied left to right.
pub open spec fn layouts_index(
    m: Map<u64, WindowPosition>,
    chs: Seq<(u64, Option<(usize, usize)>)>,
) -> Map<u64, WindowPosition>
    decreases chs.len(),
{
    if chs.len() == 0 {
        m
    } else {
        layout_step_index(layouts_index(m, chs.drop_last()), chs.last())
    }
}

/// The workspaces a batch of layout changes affects.
pub open spec fn layouts_affected(
    m: Map<u64, WindowPosition>,
    chs: Seq<(u64, Option<(usize, usize)>)>,
) -> Set<u64>
    decreases chs.len(),
{
    if chs.len() == 0 {
        Set::empty()
    } else {
        layouts_affected(m, chs.drop_last()).union(
            layout_step_affected(layouts_index(m, chs.drop_last()), chs.last()),
        )
    }
}

/// The workspace a window-closed event affects, if the window was tracked.
pub open spec fn closed_affected(m: Map<u64, WindowPosition>, id: u64) -> Set<u64> {
    if m.contains_key(id) {
        set![m[id].workspace_id]
    } else {
        Set::empty()
    }
}

/// The index after reducing one event against index `m`.
pub open spec fn reduce_index(m: Map<u64, WindowPosition>, ev: Event) -> Map<
    u64,
    WindowPosition,
> {
    match ev {
        Event::WindowsChanged { windows } => snapshot_index(windows@),
        Event::WindowOpenedOrChanged { window } => opened_index(m, window),
        Event::WindowLayoutsChanged { changes } => layouts_index(m, changes@),
        Event::WindowClosed { id } => m.remove(id),
        Event::Ignored => m,
    }
}

/// The workspaces affected by reducing one event against index `m`.
pub open spec fn reduce_affected(m: Map<u64, WindowPosition>, ev: Event) -> Set<u64> {
    match ev {
        Event::WindowsChanged { windows } => full_affected(m, snapshot_index(windows@)),
        Event::WindowOpenedOrChanged { window } => opened_affected(m, window),
        Event::WindowLayoutsChanged { changes } => layouts_affected(m, changes@),
        Event::WindowClosed { id } => closed_affected(m, id),
        Event::Ignored => Set::empty(),
    }
}

/// After reducing a full windows snapshot, the index contains exactly the
/// windows of that snapshot that are tiled, assigned to a workspace, and
/// placed in the scrolling layout — keyed by id, with the entry of a later
/// duplicate winning.
pub proof fn lemma_snapshot_index_tracks_exactly(windows: Seq<WindowInfo>, id: u64)
    ensures
        snapshot_index(windows).contains_key(id) <==> (exists|i: int|
            0 <= i < windows.len() && (#[trigger] windows[i]).id == id
                && windows[i].tracked_entry() is Some),
        snapshot_index(windows).contains_key(id) ==> (exists|i: int|
            0 <= i < windows.len() && (#[trigger] windows[i]).id == id
                && windows[i].tracked_entry() == Some(snapshot_index(windows)[id])),
    decreases windows.len(),
{
    if windows.len() > 0 {
        let d = windows.drop_last();
        let w = windows.last();
        let n = windows.len();
        lemma_snapshot_index_tracks_exactly(d, id);
        assert(forall|i: int| 0 <= i < d.len() ==> #[trigger] d[i] == windows[i]);
        assert(windows[n - 1] == w);
        if exists|i: int|
            0 <= i < n && (#[trigger] windows[i]).id == id && windows[i].tracked_entry() is Some {
            let i = choose|i: int|
                0 <= i < n && (#[trigger] windows[i]).id == id
                    && windows[i].tracked_entry() is Some;
            if i < n - 1 {
                assert(d[i].id == id && d[i].tracked_entry() is Some);
                assert(snapshot_index(d).contains_key(id));
                assert(snapshot_index(windows).contains_key(id));
            } else {
                assert(w.id == id && w.tracked_entry() is Some);
                assert(snapshot_index(windows).contains_key(id));
            }
        }
        if snapshot_index(windows).contains_key(id) {
            if w.tracked_entry() is Some && w.id == id {
                if snapshot_index(windows)[id] == w.tracked_entry()->0 {
                    assert(windows[n - 1].id == id && windows[n - 1].tracked_entry() == Some(
                        snapshot_index(windows)[id],
                    ));
                }
            } else {
                assert(snapshot_index(d).contains_key(id));
                assert(snapshot_index(windows)[id] == snapshot_index(d)[id]);
                let i = choose|i: int|
                    0 <= i < d.len() && (#[trigger] d[i]).id == id && d[i].tracked_entry()
                        == Some(snapshot_index(d)[id]);
                assert(windows[i].id == id && windows[i].tracked_entry() == Some(
                    snapshot_index(windows)[id],
                ));
            }
        }
    }
}

/// Idempotence of the full snapshot: when the index already equals the
/// snapshot's index, reducing that snapshot again affects no workspace.
pub proof fn lemma_full_snapshot_idempotent(m: Map<u64, WindowPosition>, windows: Seq<WindowInfo>)
    requires
        m == snapshot_index(windows),
    ensures
        full_affected(m, snapshot_index(windows)) =~= Set::<u64>::empty(),
{
    assert forall|ws: u64| !full_affected(m, m).contains(ws) by {
        assert(forall|id: u64|
            #[trigger] m.contains_key(id) ==> !entry_changed(m, (id, m[id])));
    }
}

/// Push `x` unless the vector already holds it.
fn push_unique(v: &mut Vec<u64>, x: u64)
    requires
        old(v)@.no_duplicates(),
    ensures
        final(v)@.no_duplicates(),
        forall|y: u64| final(v)@.contains(y) <==> old(v)@.contains(y) || y == x,
{
    let n = v.len();
    let mut i: usize = 0;
    while i < n
        invariant
            v@ == old(v)@,
            old(v)@.no_duplicates(),
            n == v@.len(),
            i <= n,
            forall|j: int| 0 <= j < i ==> v@[j] != x,
        decreases n - i,
    {
        if v[i] == x {
            assert(v@.contains(x));
            return ;
        }
        i = i + 1;
    }
    assert(!v@.contains(x));
    v.push(x);
    assert(v@ == old(v)@.push(x));
    assert forall|y: u64| v@.contains(y) implies old(v)@.contains(y) || y == x by {
        let j = choose|j: int| 0 <= j < v@.len() && v@[j] == y;
        if j < old(v)@.len() {
            assert(old(v)@[j] == y);
        }
    }
    assert forall|y: u64| old(v)@.contains(y) implies v@.contains(y) by {
        let j = choose|j: int| 0 <= j < old(v)@.len() && old(v)@[j] == y;
        assert(v@[j] == y);
    }
    assert(v@[old(v)@.len() as int] == x);
}

/// The empty sequence denotes the empty set.
proof fn lemma_to_set_empty()
    ensures
        Seq::<u64>::empty().to_set() =~= Set::<u64>::empty(),
{
    assert forall|y: u64| !Seq::<u64>::empty().to_set().contains(y) by {}
}

/// A one-element sequence denotes a one-element set.
proof fn lemma_to_set_one(x: u64)
    ensures
        seq![x].to_set() =~= set![x],
{
    let s = seq![x];
    assert(s[0] == x);
    assert(s.contains(x));
    assert forall|y: u64| s.contains(y) implies y == x by {
        let i = choose|i: int| 0 <= i < s.len() && s[i] == y;
        assert(i == 0);
    }
}

/// A two-element sequence denotes a two-element set.
proof fn lemma_to_set_two(x: u64, y: u64)
    ensures
        seq![x, y].to_set() =~= set![x].insert(y),
{
    let s = seq![x, y];
    assert(s[0] == x);
    assert(s[1] == y);
    assert(s.contains(x));
    assert(s.contains(y));
    assert forall|z: u64| s.contains(z) implies z == x || z == y by {
        let i = choose|i: int| 0 <= i < s.len() && s[i] == z;
        assert(i == 0 || i == 1);
    }
}

/// The entries of a distinct-keyed sequence enumerate its map: some entry
/// changed against `m_other` on workspace `ws` iff some key of the map did.
proof fn lemma_exists_entry_iff(
    s: Seq<(u64, WindowPosition)>,
    m_other: Map<u64, WindowPosition>,
    ws: u64,
)
    requires
        distinct_keys(s),
    ensures
        (exists|a: int|
            0 <= a < s.len() && entry_changed(m_other, #[trigger] s[a]) && s[a].1.workspace_id
                == ws) <==> (exists|id: u64|
            #[trigger] entries_map(s).contains_key(id) && entries_map(s)[id].workspace_id == ws
                && entry_changed(m_other, (id, entries_map(s)[id]))),
{
    let m = entries_map(s);
    if exists|a: int|
        0 <= a < s.len() && entry_changed(m_other, #[trigger] s[a]) && s[a].1.workspace_id == ws {
        let a = choose|a: int|
            0 <= a < s.len() && entry_changed(m_other, #[trigger] s[a]) && s[a].1.workspace_id
                == ws;
        Tracker::lemma_entry_in_map(s, a);
        assert(m.contains_key(s[a].0) && m[s[a].0].workspace_id == ws && entry_changed(
            m_other,
            (s[a].0, m[s[a].0]),
        ));
    }
    if exists|id: u64|
        #[trigger] m.contains_key(id) && m[id].workspace_id == ws && entry_changed(
            m_other,
            (id, m[id]),
        ) {
        let id = choose|id: u64|
            #[trigger] m.contains_key(id) && m[id].workspace_id == ws && entry_changed(
                m_other,
                (id, m[id]),
            );
        let a = choose|a: int| 0 <= a < s.len() && (#[trigger] s[a]).0 == id;
        Tracker::lemma_entry_in_map(s, a);
        assert(entry_changed(m_other, s[a]) && s[a].1.workspace_id == ws);
    }
}

impl Tracker {
    /// Rebuild the index from a full windows snapshot; the affected
    /// workspaces are the symmetric difference between old and new index.
    fn reduce_full(&mut self, windows: Vec<WindowInfo>) -> (affected: Vec<u64>)
        requires
            old(self).wf(),
        ensures
            final(self).wf(),
            final(self)@ == snapshot_index(windows@),
            affected@.no_duplicates(),
            affected@.to_set() == full_affected(old(self)@, snapshot_index(windows@)),
    {
        let ghost old_m = self@;
        let mut new_index = Tracker::new();
        let n = windows.len();
        let mut i: usize = 0;
        while i < n
            invariant
                n == windows@.len(),
                i <= n,
                new_index.wf(),
                new_index@ == snapshot_index(windows@.take(i as int)),
            decreases n - i,
        {
            let w = windows[i];
            if !w.is_floating {
                if let Some(ws_id) = w.workspace_id {
                    if let Some((col, tile)) = w.pos_in_scrolling_layout {
                        new_index.insert(
                            w.id,
                            WindowPosition { workspace_id: ws_id, column: col, tile: tile },
                        );
                    }
                }
            }
            proof {
                assert(windows@.take(i + 1 as int).drop_last() =~= windows@.take(i as int));
                assert(windows@.take(i + 1 as int).last() == windows@[i as int]);
            }
            i = i + 1;
        }
        proof {
            assert(windows@.take(n as int) =~= windows@);
        }
        let ghost new_m = new_index@;
        let ghost ne = new_index.entries@;
        let ghost oe = self.entries@;

        let mut affected: Vec<u64> = Vec::new();
        let n1 = new_index.entries.len();
        let mut j: usize = 0;
        while j < n1
            invariant
                n1 == ne.len(),
                j <= n1,
                self == old(self),
                self.wf(),
                new_index.wf(),
                ne == new_index.entries@,
                new_m == entries_map(ne),
                old_m == self@,
                affected@.no_duplicates(),
                forall|ws: u64|
                    affected@.contains(ws) <==> exists|a: int|
                        0 <= a < j && entry_changed(old_m, #[trigger] ne[a])
                            && ne[a].1.workspace_id == ws,
            decreases n1 - j,
        {
            let (id, pos) = new_index.entries[j];
            let prior = self.get(id);
            let differs = match prior {
                Some(p) => p != pos,
                None => true,
            };
            if differs {
                push_unique(&mut affected, pos.workspace_id);
            }
            proof {
                assert(ne[j as int] == (id, pos));
                assert(entry_changed(old_m, ne[j as int]) == differs);
            }
            j = j + 1;
        }
        let n2 = self.entries.len();
        let mut k: usize = 0;
        while k < n2
            invariant
                n2 == oe.len(),
                k <= n2,
                self == old(self),
                self.wf(),
                new_index.wf(),
                ne == new_index.entries@,
                oe == self.entries@,
                new_m == entries_map(ne),
                old_m == self@,
                affected@.no_duplicates(),
                forall|ws: u64|
                    affected@.contains(ws) <==> (exists|a: int|
                        0 <= a < ne.len() && entry_changed(old_m, #[trigger] ne[a])
                            && ne[a].1.workspace_id == ws) || (exists|b: int|
                        0 <= b < k && entry_changed(new_m, #[trigger] oe[b])
                            && oe[b].1.workspace_id == ws),
            decreases n2 - k,
        {
            let (id, pos) = self.entries[k];
            let cur = new_index.get(id);
            let differs = match cur {
                Some(p) => p != pos,
                None => true,
            };
            if differs {
                push_unique(&mut affected, pos.workspace_id);
            }
            proof {
                assert(oe[k as int] == (id, pos));
                assert(entry_changed(new_m, oe[k as int]) == differs);
            }
            k = k + 1;
        }
        self.entries = new_index.entries;
        proof {
            assert forall|ws: u64|
                affected@.to_set().contains(ws) <==> full_affected(old_m, new_m).contains(ws) by {
                lemma_exists_entry_iff(ne, old_m, ws);
                lemma_exists_entry_iff(oe, new_m, ws);
                assert(entries_map(oe) == old_m);
            }
            assert(affected@.to_set() =~= full_affected(old_m, new_m));
        }
        affected
    }

    /// Reduce one opened-or-changed event: a window that became floating
    /// leaves the index; a tiled, placed window is upserted; the new and
    /// (when it moved) the old workspace are affected.
    fn reduce_opened(&mut self, w: WindowInfo) -> (affected: Vec<u64>)
        requires
            old(self).wf(),
        ensures
            final(self).wf(),
            final(self)@ == opened_index(old(self)@, w),
            affected@.no_duplicates(),
            affected@.to_set() == opened_affected(old(self)@, w),
    {
        let ghost old_m = self@;
        let mut affected: Vec<u64> = Vec::new();
        if w.is_floating {
            let removed = self.remove(w.id);
            if let Some(p) = removed {
                affected.push(p.workspace_id);
                proof {
                    assert(affected@ =~= seq![p.workspace_id]);
                    lemma_to_set_one(p.workspace_id);
                    assert(affected@.to_set() =~= opened_affected(old_m, w));
                }
            } else {
                proof {
                    lemma_to_set_empty();
                    assert(affected@ =~= Seq::<u64>::empty());
                    assert(affected@.to_set() =~= opened_affected(old_m, w));
                }
            }
        } else {
            match (w.workspace_id, w.pos_in_scrolling_layout) {
                (Some(ws_id), Some((col, tile))) => {
                    let new_pos = WindowPosition { workspace_id: ws_id, column: col, tile: tile };
                    proof {
                        assert(w.tracked_entry() == Some(new_pos));
                    }
                    let old_pos = self.get(w.id);
                    let differs = match old_pos {
                        Some(p) => p != new_pos,
                        None => true,
                    };
                    if differs {
                        self.insert(w.id, new_pos);
                        affected.push(ws_id);
                        let mut moved = false;
                        if let Some(p) = old_pos {
                            if p.workspace_id != ws_id {
                                affected.push(p.workspace_id);
                                moved = true;
                                proof {
                                    assert(affected@ =~= seq![ws_id, p.workspace_id]);
                                    lemma_to_set_two(ws_id, p.workspace_id);
                                }
                            }
                        }
                        proof {
                            if !moved {
                                assert(affected@ =~= seq![ws_id]);
                                lemma_to_set_one(ws_id);
                            }
                            assert(affected@.to_set() =~= opened_affected(old_m, w));
                        }
                    } else {
                        proof {
                            assert(old_m.insert(w.id, new_pos) =~= old_m);
                            lemma_to_set_empty();
                            assert(affected@ =~= Seq::<u64>::empty());
                            assert(affected@.to_set() =~= opened_affected(old_m, w));
                        }
                    }
                },
                _ => {
                    proof {
                        assert(w.tracked_entry() is None);
                        lemma_to_set_empty();
                        assert(affected@ =~= Seq::<u64>::empty());
                        assert(affected@.to_set() =~= opened_affected(old_m, w));
                    }
                },
            }
        }
        affected
    }

    /// Reduce a batch of layout-only changes: each tracked window whose
    /// (column, tile) slot changed keeps its workspace, takes the new slot,
    /// and marks its workspace affected.
    fn reduce_layouts(&mut self, changes: Vec<(u64, Option<(usize, usize)>)>) -> (affected: Vec<
        u64,
    >)
        requires
            old(self).wf(),
        ensures
            final(self).wf(),
            final(self)@ == layouts_index(old(self)@, changes@),
            affected@.no_duplicates(),
            affected@.to_set() == layouts_affected(old(self)@, changes@),
    {
        let ghost old_m = self@;
        let mut affected: Vec<u64> = Vec::new();
        let n = changes.len();
        let mut i: usize = 0;
        while i < n
            invariant
                n == changes@.len(),
                i <= n,
                self.wf(),
                self@ == layouts_index(old_m, changes@.take(i as int)),
                affected@.no_duplicates(),
                forall|ws: u64|
                    affected@.contains(ws) <==> layouts_affected(
                        old_m,
                        changes@.take(i as int),
                    ).contains(ws),
            decreases n - i,
        {
            let ghost m_before = self@;
            let (id, pos_opt) = changes[i];
            if let Some((col, tile)) = pos_opt {
                let cur = self.get(id);
                if let Some(p) = cur {
                    if p.column != col || p.tile != tile {
                        self.insert(
                            id,
                            WindowPosition { workspace_id: p.workspace_id, column: col, tile: tile },
                        );
                        push_unique(&mut affected, p.workspace_id);
                    }
                }
            }
            proof {
                assert(changes@.take(i + 1 as int).drop_last() =~= changes@.take(i as int));
                assert(changes@.take(i + 1 as int).last() == changes@[i as int]);
                assert(self@ == layout_step_index(m_before, changes@[i as int]));
                assert forall|ws: u64|
                    affected@.contains(ws) <==> layouts_affected(
                        old_m,
                        changes@.take(i + 1 as int),
                    ).contains(ws) by {}
            }
            i = i + 1;
        }
        proof {
            assert(changes@.take(n as int) =~= changes@);
            assert(affected@.to_set() =~= layouts_affected(old_m, changes@));
        }
        affected
    }

    /// Reduce one event against the index and return the deduplicated list
    /// of workspaces whose tiling state may have changed.
    pub fn reduce(&mut self, event: Event) -> (affected: Vec<u64>)
        requires
            old(self).wf(),
        ensures
            final(self).wf(),
            final(self)@ == reduce_index(old(self)@, event),
            affected@.no_duplicates(),
            affected@.to_set() == reduce_affected(old(self)@, event),
    {
        let ghost old_m = self@;
        match event {
            Event::WindowsChanged { windows } => self.reduce_full(windows),
            Event::WindowOpenedOrChanged { window } => self.reduce_opened(window),
            Event::WindowLayoutsChanged { changes } => self.reduce_layouts(changes),
            Event::WindowClosed { id } => {
                let removed = self.remove(id);
                let mut affected: Vec<u64> = Vec::new();
                if let Some(p) = removed {
                    affected.push(p.workspace_id);
                    proof {
                        assert(affected@ =~= seq![p.workspace_id]);
                        lemma_to_set_one(p.workspace_id);
                    }
                } else {
                    proof {
                        lemma_to_set_empty();
                        assert(affected@ =~= Seq::<u64>::empty());
                    }
                }
                proof {
                    assert(affected@.to_set() =~= closed_affected(old_m, id));
                }
                affected
            },
            Event::Ignored => {
                let affected: Vec<u64> = Vec::new();
                proof {
                    lemma_to_set_empty();
                    assert(affected@ =~= Seq::<u64>::empty());
                    assert(affected@.to_set() =~= Set::<u64>::empty());
                }
                affected
            },
        }
    }
}

} // verus!
