//! The snapshot model: a point-in-time read of all windows, output widths
//! by name, and workspace-to-output assignments, plus the maximized test.

use vstd::prelude::*;
use crate::model::WindowInfo;

verus! {

/// A point-in-time view of the compositor used for one evaluation pass.
pub struct Snapshot {
    /// All windows, in the order the compositor listed them.
    pub windows: Vec<WindowInfo>,
    /// Output name -> logical width in pixels; only positive widths are kept.
    pub output_widths: Vec<(String, u32)>,
    /// Workspace id -> owning output name, for workspaces that have one.
    pub ws_outputs: Vec<(u64, String)>,
}

/// The width recorded for output `name`; a later entry wins.
pub open spec fn lookup_width(s: Seq<(String, u32)>, name: Seq<char>) -> Option<u32>
    decreases s.len(),
{
    if s.len() == 0 {
        None
    } else if s.last().0@ == name {
        Some(s.last().1)
    } else {
        lookup_width(s.drop_last(), name)
    }
}

/// The output recorded for workspace `ws`; a later entry wins.
pub open spec fn lookup_ws_output(s: Seq<(u64, String)>, ws: u64) -> Option<Seq<char>>
    decreases s.len(),
{
    if s.len() == 0 {
        None
    } else if s.last().0 == ws {
        Some(s.last().1@)
    } else {
        lookup_ws_output(s.drop_last(), ws)
    }
}

/// The last window listed with id `id`, mirroring an id-keyed mapping
/// built by insertion.
pub open spec fn lookup_window(s: Seq<WindowInfo>, id: u64) -> Option<WindowInfo>
    decreases s.len(),
{
    if s.len() == 0 {
        None
    } else if s.last().id == id {
        Some(s.last())
    } else {
        lookup_window(s.drop_last(), id)
    }
}

/// The output-width entries kept from a raw output listing: only outputs
/// with a logical width, and only positive widths.
pub open spec fn kept_widths(s: Seq<(String, Option<u32>)>) -> Seq<(String, u32)>
    decreases s.len(),
{
    if s.len() == 0 {
        Seq::empty()
    } else {
        kept_widths(s.drop_last()) + if s.last().1 is Some && s.last().1->0 > 0 {
            seq![(s.last().0, s.last().1->0)]
        } else {
            Seq::empty()
        }
    }
}

/// The workspace-to-output entries kept from a raw workspace listing:
/// only workspaces that have an owning output.
pub open spec fn kept_ws_outputs(s: Seq<(u64, Option<String>)>) -> Seq<(u64, String)>
    decreases s.len(),
{
    if s.len() == 0 {
        Seq::empty()
    } else {
        kept_ws_outputs(s.drop_last()) + if s.last().1 is Some {
            seq![(s.last().0, s.last().1->0)]
        } else {
            Seq::empty()
        }
    }
}

/// Whether window `id` counts as maximized under snapshot `snap`: its
/// window, workspace, output and width must all resolve, the width must be
/// positive, and the tile width must exceed nine tenths of it.
pub open spec fn spec_is_maximized(snap: Snapshot, id: u64) -> bool {
    match lookup_window(snap.windows@, id) {
        None => false,
        Some(w) => match w.workspace_id {
            None => false,
            Some(ws) => match lookup_ws_output(snap.ws_outputs@, ws) {
                None => false,
                Some(name) => match lookup_width(snap.output_widths@, name) {
                    None => false,
                    Some(width) => width > 0 && 10 * (w.tile_width as int) > 9 * (width as int),
                },
            },
        },
    }
}

impl Snapshot {
    /// Assemble a snapshot from the three raw listings, dropping outputs
    /// without a positive logical width and workspaces without an output.
    pub fn build(
        windows: Vec<WindowInfo>,
        outputs: Vec<(String, Option<u32>)>,
        workspaces: Vec<(u64, Option<String>)>,
    ) -> (s: Snapshot)
        ensures
            s.windows@ == windows@,
            s.output_widths@ == kept_widths(outputs@),
            s.ws_outputs@ == kept_ws_outputs(workspaces@),
    {
        let mut output_widths: Vec<(String, u32)> = Vec::new();
        let n = outputs.len();
        let mut i: usize = 0;
        while i < n
            invariant
                n == outputs@.len(),
                i <= n,
                output_widths@ == kept_widths(outputs@.take(i as int)),
            decreases n - i,
        {
            let entry = &outputs[i];
            if let Some(width) = entry.1 {
                if width > 0 {
                    output_widths.push((entry.0.clone(), width));
                }
            }
            proof {
                assert(outputs@.take(i + 1 as int).drop_last() =~= outputs@.take(i as int));
                assert(outputs@.take(i + 1 as int).last() == outputs@[i as int]);
                assert(output_widths@ =~= kept_widths(outputs@.take(i + 1 as int)));
            }
            i = i + 1;
        }
        let mut ws_outputs: Vec<(u64, String)> = Vec::new();
        let m = workspaces.len();
        let mut j: usize = 0;
        while j < m
            invariant
                m == workspaces@.len(),
                j <= m,
                ws_outputs@ == kept_ws_outputs(workspaces@.take(j as int)),
            decreases m - j,
        {
            let entry = &workspaces[j];
            if let Some(name) = &entry.1 {
                ws_outputs.push((entry.0, name.clone()));
            }
            proof {
                assert(workspaces@.take(j + 1 as int).drop_last() =~= workspaces@.take(j as int));
                assert(workspaces@.take(j + 1 as int).last() == workspaces@[j as int]);
                assert(ws_outputs@ =~= kept_ws_outputs(workspaces@.take(j + 1 as int)));
            }
            j = j + 1;
        }
        proof {
            assert(outputs@.take(n as int) =~= outputs@);
            assert(workspaces@.take(m as int) =~= workspaces@);
        }
        Snapshot { windows, output_widths, ws_outputs }
    }

    /// The last window listed with id `id`, if any.
    pub fn window_by_id(&self, id: u64) -> (r: Option<WindowInfo>)
        ensures
            r == lookup_window(self.windows@, id),
    {
        let n = self.windows.len();
        proof {
            assert(self.windows@.take(n as int) =~= self.windows@);
        }
        let mut i: usize = n;
        while i > 0
            invariant
                n == self.windows@.len(),
                i <= n,
                lookup_window(self.windows@, id) == lookup_window(
                    self.windows@.take(i as int),
                    id,
                ),
            decreases i,
        {
            i = i - 1;
            proof {
                assert(self.windows@.take(i + 1 as int).drop_last() =~= self.windows@.take(
                    i as int,
                ));
                assert(self.windows@.take(i + 1 as int).last() == self.windows@[i as int]);
            }
            if self.windows[i].id == id {
                return Some(self.windows[i]);
            }
        }
        proof {
            assert(self.windows@.take(0) =~= Seq::<WindowInfo>::empty());
        }
        None
    }

    /// The owning output recorded for workspace `ws`, if any.
    pub fn workspace_output(&self, ws: u64) -> (r: Option<String>)
        ensures
            r is Some <==> lookup_ws_output(self.ws_outputs@, ws) is Some,
            r is Some ==> r->0@ == lookup_ws_output(self.ws_outputs@, ws)->0,
    {
        let n = self.ws_outputs.len();
        proof {
            assert(self.ws_outputs@.take(n as int) =~= self.ws_outputs@);
        }
        let mut i: usize = n;
        while i > 0
            invariant
                n == self.ws_outputs@.len(),
                i <= n,
                lookup_ws_output(self.ws_outputs@, ws) == lookup_ws_output(
                    self.ws_outputs@.take(i as int),
                    ws,
                ),
            decreases i,
        {
            i = i - 1;
            proof {
                assert(self.ws_outputs@.take(i + 1 as int).drop_last() =~= self.ws_outputs@.take(
                    i as int,
                ));
                assert(self.ws_outputs@.take(i + 1 as int).last() == self.ws_outputs@[i as int]);
            }
            if self.ws_outputs[i].0 == ws {
                return Some(self.ws_outputs[i].1.clone());
            }
        }
        proof {
            assert(self.ws_outputs@.take(0) =~= Seq::<(u64, String)>::empty());
        }
        None
    }

    /// The logical width recorded for output `name`, if any.
    pub fn output_width(&self, name: &String) -> (r: Option<u32>)
        ensures
            r == lookup_width(self.output_widths@, name@),
    {
        let n = self.output_widths.len();
        proof {
            assert(self.output_widths@.take(n as int) =~= self.output_widths@);
        }
        let mut i: usize = n;
        while i > 0
            invariant
                n == self.output_widths@.len(),
                i <= n,
                lookup_width(self.output_widths@, name@) == lookup_width(
                    self.output_widths@.take(i as int),
                    name@,
                ),
            decreases i,
        {
            i = i - 1;
            proof {
                assert(self.output_widths@.take(i + 1 as int).drop_last()
                    =~= self.output_widths@.take(i as int));
                assert(self.output_widths@.take(i + 1 as int).last() == self.output_widths@[i as int]);
            }
            if self.output_widths[i].0 == *name {
                return Some(self.output_widths[i].1);
            }
        }
        proof {
            assert(self.output_widths@.take(0) =~= Seq::<(String, u32)>::empty());
        }
        None
    }

    /// The maximized test: look up the window, its workspace, the
    /// workspace's output, and the output's width; any failed lookup or a
    /// zero width means not maximized; otherwise the tile width must
    /// exceed nine tenths of the output width.
    pub fn is_maximized(&self, window_id: u64) -> (r: bool)
        ensures
            r == spec_is_maximized(*self, window_id),
    {
        let w = match self.window_by_id(window_id) {
            Some(w) => w,
            None => {
                return false;
            },
        };
        let ws = match w.workspace_id {
            Some(ws) => ws,
            None => {
                return false;
            },
        };
        let name = match self.workspace_output(ws) {
            Some(name) => name,
            None => {
                return false;
            },
        };
        let width = match self.output_width(&name) {
            Some(width) => width,
            None => {
                return false;
            },
        };
        if width == 0 {
            return false;
        }
        (w.tile_width as u64) * 10 > (width as u64) * 9
    }
}

/// The maximized test is false whenever the window, its workspace, the
/// workspace's output, or the output's width cannot be resolved, or the
/// recorded width is zero — regardless of the tile width.
pub proof fn lemma_not_maximized_without_geometry(snap: Snapshot, id: u64)
    ensures
        lookup_window(snap.windows@, id) is None ==> !spec_is_maximized(snap, id),
        (lookup_window(snap.windows@, id) matches Some(w) && w.workspace_id is None)
            ==> !spec_is_maximized(snap, id),
        (lookup_window(snap.windows@, id) matches Some(w) && w.workspace_id matches Some(ws)
            && lookup_ws_output(snap.ws_outputs@, ws) is None) ==> !spec_is_maximized(snap, id),
        (lookup_window(snap.windows@, id) matches Some(w) && w.workspace_id matches Some(ws)
            && lookup_ws_output(snap.ws_outputs@, ws) matches Some(name) && lookup_width(
            snap.output_widths@,
            name,
        ) is None) ==> !spec_is_maximized(snap, id),
        (lookup_window(snap.windows@, id) matches Some(w) && w.workspace_id matches Some(ws)
            && lookup_ws_output(snap.ws_outputs@, ws) matches Some(name) && lookup_width(
            snap.output_widths@,
            name,
        ) == Some(0u32)) ==> !spec_is_maximized(snap, id),
{
}

} // verus!
