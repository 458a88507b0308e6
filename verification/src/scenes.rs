//! The scene catalog: an ordered partition of the source's frames into
//! scenes with stable indices, built from a detector's scene-change list;
//! the longest-first ordering the work queue uses; and the splitter's plan
//! for turning one sequential read of the source into per-scene clips.

use vstd::prelude::*;

verus! {

broadcast use vstd::seq_lib::group_to_multiset_ensures;

/// One contiguous run of frames, identified by a stable index.
#[derive(Copy, Clone, Debug)]
pub struct Scene {
    index: usize,
    start_frame: usize,
    end_frame: usize,
}

impl Scene {
    /// A scene covers at least one frame, and its frame numbers leave room
    /// to count its length.
    pub open spec fn wf(self) -> bool {
        self.spec_start() <= self.spec_end() < usize::MAX as int
    }

    pub closed spec fn spec_index(self) -> int {
        self.index as int
    }

    pub closed spec fn spec_start(self) -> int {
        self.start_frame as int
    }

    pub closed spec fn spec_end(self) -> int {
        self.end_frame as int
    }

    /// How many frames the scene covers.
    pub open spec fn spec_length(self) -> int {
        self.spec_end() - self.spec_start() + 1
    }

    /// Builds a scene record.
    pub fn new(index: usize, start_frame: usize, end_frame: usize) -> (r: Self)
        requires
            start_frame <= end_frame < usize::MAX,
        ensures
            r.wf(),
            r.spec_index() == index,
            r.spec_start() == start_frame,
            r.spec_end() == end_frame,
    {
        Scene { index, start_frame, end_frame }
    }

    /// The stable index: the persistence key of everything per-scene.
    pub fn index(&self) -> (r: usize)
        ensures
            r == self.spec_index(),
    {
        self.index
    }

    /// The number of frames in the scene.
    pub fn length(&self) -> (r: usize)
        requires
            self.wf(),
        ensures
            r == self.spec_length(),
    {
        self.end_frame - self.start_frame + 1
    }

    /// The first frame of the scene.
    pub fn start_frame(&self) -> (r: usize)
        ensures
            r == self.spec_start(),
    {
        self.start_frame
    }

    /// The last frame of the scene.
    pub fn end_frame(&self) -> (r: usize)
        ensures
            r == self.spec_end(),
    {
        self.end_frame
    }
}

/// The catalog invariant: scenes partition `[0, frame_count)` in order.
/// The first scene starts at frame zero, each next scene starts right after
/// its predecessor ends, the last scene ends at the last frame, and indices
/// count up from zero.
pub open spec fn is_scene_partition(scenes: Seq<Scene>, frame_count: int) -> bool {
    &&& scenes.len() > 0
    &&& scenes[0].spec_start() == 0
    &&& scenes.last().spec_end() == frame_count - 1
    &&& forall|i: int| 0 <= i < scenes.len() ==> (#[trigger] scenes[i]).wf()
    &&& forall|i: int| 0 <= i < scenes.len() ==> (#[trigger] scenes[i]).spec_index() == i
    &&& forall|i: int|
        1 <= i < scenes.len() ==> (#[trigger] scenes[i]).spec_start() == scenes[i - 1].spec_end()
            + 1
}

/// Pairs up a detector's scene-change list into the scene catalog: scene `i`
/// runs from change `i` to just before change `i + 1`, and the last scene to
/// the end of the source.
pub fn scenes_from_changes(changes: &Vec<usize>, frame_count: usize) -> (r: Vec<Scene>)
    requires
        frame_count >= 1,
        changes@.len() >= 1,
        changes@[0] == 0,
        forall|i: int, j: int| 0 <= i < j < changes@.len() ==> changes@[i] < changes@[j],
        changes@.last() < frame_count,
    ensures
        r@.len() == changes@.len(),
        forall|i: int| 0 <= i < r@.len() ==> (#[trigger] r@[i]).spec_start() == changes@[i],
        forall|i: int|
            0 <= i < r@.len() - 1 ==> (#[trigger] r@[i]).spec_end() == changes@[i + 1] - 1,
        r@.last().spec_end() == frame_count - 1,
        is_scene_partition(r@, frame_count as int),
{
    let n = changes.len();
    let mut r: Vec<Scene> = Vec::new();
    let mut i: usize = 0;
    while i < n
        invariant
            n == changes@.len(),
            frame_count >= 1,
            changes@.len() >= 1,
            changes@[0] == 0,
            forall|a: int, b: int| 0 <= a < b < changes@.len() ==> changes@[a] < changes@[b],
            changes@.last() < frame_count,
            i <= n,
            r@.len() == i,
            forall|k: int| 0 <= k < i ==> (#[trigger] r@[k]).spec_start() == changes@[k],
            forall|k: int|
                0 <= k < i ==> (#[trigger] r@[k]).spec_end() == if k < n - 1 {
                    changes@[k + 1] - 1
                } else {
                    frame_count - 1
                },
            forall|k: int| 0 <= k < i ==> (#[trigger] r@[k]).spec_index() == k,
            forall|k: int| 0 <= k < i ==> (#[trigger] r@[k]).wf(),
        decreases n - i,
    {
        let start = changes[i];
        let end: usize = if i + 1 < n {
            proof {
                assert(changes@[i as int] < changes@[i + 1]);
            }
            changes[i + 1] - 1
        } else {
            proof {
                assert(i == n - 1);
                if i > 0 {
                    assert(changes@[0] < changes@[i as int]);
                }
            }
            frame_count - 1
        };
        proof {
            if i + 1 < n {
                assert(changes@[i as int] < changes@[i + 1]);
            } else {
                assert(changes@[i as int] == changes@.last());
            }
        }
        r.push(Scene::new(i, start, end));
        i += 1;
    }
    r
}

/// Whether the catalog is ordered longest scene first, the order the work
/// queue is loaded in so that long scenes do not trail the run.
pub open spec fn is_longest_first(s: Seq<Scene>) -> bool {
    forall|i: int, j: int|
        0 <= i < j < s.len() ==> (#[trigger] s[i]).spec_length() >= (#[trigger] s[j]).spec_length()
}

/// Reorders the catalog longest scene first, keeping exactly the same
/// scenes. The insertion is stable: where the catalog's positions carry the
/// scene indices (as a fresh catalog's do), scenes of equal length keep
/// their catalog order, so the reordering is the one a stable sort gives.
pub fn sort_scenes_longest_first(scenes: &Vec<Scene>) -> (r: Vec<Scene>)
    requires
        forall|i: int| 0 <= i < scenes@.len() ==> (#[trigger] scenes@[i]).wf(),
    ensures
        r@.to_multiset() == scenes@.to_multiset(),
        r@.len() == scenes@.len(),
        is_longest_first(r@),
        forall|i: int| 0 <= i < r@.len() ==> (#[trigger] r@[i]).wf(),
        (forall|k: int| 0 <= k < scenes@.len() ==> (#[trigger] scenes@[k]).spec_index() == k)
            ==> (forall|a: int, b: int|
            0 <= a < b < r@.len() && (#[trigger] r@[a]).spec_length() == (
            #[trigger] r@[b]).spec_length() ==> r@[a].spec_index() < r@[b].spec_index()),
{
    let ghost indexed = forall|k: int|
        0 <= k < scenes@.len() ==> (#[trigger] scenes@[k]).spec_index() == k;
    let mut r: Vec<Scene> = Vec::new();
    let mut i: usize = 0;
    while i < scenes.len()
        invariant
            forall|k: int| 0 <= k < scenes@.len() ==> (#[trigger] scenes@[k]).wf(),
            indexed == (forall|k: int|
                0 <= k < scenes@.len() ==> (#[trigger] scenes@[k]).spec_index() == k),
            i <= scenes@.len(),
            r@.len() == i,
            r@.to_multiset() == scenes@.take(i as int).to_multiset(),
            is_longest_first(r@),
            forall|k: int| 0 <= k < r@.len() ==> (#[trigger] r@[k]).wf(),
            indexed ==> (forall|k: int|
                0 <= k < r@.len() ==> (#[trigger] r@[k]).spec_index() < i),
            indexed ==> (forall|a: int, b: int|
                0 <= a < b < r@.len() && (#[trigger] r@[a]).spec_length() == (
                #[trigger] r@[b]).spec_length() ==> r@[a].spec_index() < r@[b].spec_index()),
        decreases scenes@.len() - i,
    {
        let x = scenes[i];
        let ghost old_r = r@;
        let mut pos: usize = 0;
        while pos < r.len() && r[pos].length() >= x.length()
            invariant
                forall|k: int| 0 <= k < r@.len() ==> (#[trigger] r@[k]).wf(),
                x.wf(),
                pos <= r@.len(),
                r@ == old_r,
                forall|k: int| 0 <= k < pos ==> (#[trigger] r@[k]).spec_length() >= x.spec_length(),
            decreases r@.len() - pos,
        {
            pos += 1;
        }
        proof {
            assert(scenes@.take(i + 1) =~= scenes@.take(i as int).push(scenes@[i as int]));
        }
        r.insert(pos, x);
        proof {
            if indexed {
                assert(x.spec_index() == i);
                assert forall|k: int| 0 <= k < r@.len() implies (#[trigger] r@[k]).spec_index() < i
                    + 1 by {
                    if k < pos {
                        assert(r@[k] == old_r[k]);
                    } else if k == pos {
                        assert(r@[k] == x);
                    } else {
                        assert(r@[k] == old_r[k - 1]);
                    }
                };
                assert forall|a: int, b: int|
                    0 <= a < b < r@.len() && (#[trigger] r@[a]).spec_length() == (
                    #[trigger] r@[b]).spec_length() implies r@[a].spec_index()
                    < r@[b].spec_index() by {
                    if b < pos {
                        assert(r@[a] == old_r[a] && r@[b] == old_r[b]);
                    } else if b == pos {
                        assert(r@[a] == old_r[a] && r@[b] == x);
                        assert(old_r[a].spec_index() < i);
                    } else if a == pos {
                        // everything behind the insertion point is strictly
                        // shorter than the inserted scene
                        assert(r@[a] == x && r@[b] == old_r[b - 1]);
                        assert(pos < old_r.len());
                        assert(old_r[pos as int].spec_length() < x.spec_length());
                        assert(old_r[b - 1].spec_length() <= old_r[pos as int].spec_length());
                        assert(false);
                    } else if a < pos {
                        assert(r@[a] == old_r[a] && r@[b] == old_r[b - 1]);
                        assert(old_r[a].spec_length() == old_r[b - 1].spec_length());
                        assert(a < b - 1 + 1);
                        if a == b - 1 {
                            assert(false);
                        }
                    } else {
                        assert(r@[a] == old_r[a - 1] && r@[b] == old_r[b - 1]);
                    }
                };
            }
        }
        i += 1;
    }
    proof {
        assert(scenes@.take(scenes@.len() as int) =~= scenes@);
    }
    r
}

/// What the splitter does for one scene during its single pass over the
/// source: either stream the scene's frames into a fresh lossless clip, or
/// read and discard them because the clip already exists.
#[derive(Copy, Clone, Debug, PartialEq, Eq, Structural)]
pub enum SplitAction {
    Encode { index: usize, frames: usize },
    Drain { index: usize, frames: usize },
}

impl SplitAction {
    /// How many frames of the sequential read this action consumes.
    pub open spec fn spec_frames(self) -> int {
        match self {
            SplitAction::Encode { frames, .. } => frames as int,
            SplitAction::Drain { frames, .. } => frames as int,
        }
    }

    /// The scene the action serves.
    pub open spec fn spec_idx(self) -> int {
        match self {
            SplitAction::Encode { index, .. } => index as int,
            SplitAction::Drain { index, .. } => index as int,
        }
    }
}

/// The splitter's plan: scene by scene in catalog order, encode what is
/// missing and drain what already exists. Every action consumes exactly the
/// scene's frames, so one sequential decode of the source serves all scenes,
/// and a clip that is already final is never encoded again.
pub fn split_plan(scenes: &Vec<Scene>, existing: &Vec<bool>) -> (r: Vec<SplitAction>)
    requires
        existing@.len() == scenes@.len(),
        forall|i: int| 0 <= i < scenes@.len() ==> (#[trigger] scenes@[i]).wf(),
    ensures
        r@.len() == scenes@.len(),
        forall|i: int| 0 <= i < r@.len() ==> ((#[trigger] r@[i]) is Drain <==> existing@[i]),
        forall|i: int|
            0 <= i < r@.len() ==> (#[trigger] r@[i]).spec_frames() == scenes@[i].spec_length(),
        forall|i: int|
            0 <= i < r@.len() ==> (#[trigger] r@[i]).spec_idx() == scenes@[i].spec_index(),
{
    let mut r: Vec<SplitAction> = Vec::new();
    let mut i: usize = 0;
    while i < scenes.len()
        invariant
            existing@.len() == scenes@.len(),
            forall|k: int| 0 <= k < scenes@.len() ==> (#[trigger] scenes@[k]).wf(),
            i <= scenes@.len(),
            r@.len() == i,
            forall|k: int| 0 <= k < i ==> ((#[trigger] r@[k]) is Drain <==> existing@[k]),
            forall|k: int|
                0 <= k < i ==> (#[trigger] r@[k]).spec_frames() == scenes@[k].spec_length(),
            forall|k: int|
                0 <= k < i ==> (#[trigger] r@[k]).spec_idx() == scenes@[k].spec_index(),
        decreases scenes@.len() - i,
    {
        let scene = scenes[i];
        let frames = scene.length();
        if existing[i] {
            r.push(SplitAction::Drain { index: scene.index(), frames });
        } else {
            r.push(SplitAction::Encode { index: scene.index(), frames });
        }
        i += 1;
    }
    r
}

/// The warning the catalog emits when the detector saw a different number of
/// frames than the metadata probe recorded; `None` when the counts agree.
pub fn frame_count_warning(detected: usize, expected: usize) -> (r: Option<String>)
    ensures
        r is None <==> detected == expected,
        r matches Some(m) ==> m@ == "Source video had "@ + crate::text::spec_dec(expected as nat)
            + " frames but "@ + crate::text::spec_dec(detected as nat)
            + " were processed by the scene detector."@,
{
    if detected == expected {
        None
    } else {
        let mut s = String::new();
        s.append("Source video had ");
        let e = crate::text::u64_dec(expected as u64);
        s.append(e.as_str());
        s.append(" frames but ");
        let d = crate::text::u64_dec(detected as u64);
        s.append(d.as_str());
        s.append(" were processed by the scene detector.");
        proof {
            assert(s@ =~= "Source video had "@ + crate::text::spec_dec(expected as nat)
                + " frames but "@ + crate::text::spec_dec(detected as nat)
                + " were processed by the scene detector."@);
        }
        Some(s)
    }
}

} // verus!
