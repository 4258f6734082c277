//! Spatial acceleration structure: the broad phase.
//!
//! A dynamic bounding-volume tree.  Nodes live in an arena (`Vec<Node>`)
//! and refer to each other by index, the root at index zero; an auxiliary
//! object→node table records where each inserted object lives.  Every
//! child's index is strictly greater than its parent's, which both rules
//! out cycles and gives every traversal its termination measure.
//!
//! The well-formedness predicate `wf` carries the structure's working
//! invariants: child/parent links agree, a node's box encloses its own
//! objects' boxes and its children's boxes (so, transitively, everything
//! in its subtree), and the object table matches the tree's contents
//! exactly.

use vstd::prelude::*;
use crate::aabb::{
    AABB, A3, encloses, touches_s, fit_s, aabb_of_transform, lemma_fit_encloses,
    lemma_fit_lub, lemma_encloses_trans,
};
use crate::transform::{Transform, POS_CAP, SCL_CAP};
use crate::vec3::{v_bounded, IVec3};

verus! {

/// A leaf holding more than this many objects is split into eight octant
/// children.
pub const SPLIT_THRESHOLD: usize = 10;

/// Bound on every coordinate the structure stores: the largest position
/// plus the largest half-extent a well-formed transform can produce.
pub const COORD_CAP: i64 = POS_CAP + SCL_CAP;

/// One node of the tree.  `children` is empty (a leaf) or holds exactly
/// eight octant-indexed node indices.
pub struct Node {
    pub aabb: AABB,
    pub parent: usize,
    pub children: Vec<usize>,
    pub object_ids: Vec<u64>,
    pub object_aabbs: Vec<AABB>,
    /// Set when splitting failed because every object fell into the same
    /// octant; cleared whenever the node gains an object.
    pub cannot_split: bool,
}

/// The broad-phase tree: an arena of nodes (root at index zero when
/// non-empty) and the object→node table.
pub struct SpatialAccelerationStructure {
    pub nodes: Vec<Node>,
    pub locations: Vec<(u64, usize)>,
}

impl SpatialAccelerationStructure {
    /// Local well-formedness of node `i`.
    pub open spec fn node_ok(&self, i: int) -> bool {
        let n = self.nodes@[i];
        &&& (n.children@.len() == 0 || n.children@.len() == 8)
        &&& (forall|k: int|
            0 <= k < n.children@.len() ==> i < #[trigger] n.children@[k] < self.nodes@.len())
        &&& (forall|k: int|
            0 <= k < n.children@.len() ==> self.nodes@[#[trigger] n.children@[k] as int].parent
                == i)
        &&& n.object_ids@.len() == n.object_aabbs@.len()
        &&& (forall|j1: int, j2: int|
            0 <= j1 < j2 < n.object_ids@.len() ==> n.object_ids@[j1] != n.object_ids@[j2])
        &&& (forall|j: int|
            0 <= j < n.object_aabbs@.len() ==> encloses(
                n.aabb@,
                #[trigger] n.object_aabbs@[j]@,
            ))
        &&& (forall|k: int|
            0 <= k < n.children@.len() ==> encloses(
                n.aabb@,
                self.nodes@[#[trigger] n.children@[k] as int].aabb@,
            ))
        &&& v_bounded(n.aabb@.min, COORD_CAP as int)
        &&& v_bounded(n.aabb@.max, COORD_CAP as int)
        &&& v_bounded(n.aabb@.center, COORD_CAP as int)
        &&& n.aabb@.min.x <= n.aabb@.max.x
        &&& n.aabb@.min.y <= n.aabb@.max.y
        &&& n.aabb@.min.z <= n.aabb@.max.z
        &&& (i >= 1 ==> n.parent < i && self.nodes@[n.parent as int].children@.contains(
            i as usize,
        ))
    }

    /// The object→node table matches the tree: every entry names a node
    /// that holds the object, keys are unique, and every object held by
    /// any node has its entry.
    pub open spec fn locations_ok(&self) -> bool {
        &&& (forall|k: int|
            0 <= k < self.locations@.len() ==> (#[trigger] self.locations@[k]).1
                < self.nodes@.len() && self.nodes@[self.locations@[k].1 as int].object_ids@.contains(
                self.locations@[k].0,
            ))
        &&& (forall|k1: int, k2: int|
            0 <= k1 < k2 < self.locations@.len() ==> (#[trigger] self.locations@[k1]).0 != (
            #[trigger] self.locations@[k2]).0)
        &&& (forall|i: int, j: int|
            0 <= i < self.nodes@.len() && 0 <= j < self.nodes@[i].object_ids@.len()
                ==> self.locations@.contains(
                ((#[trigger] self.nodes@[i].object_ids@[j]), i as usize),
            ))
    }

    /// Full structural invariant.
    pub open spec fn wf(&self) -> bool {
        &&& (forall|i: int| 0 <= i < self.nodes@.len() ==> self.node_ok(i))
        &&& self.locations_ok()
    }

    /// Node `i` holds the object `id` with box `bb`.
    pub open spec fn node_pair_in(&self, i: int, id: u64, bb: A3) -> bool {
        exists|j: int|
            0 <= j < self.nodes@[i].object_ids@.len() && self.nodes@[i].object_ids@[j] == id
                && self.nodes@[i].object_aabbs@[j]@ == bb
    }

    /// Some node holds the object `id` with box `bb`.
    pub open spec fn pair_in(&self, id: u64, bb: A3) -> bool {
        exists|i: int| 0 <= i < self.nodes@.len() && self.node_pair_in(i, id, bb)
    }

    /// The object is held by a leaf node whose table entry points there
    /// (the table's key uniqueness makes that node the only holder), and
    /// that leaf's failed-split flag is set only while the leaf is
    /// overfull — the resting state every insertion leaves an object in.
    pub open spec fn stored_in_leaf(&self, id: u64) -> bool {
        exists|n: int|
            0 <= n < self.nodes@.len() && (#[trigger] self.nodes@[n]).object_ids@.contains(id)
                && self.nodes@[n].children@.len() == 0 && self.locations@.contains(
                (id, n as usize),
            ) && (self.nodes@[n].cannot_split ==> self.nodes@[n].object_ids@.len()
                > SPLIT_THRESHOLD as int)
    }

    /// Some node holds the object `id`.
    pub open spec fn has_id(&self, id: u64) -> bool {
        exists|i: int, j: int|
            0 <= i < self.nodes@.len() && 0 <= j < self.nodes@[i].object_ids@.len()
                && self.nodes@[i].object_ids@[j] == id
    }

    /// Node `i` lies in the subtree rooted at `root`, witnessed by the
    /// parent chain.
    pub open spec fn reaches(&self, root: int, i: int) -> bool
        decreases i,
            when 0 <= i < self.nodes@.len() && self.wf()
    {
        i == root || (i > root && i >= 1 && self.nodes@[i].parent < i && self.reaches(
            root,
            self.nodes@[i].parent as int,
        ))
    }

    /// Sequence views of the vectors fit in usize, so node indices can be
    /// cast back and forth.
    proof fn lemma_len_fits(&self)
        ensures
            self.nodes@.len() <= usize::MAX,
            self.locations@.len() <= usize::MAX,
    {
        assert(self.nodes.len() == self.nodes@.len());
        assert(self.locations.len() == self.locations@.len());
    }

    /// A registered key always names an object the tree holds.
    proof fn lemma_key_has_id(&self, k: int)
        requires
            self.locations_ok(),
            0 <= k < self.locations@.len(),
        ensures
            self.has_id(self.locations@[k].0),
    {
        let e = self.locations@[k];
        let j = choose|j: int|
            0 <= j < self.nodes@[e.1 as int].object_ids@.len() && self.nodes@[
                e.1 as int
            ].object_ids@[j] == e.0;
        assert(0 <= (e.1 as int) && (e.1 as int) < self.nodes@.len());
        assert(0 <= j < self.nodes@[e.1 as int].object_ids@.len());
        assert(self.nodes@[e.1 as int].object_ids@[j] == e.0);
    }

    /// Fresh, empty structure.
    pub fn new() -> (s: Self)
        ensures
            s.wf(),
            s.nodes@.len() == 0,
            s.locations@.len() == 0,
    {
        SpatialAccelerationStructure { nodes: Vec::new(), locations: Vec::new() }
    }

    /// Grows node `i`'s box to enclose `bbox`.  Requires that `i`'s
    /// parent, if any, already encloses `bbox`, so the parent-child
    /// enclosure invariant survives the growth.
    fn expand_node(&mut self, i: usize, bbox: &AABB)
        requires
            old(self).wf(),
            i < old(self).nodes@.len(),
            v_bounded(bbox@.min, COORD_CAP as int),
            v_bounded(bbox@.max, COORD_CAP as int),
            bbox@.min.x <= bbox@.max.x,
            bbox@.min.y <= bbox@.max.y,
            bbox@.min.z <= bbox@.max.z,
            i == 0 || encloses(
                old(self).nodes@[old(self).nodes@[i as int].parent as int].aabb@,
                bbox@,
            ),
        ensures
            final(self).wf(),
            final(self).nodes@.len() == old(self).nodes@.len(),
            final(self).locations@ == old(self).locations@,
            forall|t: int|
                0 <= t < old(self).nodes@.len() && t != i ==> final(self).nodes@[t]
                    == old(self).nodes@[t],
            final(self).nodes@[i as int].aabb@ == fit_s(old(self).nodes@[i as int].aabb@, bbox@),
            final(self).nodes@[i as int].parent == old(self).nodes@[i as int].parent,
            final(self).nodes@[i as int].children@ == old(self).nodes@[i as int].children@,
            final(self).nodes@[i as int].object_ids@ == old(self).nodes@[i as int].object_ids@,
            final(self).nodes@[i as int].object_aabbs@ == old(self).nodes@[
                i as int
            ].object_aabbs@,
            final(self).nodes@[i as int].cannot_split == old(self).nodes@[i as int].cannot_split,
            encloses(final(self).nodes@[i as int].aabb@, bbox@),
            forall|id: u64, bb: A3| final(self).pair_in(id, bb) == old(self).pair_in(id, bb),
            forall|t: int|
                0 <= t < old(self).nodes@.len() ==> encloses(
                    final(self).nodes@[t].aabb@,
                    old(self).nodes@[t].aabb@,
                ),
    {
        let ghost pre = *self;
        let mut grown = self.nodes[i].aabb;
        grown.fit(bbox);
        self.nodes[i].aabb = grown;
        proof {
            let s0 = pre;
            let s1 = *self;
            let ii = i as int;
            assert(s1.nodes@[ii].aabb@ == fit_s(s0.nodes@[ii].aabb@, bbox@));
            lemma_fit_encloses(s0.nodes@[ii].aabb@, bbox@);
            // local invariant of the grown node
            assert forall|t: int| 0 <= t < s1.nodes@.len() implies s1.node_ok(t) by {
                assert(s0.node_ok(t));
                let n0 = s0.nodes@[t];
                let n1 = s1.nodes@[t];
                if t == ii {
                    assert forall|j: int|
                        0 <= j < n1.object_aabbs@.len() implies encloses(
                        n1.aabb@,
                        #[trigger] n1.object_aabbs@[j]@,
                    ) by {
                        assert(encloses(n0.aabb@, n0.object_aabbs@[j]@));
                        lemma_encloses_trans(n1.aabb@, n0.aabb@, n0.object_aabbs@[j]@);
                    }
                    assert forall|k: int|
                        0 <= k < n1.children@.len() implies encloses(
                        n1.aabb@,
                        s1.nodes@[#[trigger] n1.children@[k] as int].aabb@,
                    ) by {
                        assert(s0.node_ok(t));
                        assert(ii < n0.children@[k] < s0.nodes@.len());
                        assert(encloses(n0.aabb@, s0.nodes@[n0.children@[k] as int].aabb@));
                        lemma_encloses_trans(
                            n1.aabb@,
                            n0.aabb@,
                            s0.nodes@[n0.children@[k] as int].aabb@,
                        );
                    }
                } else {
                    // only t's view of the grown child can change
                    assert forall|k: int|
                        0 <= k < n1.children@.len() implies encloses(
                        n1.aabb@,
                        s1.nodes@[#[trigger] n1.children@[k] as int].aabb@,
                    ) by {
                        let c = n1.children@[k] as int;
                        assert(encloses(n0.aabb@, s0.nodes@[c].aabb@));
                        if c == ii {
                            // t must be the grown node's parent, which
                            // already encloses bbox
                            assert(s0.nodes@[c].parent == t);
                            assert(i > 0);
                            assert(encloses(n0.aabb@, bbox@));
                            lemma_fit_lub(n0.aabb@, s0.nodes@[c].aabb@, bbox@);
                        }
                    }
                }
            }
            assert(s1.locations_ok()) by {
                assert forall|k: int|
                    0 <= k < s1.locations@.len() implies (#[trigger] s1.locations@[k]).1
                    < s1.nodes@.len() && s1.nodes@[s1.locations@[k].1 as int].object_ids@.contains(
                    s1.locations@[k].0,
                ) by {
                    assert(s0.locations@[k] == s1.locations@[k]);
                    assert(s1.nodes@[s1.locations@[k].1 as int].object_ids@ == s0.nodes@[
                        s0.locations@[k].1 as int
                    ].object_ids@);
                }
                assert forall|i2: int, j: int|
                    0 <= i2 < s1.nodes@.len() && 0 <= j < s1.nodes@[i2].object_ids@.len()
                        implies s1.locations@.contains(
                    ((#[trigger] s1.nodes@[i2].object_ids@[j]), i2 as usize),
                ) by {
                    assert(s1.nodes@[i2].object_ids@ == s0.nodes@[i2].object_ids@);
                    assert(s0.locations@.contains((s0.nodes@[i2].object_ids@[j], i2 as usize)));
                }
            }
            assert forall|id: u64, bb: A3| s1.pair_in(id, bb) == s0.pair_in(id, bb) by {
                assert forall|i2: int| 0 <= i2 < s1.nodes@.len() implies (s1.node_pair_in(
                    i2,
                    id,
                    bb,
                ) == s0.node_pair_in(i2, id, bb)) by {
                    assert(s1.nodes@[i2].object_ids@ == s0.nodes@[i2].object_ids@);
                    assert(s1.nodes@[i2].object_aabbs@ == s0.nodes@[i2].object_aabbs@);
                }
                if s1.pair_in(id, bb) {
                    let w = choose|i2: int|
                        0 <= i2 < s1.nodes@.len() && s1.node_pair_in(i2, id, bb);
                    assert(s0.node_pair_in(w, id, bb));
                }
                if s0.pair_in(id, bb) {
                    let w = choose|i2: int|
                        0 <= i2 < s0.nodes@.len() && s0.node_pair_in(i2, id, bb);
                    assert(s1.node_pair_in(w, id, bb));
                }
            }
        }
    }

    /// Which of the eight octant children of `node_box` the box `bbox`
    /// belongs to, by comparing centers axis by axis.
    fn octant_index(node_box: &AABB, bbox: &AABB) -> (r: usize)
        ensures
            r < 8,
            r == octant_of(node_box@, bbox@),
    {
        let x: usize = if node_box.center.x > bbox.center.x {
            0
        } else {
            1
        };
        let y: usize = if node_box.center.y > bbox.center.y {
            0
        } else {
            1
        };
        let z: usize = if node_box.center.z > bbox.center.z {
            0
        } else {
            1
        };
        x * 4 + y * 2 + z
    }

    /// Inserts an object with the oversized box its transform implies.
    /// The object must not already be present; `remove` first when
    /// relocating.
    ///
    /// An empty tree becomes a single root leaf holding just this object.
    /// Otherwise the object descends by octant to a leaf, and every node
    /// box along the way grows to keep enclosing it: no pre-existing
    /// node's box ever shrinks.  An insertion that leaves a leaf holding
    /// more than `SPLIT_THRESHOLD` objects splits it into eight octant
    /// children and relocates its stored objects (their table entries
    /// follow them); when every object falls into one octant the leaf is
    /// instead marked `cannot_split`.  Either way the new object comes to
    /// rest in a leaf that its table entry names, whose failed-split flag
    /// is set only while the leaf is overfull.
    pub fn insert(&mut self, obj: u64, transform: &Transform)
        requires
            old(self).wf(),
            transform.wf(),
            !old(self).has_id(obj),
        ensures
            final(self).wf(),
            forall|id: u64, bb: A3|
                final(self).pair_in(id, bb) <==> (old(self).pair_in(id, bb) || (id == obj && bb
                    == aabb_of_transform(*transform))),
            final(self).nodes@.len() >= old(self).nodes@.len(),
            forall|t: int|
                0 <= t < old(self).nodes@.len() ==> encloses(
                    final(self).nodes@[t].aabb@,
                    old(self).nodes@[t].aabb@,
                ),
            final(self).stored_in_leaf(obj),
            old(self).nodes@.len() == 0 ==> {
                &&& final(self).nodes@.len() == 1
                &&& final(self).nodes@[0].children@.len() == 0
                &&& final(self).nodes@[0].aabb@ == aabb_of_transform(*transform)
                &&& final(self).nodes@[0].object_ids@ == seq![obj]
                &&& final(self).nodes@[0].object_aabbs@.len() == 1
                &&& final(self).nodes@[0].object_aabbs@[0]@ == aabb_of_transform(*transform)
                &&& !final(self).nodes@[0].cannot_split
                &&& final(self).locations@ == seq![(obj, 0usize)]
            },
    {
        let bbox = AABB::new(transform);
        if self.nodes.len() == 0 {
            let mut ids: Vec<u64> = Vec::new();
            let mut bbs: Vec<AABB> = Vec::new();
            ids.push(obj);
            bbs.push(bbox);
            self.nodes.push(
                Node {
                    aabb: bbox,
                    parent: 0,
                    children: Vec::new(),
                    object_ids: ids,
                    object_aabbs: bbs,
                    cannot_split: false,
                },
            );
            self.locations.push((obj, 0));
            proof {
                let s1 = *self;
                assert(s1.nodes@[0].object_ids@ =~= seq![obj]);
                assert(s1.node_ok(0));
                assert(s1.locations@[0] == (obj, 0usize));
                assert(s1.nodes@[0].object_ids@.contains(obj));
                assert forall|i: int, j: int|
                    0 <= i < s1.nodes@.len() && 0 <= j < s1.nodes@[i].object_ids@.len()
                        implies s1.locations@.contains(
                    ((#[trigger] s1.nodes@[i].object_ids@[j]), i as usize),
                ) by {
                    assert(i == 0 && j == 0);
                    assert(s1.locations@[0] == (s1.nodes@[0].object_ids@[0], 0usize));
                }
                assert forall|id: u64, bb: A3|
                    s1.pair_in(id, bb) <==> (id == obj && bb == bbox@) by {
                    if s1.pair_in(id, bb) {
                        let i = choose|i: int|
                            0 <= i < s1.nodes@.len() && s1.node_pair_in(i, id, bb);
                        let j = choose|j: int|
                            0 <= j < s1.nodes@[i].object_ids@.len() && s1.nodes@[
                                i
                            ].object_ids@[j] == id && s1.nodes@[i].object_aabbs@[j]@ == bb;
                        assert(i == 0 && j == 0);
                    }
                    if id == obj && bb == bbox@ {
                        assert(s1.nodes@[0].object_ids@[0] == id && s1.nodes@[
                            0
                        ].object_aabbs@[0]@ == bb);
                        assert(s1.node_pair_in(0, id, bb));
                    }
                }
                assert(bbox@ == aabb_of_transform(*transform));
                assert(s1.locations@ =~= seq![(obj, 0usize)]);
                assert(s1.nodes@[0].object_aabbs@[0] == bbox);
                assert(s1.stored_in_leaf(obj)) by {
                    assert(s1.nodes@[0].object_ids@.contains(obj));
                    assert(s1.locations@.contains((obj, 0usize)));
                }
            }
            return;
        }
        let ghost pre = *self;
        let mut cur: usize = 0;
        self.expand_node(cur, &bbox);
        while self.nodes[cur].children.len() > 0
            invariant
                self.wf(),
                cur < self.nodes@.len(),
                self.nodes@.len() == pre.nodes@.len(),
                self.locations@ == pre.locations@,
                encloses(self.nodes@[cur as int].aabb@, bbox@),
                v_bounded(bbox@.min, COORD_CAP as int),
                v_bounded(bbox@.max, COORD_CAP as int),
                bbox@.min.x <= bbox@.max.x,
                bbox@.min.y <= bbox@.max.y,
                bbox@.min.z <= bbox@.max.z,
                forall|id: u64, bb: A3| self.pair_in(id, bb) == pre.pair_in(id, bb),
                forall|i: int, j: int|
                    0 <= i < self.nodes@.len() && 0 <= j < self.nodes@[i].object_ids@.len()
                        ==> #[trigger] self.nodes@[i].object_ids@[j] == pre.nodes@[
                        i
                    ].object_ids@[j],
                forall|i: int|
                    0 <= i < self.nodes@.len() ==> #[trigger] self.nodes@[i].object_ids@.len()
                        == pre.nodes@[i].object_ids@.len(),
                forall|t: int|
                    0 <= t < pre.nodes@.len() ==> encloses(
                        self.nodes@[t].aabb@,
                        pre.nodes@[t].aabb@,
                    ),
            decreases self.nodes@.len() - cur,
        {
            proof {
                assert(self.node_ok(cur as int));
            }
            let node_box = self.nodes[cur].aabb;
            let oct = Self::octant_index(&node_box, &bbox);
            let next = self.nodes[cur].children[oct];
            proof {
                assert(cur < next < self.nodes@.len());
                assert(self.nodes@[next as int].parent == cur);
            }
            cur = next;
            let ghost step_pre = *self;
            self.expand_node(cur, &bbox);
            proof {
                assert forall|t: int|
                    0 <= t < pre.nodes@.len() implies encloses(
                    self.nodes@[t].aabb@,
                    pre.nodes@[t].aabb@,
                ) by {
                    lemma_encloses_trans(
                        self.nodes@[t].aabb@,
                        step_pre.nodes@[t].aabb@,
                        pre.nodes@[t].aabb@,
                    );
                }
            }
        }
        // cur is the leaf that takes the object
        let ghost mid = *self;
        self.push_object(cur, obj, bbox);
        let ghost post_push = *self;
        if self.nodes[cur].children.len() == 0 && self.nodes[cur].object_ids.len()
            > SPLIT_THRESHOLD && !self.nodes[cur].cannot_split {
            self.try_split(cur);
        }
        proof {
            let s1 = *self;
            assert forall|id: u64, bb: A3|
                s1.pair_in(id, bb) <==> (pre.pair_in(id, bb) || (id == obj && bb
                    == aabb_of_transform(*transform))) by {
                assert(s1.pair_in(id, bb) == post_push.pair_in(id, bb));
                assert(post_push.pair_in(id, bb) <==> (mid.pair_in(id, bb) || (id == obj && bb
                    == bbox@)));
                assert(mid.pair_in(id, bb) == pre.pair_in(id, bb));
            }
            // no pre-existing node's box has shrunk
            assert(s1.nodes@.len() >= pre.nodes@.len());
            assert forall|t: int|
                0 <= t < pre.nodes@.len() implies encloses(
                s1.nodes@[t].aabb@,
                pre.nodes@[t].aabb@,
            ) by {
                assert(post_push.nodes@[t].aabb == mid.nodes@[t].aabb);
                assert(s1.nodes@[t].aabb == post_push.nodes@[t].aabb);
                assert(encloses(mid.nodes@[t].aabb@, pre.nodes@[t].aabb@));
            }
            // the object rests in a leaf that its table entry names
            assert(post_push.nodes@[cur as int].object_ids@.contains(obj)) by {
                assert(post_push.nodes@[cur as int].object_ids@ == mid.nodes@[
                    cur as int
                ].object_ids@.push(obj));
                assert(post_push.nodes@[cur as int].object_ids@.last() == obj);
            }
            assert(post_push.locations@.contains((obj, cur))) by {
                assert(post_push.locations@ == mid.locations@.push((obj, cur)));
                assert(post_push.locations@.last() == (obj, cur));
            }
            assert(post_push.nodes@[cur as int].children@.len() == 0);
            assert(!post_push.nodes@[cur as int].cannot_split);
            assert(post_push.stored_in_leaf(obj));
            assert(s1.stored_in_leaf(obj));
        }
    }

    /// Appends an object to a node whose box already encloses the
    /// object's box, and registers it in the object table.
    fn push_object(&mut self, i: usize, obj: u64, bbox: AABB)
        requires
            old(self).wf(),
            i < old(self).nodes@.len(),
            !old(self).has_id(obj),
            encloses(old(self).nodes@[i as int].aabb@, bbox@),
        ensures
            final(self).wf(),
            final(self).nodes@.len() == old(self).nodes@.len(),
            forall|id: u64, bb: A3|
                final(self).pair_in(id, bb) <==> (old(self).pair_in(id, bb) || (id == obj && bb
                    == bbox@)),
            forall|t: int|
                0 <= t < old(self).nodes@.len() ==> final(self).nodes@[t].aabb
                    == old(self).nodes@[t].aabb,
            final(self).nodes@[i as int].object_ids@ == old(self).nodes@[
                i as int
            ].object_ids@.push(obj),
            final(self).nodes@[i as int].children@ == old(self).nodes@[i as int].children@,
            !final(self).nodes@[i as int].cannot_split,
            final(self).locations@ == old(self).locations@.push((obj, i)),
    {
        let ghost s0 = *self;
        let ghost ii = i as int;
        self.nodes[i].object_ids.push(obj);
        self.nodes[i].object_aabbs.push(bbox);
        self.nodes[i].cannot_split = false;
        self.locations.push((obj, i));
        proof {
            let s1 = *self;
            let n0 = s0.nodes@[ii];
            let n1 = s1.nodes@[ii];
            assert(s0.node_ok(ii));
            assert(forall|t: int|
                0 <= t < s1.nodes@.len() && t != ii ==> s1.nodes@[t] == s0.nodes@[t]);
            assert(s1.nodes@.len() == s0.nodes@.len());
            assert(n1.object_ids@ == n0.object_ids@.push(obj));
            assert(n1.object_aabbs@ == n0.object_aabbs@.push(bbox));
            assert(n1.object_ids@[n0.object_ids@.len() as int] == obj);
            assert(n1.object_aabbs@[n0.object_ids@.len() as int] == bbox);
            // the fresh id differs from every stored id
            assert forall|t: int, j: int|
                0 <= t < s0.nodes@.len() && 0 <= j < s0.nodes@[t].object_ids@.len()
                    implies #[trigger] s0.nodes@[t].object_ids@[j] != obj by {
                if s0.nodes@[t].object_ids@[j] == obj {
                    assert(s0.has_id(obj));
                }
            }
            assert forall|t: int| 0 <= t < s1.nodes@.len() implies s1.node_ok(t) by {
                assert(s0.node_ok(t));
                let nt0 = s0.nodes@[t];
                let nt1 = s1.nodes@[t];
                if t == ii {
                    assert forall|j1: int, j2: int|
                        0 <= j1 < j2 < nt1.object_ids@.len() implies nt1.object_ids@[j1]
                        != nt1.object_ids@[j2] by {
                        if j2 == nt1.object_ids@.len() - 1 {
                            assert(nt1.object_ids@[j1] == nt0.object_ids@[j1]);
                            assert(nt1.object_ids@[j2] == obj);
                        }
                    }
                    assert forall|j: int|
                        0 <= j < nt1.object_aabbs@.len() implies encloses(
                        nt1.aabb@,
                        #[trigger] nt1.object_aabbs@[j]@,
                    ) by {
                        if j < nt0.object_aabbs@.len() {
                            assert(encloses(nt0.aabb@, nt0.object_aabbs@[j]@));
                        } else {
                            assert(nt1.object_aabbs@[j] == bbox);
                        }
                    }
                    assert forall|k: int|
                        0 <= k < nt1.children@.len() implies encloses(
                        nt1.aabb@,
                        s1.nodes@[#[trigger] nt1.children@[k] as int].aabb@,
                    ) by {
                        assert(nt0.children@[k] == nt1.children@[k]);
                        assert(encloses(nt0.aabb@, s0.nodes@[nt0.children@[k] as int].aabb@));
                    }
                } else {
                    assert(nt1 == nt0);
                    assert forall|k: int|
                        0 <= k < nt1.children@.len() implies encloses(
                        nt1.aabb@,
                        s1.nodes@[#[trigger] nt1.children@[k] as int].aabb@,
                    ) by {
                        assert(encloses(nt0.aabb@, s0.nodes@[nt0.children@[k] as int].aabb@));
                        assert(s1.nodes@[nt1.children@[k] as int].aabb == s0.nodes@[
                            nt0.children@[k] as int
                        ].aabb);
                    }
                }
            }
            assert(s1.locations@ == s0.locations@.push((obj, i)));
            assert(s1.locations_ok()) by {
                assert forall|k: int|
                    0 <= k < s1.locations@.len() implies (#[trigger] s1.locations@[k]).1
                    < s1.nodes@.len() && s1.nodes@[s1.locations@[k].1 as int].object_ids@.contains(
                    s1.locations@[k].0,
                ) by {
                    if k < s0.locations@.len() {
                        assert(s1.locations@[k] == s0.locations@[k]);
                        let e = s0.locations@[k];
                        let j = choose|j: int|
                            0 <= j < s0.nodes@[e.1 as int].object_ids@.len() && s0.nodes@[
                                e.1 as int
                            ].object_ids@[j] == e.0;
                        assert(s1.nodes@[e.1 as int].object_ids@[j] == e.0);
                    } else {
                        assert(s1.locations@[k] == (obj, i));
                        assert(s1.nodes@[ii].object_ids@[n0.object_ids@.len() as int] == obj);
                    }
                }
                assert forall|k1: int, k2: int|
                    0 <= k1 < k2 < s1.locations@.len() implies (#[trigger] s1.locations@[k1]).0
                    != (#[trigger] s1.locations@[k2]).0 by {
                    if k2 == s1.locations@.len() - 1 {
                        s0.lemma_key_has_id(k1);
                        assert(s1.locations@[k2].0 == obj);
                    }
                }
                assert forall|t: int, j: int|
                    0 <= t < s1.nodes@.len() && 0 <= j < s1.nodes@[t].object_ids@.len()
                        implies s1.locations@.contains(
                    ((#[trigger] s1.nodes@[t].object_ids@[j]), t as usize),
                ) by {
                    if t == ii && j == s1.nodes@[t].object_ids@.len() - 1 {
                        assert(s1.locations@[s1.locations@.len() - 1] == (obj, i));
                    } else {
                        assert(s1.nodes@[t].object_ids@[j] == s0.nodes@[t].object_ids@[j]);
                        assert(s0.locations@.contains((s0.nodes@[t].object_ids@[j], t as usize)));
                        let k = choose|k: int|
                            0 <= k < s0.locations@.len() && s0.locations@[k] == (s0.nodes@[
                                t
                            ].object_ids@[j], t as usize);
                        assert(s1.locations@[k] == (s1.nodes@[t].object_ids@[j], t as usize));
                    }
                }
            }
            assert forall|id: u64, bb: A3|
                s1.pair_in(id, bb) <==> (s0.pair_in(id, bb) || (id == obj && bb == bbox@)) by {
                if s1.pair_in(id, bb) {
                    let t = choose|t: int| 0 <= t < s1.nodes@.len() && s1.node_pair_in(t, id, bb);
                    let j = choose|j: int|
                        0 <= j < s1.nodes@[t].object_ids@.len() && s1.nodes@[t].object_ids@[j]
                            == id && s1.nodes@[t].object_aabbs@[j]@ == bb;
                    if t == ii && j == s1.nodes@[t].object_ids@.len() - 1 {
                        assert(id == obj && bb == bbox@);
                    } else {
                        assert(s0.nodes@[t].object_ids@[j] == id && s0.nodes@[
                            t
                        ].object_aabbs@[j]@ == bb);
                        assert(s0.node_pair_in(t, id, bb));
                    }
                }
                if s0.pair_in(id, bb) {
                    let t = choose|t: int| 0 <= t < s0.nodes@.len() && s0.node_pair_in(t, id, bb);
                    let j = choose|j: int|
                        0 <= j < s0.nodes@[t].object_ids@.len() && s0.nodes@[t].object_ids@[j]
                            == id && s0.nodes@[t].object_aabbs@[j]@ == bb;
                    assert(s1.nodes@[t].object_ids@[j] == id && s1.nodes@[t].object_aabbs@[j]@
                        == bb);
                    assert(s1.node_pair_in(t, id, bb));
                }
                if id == obj && bb == bbox@ {
                    assert(s1.nodes@[ii].object_ids@[n0.object_ids@.len() as int] == id);
                    assert(s1.nodes@[ii].object_aabbs@[n0.object_ids@.len() as int]@ == bb);
                    assert(s1.node_pair_in(ii, id, bb));
                }
            }
        }
    }
}

impl SpatialAccelerationStructure {
    /// Ids of the first `j` objects of node `i` whose box touches `bb`,
    /// in storage order.
    pub open spec fn touch_ids_upto(&self, i: int, bb: A3, j: int) -> Seq<u64>
        decreases j,
    {
        if j <= 0 {
            Seq::empty()
        } else {
            let pre = self.touch_ids_upto(i, bb, j - 1);
            if touches_s(self.nodes@[i].object_aabbs@[j - 1]@, bb) {
                pre.push(self.nodes@[i].object_ids@[j - 1])
            } else {
                pre
            }
        }
    }

    /// Everything the collection pass gathers from the subtree at `i`:
    /// the children's collections in order, then `i`'s own touching
    /// objects.
    pub open spec fn collect(&self, i: int, bb: A3) -> Seq<u64>
        decreases self.nodes@.len() - i, 9int,
            when 0 <= i < self.nodes@.len()
    {
        let cl = self.nodes@[i].children@.len() as int;
        self.collect_children_upto(i, if cl <= 8 { cl } else { 8 }, bb)
            + self.touch_ids_upto(i, bb, self.nodes@[i].object_ids@.len() as int)
    }

    /// The concatenated collections of the first `k` children of `i`.
    pub open spec fn collect_children_upto(&self, i: int, k: int, bb: A3) -> Seq<u64>
        decreases self.nodes@.len() - i, k,
            when 0 <= i < self.nodes@.len() && 0 <= k <= 8
    {
        if k <= 0 || k > self.nodes@[i].children@.len() {
            Seq::empty()
        } else {
            let c = self.nodes@[i].children@[k - 1] as int;
            if i < c < self.nodes@.len() {
                self.collect_children_upto(i, k - 1, bb) + self.collect(c, bb)
            } else {
                self.collect_children_upto(i, k - 1, bb)
            }
        }
    }

    /// Broad-phase query: what could be touching `bbox`.  Gathers, from
    /// the whole tree, every stored object whose (oversized) box touches
    /// the query box — so the broad phase never misses a stored object
    /// that could be in contact.  `lemma_query_soundness` and
    /// `lemma_query_completeness` state both directions of that contract
    /// over the returned collection.
    pub fn query_aabb(&self, bbox: &AABB) -> (r: Vec<u64>)
        requires
            self.wf(),
        ensures
            self.nodes@.len() == 0 ==> r@ == Seq::<u64>::empty(),
            self.nodes@.len() > 0 ==> r@ == self.collect(0, bbox@),
    {
        let mut out: Vec<u64> = Vec::new();
        if self.nodes.len() == 0 {
            return out;
        }
        self.get_touching(0, bbox, &mut out);
        out
    }

    /// Gathers, in order, every object in the subtree at `i` whose box
    /// touches `bbox`, appending to `out`.
    fn get_touching(&self, i: usize, bbox: &AABB, out: &mut Vec<u64>)
        requires
            self.wf(),
            i < self.nodes@.len(),
        ensures
            final(out)@ == old(out)@ + self.collect(i as int, bbox@),
        decreases self.nodes@.len() - i,
    {
        proof {
            assert(self.node_ok(i as int));
        }
        let ghost base = out@;
        let clen = self.nodes[i].children.len();
        let mut k: usize = 0;
        while k < clen
            invariant
                self.wf(),
                i < self.nodes@.len(),
                clen == self.nodes@[i as int].children@.len(),
                clen == 0 || clen == 8,
                k <= clen,
                out@ == base + self.collect_children_upto(i as int, k as int, bbox@),
            decreases clen - k,
        {
            proof {
                assert(self.node_ok(i as int));
            }
            let c = self.nodes[i].children[k];
            self.get_touching(c, bbox, out);
            k = k + 1;
        }
        let olen = self.nodes[i].object_ids.len();
        let ghost mid = out@;
        let mut j: usize = 0;
        while j < olen
            invariant
                self.wf(),
                i < self.nodes@.len(),
                olen == self.nodes@[i as int].object_ids@.len(),
                olen == self.nodes@[i as int].object_aabbs@.len(),
                j <= olen,
                out@ == mid + self.touch_ids_upto(i as int, bbox@, j as int),
            decreases olen - j,
        {
            if self.nodes[i].object_aabbs[j].touches(bbox) {
                let id = self.nodes[i].object_ids[j];
                out.push(id);
            }
            j = j + 1;
        }
    }
}

impl SpatialAccelerationStructure {
    /// Every node lies in the root's subtree.
    pub proof fn lemma_reaches_root(&self, i: int)
        requires
            self.wf(),
            0 <= i < self.nodes@.len(),
        ensures
            self.reaches(0, i),
        decreases i,
    {
        if i > 0 {
            assert(self.node_ok(i));
            self.lemma_reaches_root(self.nodes@[i].parent as int);
        }
    }

    /// The chain of boxes along a subtree path is nested: an ancestor's
    /// box encloses every descendant node's box.
    pub proof fn lemma_subtree_aabb_enclosed(&self, a: int, i: int)
        requires
            self.wf(),
            0 <= a < self.nodes@.len(),
            0 <= i < self.nodes@.len(),
            self.reaches(a, i),
        ensures
            encloses(self.nodes@[a].aabb@, self.nodes@[i].aabb@),
        decreases i,
    {
        if i != a {
            self.lemma_len_fits();
            assert(self.node_ok(i));
            let p = self.nodes@[i].parent as int;
            self.lemma_subtree_aabb_enclosed(a, p);
            assert(self.node_ok(p));
            let cs = self.nodes@[p].children@;
            let k = choose|k: int| 0 <= k < cs.len() && cs[k] == i as usize;
            assert(self.nodes@[p].children@[k] == i as usize);
            assert(encloses(
                self.nodes@[p].aabb@,
                self.nodes@[self.nodes@[p].children@[k] as int].aabb@,
            ));
            assert(encloses(self.nodes@[p].aabb@, self.nodes@[i].aabb@));
            lemma_encloses_trans(
                self.nodes@[a].aabb@,
                self.nodes@[p].aabb@,
                self.nodes@[i].aabb@,
            );
        }
    }

    /// The structure's defining invariant: a node's box encloses the box
    /// of every object stored anywhere in its subtree.
    pub proof fn lemma_node_encloses_subtree_objects(&self, a: int, i: int, j: int)
        requires
            self.wf(),
            0 <= a < self.nodes@.len(),
            0 <= i < self.nodes@.len(),
            self.reaches(a, i),
            0 <= j < self.nodes@[i].object_aabbs@.len(),
        ensures
            encloses(self.nodes@[a].aabb@, self.nodes@[i].object_aabbs@[j]@),
    {
        self.lemma_subtree_aabb_enclosed(a, i);
        assert(self.node_ok(i));
        lemma_encloses_trans(
            self.nodes@[a].aabb@,
            self.nodes@[i].aabb@,
            self.nodes@[i].object_aabbs@[j]@,
        );
    }

    /// Everything among a node's first `j` touching objects really is a
    /// stored object whose box touches the query box.
    proof fn lemma_touch_upto_sound(&self, i: int, bb: A3, j: int, id: u64)
        requires
            0 <= i < self.nodes@.len(),
            0 <= j <= self.nodes@[i].object_ids@.len(),
            self.nodes@[i].object_ids@.len() == self.nodes@[i].object_aabbs@.len(),
            self.touch_ids_upto(i, bb, j).contains(id),
        ensures
            exists|j2: int|
                0 <= j2 < self.nodes@[i].object_ids@.len() && self.nodes@[i].object_ids@[j2] == id
                    && touches_s(#[trigger] self.nodes@[i].object_aabbs@[j2]@, bb),
        decreases j,
    {
        if j > 0 {
            let pre = self.touch_ids_upto(i, bb, j - 1);
            if touches_s(self.nodes@[i].object_aabbs@[j - 1]@, bb) && self.nodes@[
                i
            ].object_ids@[j - 1] == id {
                assert(touches_s(self.nodes@[i].object_aabbs@[j - 1]@, bb));
            } else {
                assert(pre.contains(id));
                self.lemma_touch_upto_sound(i, bb, j - 1, id);
            }
        }
    }

    /// A stored object whose box touches the query box appears among the
    /// node's first `j` touching objects once `j` passes it.
    proof fn lemma_touch_upto_complete(&self, i: int, bb: A3, j2: int, j: int)
        requires
            0 <= i < self.nodes@.len(),
            0 <= j2 < j <= self.nodes@[i].object_ids@.len(),
            self.nodes@[i].object_ids@.len() == self.nodes@[i].object_aabbs@.len(),
            touches_s(self.nodes@[i].object_aabbs@[j2]@, bb),
        ensures
            self.touch_ids_upto(i, bb, j).contains(self.nodes@[i].object_ids@[j2]),
        decreases j,
    {
        let pre = self.touch_ids_upto(i, bb, j - 1);
        if j2 == j - 1 {
            assert(self.touch_ids_upto(i, bb, j) == pre.push(self.nodes@[i].object_ids@[j - 1]));
            assert(self.touch_ids_upto(i, bb, j).last() == self.nodes@[i].object_ids@[j2]);
        } else {
            self.lemma_touch_upto_complete(i, bb, j2, j - 1);
            let w = choose|w: int| 0 <= w < pre.len() && pre[w] == self.nodes@[i].object_ids@[j2];
            assert(self.touch_ids_upto(i, bb, j)[w] == self.nodes@[i].object_ids@[j2]);
        }
    }

    /// Everything the collection pass returns is a stored object whose
    /// box touches the query box.
    pub proof fn lemma_collect_sound(&self, i: int, bb: A3, id: u64)
        requires
            self.wf(),
            0 <= i < self.nodes@.len(),
            self.collect(i, bb).contains(id),
        ensures
            exists|bb2: A3| self.pair_in(id, bb2) && touches_s(bb2, bb),
        decreases self.nodes@.len() - i, 9int,
    {
        assert(self.node_ok(i));
        let cl = self.nodes@[i].children@.len() as int;
        let ck = if cl <= 8 { cl } else { 8int };
        let left = self.collect_children_upto(i, ck, bb);
        let right = self.touch_ids_upto(i, bb, self.nodes@[i].object_ids@.len() as int);
        let w = choose|w: int| 0 <= w < self.collect(i, bb).len() && self.collect(i, bb)[w] == id;
        if w < left.len() {
            assert(left.contains(id));
            self.lemma_children_upto_sound(i, ck, bb, id);
        } else {
            assert(right[w - left.len()] == id);
            assert(right.contains(id));
            self.lemma_touch_upto_sound(i, bb, self.nodes@[i].object_ids@.len() as int, id);
            let j2 = choose|j2: int|
                0 <= j2 < self.nodes@[i].object_ids@.len() && self.nodes@[i].object_ids@[j2] == id
                    && touches_s(#[trigger] self.nodes@[i].object_aabbs@[j2]@, bb);
            assert(self.node_pair_in(i, id, self.nodes@[i].object_aabbs@[j2]@));
            assert(self.pair_in(id, self.nodes@[i].object_aabbs@[j2]@));
        }
    }

    /// Soundness carried through the child collections.
    proof fn lemma_children_upto_sound(&self, i: int, k: int, bb: A3, id: u64)
        requires
            self.wf(),
            0 <= i < self.nodes@.len(),
            0 <= k <= 8,
            self.collect_children_upto(i, k, bb).contains(id),
        ensures
            exists|bb2: A3| self.pair_in(id, bb2) && touches_s(bb2, bb),
        decreases self.nodes@.len() - i, k,
    {
        assert(self.node_ok(i));
        let cs = self.nodes@[i].children@;
        if k > 0 && k <= cs.len() {
            let c = cs[k - 1] as int;
            assert(i < c < self.nodes@.len());
            let pre = self.collect_children_upto(i, k - 1, bb);
            let sub = self.collect(c, bb);
            let w = choose|w: int|
                0 <= w < (pre + sub).len() && (pre + sub)[w] == id;
            if w < pre.len() {
                assert(pre.contains(id));
                self.lemma_children_upto_sound(i, k - 1, bb, id);
            } else {
                assert(sub[w - pre.len()] == id);
                assert(sub.contains(id));
                self.lemma_collect_sound(c, bb, id);
            }
        }
    }

    /// A touching object of node `i` itself is collected at `i`.
    proof fn lemma_collect_own_complete(&self, i: int, bb: A3, j: int)
        requires
            self.wf(),
            0 <= i < self.nodes@.len(),
            0 <= j < self.nodes@[i].object_ids@.len(),
            touches_s(self.nodes@[i].object_aabbs@[j]@, bb),
        ensures
            self.collect(i, bb).contains(self.nodes@[i].object_ids@[j]),
    {
        assert(self.node_ok(i));
        let id = self.nodes@[i].object_ids@[j];
        self.lemma_touch_upto_complete(i, bb, j, self.nodes@[i].object_ids@.len() as int);
        let cl = self.nodes@[i].children@.len() as int;
        let ck = if cl <= 8 { cl } else { 8int };
        let left = self.collect_children_upto(i, ck, bb);
        let right = self.touch_ids_upto(i, bb, self.nodes@[i].object_ids@.len() as int);
        let w = choose|w: int| 0 <= w < right.len() && right[w] == id;
        assert(self.collect(i, bb)[left.len() + w] == id);
    }

    /// What a child collects, its parent collects too.
    proof fn lemma_collect_child_sub(&self, p: int, kc: int, id: u64, bb: A3)
        requires
            self.wf(),
            0 <= p < self.nodes@.len(),
            0 <= kc < self.nodes@[p].children@.len(),
            self.collect(self.nodes@[p].children@[kc] as int, bb).contains(id),
        ensures
            self.collect(p, bb).contains(id),
    {
        assert(self.node_ok(p));
        self.lemma_collect_child_sub_upto(p, kc, kc + 1, id, bb);
        let cl = self.nodes@[p].children@.len() as int;
        self.lemma_children_upto_mono(p, kc + 1, cl, id, bb);
        let left = self.collect_children_upto(p, cl, bb);
        let w = choose|w: int| 0 <= w < left.len() && left[w] == id;
        assert(self.collect(p, bb)[w] == id);
    }

    /// Membership in a child's collection shows up once the prefix
    /// includes that child.
    proof fn lemma_collect_child_sub_upto(&self, p: int, kc: int, k: int, id: u64, bb: A3)
        requires
            self.wf(),
            0 <= p < self.nodes@.len(),
            0 <= kc < k <= self.nodes@[p].children@.len(),
            k == kc + 1,
            self.collect(self.nodes@[p].children@[kc] as int, bb).contains(id),
        ensures
            self.collect_children_upto(p, k, bb).contains(id),
    {
        assert(self.node_ok(p));
        let cs = self.nodes@[p].children@;
        let c = cs[kc] as int;
        assert(p < c < self.nodes@.len());
        let pre = self.collect_children_upto(p, kc, bb);
        let sub = self.collect(c, bb);
        assert(self.collect_children_upto(p, k, bb) == pre + sub);
        let w = choose|w: int| 0 <= w < sub.len() && sub[w] == id;
        assert((pre + sub)[pre.len() + w] == id);
    }

    /// Prefix collections only grow with `k`.
    proof fn lemma_children_upto_mono(&self, p: int, k1: int, k2: int, id: u64, bb: A3)
        requires
            self.wf(),
            0 <= p < self.nodes@.len(),
            0 <= k1 <= k2 <= self.nodes@[p].children@.len(),
            self.collect_children_upto(p, k1, bb).contains(id),
        ensures
            self.collect_children_upto(p, k2, bb).contains(id),
        decreases k2 - k1,
    {
        assert(self.node_ok(p));
        if k2 > k1 {
            self.lemma_children_upto_mono(p, k1, k2 - 1, id, bb);
            let pre = self.collect_children_upto(p, k2 - 1, bb);
            let cs = self.nodes@[p].children@;
            let c = cs[k2 - 1] as int;
            assert(p < c < self.nodes@.len());
            let sub = self.collect(c, bb);
            assert(self.collect_children_upto(p, k2, bb) == pre + sub);
            let w = choose|w: int| 0 <= w < pre.len() && pre[w] == id;
            assert((pre + sub)[w] == id);
        }
    }

    /// What any subtree node collects, the subtree's root collects.
    pub proof fn lemma_collect_complete_chain(&self, a: int, t: int, id: u64, bb: A3)
        requires
            self.wf(),
            0 <= a < self.nodes@.len(),
            0 <= t < self.nodes@.len(),
            self.reaches(a, t),
            self.collect(t, bb).contains(id),
        ensures
            self.collect(a, bb).contains(id),
        decreases t,
    {
        if t != a {
            self.lemma_len_fits();
            assert(self.node_ok(t));
            let p = self.nodes@[t].parent as int;
            assert(self.node_ok(p));
            let cs = self.nodes@[p].children@;
            let kc = choose|kc: int| 0 <= kc < cs.len() && cs[kc] == t as usize;
            assert(self.nodes@[p].children@[kc] == t as usize);
            assert(self.nodes@[p].children@[kc] as int == t);
            self.lemma_collect_child_sub(p, kc, id, bb);
            self.lemma_collect_complete_chain(a, p, id, bb);
        }
    }

    /// Law — broad-phase completeness: the query never misses a stored
    /// object whose box touches the query box.  Every pair `(t, j)`
    /// naming an object stored anywhere in the tree whose box touches
    /// `bb` appears in the root collection, which is exactly what
    /// `query_aabb` returns.
    pub proof fn lemma_query_completeness(&self, bb: A3, t: int, j: int)
        requires
            self.wf(),
            self.nodes@.len() > 0,
            0 <= t < self.nodes@.len(),
            0 <= j < self.nodes@[t].object_ids@.len(),
            touches_s(self.nodes@[t].object_aabbs@[j]@, bb),
        ensures
            self.collect(0, bb).contains(self.nodes@[t].object_ids@[j]),
    {
        self.lemma_reaches_root(t);
        self.lemma_collect_own_complete(t, bb, j);
        self.lemma_collect_complete_chain(0, t, self.nodes@[t].object_ids@[j], bb);
    }

    /// Law — broad-phase soundness: everything the query returns is a
    /// stored object whose box touches the query box (a false positive
    /// only in the sense that the oversized boxes may touch where the
    /// exact shapes do not).
    pub proof fn lemma_query_soundness(&self, bb: A3, id: u64)
        requires
            self.wf(),
            self.nodes@.len() > 0,
            self.collect(0, bb).contains(id),
        ensures
            exists|bb2: A3| self.pair_in(id, bb2) && touches_s(bb2, bb),
    {
        self.lemma_collect_sound(0, bb, id);
    }

    /// Index of the table entry for `obj`, if it has one.
    fn find_location(&self, obj: u64) -> (r: Option<usize>)
        ensures
            match r {
                Some(k) => k < self.locations@.len() && self.locations@[k as int].0 == obj,
                None => forall|k2: int|
                    0 <= k2 < self.locations@.len() ==> (#[trigger] self.locations@[k2]).0 != obj,
            },
    {
        let n = self.locations.len();
        let mut k: usize = 0;
        while k < n
            invariant
                n == self.locations@.len(),
                k <= n,
                forall|k2: int| 0 <= k2 < k ==> (#[trigger] self.locations@[k2]).0 != obj,
            decreases n - k,
        {
            if self.locations[k].0 == obj {
                return Some(k);
            }
            k = k + 1;
        }
        None
    }

    /// Index of `obj` inside node `ni`'s object list.
    fn find_in_node(&self, ni: usize, obj: u64) -> (j: usize)
        requires
            ni < self.nodes@.len(),
            self.nodes@[ni as int].object_ids@.contains(obj),
        ensures
            j < self.nodes@[ni as int].object_ids@.len(),
            self.nodes@[ni as int].object_ids@[j as int] == obj,
    {
        let olen = self.nodes[ni].object_ids.len();
        let mut j: usize = 0;
        while j < olen
            invariant
                ni < self.nodes@.len(),
                olen == self.nodes@[ni as int].object_ids@.len(),
                j <= olen,
                self.nodes@[ni as int].object_ids@.contains(obj),
                forall|j2: int| 0 <= j2 < j ==> self.nodes@[ni as int].object_ids@[j2] != obj,
            decreases olen - j,
        {
            if self.nodes[ni].object_ids[j] == obj {
                return j;
            }
            j = j + 1;
        }
        proof {
            let w = choose|w: int|
                0 <= w < self.nodes@[ni as int].object_ids@.len() && self.nodes@[
                    ni as int
                ].object_ids@[w] == obj;
            assert(false);
        }
        0
    }

    /// Splits an overfull leaf into eight octant children and
    /// redistributes its objects among them, one at a time, keeping the
    /// structure well-formed throughout.  If every object falls into the
    /// same octant the leaf is marked `cannot_split` instead, so the
    /// structure never loops splitting coincident objects.
    fn try_split(&mut self, i: usize)
        requires
            old(self).wf(),
            i < old(self).nodes@.len(),
            old(self).nodes@[i as int].children@.len() == 0,
            old(self).nodes@[i as int].object_ids@.len() > SPLIT_THRESHOLD,
        ensures
            final(self).wf(),
            forall|id: u64, bb: A3| final(self).pair_in(id, bb) == old(self).pair_in(id, bb),
            final(self).nodes@.len() >= old(self).nodes@.len(),
            forall|t: int|
                0 <= t < old(self).nodes@.len() ==> final(self).nodes@[t].aabb
                    == old(self).nodes@[t].aabb,
            forall|id: u64|
                old(self).nodes@[i as int].object_ids@.contains(id)
                    ==> final(self).stored_in_leaf(id),
    {
        let ghost s0 = *self;
        proof {
            assert(s0.node_ok(i as int));
        }
        let olen = self.nodes[i].object_ids.len();
        if olen == 0 {
            proof {
                lemma_pairs_unchanged(s0, *self);
            }
            return;
        }
        // a split only helps if the objects spread over several octants
        let node_box = self.nodes[i].aabb;
        let first_oct = Self::octant_index(&node_box, &self.nodes[i].object_aabbs[0]);
        let mut all_same = true;
        let mut j: usize = 1;
        while j < olen
            invariant
                *self == s0,
                i < self.nodes@.len(),
                olen == self.nodes@[i as int].object_aabbs@.len(),
                j <= olen,
            decreases olen - j,
        {
            let oct = Self::octant_index(&node_box, &self.nodes[i].object_aabbs[j]);
            if oct != first_oct {
                all_same = false;
            }
            j = j + 1;
        }
        if all_same {
            self.nodes[i].cannot_split = true;
            proof {
                let s1 = *self;
                assert(forall|t: int|
                    0 <= t < s1.nodes@.len() && t != i ==> s1.nodes@[t] == s0.nodes@[t]);
                assert(s1.nodes@[i as int].object_ids@ == s0.nodes@[i as int].object_ids@);
                assert(s1.nodes@[i as int].object_aabbs@ == s0.nodes@[i as int].object_aabbs@);
                assert(forall|u: int|
                    0 <= u < s1.nodes@.len() ==> (#[trigger] s1.nodes@[u]).parent == s0.nodes@[
                        u
                    ].parent && s1.nodes@[u].aabb == s0.nodes@[u].aabb && s1.nodes@[u].children@
                        == s0.nodes@[u].children@ && s1.nodes@[u].object_ids@ == s0.nodes@[
                        u
                    ].object_ids@ && s1.nodes@[u].object_aabbs@ == s0.nodes@[u].object_aabbs@);
                assert forall|t: int| 0 <= t < s1.nodes@.len() implies s1.node_ok(t) by {
                    assert(s0.node_ok(t));
                }
                lemma_pairs_unchanged(s0, s1);
                // the objects stay in this leaf, whose flag is set only
                // because it is overfull
                assert forall|id: u64|
                    s0.nodes@[i as int].object_ids@.contains(id) implies s1.stored_in_leaf(
                    id,
                ) by {
                    let ii = i as int;
                    let j = choose|j: int|
                        0 <= j < s0.nodes@[ii].object_ids@.len() && s0.nodes@[ii].object_ids@[j]
                            == id;
                    assert(s0.locations@.contains((s0.nodes@[ii].object_ids@[j], i as usize)));
                    assert(s1.locations@ == s0.locations@);
                    assert(s1.locations@.contains((id, i as usize)));
                    assert(s1.nodes@[ii].object_ids@[j] == id);
                    assert(s1.nodes@[ii].object_ids@.contains(id));
                    assert(s1.nodes@[ii].children@.len() == 0);
                    assert(s1.nodes@[ii].object_ids@.len() > SPLIT_THRESHOLD as int);
                }
            }
            return;
        }
        // eight fresh octant leaves, point-sized at the parent's midpoint
        let base = self.nodes.len();
        let mid = IVec3 {
            x: mid_between(self.nodes[i].aabb.min.x, self.nodes[i].aabb.max.x),
            y: mid_between(self.nodes[i].aabb.min.y, self.nodes[i].aabb.max.y),
            z: mid_between(self.nodes[i].aabb.min.z, self.nodes[i].aabb.max.z),
        };
        proof {
            lemma_mid_between(s0.nodes@[i as int].aabb@.min.x, s0.nodes@[i as int].aabb@.max.x);
            lemma_mid_between(s0.nodes@[i as int].aabb@.min.y, s0.nodes@[i as int].aabb@.max.y);
            lemma_mid_between(s0.nodes@[i as int].aabb@.min.z, s0.nodes@[i as int].aabb@.max.z);
        }
        let mut oct: usize = 0;
        while oct < 8
            invariant
                i < base,
                base == s0.nodes@.len(),
                self.nodes@.len() == base + oct,
                oct <= 8,
                self.locations@ == s0.locations@,
                forall|t: int| 0 <= t < base ==> self.nodes@[t] == s0.nodes@[t],
                forall|t: int|
                    base <= t < self.nodes@.len() ==> (#[trigger] self.nodes@[t]).parent == i
                        && self.nodes@[t].children@.len() == 0 && self.nodes@[
                        t
                    ].object_ids@.len() == 0 && self.nodes@[t].object_aabbs@.len() == 0
                        && self.nodes@[t].aabb@.min == mid@ && self.nodes@[t].aabb@.max == mid@
                        && v_bounded(self.nodes@[t].aabb@.center, COORD_CAP as int)
                        && !self.nodes@[t].cannot_split,
                s0.node_ok(i as int),
                crate::fx::abs_i(mid@.x) <= COORD_CAP as int,
                crate::fx::abs_i(mid@.y) <= COORD_CAP as int,
                crate::fx::abs_i(mid@.z) <= COORD_CAP as int,
                mid@.x == mid_between_s(s0.nodes@[i as int].aabb@.min.x, s0.nodes@[i as int].aabb@.max.x),
                mid@.y == mid_between_s(s0.nodes@[i as int].aabb@.min.y, s0.nodes@[i as int].aabb@.max.y),
                mid@.z == mid_between_s(s0.nodes@[i as int].aabb@.min.z, s0.nodes@[i as int].aabb@.max.z),
            decreases 8 - oct,
        {
            let cx: i64 = if oct >= 4 {
                self.nodes[i].aabb.max.x
            } else {
                self.nodes[i].aabb.min.x
            };
            let cy: i64 = if oct == 2 || oct == 3 || oct == 6 || oct == 7 {
                self.nodes[i].aabb.max.y
            } else {
                self.nodes[i].aabb.min.y
            };
            let cz: i64 = if oct % 2 == 1 {
                self.nodes[i].aabb.max.z
            } else {
                self.nodes[i].aabb.min.z
            };
            proof {
                lemma_mid_between(mid@.x, cx as int);
                lemma_mid_between(mid@.y, cy as int);
                lemma_mid_between(mid@.z, cz as int);
            }
            let center = IVec3 {
                x: mid_between(mid.x, cx),
                y: mid_between(mid.y, cy),
                z: mid_between(mid.z, cz),
            };
            self.nodes.push(
                Node {
                    aabb: AABB { min: mid, max: mid, center },
                    parent: i,
                    children: Vec::new(),
                    object_ids: Vec::new(),
                    object_aabbs: Vec::new(),
                    cannot_split: false,
                },
            );
            oct = oct + 1;
        }
        let ghost s_pushed = *self;
        let total = self.nodes.len();
        proof {
            assert(total == base + 8);
        }
        let mut kids: Vec<usize> = Vec::new();
        let mut c: usize = 0;
        while c < 8
            invariant
                kids@.len() == c,
                c <= 8,
                total == base + 8,
                forall|k: int| 0 <= k < c ==> kids@[k] == base + k,
            decreases 8 - c,
        {
            kids.push(base + c);
            c = c + 1;
        }
        self.nodes[i].children = kids;
        proof {
            let s1 = *self;
            self.lemma_len_fits();
            assert(forall|t: int|
                0 <= t < s1.nodes@.len() && t != i ==> s1.nodes@[t] == s_pushed.nodes@[t]);
            assert(forall|t: int|
                0 <= t < base && t != i ==> s1.nodes@[t] == s0.nodes@[t]);
            assert(forall|t: int|
                base <= t < s1.nodes@.len() ==> (#[trigger] s1.nodes@[t]).parent == i
                    && s1.nodes@[t].children@.len() == 0 && s1.nodes@[t].object_ids@.len() == 0
                    && s1.nodes@[t].object_aabbs@.len() == 0 && s1.nodes@[t].aabb@.min == mid@
                    && s1.nodes@[t].aabb@.max == mid@ && v_bounded(
                    s1.nodes@[t].aabb@.center,
                    COORD_CAP as int,
                ) && !s1.nodes@[t].cannot_split);
            assert(s1.nodes@[i as int].object_ids@ == s0.nodes@[i as int].object_ids@);
            assert(s1.nodes@[i as int].object_aabbs@ == s0.nodes@[i as int].object_aabbs@);
            assert(s1.nodes@[i as int].aabb == s0.nodes@[i as int].aabb);
            assert forall|k: int|
                0 <= k < 8 implies #[trigger] s1.nodes@[i as int].children@[k] as int == base
                + k by {
                assert(s1.nodes@[i as int].children@[k] == base + k);
            }
            assert forall|t: int|
                0 <= t < s0.nodes@.len() implies #[trigger] s1.nodes@[t].aabb
                == s0.nodes@[t].aabb by {
                if t != i {
                    assert(s1.nodes@[t] == s0.nodes@[t]);
                }
            }
            assert forall|t: int| 0 <= t < s1.nodes@.len() implies s1.node_ok(t) by {
                if t < base {
                    assert(s0.node_ok(t));
                    if t == i {
                        assert(s1.nodes@[t].children@.len() == 8);
                        assert forall|k: int|
                            0 <= k < 8 implies i < #[trigger] s1.nodes@[
                            i as int
                        ].children@[k] < s1.nodes@.len() by {
                            assert(s1.nodes@[i as int].children@[k] == base + k);
                        }
                        assert forall|k: int|
                            0 <= k < 8 implies encloses(
                            s1.nodes@[i as int].aabb@,
                            s1.nodes@[#[trigger] s1.nodes@[i as int].children@[k] as int].aabb@,
                        ) by {
                            assert(s1.nodes@[i as int].children@[k] == base + k);
                            lemma_mid_between(
                                s0.nodes@[i as int].aabb@.min.x,
                                s0.nodes@[i as int].aabb@.max.x,
                            );
                            lemma_mid_between(
                                s0.nodes@[i as int].aabb@.min.y,
                                s0.nodes@[i as int].aabb@.max.y,
                            );
                            lemma_mid_between(
                                s0.nodes@[i as int].aabb@.min.z,
                                s0.nodes@[i as int].aabb@.max.z,
                            );
                        }
                    } else {
                        assert forall|k: int|
                            0 <= k < s1.nodes@[t].children@.len() implies encloses(
                            s1.nodes@[t].aabb@,
                            s1.nodes@[#[trigger] s1.nodes@[t].children@[k] as int].aabb@,
                        ) by {
                            assert(s0.nodes@[t].children@[k] < base);
                            assert(s0.nodes@[t].children@[k] as int != i || encloses(
                                s0.nodes@[t].aabb@,
                                s0.nodes@[s0.nodes@[t].children@[k] as int].aabb@,
                            ));
                        }
                        assert(t >= 1 ==> s1.nodes@[t].parent < t
                            && s1.nodes@[s1.nodes@[t].parent as int].children@.contains(
                            t as usize,
                        )) by {
                            if t >= 1 {
                                let p = s0.nodes@[t].parent as int;
                                assert(s0.nodes@[p].children@.contains(t as usize));
                                if p == i {
                                    assert(s0.node_ok(i as int));
                                    assert(false);
                                }
                            }
                        }
                    }
                } else {
                    // a fresh leaf: a point box at the parent's midpoint
                    lemma_mid_between(
                        s0.nodes@[i as int].aabb@.min.x,
                        s0.nodes@[i as int].aabb@.max.x,
                    );
                    lemma_mid_between(
                        s0.nodes@[i as int].aabb@.min.y,
                        s0.nodes@[i as int].aabb@.max.y,
                    );
                    lemma_mid_between(
                        s0.nodes@[i as int].aabb@.min.z,
                        s0.nodes@[i as int].aabb@.max.z,
                    );
                    assert(s1.nodes@[t].parent == i && i < t);
                    assert(s1.nodes@[i as int].children@[t - base] == t as usize);
                    assert(s1.nodes@[i as int].children@.contains(t as usize));
                }
            }
            assert(s1.locations_ok()) by {
                assert forall|w: int|
                    0 <= w < s1.locations@.len() implies (#[trigger] s1.locations@[w]).1
                    < s1.nodes@.len() && s1.nodes@[s1.locations@[w].1 as int].object_ids@.contains(
                    s1.locations@[w].0,
                ) by {
                    assert(s0.locations@[w] == s1.locations@[w]);
                    let e = s0.locations@[w];
                    assert(s1.nodes@[e.1 as int].object_ids@ == s0.nodes@[
                        e.1 as int
                    ].object_ids@);
                }
                assert forall|t: int, j2: int|
                    0 <= t < s1.nodes@.len() && 0 <= j2 < s1.nodes@[t].object_ids@.len()
                        implies s1.locations@.contains(
                    ((#[trigger] s1.nodes@[t].object_ids@[j2]), t as usize),
                ) by {
                    assert(t < base);
                    assert(s1.nodes@[t].object_ids@ == s0.nodes@[t].object_ids@);
                    assert(s0.locations@.contains((s0.nodes@[t].object_ids@[j2], t as usize)));
                }
            }
            lemma_pairs_unchanged(s0, s1);
        }
        // move every object of the split node down into its octant child
        while self.nodes[i].object_ids.len() > 0
            invariant
                self.wf(),
                i < self.nodes@.len(),
                i < s0.nodes@.len(),
                self.nodes@.len() == s0.nodes@.len() + 8,
                self.nodes@[i as int].children@.len() == 8,
                forall|k: int|
                    0 <= k < 8 ==> #[trigger] self.nodes@[i as int].children@[k] as int
                        == s0.nodes@.len() + k,
                forall|k: int|
                    0 <= k < 8 ==> self.nodes@[s0.nodes@.len() + k].children@.len() == 0
                        && !(#[trigger] self.nodes@[s0.nodes@.len() + k]).cannot_split,
                forall|t: int|
                    0 <= t < s0.nodes@.len() ==> #[trigger] self.nodes@[t].aabb
                        == s0.nodes@[t].aabb,
                forall|id: u64|
                    s0.nodes@[i as int].object_ids@.contains(id) ==> self.nodes@[
                        i as int
                    ].object_ids@.contains(id) || self.stored_in_leaf(id),
                forall|id: u64, bb: A3| self.pair_in(id, bb) == s0.pair_in(id, bb),
            decreases self.nodes@[i as int].object_ids@.len(),
        {
            let ghost s_pre = *self;
            proof {
                assert forall|k: int|
                    0 <= k < 8 implies s_pre.nodes@[#[trigger] s_pre.nodes@[
                    i as int
                ].children@[k] as int].children@.len() == 0 && !s_pre.nodes@[s_pre.nodes@[
                    i as int
                ].children@[k] as int].cannot_split by {
                    assert(s_pre.nodes@[i as int].children@[k] as int == s0.nodes@.len() + k);
                }
            }
            self.move_last_object(i);
            proof {
                let s1 = *self;
                let ii = i as int;
                let moved = s_pre.nodes@[ii].object_ids@.last();
                let plen = s_pre.nodes@[ii].object_ids@.len() as int;
                assert(s1.nodes@[ii].object_ids@ == s_pre.nodes@[ii].object_ids@.take(plen - 1));
                assert forall|t: int|
                    0 <= t < s0.nodes@.len() implies #[trigger] s1.nodes@[t].aabb
                    == s0.nodes@[t].aabb by {
                    assert(!s_pre.nodes@[ii].children@.contains(t as usize)) by {
                        if s_pre.nodes@[ii].children@.contains(t as usize) {
                            let k = choose|k: int|
                                0 <= k < 8 && s_pre.nodes@[ii].children@[k] == t as usize;
                            assert(s_pre.nodes@[ii].children@[k] as int == s0.nodes@.len() + k);
                        }
                    }
                    assert(s1.nodes@[t].aabb == s_pre.nodes@[t].aabb);
                }
                assert forall|id: u64|
                    s0.nodes@[ii].object_ids@.contains(id) implies s1.nodes@[
                    ii
                ].object_ids@.contains(id) || s1.stored_in_leaf(id) by {
                    if s_pre.nodes@[ii].object_ids@.contains(id) {
                        let j = choose|j: int|
                            0 <= j < plen && s_pre.nodes@[ii].object_ids@[j] == id;
                        if j < plen - 1 {
                            assert(s1.nodes@[ii].object_ids@[j] == id);
                            assert(s1.nodes@[ii].object_ids@.contains(id));
                        } else {
                            assert(id == moved);
                            assert(s1.stored_in_leaf(id));
                        }
                    } else {
                        assert(s_pre.stored_in_leaf(id));
                        if id == moved {
                            assert(s1.stored_in_leaf(id));
                        } else {
                            assert(s1.stored_in_leaf(id));
                        }
                    }
                }
            }
        }
    }

    /// Moves the last object of node `i` into the octant child its center
    /// selects, growing the child's box to fit and re-pointing the
    /// object's table entry.
    fn move_last_object(&mut self, i: usize)
        requires
            old(self).wf(),
            i < old(self).nodes@.len(),
            old(self).nodes@[i as int].children@.len() == 8,
            old(self).nodes@[i as int].object_ids@.len() > 0,
            forall|k: int|
                0 <= k < 8 ==> old(self).nodes@[#[trigger] old(self).nodes@[
                    i as int
                ].children@[k] as int].children@.len() == 0 && !old(self).nodes@[old(
                    self,
                ).nodes@[i as int].children@[k] as int].cannot_split,
        ensures
            final(self).wf(),
            final(self).nodes@.len() == old(self).nodes@.len(),
            i < final(self).nodes@.len(),
            final(self).nodes@[i as int].children@.len() == 8,
            final(self).nodes@[i as int].object_ids@.len() == old(self).nodes@[
                i as int
            ].object_ids@.len() - 1,
            forall|id: u64, bb: A3| final(self).pair_in(id, bb) == old(self).pair_in(id, bb),
            final(self).nodes@[i as int].object_ids@ == old(self).nodes@[
                i as int
            ].object_ids@.take(old(self).nodes@[i as int].object_ids@.len() - 1),
            forall|t: int|
                0 <= t < final(self).nodes@.len() ==> final(self).nodes@[t].children@
                    == old(self).nodes@[t].children@ && final(self).nodes@[t].cannot_split
                    == old(self).nodes@[t].cannot_split,
            forall|t: int|
                0 <= t < final(self).nodes@.len() && !old(self).nodes@[
                    i as int
                ].children@.contains(t as usize) ==> final(self).nodes@[t].aabb
                    == old(self).nodes@[t].aabb,
            final(self).stored_in_leaf(old(self).nodes@[i as int].object_ids@.last()),
            forall|id: u64|
                old(self).stored_in_leaf(id) && id != old(self).nodes@[
                    i as int
                ].object_ids@.last() ==> final(self).stored_in_leaf(id),
    {
        let ghost s0 = *self;
        proof {
            assert(s0.node_ok(i as int));
            s0.lemma_len_fits();
        }
        let last = self.nodes[i].object_ids.len() - 1;
        let id = self.nodes[i].object_ids[last];
        let bb = self.nodes[i].object_aabbs[last];
        let node_box = self.nodes[i].aabb;
        let oct = Self::octant_index(&node_box, &bb);
        let child = self.nodes[i].children[oct];
        proof {
            assert(i < child < self.nodes@.len());
            assert(s0.node_ok(child as int));
            assert(encloses(s0.nodes@[i as int].aabb@, s0.nodes@[child as int].aabb@));
            assert(encloses(s0.nodes@[i as int].aabb@, bb@));
        }
        // drop from the parent
        self.nodes[i].object_ids.pop();
        self.nodes[i].object_aabbs.pop();
        // grow the child's box and take the object
        let mut grown = self.nodes[child].aabb;
        grown.fit(&bb);
        self.nodes[child].aabb = grown;
        self.nodes[child].object_ids.push(id);
        self.nodes[child].object_aabbs.push(bb);
        // re-point the table entry
        let ghost s_mid = *self;
        let k = self.find_location(id);
        proof {
            assert(s0.locations@.contains((id, i as usize))) by {
                assert(s0.locations@.contains(
                    ((s0.nodes@[i as int].object_ids@[last as int]), i as usize),
                ));
            }
            if k is None {
                let w = choose|w: int|
                    0 <= w < s0.locations@.len() && s0.locations@[w] == (id, i as usize);
                assert(s_mid.locations@[w].0 == id);
                assert(false);
            }
        }
        let kk = match k {
            Some(kk) => kk,
            None => 0,
        };
        proof {
            // the found entry is the parent's entry for this object
            let w = choose|w: int|
                0 <= w < s0.locations@.len() && s0.locations@[w] == (id, i as usize);
            if w != kk as int {
                assert(s0.locations@[w].0 == id && s0.locations@[kk as int].0 == id);
                assert(false);
            }
            assert(s0.locations@[kk as int] == (id, i as usize));
        }
        self.locations[kk] = (id, child);
        proof {
            let s2 = *self;
            let ii = i as int;
            let ci = child as int;
            let li = last as int;
            let ki = kk as int;
            let n0 = s0.nodes@[ii];
            let c0 = s0.nodes@[ci];
            assert(s2.nodes@[ii].object_ids@ == n0.object_ids@.take(li));
            assert(s2.nodes@[ii].object_aabbs@ == n0.object_aabbs@.take(li));
            assert(s2.nodes@[ci].object_ids@ == c0.object_ids@.push(id));
            assert(s2.nodes@[ci].object_aabbs@ == c0.object_aabbs@.push(bb));
            assert(s2.nodes@[ci].aabb@ == fit_s(c0.aabb@, bb@));
            assert(s2.locations@ == s0.locations@.update(ki, (id, child)));
            assert(forall|t: int|
                0 <= t < s2.nodes@.len() && t != ii && t != ci ==> s2.nodes@[t] == s0.nodes@[t]);
            // the moved id sits nowhere else
            assert forall|t: int, j2: int|
                0 <= t < s0.nodes@.len() && 0 <= j2 < s0.nodes@[t].object_ids@.len() && (t != ii
                    || j2 != li) implies #[trigger] s0.nodes@[t].object_ids@[j2] != id by {
                if s0.nodes@[t].object_ids@[j2] == id {
                    assert(s0.locations@.contains((s0.nodes@[t].object_ids@[j2], t as usize)));
                    let w2 = choose|w2: int|
                        0 <= w2 < s0.locations@.len() && s0.locations@[w2] == (id, t as usize);
                    if w2 != ki {
                        assert(s0.locations@[w2].0 == id && s0.locations@[ki].0 == id);
                        assert(false);
                    }
                    assert(t == ii);
                    assert(s0.node_ok(ii));
                    if j2 != li {
                        assert(s0.nodes@[ii].object_ids@[j2] == s0.nodes@[ii].object_ids@[li]);
                        assert(false);
                    }
                }
            }
            assert forall|t: int| 0 <= t < s2.nodes@.len() implies s2.node_ok(t) by {
                assert(s0.node_ok(t));
                let nt0 = s0.nodes@[t];
                let nt2 = s2.nodes@[t];
                if t == ii {
                    assert forall|k2: int|
                        0 <= k2 < nt2.children@.len() implies encloses(
                        nt2.aabb@,
                        s2.nodes@[#[trigger] nt2.children@[k2] as int].aabb@,
                    ) by {
                        let cc = nt2.children@[k2] as int;
                        assert(encloses(nt0.aabb@, s0.nodes@[cc].aabb@));
                        if cc == ci {
                            lemma_fit_lub(nt0.aabb@, c0.aabb@, bb@);
                        }
                    }
                } else if t == ci {
                    lemma_fit_encloses(c0.aabb@, bb@);
                    assert forall|k2: int|
                        0 <= k2 < nt2.children@.len() implies encloses(
                        nt2.aabb@,
                        s2.nodes@[#[trigger] nt2.children@[k2] as int].aabb@,
                    ) by {
                        let cc = nt2.children@[k2] as int;
                        assert(encloses(c0.aabb@, s0.nodes@[cc].aabb@));
                        assert(cc != ci);
                        lemma_encloses_trans(nt2.aabb@, c0.aabb@, s0.nodes@[cc].aabb@);
                    }
                    assert forall|j2: int|
                        0 <= j2 < nt2.object_aabbs@.len() implies encloses(
                        nt2.aabb@,
                        #[trigger] nt2.object_aabbs@[j2]@,
                    ) by {
                        if j2 < c0.object_aabbs@.len() {
                            assert(encloses(c0.aabb@, c0.object_aabbs@[j2]@));
                            lemma_encloses_trans(nt2.aabb@, c0.aabb@, c0.object_aabbs@[j2]@);
                        } else {
                            assert(nt2.object_aabbs@[j2] == bb);
                        }
                    }
                    assert forall|j1: int, j2: int|
                        0 <= j1 < j2 < nt2.object_ids@.len() implies nt2.object_ids@[j1]
                        != nt2.object_ids@[j2] by {
                        if j2 == nt2.object_ids@.len() - 1 {
                            assert(nt2.object_ids@[j1] == c0.object_ids@[j1]);
                            assert(nt2.object_ids@[j2] == id);
                        }
                    }
                    assert(t >= 1 ==> nt2.parent < t
                        && s2.nodes@[nt2.parent as int].children@.contains(t as usize)) by {
                        assert(s0.nodes@[nt0.parent as int].children@.contains(t as usize));
                        assert(s2.nodes@[nt0.parent as int].children@ == s0.nodes@[
                            nt0.parent as int
                        ].children@);
                    }
                } else {
                    assert forall|k2: int|
                        0 <= k2 < nt2.children@.len() implies encloses(
                        nt2.aabb@,
                        s2.nodes@[#[trigger] nt2.children@[k2] as int].aabb@,
                    ) by {
                        let cc = nt2.children@[k2] as int;
                        assert(encloses(nt0.aabb@, s0.nodes@[cc].aabb@));
                        if cc == ci {
                            // only the parent of the child lists it
                            assert(s0.nodes@[ci].parent == t);
                            assert(s0.node_ok(ci));
                            assert(false);
                        }
                    }
                    assert(t >= 1 ==> nt2.parent < t
                        && s2.nodes@[nt2.parent as int].children@.contains(t as usize)) by {
                        if t >= 1 {
                            assert(s0.nodes@[nt0.parent as int].children@.contains(t as usize));
                            assert(s2.nodes@[nt0.parent as int].children@ == s0.nodes@[
                                nt0.parent as int
                            ].children@);
                        }
                    }
                }
            }
            assert(s2.locations_ok()) by {
                assert forall|w: int|
                    0 <= w < s2.locations@.len() implies (#[trigger] s2.locations@[w]).1
                    < s2.nodes@.len() && s2.nodes@[s2.locations@[w].1 as int].object_ids@.contains(
                    s2.locations@[w].0,
                ) by {
                    if w == ki {
                        assert(s2.locations@[w] == (id, child));
                        assert(s2.nodes@[ci].object_ids@[c0.object_ids@.len() as int] == id);
                    } else {
                        let e = s0.locations@[w];
                        assert(s2.locations@[w] == e);
                        assert(e.0 != id) by {
                            if e.0 == id {
                                assert(s0.locations@[w].0 == id && s0.locations@[ki].0 == id);
                            }
                        }
                        let j0 = choose|j0: int|
                            0 <= j0 < s0.nodes@[e.1 as int].object_ids@.len() && s0.nodes@[
                                e.1 as int
                            ].object_ids@[j0] == e.0;
                        if e.1 as int == ii {
                            assert(j0 != li);
                            assert(s2.nodes@[ii].object_ids@[j0] == e.0);
                        } else if e.1 as int == ci {
                            assert(s2.nodes@[ci].object_ids@[j0] == e.0);
                        } else {
                            assert(s2.nodes@[e.1 as int].object_ids@[j0] == e.0);
                        }
                    }
                }
                assert forall|w1: int, w2: int|
                    0 <= w1 < w2 < s2.locations@.len() implies (#[trigger] s2.locations@[w1]).0
                    != (#[trigger] s2.locations@[w2]).0 by {
                    assert(s2.locations@[w1].0 == s0.locations@[w1].0);
                    assert(s2.locations@[w2].0 == s0.locations@[w2].0);
                }
                assert forall|t: int, j2: int|
                    0 <= t < s2.nodes@.len() && 0 <= j2 < s2.nodes@[t].object_ids@.len()
                        implies s2.locations@.contains(
                    ((#[trigger] s2.nodes@[t].object_ids@[j2]), t as usize),
                ) by {
                    let oid = s2.nodes@[t].object_ids@[j2];
                    if t == ci && j2 == s2.nodes@[t].object_ids@.len() - 1 {
                        assert(s2.locations@[ki] == (id, child));
                    } else {
                        assert(oid == s0.nodes@[t].object_ids@[j2]);
                        assert(oid != id);
                        assert(s0.locations@.contains((oid, t as usize)));
                        let w = choose|w: int|
                            0 <= w < s0.locations@.len() && s0.locations@[w] == (oid, t as usize);
                        assert(w != ki);
                        assert(s2.locations@[w] == (oid, t as usize));
                    }
                }
            }
            assert forall|id2: u64, bb2: A3|
                s2.pair_in(id2, bb2) == s0.pair_in(id2, bb2) by {
                if s2.pair_in(id2, bb2) {
                    let t = choose|t: int|
                        0 <= t < s2.nodes@.len() && s2.node_pair_in(t, id2, bb2);
                    let j2 = choose|j2: int|
                        0 <= j2 < s2.nodes@[t].object_ids@.len() && s2.nodes@[t].object_ids@[j2]
                            == id2 && s2.nodes@[t].object_aabbs@[j2]@ == bb2;
                    if t == ci && j2 == s2.nodes@[t].object_ids@.len() - 1 {
                        assert(s0.nodes@[ii].object_ids@[li] == id2);
                        assert(s0.nodes@[ii].object_aabbs@[li]@ == bb2);
                        assert(s0.node_pair_in(ii, id2, bb2));
                    } else {
                        assert(s0.nodes@[t].object_ids@[j2] == id2);
                        assert(s0.nodes@[t].object_aabbs@[j2]@ == bb2);
                        assert(s0.node_pair_in(t, id2, bb2));
                    }
                }
                if s0.pair_in(id2, bb2) {
                    let t = choose|t: int|
                        0 <= t < s0.nodes@.len() && s0.node_pair_in(t, id2, bb2);
                    let j2 = choose|j2: int|
                        0 <= j2 < s0.nodes@[t].object_ids@.len() && s0.nodes@[t].object_ids@[j2]
                            == id2 && s0.nodes@[t].object_aabbs@[j2]@ == bb2;
                    if t == ii && j2 == li {
                        assert(s2.nodes@[ci].object_ids@[c0.object_ids@.len() as int] == id2);
                        assert(s2.nodes@[ci].object_aabbs@[c0.object_ids@.len() as int]@ == bb2);
                        assert(s2.node_pair_in(ci, id2, bb2));
                    } else if t == ii {
                        assert(s2.nodes@[ii].object_ids@[j2] == id2);
                        assert(s2.nodes@[ii].object_aabbs@[j2]@ == bb2);
                        assert(s2.node_pair_in(ii, id2, bb2));
                    } else {
                        assert(s2.nodes@[t].object_ids@[j2] == id2);
                        assert(s2.nodes@[t].object_aabbs@[j2]@ == bb2);
                        assert(s2.node_pair_in(t, id2, bb2));
                    }
                }
            }
            // the moved object rests in the chosen octant child, a leaf
            // whose failed-split flag is clear
            assert(s0.nodes@[ii].children@[oct as int] == child);
            assert(s2.stored_in_leaf(id)) by {
                assert(s2.nodes@[ci].object_ids@[c0.object_ids@.len() as int] == id);
                assert(s2.nodes@[ci].object_ids@.contains(id));
                assert(s2.nodes@[ci].children@ == c0.children@);
                assert(c0.children@.len() == 0 && !c0.cannot_split);
                assert(s2.locations@[ki] == (id, child));
                assert(s2.locations@.contains((id, child)));
            }
            // every other object already resting in a leaf stays there
            assert forall|id2: u64|
                s0.stored_in_leaf(id2) && id2 != id implies s2.stored_in_leaf(id2) by {
                let n = choose|n: int|
                    0 <= n < s0.nodes@.len() && (#[trigger] s0.nodes@[n]).object_ids@.contains(
                        id2,
                    ) && s0.nodes@[n].children@.len() == 0 && s0.locations@.contains(
                        (id2, n as usize),
                    ) && (s0.nodes@[n].cannot_split ==> s0.nodes@[n].object_ids@.len()
                        > SPLIT_THRESHOLD as int);
                assert(n != ii);
                let w = choose|w: int|
                    0 <= w < s0.locations@.len() && s0.locations@[w] == (id2, n as usize);
                assert(w != ki) by {
                    if w == ki {
                        assert(s0.locations@[ki] == (id, i as usize));
                    }
                }
                assert(s2.locations@[w] == (id2, n as usize));
                assert(s2.locations@.contains((id2, n as usize)));
                let j2 = choose|j2: int|
                    0 <= j2 < s0.nodes@[n].object_ids@.len() && s0.nodes@[n].object_ids@[j2]
                        == id2;
                if n == ci {
                    assert(s2.nodes@[n].object_ids@[j2] == id2);
                } else {
                    assert(s2.nodes@[n].object_ids@ == s0.nodes@[n].object_ids@);
                    assert(s2.nodes@[n].object_ids@[j2] == id2);
                }
                assert(s2.nodes@[n].object_ids@.contains(id2));
                assert(s2.nodes@[n].children@ == s0.nodes@[n].children@);
                assert(s2.nodes@[n].cannot_split == s0.nodes@[n].cannot_split);
                assert(s2.nodes@[n].cannot_split ==> s2.nodes@[n].object_ids@.len()
                    > SPLIT_THRESHOLD as int);
            }
        }
    }

    /// Removes an object wherever it is stored; a no-op when absent.
    /// Boxes are never shrunk, so the enclosure invariant is untouched.
    pub fn remove(&mut self, obj: u64) -> (found: bool)
        requires
            old(self).wf(),
        ensures
            final(self).wf(),
            found == old(self).has_id(obj),
            !final(self).has_id(obj),
            forall|id: u64, bb: A3|
                final(self).pair_in(id, bb) <==> (old(self).pair_in(id, bb) && id != obj),
    {
        let ghost s0 = *self;
        let loc = self.find_location(obj);
        let k: usize;
        match loc {
            None => {
                proof {
                    if s0.has_id(obj) {
                        let (i, j) = choose|i: int, j: int|
                            0 <= i < s0.nodes@.len() && 0 <= j < s0.nodes@[i].object_ids@.len()
                                && s0.nodes@[i].object_ids@[j] == obj;
                        assert(s0.locations@.contains((s0.nodes@[i].object_ids@[j], i as usize)));
                        let w = choose|w: int|
                            0 <= w < s0.locations@.len() && s0.locations@[w] == (obj, i as usize);
                        assert(s0.locations@[w].0 == obj);
                    }
                }
                return false;
            },
            Some(kf) => {
                k = kf;
            },
        }
        proof {
            self.lemma_key_has_id(k as int);
        }
        let ni = self.locations[k].1;
        proof {
            assert(s0.node_ok(ni as int));
        }
        let j = self.find_in_node(ni, obj);
        self.locations.remove(k);
        self.nodes[ni].object_ids.remove(j);
        self.nodes[ni].object_aabbs.remove(j);
        proof {
            let s2 = *self;
            let nii = ni as int;
            let jj = j as int;
            let kk = k as int;
            s0.lemma_len_fits();
            assert(s0.node_ok(nii));
            assert(s2.nodes@[nii].object_ids@ == s0.nodes@[nii].object_ids@.remove(jj));
            assert(s2.nodes@[nii].object_aabbs@ == s0.nodes@[nii].object_aabbs@.remove(jj));
            assert(s2.locations@ == s0.locations@.remove(kk));
            assert(forall|t: int|
                0 <= t < s2.nodes@.len() && t != nii ==> s2.nodes@[t] == s0.nodes@[t]);
            // the object sits only at (ni, j): across nodes via the table,
            // within the node via distinctness
            assert forall|t: int, j2: int|
                0 <= t < s0.nodes@.len() && 0 <= j2 < s0.nodes@[t].object_ids@.len() && (t != nii
                    || j2 != jj) implies #[trigger] s0.nodes@[t].object_ids@[j2] != obj by {
                if s0.nodes@[t].object_ids@[j2] == obj {
                    assert(s0.locations@.contains((s0.nodes@[t].object_ids@[j2], t as usize)));
                    let w = choose|w: int|
                        0 <= w < s0.locations@.len() && s0.locations@[w] == (obj, t as usize);
                    assert(s0.locations@[kk].0 == obj);
                    if w != kk {
                        assert(false);
                    }
                    assert(t == nii);
                    assert(s0.node_ok(nii));
                    assert(s0.nodes@[nii].object_ids@[jj] == obj);
                    if j2 != jj {
                        assert(false);
                    }
                }
            }
            assert forall|t: int| 0 <= t < s2.nodes@.len() implies s2.node_ok(t) by {
                assert(s0.node_ok(t));
                let n0 = s0.nodes@[t];
                let n2 = s2.nodes@[t];
                if t == nii {
                    assert forall|j1: int, j2: int|
                        0 <= j1 < j2 < n2.object_ids@.len() implies n2.object_ids@[j1]
                        != n2.object_ids@[j2] by {
                        assert(n2.object_ids@[j1] == if j1 < jj {
                            n0.object_ids@[j1]
                        } else {
                            n0.object_ids@[j1 + 1]
                        });
                        assert(n2.object_ids@[j2] == if j2 < jj {
                            n0.object_ids@[j2]
                        } else {
                            n0.object_ids@[j2 + 1]
                        });
                    }
                    assert forall|j2: int|
                        0 <= j2 < n2.object_aabbs@.len() implies encloses(
                        n2.aabb@,
                        #[trigger] n2.object_aabbs@[j2]@,
                    ) by {
                        assert(n2.object_aabbs@[j2] == if j2 < jj {
                            n0.object_aabbs@[j2]
                        } else {
                            n0.object_aabbs@[j2 + 1]
                        });
                    }
                    assert forall|kc: int|
                        0 <= kc < n2.children@.len() implies encloses(
                        n2.aabb@,
                        s2.nodes@[#[trigger] n2.children@[kc] as int].aabb@,
                    ) by {
                        assert(encloses(n0.aabb@, s0.nodes@[n0.children@[kc] as int].aabb@));
                    }
                } else {
                    assert(n2 == n0);
                    assert forall|kc: int|
                        0 <= kc < n2.children@.len() implies encloses(
                        n2.aabb@,
                        s2.nodes@[#[trigger] n2.children@[kc] as int].aabb@,
                    ) by {
                        assert(encloses(n0.aabb@, s0.nodes@[n0.children@[kc] as int].aabb@));
                    }
                }
            }
            assert(s2.locations_ok()) by {
                assert forall|w: int|
                    0 <= w < s2.locations@.len() implies (#[trigger] s2.locations@[w]).1
                    < s2.nodes@.len() && s2.nodes@[s2.locations@[w].1 as int].object_ids@.contains(
                    s2.locations@[w].0,
                ) by {
                    let e = s2.locations@[w];
                    let w0: int = if w < kk {
                        w
                    } else {
                        w + 1
                    };
                    assert(e == s0.locations@[w0]);
                    assert(w0 != kk);
                    let j0 = choose|j0: int|
                        0 <= j0 < s0.nodes@[e.1 as int].object_ids@.len() && s0.nodes@[
                            e.1 as int
                        ].object_ids@[j0] == e.0;
                    if e.1 as int == nii {
                        assert(e.0 != obj) by {
                            if e.0 == obj {
                                assert(s0.locations@[w0].0 == obj);
                                assert(s0.locations@[kk].0 == obj);
                            }
                        }
                        assert(j0 != jj);
                        if j0 < jj {
                            assert(s2.nodes@[nii].object_ids@[j0] == e.0);
                        } else {
                            assert(s2.nodes@[nii].object_ids@[j0 - 1] == e.0);
                        }
                    } else {
                        assert(s2.nodes@[e.1 as int].object_ids@[j0] == e.0);
                    }
                }
                assert forall|w1: int, w2: int|
                    0 <= w1 < w2 < s2.locations@.len() implies (#[trigger] s2.locations@[w1]).0
                    != (#[trigger] s2.locations@[w2]).0 by {
                    let w10: int = if w1 < kk {
                        w1
                    } else {
                        w1 + 1
                    };
                    let w20: int = if w2 < kk {
                        w2
                    } else {
                        w2 + 1
                    };
                    assert(s2.locations@[w1] == s0.locations@[w10]);
                    assert(s2.locations@[w2] == s0.locations@[w20]);
                }
                assert forall|t: int, j2: int|
                    0 <= t < s2.nodes@.len() && 0 <= j2 < s2.nodes@[t].object_ids@.len()
                        implies s2.locations@.contains(
                    ((#[trigger] s2.nodes@[t].object_ids@[j2]), t as usize),
                ) by {
                    let id = s2.nodes@[t].object_ids@[j2];
                    let j0: int = if t == nii && j2 >= jj {
                        j2 + 1
                    } else {
                        j2
                    };
                    assert(id == s0.nodes@[t].object_ids@[j0]);
                    assert(id != obj);
                    assert(s0.locations@.contains((id, t as usize)));
                    let w0 = choose|w0: int|
                        0 <= w0 < s0.locations@.len() && s0.locations@[w0] == (id, t as usize);
                    assert(w0 != kk);
                    if w0 < kk {
                        assert(s2.locations@[w0] == (id, t as usize));
                    } else {
                        assert(s2.locations@[w0 - 1] == (id, t as usize));
                    }
                }
            }
            assert(!s2.has_id(obj)) by {
                if s2.has_id(obj) {
                    let (t, j2) = choose|t: int, j2: int|
                        0 <= t < s2.nodes@.len() && 0 <= j2 < s2.nodes@[t].object_ids@.len()
                            && s2.nodes@[t].object_ids@[j2] == obj;
                    let j0: int = if t == nii && j2 >= jj {
                        j2 + 1
                    } else {
                        j2
                    };
                    assert(s0.nodes@[t].object_ids@[j0] == obj);
                }
            }
            assert forall|id: u64, bb: A3|
                s2.pair_in(id, bb) <==> (s0.pair_in(id, bb) && id != obj) by {
                if s2.pair_in(id, bb) {
                    let t = choose|t: int| 0 <= t < s2.nodes@.len() && s2.node_pair_in(t, id, bb);
                    let j2 = choose|j2: int|
                        0 <= j2 < s2.nodes@[t].object_ids@.len() && s2.nodes@[t].object_ids@[j2]
                            == id && s2.nodes@[t].object_aabbs@[j2]@ == bb;
                    let j0: int = if t == nii && j2 >= jj {
                        j2 + 1
                    } else {
                        j2
                    };
                    assert(s0.nodes@[t].object_ids@[j0] == id);
                    assert(s0.nodes@[t].object_aabbs@[j0]@ == bb);
                    assert(s0.node_pair_in(t, id, bb));
                    assert(id != obj);
                }
                if s0.pair_in(id, bb) && id != obj {
                    let t = choose|t: int| 0 <= t < s0.nodes@.len() && s0.node_pair_in(t, id, bb);
                    let j0 = choose|j0: int|
                        0 <= j0 < s0.nodes@[t].object_ids@.len() && s0.nodes@[t].object_ids@[j0]
                            == id && s0.nodes@[t].object_aabbs@[j0]@ == bb;
                    if t == nii {
                        assert(j0 != jj);
                        if j0 < jj {
                            assert(s2.nodes@[t].object_ids@[j0] == id);
                            assert(s2.nodes@[t].object_aabbs@[j0]@ == bb);
                            assert(s2.node_pair_in(t, id, bb));
                        } else {
                            assert(s2.nodes@[t].object_ids@[j0 - 1] == id);
                            assert(s2.nodes@[t].object_aabbs@[j0 - 1]@ == bb);
                            assert(s2.node_pair_in(t, id, bb));
                        }
                    } else {
                        assert(s2.nodes@[t].object_ids@[j0] == id);
                        assert(s2.nodes@[t].object_aabbs@[j0]@ == bb);
                        assert(s2.node_pair_in(t, id, bb));
                    }
                }
            }
        }
        true
    }
}

/// A step halfway from `a` toward `b`, truncated toward zero.
pub open spec fn mid_between_s(a: int, b: int) -> int {
    a + crate::fx::div_t(b - a, 2)
}

/// The halfway point lies between its endpoints.
proof fn lemma_mid_between(a: int, b: int)
    ensures
        a <= b ==> a <= mid_between_s(a, b) <= b,
        b <= a ==> b <= mid_between_s(a, b) <= a,
{
    let d = b - a;
    if d >= 0 {
        vstd::arithmetic::div_mod::lemma_div_pos_is_pos(d, 2);
        vstd::arithmetic::div_mod::lemma_div_nonincreasing(d, 2);
    } else {
        vstd::arithmetic::div_mod::lemma_div_pos_is_pos(-d, 2);
        vstd::arithmetic::div_mod::lemma_div_nonincreasing(-d, 2);
    }
}

/// Executable halfway point.
fn mid_between(a: i64, b: i64) -> (r: i64)
    requires
        crate::fx::abs_i(a as int) <= COORD_CAP as int,
        crate::fx::abs_i(b as int) <= COORD_CAP as int,
    ensures
        r == mid_between_s(a as int, b as int),
{
    proof {
        lemma_mid_between(a as int, b as int);
        crate::fx::lemma_div_t_le(b - a, 2);
    }
    a + crate::fx::div_trunc(b - a, 2)
}

/// Two states whose nodes hold the same object lists (the second perhaps
/// extended by empty nodes) hold the same object/box pairs.
proof fn lemma_pairs_unchanged(s0: SpatialAccelerationStructure, s1: SpatialAccelerationStructure)
    requires
        s1.nodes@.len() >= s0.nodes@.len(),
        forall|t: int|
            0 <= t < s0.nodes@.len() ==> #[trigger] s1.nodes@[t].object_ids@ == s0.nodes@[
                t
            ].object_ids@ && s1.nodes@[t].object_aabbs@ == s0.nodes@[t].object_aabbs@,
        forall|t: int|
            s0.nodes@.len() <= t < s1.nodes@.len() ==> (#[trigger] s1.nodes@[
                t
            ]).object_ids@.len() == 0,
    ensures
        forall|id: u64, bb: A3| s1.pair_in(id, bb) == s0.pair_in(id, bb),
{
    assert forall|id: u64, bb: A3| s1.pair_in(id, bb) == s0.pair_in(id, bb) by {
        if s1.pair_in(id, bb) {
            let t = choose|t: int| 0 <= t < s1.nodes@.len() && s1.node_pair_in(t, id, bb);
            let j = choose|j: int|
                0 <= j < s1.nodes@[t].object_ids@.len() && s1.nodes@[t].object_ids@[j] == id
                    && s1.nodes@[t].object_aabbs@[j]@ == bb;
            assert(t < s0.nodes@.len());
            assert(s1.nodes@[t].object_ids@ == s0.nodes@[t].object_ids@);
            assert(s1.nodes@[t].object_aabbs@ == s0.nodes@[t].object_aabbs@);
            assert(s0.nodes@[t].object_ids@[j] == id && s0.nodes@[t].object_aabbs@[j]@ == bb);
            assert(s0.node_pair_in(t, id, bb));
        }
        if s0.pair_in(id, bb) {
            let t = choose|t: int| 0 <= t < s0.nodes@.len() && s0.node_pair_in(t, id, bb);
            let j = choose|j: int|
                0 <= j < s0.nodes@[t].object_ids@.len() && s0.nodes@[t].object_ids@[j] == id
                    && s0.nodes@[t].object_aabbs@[j]@ == bb;
            assert(s1.nodes@[t].object_ids@ == s0.nodes@[t].object_ids@);
            assert(s1.nodes@[t].object_aabbs@ == s0.nodes@[t].object_aabbs@);
            assert(s1.nodes@[t].object_ids@[j] == id && s1.nodes@[t].object_aabbs@[j]@ == bb);
            assert(s1.node_pair_in(t, id, bb));
        }
    }
}

/// Octant selection: sign of the object's center against the node's
/// center on each axis, packed as three bits.
pub open spec fn octant_of(node_box: A3, bb: A3) -> int {
    let x: int = if node_box.center.x > bb.center.x {
        0
    } else {
        1
    };
    let y: int = if node_box.center.y > bb.center.y {
        0
    } else {
        1
    };
    let z: int = if node_box.center.z > bb.center.z {
        0
    } else {
        1
    };
    x * 4 + y * 2 + z
}

} // verus!
