use vstd::prelude::*;

use crate::point::{lies_within, Vectorial};

verus! {

/// A node of a spatial tree whose branching nodes own `D` children.
///
/// `T` is the point type, `U` the metadata and `V` the payload.
#[derive(Debug)]
pub enum DNode<const D: usize, T: Vectorial, U, V> {
    /// No data: the initial state and a valid insertion target.
    Empty,
    /// A branching node: its region, aggregate metadata and payload, and its children.
    Node { area: (T, T), metadata: U, data: V, childs: Vec<DNode<D, T, U, V>> },
    /// One stored point with its region, metadata and payload.
    Leaf { area: (T, T), position: T, metadata: U, data: V },
}

impl<const D: usize, T: Vectorial, U: Clone, V: Clone> DNode<D, T, U, V> {
    /// Every branching node in the tree owns exactly `D` children.
    pub open spec fn wf(self) -> bool
        decreases self,
    {
        match self {
            DNode::Empty => true,
            DNode::Leaf { .. } => true,
            DNode::Node { childs, .. } => {
                &&& childs.len() == D
                &&& forall|i: int| 0 <= i < childs.len() ==> (#[trigger] childs[i]).wf()
            },
        }
    }

    /// Every leaf in the tree stores a position inside its own region.
    pub open spec fn leaves_placed(self) -> bool
        decreases self,
    {
        match self {
            DNode::Empty => true,
            DNode::Leaf { area, position, .. } => lies_within(position, area),
            DNode::Node { childs, .. } => forall|i: int|
                0 <= i < childs.len() ==> (#[trigger] childs[i]).leaves_placed(),
        }
    }

    /// `r` is a copy of the leaf `self`: same region and position, cloned
    /// metadata and payload.
    pub open spec fn copied_to(self, r: Self) -> bool {
        &&& self matches DNode::Leaf { area, position, metadata, data }
        &&& r matches DNode::Leaf { area: ra, position: rp, metadata: rm, data: rd }
        &&& ra == area
        &&& rp == position
        &&& cloned(metadata, rm)
        &&& cloned(data, rd)
    }

    /// The node is not empty and its region contains `p`: insertion descends into it.
    pub open spec fn receives(self, p: T) -> bool {
        match self {
            DNode::Empty => false,
            DNode::Leaf { area, .. } => lies_within(p, area),
            DNode::Node { area, .. } => lies_within(p, area),
        }
    }

    /// `r` is what inserting the leaf `n` into `self` gives.
    ///
    /// An empty node becomes a copy of `n`. A leaf is promoted: it becomes a
    /// branching node over the same region with cloned metadata and payload,
    /// whose first child is the former leaf and whose other children are empty;
    /// `n` itself is not stored by the promotion. A branching node keeps its
    /// region, metadata and payload, and every child whose region contains the
    /// position of `n` receives `n` in turn; the other children stay as they are.
    pub open spec fn inserted(self, n: Self, r: Self) -> bool
        decreases self,
    {
        match self {
            DNode::Empty => n.copied_to(r),
            DNode::Leaf { area, metadata, data, .. } => {
                &&& r matches DNode::Node { area: ra, metadata: rm, data: rd, childs: rc }
                &&& ra == area
                &&& cloned(metadata, rm)
                &&& cloned(data, rd)
                &&& rc.len() == D
                &&& D > 0 ==> rc[0] == self
                &&& forall|i: int| 1 <= i < D ==> (#[trigger] rc[i]) is Empty
            },
            DNode::Node { area, metadata, data, childs } => {
                &&& r matches DNode::Node { area: ra, metadata: rm, data: rd, childs: rc }
                &&& ra == area
                &&& rm == metadata
                &&& rd == data
                &&& rc.len() == childs.len()
                &&& forall|i: int|
                    0 <= i < childs.len() ==> if (#[trigger] childs[i]).receives(
                        n->Leaf_position,
                    ) {
                        childs[i].inserted(n, rc[i])
                    } else {
                        rc[i] == childs[i]
                    }
            },
        }
    }

    /// A copy of the leaf `n`, with its metadata and payload cloned.
    fn copy_leaf(n: &Self) -> (r: Self)
        requires
            n is Leaf,
        ensures
            n.copied_to(r),
    {
        match n {
            DNode::Leaf { area, position, metadata, data } => DNode::Leaf {
                area: *area,
                position: *position,
                metadata: metadata.clone(),
                data: data.clone(),
            },
            _ => {
                proof {
                    assert(false);
                }
                DNode::Empty
            },
        }
    }

    /// Inserts the point held by the leaf `n` into the tree.
    ///
    /// An empty tree becomes a copy of `n`; a leaf is promoted to a branching
    /// node whose first child is the former leaf; a branching node hands `n` to
    /// every child whose region contains the position of `n`, in index order.
    /// `n` must be a leaf.
    pub fn insert(&mut self, n: &Self)
        requires
            n is Leaf,
        ensures
            old(self).inserted(*n, *final(self)),
            old(self).wf() ==> final(self).wf(),
            old(self).leaves_placed() && n.leaves_placed() ==> final(self).leaves_placed(),
        decreases *old(self),
    {
        let p = match n {
            DNode::Leaf { position, .. } => *position,
            _ => {
                proof {
                    assert(false);
                }
                return ;
            },
        };
        match self {
            DNode::Empty => {
                *self = Self::copy_leaf(n);
            },
            DNode::Leaf { area, metadata, data, .. } => {
                let region = *area;
                let m = metadata.clone();
                let d = data.clone();
                let mut former = DNode::Empty;
                std::mem::swap(self, &mut former);
                let mut childs: Vec<Self> = Vec::new();
                if D > 0 {
                    childs.push(former);
                }
                while childs.len() < D
                    invariant
                        childs.len() <= D,
                        D > 0 ==> childs.len() >= 1,
                        D > 0 ==> childs[0] == *old(self),
                        forall|i: int| 1 <= i < childs.len() ==> (#[trigger] childs[i]) is Empty,
                    decreases D - childs.len(),
                {
                    childs.push(DNode::Empty);
                }
                proof {
                    assert forall|i: int| 0 <= i < childs.len() implies (#[trigger] childs[i]).wf()
                        && (old(self).leaves_placed() ==> childs[i].leaves_placed()) by {
                        if i >= 1 {
                            assert(childs[i] is Empty);
                        }
                    }
                }
                *self = DNode::Node { area: region, metadata: m, data: d, childs };
            },
            DNode::Node { childs, .. } => {
                let ghost before = *childs;
                assert(before == old(self)->Node_childs);
                let mut i: usize = 0;
                while i < childs.len()
                    invariant
                        *old(self) is Node,
                        before == old(self)->Node_childs,
                        childs.len() == before.len(),
                        i <= childs.len(),
                        n is Leaf,
                        p == n->Leaf_position,
                        forall|j: int|
                            i <= j < childs.len() ==> (#[trigger] childs[j]) == before[j],
                        forall|j: int|
                            0 <= j < i ==> if (#[trigger] before[j]).receives(p) {
                                before[j].inserted(*n, childs[j])
                            } else {
                                childs[j] == before[j]
                            },
                        forall|j: int| 0 <= j < i ==> (#[trigger] before[j]).wf() ==> childs[j].wf(),
                        forall|j: int|
                            0 <= j < i ==> (#[trigger] before[j]).leaves_placed()
                                && n.leaves_placed() ==> childs[j].leaves_placed(),
                    decreases childs.len() - i,
                {
                    let hit = match &childs[i] {
                        DNode::Empty => false,
                        DNode::Leaf { area, .. } => p.within(*area),
                        DNode::Node { area, .. } => p.within(*area),
                    };
                    if hit {
                        assert(decreases_to!(*old(self) => old(self)->Node_childs));
                        assert(decreases_to!(before => before[i as int]));
                        childs[i].insert(n);
                    }
                    i = i + 1;
                }
                proof {
                    if old(self).wf() {
                        assert forall|j: int| 0 <= j < childs.len() implies (#[trigger] childs[j]).wf() by {
                            assert(before[j].wf());
                        }
                    }
                    if old(self).leaves_placed() && n.leaves_placed() {
                        assert forall|j: int| 0 <= j < childs.len() implies (#[trigger] childs[j]).leaves_placed() by {
                            assert(before[j].leaves_placed());
                        }
                    }
                }
            },
        }
    }
}

/// One insertion of a leaf whose position lies in its region keeps every
/// leaf of the tree inside its own region.
pub proof fn lemma_insert_keeps_leaves_placed<const D: usize, T: Vectorial, U: Clone, V: Clone>(
    t: DNode<D, T, U, V>,
    n: DNode<D, T, U, V>,
    r: DNode<D, T, U, V>,
)
    requires
        n is Leaf,
        n.leaves_placed(),
        t.leaves_placed(),
        t.inserted(n, r),
    ensures
        r.leaves_placed(),
    decreases t,
{
    match t {
        DNode::Empty => {},
        DNode::Leaf { .. } => {
            let rc = r->Node_childs;
            assert forall|i: int| 0 <= i < rc.len() implies (#[trigger] rc[i]).leaves_placed() by {
                if i >= 1 {
                    assert(rc[i] is Empty);
                }
            }
        },
        DNode::Node { childs, .. } => {
            let rc = r->Node_childs;
            assert forall|i: int| 0 <= i < rc.len() implies (#[trigger] rc[i]).leaves_placed() by {
                assert(childs[i].leaves_placed());
                if childs[i].receives(n->Leaf_position) {
                    assert(decreases_to!(t => t->Node_childs));
                    lemma_insert_keeps_leaves_placed(childs[i], n, rc[i]);
                }
            }
        },
    }
}

/// After any sequence of insertions of leaves whose positions lie in their
/// regions, starting from a tree whose leaves are placed (the empty tree, for
/// one), every leaf's position lies within that leaf's own region.
pub proof fn lemma_insertions_keep_leaves_placed<
    const D: usize,
    T: Vectorial,
    U: Clone,
    V: Clone,
>(trees: Seq<DNode<D, T, U, V>>, leaves: Seq<DNode<D, T, U, V>>)
    requires
        trees.len() == leaves.len() + 1,
        trees[0].leaves_placed(),
        forall|k: int|
            0 <= k < leaves.len() ==> {
                &&& (#[trigger] leaves[k]) is Leaf
                &&& leaves[k].leaves_placed()
                &&& trees[k].inserted(leaves[k], trees[k + 1])
            },
    ensures
        forall|k: int| 0 <= k < trees.len() ==> (#[trigger] trees[k]).leaves_placed(),
    decreases leaves.len(),
{
    if leaves.len() > 0 {
        let m = leaves.len() - 1;
        lemma_insertions_keep_leaves_placed(trees.drop_last(), leaves.drop_last());
        assert(trees.drop_last()[m] == trees[m]);
        assert(leaves[m] is Leaf);
        lemma_insert_keeps_leaves_placed(trees[m], leaves[m], trees[m + 1]);
        assert forall|k: int| 0 <= k < trees.len() implies (#[trigger] trees[k]).leaves_placed() by {
            if k < trees.len() - 1 {
                assert(trees.drop_last()[k] == trees[k]);
            }
        }
    }
}

} // verus!
