//! The recursion tree: one frame per invocation of the sort.

use vstd::prelude::*;

verus! {

/// One invocation of the sort over the inclusive index range `left..=right`.
pub struct Frame {
    pub left: isize,
    pub right: isize,
    pub full: Option<FullFrame>,
}

/// What a frame records when its range holds more than one element.
pub struct FullFrame {
    /// The whole array right after partitioning, before the recursive calls
    pub result: Vec<i64>,
    /// The final pivot index
    pub pivot: isize,
    /// The two child frames
    pub children: Box<(Frame, Frame)>,
}

/// A frame and everything below it, as a mathematical value.
pub enum Tree {
    Leaf { left: int, right: int },
    Internal {
        left: int,
        right: int,
        snapshot: Seq<i64>,
        pivot: int,
        child0: Box<Tree>,
        child1: Box<Tree>,
    },
}

impl Tree {
    /// First index of the root frame's range.
    pub open spec fn left(self) -> int {
        match self {
            Tree::Leaf { left, .. } => left,
            Tree::Internal { left, .. } => left,
        }
    }

    /// Last index of the root frame's range.
    pub open spec fn right(self) -> int {
        match self {
            Tree::Leaf { right, .. } => right,
            Tree::Internal { right, .. } => right,
        }
    }

    /// Number of frames in the tree.
    pub open spec fn count(self) -> nat
        decreases self,
    {
        match self {
            Tree::Leaf { .. } => 1,
            Tree::Internal { child0, child1, .. } => 1 + child0.count() + child1.count(),
        }
    }

    /// Greatest number of frames on a path from the root down to a leaf.
    pub open spec fn depth(self) -> nat
        decreases self,
    {
        match self {
            Tree::Leaf { .. } => 1,
            Tree::Internal { child0, child1, .. } => if child0.depth() >= child1.depth() {
                1 + child0.depth()
            } else {
                1 + child1.depth()
            },
        }
    }

    /// The frames in the order of a depth-first walk: a frame, then the whole
    /// subtree of its first child, then the whole subtree of its second.
    pub open spec fn preorder(self) -> Seq<Tree>
        decreases self,
    {
        match self {
            Tree::Leaf { .. } => seq![self],
            Tree::Internal { child0, child1, .. } => seq![self] + child0.preorder()
                + child1.preorder(),
        }
    }

    /// What holds of the root frame of a finished tree over an array of `len`
    /// elements, whatever stands below it.
    ///
    /// A frame is a leaf exactly when `right <= left`. Otherwise its range
    /// lies inside the array, its snapshot is as long as the array, the pivot
    /// lies in the range, in the snapshot nothing before the pivot in the
    /// range is above it and nothing after it in the range is below it, and
    /// the children cover `left..=pivot - 1` and `pivot + 1..=right`.
    pub open spec fn root_well_formed(self, len: nat) -> bool {
        match self {
            Tree::Leaf { left, right } => right <= left,
            Tree::Internal { left, right, snapshot, pivot, child0, child1 } => {
                &&& left < right
                &&& 0 <= left
                &&& right < len
                &&& snapshot.len() == len
                &&& left <= pivot <= right
                &&& forall|k: int| left <= k < pivot ==> snapshot[k] <= snapshot[pivot]
                &&& forall|k: int| pivot < k <= right ==> snapshot[k] >= snapshot[pivot]
                &&& child0.left() == left
                &&& child0.right() == pivot - 1
                &&& child1.left() == pivot + 1
                &&& child1.right() == right
            },
        }
    }

    /// [`Tree::root_well_formed`] of every frame in the tree.
    pub open spec fn well_formed(self, len: nat) -> bool
        decreases self,
    {
        &&& self.root_well_formed(len)
        &&& match self {
            Tree::Leaf { .. } => true,
            Tree::Internal { child0, child1, .. } => child0.well_formed(len) && child1.well_formed(
                len,
            ),
        }
    }
}

impl Tree {
    /// A well-formed tree over a range of `n >= 1` indices has at most
    /// `2 * n - 1` frames, a single one over an empty range, and is never
    /// deeper than it has frames.
    pub proof fn lemma_size(self, len: nat)
        requires
            self.well_formed(len),
        ensures
            self.right() < self.left() ==> self.count() == 1,
            self.left() <= self.right() ==> self.count() <= 2 * (self.right() - self.left() + 1)
                - 1,
            1 <= self.depth() <= self.count(),
        decreases self,
    {
        match self {
            Tree::Leaf { .. } => {},
            Tree::Internal { child0, child1, .. } => {
                child0.lemma_size(len);
                child1.lemma_size(len);
            },
        }
    }
}

impl View for Frame {
    type V = Tree;

    open spec fn view(&self) -> Tree
        decreases self,
    {
        match self.full {
            None => Tree::Leaf { left: self.left as int, right: self.right as int },
            Some(full) => Tree::Internal {
                left: self.left as int,
                right: self.right as int,
                snapshot: full.result@,
                pivot: full.pivot as int,
                child0: Box::new(full.children.0.view()),
                child1: Box::new(full.children.1.view()),
            },
        }
    }
}

/// The trees of a sequence of frames.
pub open spec fn trees(frames: Seq<&Frame>) -> Seq<Tree> {
    frames.map_values(|frame: &Frame| frame@)
}

impl Frame {
    /// A frame without payload and without children.
    pub fn new_empty(left: isize, right: isize) -> (frame: Frame)
        ensures
            frame@ == (Tree::Leaf { left: left as int, right: right as int }),
    {
        Frame { left, right, full: None }
    }

    /// A frame with its snapshot, its pivot index and its two children.
    pub fn new(
        left: isize,
        right: isize,
        result: Vec<i64>,
        pivot: isize,
        children: Box<(Frame, Frame)>,
    ) -> (frame: Frame)
        ensures
            frame@ == (Tree::Internal {
                left: left as int,
                right: right as int,
                snapshot: result@,
                pivot: pivot as int,
                child0: Box::new(children.0@),
                child1: Box::new(children.1@),
            }),
    {
        Frame { left, right, full: Some(FullFrame { result, pivot, children }) }
    }

    /// Counts the frames of the tree rooted here.
    pub fn count(&self) -> (frames: usize)
        requires
            self@.count() <= usize::MAX,
        ensures
            frames == self@.count(),
        decreases self,
    {
        match &self.full {
            Some(full) => {
                let first: usize = full.children.0.count();
                let second: usize = full.children.1.count();
                1 + first + second
            },
            None => 1,
        }
    }

    /// The highest recursion depth reached below `depth` enclosing frames.
    pub fn max_depth(&self, depth: usize) -> (deepest: usize)
        requires
            depth + self@.depth() <= usize::MAX,
        ensures
            deepest == depth + self@.depth(),
        decreases self,
    {
        let depth: usize = depth + 1;
        match &self.full {
            Some(full) => {
                let first: usize = full.children.0.max_depth(depth);
                let second: usize = full.children.1.max_depth(depth);
                if first >= second {
                    first
                } else {
                    second
                }
            },
            None => depth,
        }
    }

    /// Visits the frames depth-first: this frame, then the whole subtree of
    /// its first child, then the whole subtree of its second.
    pub fn walk(&self) -> (visited: Vec<&Frame>)
        ensures
            trees(visited@) == self@.preorder(),
    {
        let mut visited: Vec<&Frame> = Vec::new();
        self.walk_into(&mut visited);
        assert(trees(visited@) =~= self@.preorder());
        visited
    }

    fn walk_into<'a>(&'a self, visited: &mut Vec<&'a Frame>)
        ensures
            trees(final(visited)@) == trees(old(visited)@) + self@.preorder(),
        decreases self,
    {
        let ghost before = trees(visited@);
        visited.push(self);
        assert(trees(visited@) =~= before.push(self@));
        if let Some(full) = &self.full {
            full.children.0.walk_into(visited);
            full.children.1.walk_into(visited);
        }
        assert(trees(visited@) =~= before + self@.preorder());
    }
}

} // verus!
