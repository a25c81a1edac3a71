//! Laying the finished tree out as the rows of a diagram.
//!
//! The walk is depth-first: a frame, then the whole subtree of its first
//! child, then the whole subtree of its second. Every visited frame becomes
//! one row, one step lower than the row before it and indented by its depth.
//! What a row holds are plain numbers; turning them into markup is left to
//! whoever displays the diagram.

use crate::frame::{Frame, Tree};
use vstd::prelude::*;
use vstd::string::StringExecFns;

verus! {

/// Horizontal position of the label of a frame at depth 0.
pub const LABEL_LEFT: usize = 10;

/// How far one level of depth moves a label to the right.
pub const LABEL_INDENT: usize = 25;

/// Horizontal position of the column of array index 0.
pub const COLUMN_LEFT: usize = 400;

/// Horizontal distance between the columns of two neighbouring indices.
pub const COLUMN_STEP: usize = 50;

/// Vertical position of the first row.
pub const FIRST_ROW: u64 = 25;

/// Vertical distance between two rows.
pub const ROW_STEP: u64 = 50;

/// Width of the diagram of a tree without depth.
pub const BOX_WIDTH: usize = 800;

/// One value of a snapshot and where it stands.
#[derive(Clone, Copy, Debug, PartialEq, Eq)]
pub struct Column {
    pub x: usize,
    pub value: i64,
}

/// What the row of a frame with payload shows besides its label.
pub struct FullRow {
    /// The snapshot, one column for each index of the array
    pub columns: Vec<Column>,
    /// Horizontal position of the mark under the pivot's column
    pub pivot_x: isize,
}

/// The row of one visited frame: a label with its bounds and, where the
/// frame carries a payload, its snapshot and a mark at the pivot.
pub struct Row {
    pub x: usize,
    pub y: u64,
    pub left: isize,
    pub right: isize,
    pub full: Option<FullRow>,
}

/// A [`FullRow`] as a mathematical value.
pub struct FullDrawing {
    pub columns: Seq<Column>,
    pub pivot_x: int,
}

/// A [`Row`] as a mathematical value.
pub struct Drawing {
    pub x: int,
    pub y: int,
    pub left: int,
    pub right: int,
    pub full: Option<FullDrawing>,
}

impl View for Row {
    type V = Drawing;

    open spec fn view(&self) -> Drawing {
        Drawing {
            x: self.x as int,
            y: self.y as int,
            left: self.left as int,
            right: self.right as int,
            full: match self.full {
                None => None,
                Some(full) => Some(
                    FullDrawing { columns: full.columns@, pivot_x: full.pivot_x as int },
                ),
            },
        }
    }
}

/// The columns of a snapshot: index `i` stands at `COLUMN_LEFT + i *
/// COLUMN_STEP`.
pub open spec fn columns_of(snapshot: Seq<i64>) -> Seq<Column> {
    Seq::new(
        snapshot.len(),
        |i: int| Column { x: (COLUMN_LEFT + i * COLUMN_STEP) as usize, value: snapshot[i] },
    )
}

/// The row of the root frame of `tree`, at height `y` and `depth` levels
/// below the frame the walk started from.
pub open spec fn drawing(tree: Tree, y: int, depth: int) -> Drawing {
    Drawing {
        x: LABEL_LEFT + depth * LABEL_INDENT,
        y,
        left: tree.left(),
        right: tree.right(),
        full: match tree {
            Tree::Leaf { .. } => None,
            Tree::Internal { snapshot, pivot, .. } => Some(
                FullDrawing {
                    columns: columns_of(snapshot),
                    pivot_x: COLUMN_LEFT + pivot * COLUMN_STEP,
                },
            ),
        },
    }
}

/// The rows of a whole tree, in the order of the walk, the first of them at
/// height `y` and depth `depth`.
pub open spec fn layout(tree: Tree, y: int, depth: int) -> Seq<Drawing>
    decreases tree,
{
    match tree {
        Tree::Leaf { .. } => seq![drawing(tree, y, depth)],
        Tree::Internal { child0, child1, .. } => seq![drawing(tree, y, depth)] + layout(
            *child0,
            y + ROW_STEP,
            depth + 1,
        ) + layout(*child1, y + ROW_STEP + ROW_STEP * child0.count(), depth + 1),
    }
}

impl Tree {
    /// The positions of every column and of every pivot mark of the tree fit
    /// the integers that hold them.
    pub open spec fn drawable(self) -> bool
        decreases self,
    {
        match self {
            Tree::Leaf { .. } => true,
            Tree::Internal { snapshot, pivot, child0, child1, .. } => {
                &&& snapshot.len() > 0 ==> COLUMN_LEFT + (snapshot.len() - 1) * COLUMN_STEP
                    <= usize::MAX
                &&& isize::MIN <= pivot * COLUMN_STEP
                &&& COLUMN_LEFT + pivot * COLUMN_STEP <= isize::MAX
                &&& child0.drawable()
                &&& child1.drawable()
            },
        }
    }

    /// How far below the root each frame of the walk lies.
    pub open spec fn levels(self) -> Seq<int>
        decreases self,
    {
        match self {
            Tree::Leaf { .. } => seq![0int],
            Tree::Internal { child0, child1, .. } => seq![0int] + child0.levels().map_values(
                |level: int| level + 1,
            ) + child1.levels().map_values(|level: int| level + 1),
        }
    }

    /// A well-formed tree over an array whose last column fits an `isize` can
    /// be drawn.
    pub proof fn lemma_drawable(self, len: nat)
        requires
            self.well_formed(len),
            COLUMN_LEFT + len * COLUMN_STEP <= isize::MAX,
        ensures
            self.drawable(),
        decreases self,
    {
        match self {
            Tree::Leaf { .. } => {},
            Tree::Internal { child0, child1, .. } => {
                child0.lemma_drawable(len);
                child1.lemma_drawable(len);
            },
        }
    }
}

/// The layout follows the walk: it has one row for each frame, and row `k`
/// is the row of the `k`-th frame visited, `k` steps below the first row and
/// indented by that frame's level.
pub proof fn lemma_layout_follows_walk(tree: Tree, y: int, depth: int)
    ensures
        layout(tree, y, depth).len() == tree.count(),
        tree.preorder().len() == tree.count(),
        tree.levels().len() == tree.count(),
        forall|k: int|
            0 <= k < tree.count() ==> #[trigger] layout(tree, y, depth)[k] == drawing(
                tree.preorder()[k],
                y + ROW_STEP * k,
                depth + tree.levels()[k],
            ),
    decreases tree,
{
    match tree {
        Tree::Leaf { .. } => {},
        Tree::Internal { child0, child1, .. } => {
            let first = *child0;
            let second = *child1;
            let below = y + ROW_STEP;
            let further = y + ROW_STEP + ROW_STEP * first.count();
            lemma_layout_follows_walk(first, below, depth + 1);
            lemma_layout_follows_walk(second, further, depth + 1);
            let raised_first = first.levels().map_values(|level: int| level + 1);
            let raised_second = second.levels().map_values(|level: int| level + 1);
            assert forall|k: int| 0 <= k < tree.count() implies #[trigger] layout(
                tree,
                y,
                depth,
            )[k] == drawing(tree.preorder()[k], y + ROW_STEP * k, depth + tree.levels()[k]) by {
                if k == 0 {
                } else if k <= first.count() {
                    let at = k - 1;
                    assert(layout(tree, y, depth)[k] == layout(first, below, depth + 1)[at]);
                    assert(tree.preorder()[k] == first.preorder()[at]);
                    assert(tree.levels()[k] == raised_first[at]);
                } else {
                    let at = k - 1 - first.count();
                    assert(layout(tree, y, depth)[k] == layout(second, further, depth + 1)[at]);
                    assert(tree.preorder()[k] == second.preorder()[at]);
                    assert(tree.levels()[k] == raised_second[at]);
                }
            }
        },
    }
}

/// The character of one decimal digit.
pub open spec fn digit(d: int) -> char {
    if d == 0 {
        '0'
    } else if d == 1 {
        '1'
    } else if d == 2 {
        '2'
    } else if d == 3 {
        '3'
    } else if d == 4 {
        '4'
    } else if d == 5 {
        '5'
    } else if d == 6 {
        '6'
    } else if d == 7 {
        '7'
    } else if d == 8 {
        '8'
    } else {
        '9'
    }
}

/// A number written in decimal digits, without leading zeros.
pub open spec fn decimal(n: nat) -> Seq<char>
    decreases n,
{
    if n < 10 {
        seq![digit(n as int)]
    } else {
        decimal(n / 10).push(digit((n % 10) as int))
    }
}

/// The text of a view box of the given width and height, with its corner at
/// the origin.
pub open spec fn view_box_text(width: nat, height: nat) -> Seq<char> {
    seq!['0', ' ', '0', ' '] + decimal(width) + seq![' '] + decimal(height)
}

fn digit_text(d: usize) -> (text: &'static str)
    requires
        d < 10,
    ensures
        text@ == seq![digit(d as int)],
{
    proof {
        reveal_strlit("0");
        reveal_strlit("1");
        reveal_strlit("2");
        reveal_strlit("3");
        reveal_strlit("4");
        reveal_strlit("5");
        reveal_strlit("6");
        reveal_strlit("7");
        reveal_strlit("8");
        reveal_strlit("9");
    }
    let text: &'static str = if d == 0 {
        "0"
    } else if d == 1 {
        "1"
    } else if d == 2 {
        "2"
    } else if d == 3 {
        "3"
    } else if d == 4 {
        "4"
    } else if d == 5 {
        "5"
    } else if d == 6 {
        "6"
    } else if d == 7 {
        "7"
    } else if d == 8 {
        "8"
    } else {
        "9"
    };
    assert(text@ =~= seq![digit(d as int)]);
    text
}

/// Writes a number in decimal digits.
pub fn decimal_text(n: usize) -> (text: String)
    ensures
        text@ == decimal(n as nat),
    decreases n,
{
    if n < 10 {
        String::from_str(digit_text(n))
    } else {
        let mut text: String = decimal_text(n / 10);
        text.append(digit_text(n % 10));
        assert(text@ =~= decimal(n as nat));
        text
    }
}

/// The columns of a snapshot.
fn columns(result: &Vec<i64>) -> (columns: Vec<Column>)
    requires
        result@.len() > 0 ==> COLUMN_LEFT + (result@.len() - 1) * COLUMN_STEP <= usize::MAX,
    ensures
        columns@ == columns_of(result@),
{
    let mut columns: Vec<Column> = Vec::new();
    let mut i: usize = 0;
    while i < result.len()
        invariant
            i <= result@.len(),
            result@.len() > 0 ==> COLUMN_LEFT + (result@.len() - 1) * COLUMN_STEP <= usize::MAX,
            columns@ == columns_of(result@).take(i as int),
        decreases result@.len() - i,
    {
        assert(i * COLUMN_STEP <= (result@.len() - 1) * COLUMN_STEP) by (nonlinear_arith)
            requires
                i <= result@.len() - 1,
        ;
        columns.push(Column { x: COLUMN_LEFT + i * COLUMN_STEP, value: result[i] });
        i += 1;
        assert(columns@ =~= columns_of(result@).take(i as int));
    }
    assert(columns@ =~= columns_of(result@));
    columns
}

impl Frame {
    /// Walks the tree rooted here and appends one row for each frame: this
    /// frame's at the renderer's height and depth, then the rows of the
    /// first child's subtree, then those of the second's.
    pub fn render(&self, renderer: &mut Renderer)
        requires
            self@.drawable(),
            old(renderer).y + ROW_STEP * self@.count() <= u64::MAX,
            LABEL_LEFT + (old(renderer).depth + self@.depth() - 1) * LABEL_INDENT <= usize::MAX,
        ensures
            final(renderer).drawings() == old(renderer).drawings() + layout(
                self@,
                old(renderer).y as int,
                old(renderer).depth as int,
            ),
            final(renderer).y == old(renderer).y + ROW_STEP * self@.count(),
            final(renderer).depth == old(renderer).depth,
            final(renderer).max_depth == old(renderer).max_depth,
            final(renderer).frame_count == old(renderer).frame_count,
        decreases self,
    {
        let ghost before = renderer.drawings();
        let ghost top = renderer.y as int;
        let ghost level = renderer.depth as int;
        let full: Option<FullRow> = match &self.full {
            Some(full) => Some(
                FullRow {
                    columns: columns(&full.result),
                    pivot_x: COLUMN_LEFT as isize + full.pivot * (COLUMN_STEP as isize),
                },
            ),
            None => None,
        };
        let row = Row {
            x: LABEL_LEFT + renderer.depth * LABEL_INDENT,
            y: renderer.y,
            left: self.left,
            right: self.right,
            full,
        };
        assert(row@ == drawing(self@, top, level));
        renderer.children.push(row);
        assert(renderer.drawings() =~= before.push(drawing(self@, top, level)));
        renderer.y += ROW_STEP;
        renderer.depth += 1;
        if let Some(full) = &self.full {
            full.children.0.render(renderer);
            full.children.1.render(renderer);
        }
        renderer.depth -= 1;
        assert(renderer.drawings() =~= before + layout(self@, top, level));
    }
}

/// Collects the rows of the trees it is given and the size of the diagram
/// that holds them.
pub struct Renderer {
    pub children: Vec<Row>,
    pub y: u64,
    pub max_depth: usize,
    pub frame_count: usize,
    pub depth: usize,
}

/// A finished diagram: its view box and its rows from top to bottom.
pub struct Diagram {
    pub view_box: String,
    pub children: Vec<Row>,
}

impl Renderer {
    /// The rows collected so far, as mathematical values.
    pub open spec fn drawings(&self) -> Seq<Drawing> {
        self.children@.map_values(|row: Row| row@)
    }

    /// A renderer without rows, about to draw at the top.
    pub fn new() -> (renderer: Renderer)
        ensures
            renderer.drawings() == Seq::<Drawing>::empty(),
            renderer.y == FIRST_ROW,
            renderer.max_depth == 0,
            renderer.frame_count == 0,
            renderer.depth == 0,
    {
        let renderer = Renderer {
            children: Vec::new(),
            y: FIRST_ROW,
            max_depth: 0,
            frame_count: 0,
            depth: 0,
        };
        assert(renderer.drawings() =~= Seq::<Drawing>::empty());
        renderer
    }

    /// Takes the tree's depth and frame count into the size of the diagram
    /// and appends its rows.
    pub fn render(&mut self, frame: &Frame)
        requires
            frame@.drawable(),
            old(self).frame_count + frame@.count() <= usize::MAX,
            old(self).y + ROW_STEP * frame@.count() <= u64::MAX,
            LABEL_LEFT + (old(self).depth + frame@.depth() - 1) * LABEL_INDENT <= usize::MAX,
        ensures
            final(self).max_depth == if old(self).max_depth >= frame@.depth() {
                old(self).max_depth as int
            } else {
                frame@.depth() as int
            },
            final(self).frame_count == old(self).frame_count + frame@.count(),
            final(self).drawings() == old(self).drawings() + layout(
                frame@,
                old(self).y as int,
                old(self).depth as int,
            ),
            final(self).y == old(self).y + ROW_STEP * frame@.count(),
            final(self).depth == old(self).depth,
    {
        let depth: usize = frame.max_depth(0);
        if depth > self.max_depth {
            self.max_depth = depth;
        }
        self.frame_count += frame.count();
        frame.render(self);
    }

    /// The view box that holds every row collected by [`Renderer::render`]:
    /// as wide as the deepest tree needs, as high as all frames together.
    pub fn view_box(&self) -> (text: String)
        requires
            BOX_WIDTH + self.max_depth * LABEL_INDENT <= usize::MAX,
            self.frame_count * ROW_STEP <= usize::MAX,
        ensures
            text@ == view_box_text(
                (BOX_WIDTH + self.max_depth * LABEL_INDENT) as nat,
                (self.frame_count * ROW_STEP) as nat,
            ),
    {
        proof {
            reveal_strlit("0 0 ");
            reveal_strlit(" ");
        }
        let width: String = decimal_text(BOX_WIDTH + self.max_depth * LABEL_INDENT);
        let height: String = decimal_text(self.frame_count * (ROW_STEP as usize));
        let mut text: String = String::from_str("0 0 ");
        assert(text@ =~= seq!['0', ' ', '0', ' ']);
        text.append(width.as_str());
        text.append(" ");
        assert(" "@ =~= seq![' ']);
        text.append(height.as_str());
        text
    }

    /// Hands the diagram out.
    pub fn finish(self) -> (diagram: Diagram)
        requires
            BOX_WIDTH + self.max_depth * LABEL_INDENT <= usize::MAX,
            self.frame_count * ROW_STEP <= usize::MAX,
        ensures
            diagram.view_box@ == view_box_text(
                (BOX_WIDTH + self.max_depth * LABEL_INDENT) as nat,
                (self.frame_count * ROW_STEP) as nat,
            ),
            diagram.children == self.children,
    {
        let view_box: String = self.view_box();
        Diagram { view_box, children: self.children }
    }
}

} // verus!
