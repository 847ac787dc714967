//! Expansion, selection and scrolling over a built tree.
//!
//! Every transition is a total function of the tree and the current state,
//! and reports whether anything changed (and so whether a redraw is needed).
use vstd::prelude::*;
use crate::tree::{linked, Tree, TreeNode};

verus! {

/// Node `i` is in the visible order: every container above it is expanded.
pub open spec fn shown(nodes: Seq<TreeNode>, exp: Seq<bool>, i: int) -> bool
    decreases i,
{
    if 0 <= i < nodes.len() {
        match nodes[i].parent {
            None => true,
            Some(p) => if p < i {
                exp[p as int] && shown(nodes, exp, p as int)
            } else {
                false
            },
        }
    } else {
        false
    }
}

/// The first visible node at or after `from`.
pub open spec fn next_shown(nodes: Seq<TreeNode>, exp: Seq<bool>, from: int) -> Option<int>
    decreases nodes.len() - from,
{
    if from < 0 || from >= nodes.len() {
        None
    } else if shown(nodes, exp, from) {
        Some(from)
    } else {
        next_shown(nodes, exp, from + 1)
    }
}

/// The last visible node before `upto`.
pub open spec fn prev_shown(nodes: Seq<TreeNode>, exp: Seq<bool>, upto: int) -> Option<int>
    decreases upto,
{
    if upto <= 0 || upto > nodes.len() {
        None
    } else if shown(nodes, exp, upto - 1) {
        Some(upto - 1)
    } else {
        prev_shown(nodes, exp, upto - 1)
    }
}

/// The number of visible nodes among the first `k`.
pub open spec fn count_shown(nodes: Seq<TreeNode>, exp: Seq<bool>, k: int) -> nat
    decreases k,
{
    if k <= 0 {
        0
    } else {
        count_shown(nodes, exp, k - 1) + if shown(nodes, exp, k - 1) {
            1nat
        } else {
            0nat
        }
    }
}

/// The node that `move_down` selects.
pub open spec fn down_target(nodes: Seq<TreeNode>, exp: Seq<bool>, sel: Option<usize>) -> Option<
    int,
> {
    match sel {
        None => next_shown(nodes, exp, 0),
        Some(s) => next_shown(nodes, exp, s + 1),
    }
}

/// The node that `move_up` selects.
pub open spec fn up_target(nodes: Seq<TreeNode>, exp: Seq<bool>, sel: Option<usize>) -> Option<
    int,
> {
    match sel {
        None => prev_shown(nodes, exp, nodes.len() as int),
        Some(s) => prev_shown(nodes, exp, s as int),
    }
}

/// The selection after a move to `target`: unchanged when there is none.
pub open spec fn moved(sel: Option<usize>, target: Option<int>) -> Option<usize> {
    match target {
        Some(j) => Some(j as usize),
        None => sel,
    }
}

/// The largest scroll offset: the index of the last visible line.
pub open spec fn max_offset(nodes: Seq<TreeNode>, exp: Seq<bool>) -> int {
    let c = count_shown(nodes, exp, nodes.len() as int);
    if c == 0 {
        0
    } else {
        c - 1
    }
}

/// The first child of node `s`, which in pre-order directly follows it.
pub open spec fn first_child(nodes: Seq<TreeNode>, s: int) -> Option<int> {
    if s + 1 < nodes.len() && nodes[s + 1].parent == Some(s as usize) {
        Some(s + 1)
    } else {
        None
    }
}

/// A node is selected and it is a container.
pub open spec fn on_container(nodes: Seq<TreeNode>, sel: Option<usize>) -> bool {
    sel matches Some(s) && nodes[s as int].children is Some
}

/// How `toggle_selected` takes state `o` to `f`, reporting `r`.
pub open spec fn toggled(tree: Tree, o: NavState, f: NavState, r: bool) -> bool {
    &&& f.selected == o.selected
    &&& f.offset == o.offset
    &&& on_container(tree.nodes@, o.selected) ==> {
        &&& r
        &&& f.expanded@ == o.expanded@.update(
            o.selected->0 as int,
            !o.expanded@[o.selected->0 as int],
        )
    }
    &&& !on_container(tree.nodes@, o.selected) ==> {
        &&& !r
        &&& f.expanded@ == o.expanded@
    }
}

/// How `move_left` takes state `o` to `f`, reporting `r`.
pub open spec fn moved_left(tree: Tree, o: NavState, f: NavState, r: bool) -> bool {
    &&& f.offset == o.offset
    &&& o.selected is Some && o.expanded@[o.selected->0 as int] ==> {
        &&& r
        &&& f.expanded@ == o.expanded@.update(o.selected->0 as int, false)
        &&& f.selected == o.selected
    }
    &&& o.selected is Some && !o.expanded@[o.selected->0 as int] ==> {
        &&& r == tree.nodes@[o.selected->0 as int].parent is Some
        &&& f.expanded@ == o.expanded@
        &&& f.selected == if r {
            tree.nodes@[o.selected->0 as int].parent
        } else {
            o.selected
        }
    }
    &&& o.selected is None ==> !r && f == o
}

/// How `move_right` takes state `o` to `f`, reporting `r`.
pub open spec fn moved_right(tree: Tree, o: NavState, f: NavState, r: bool) -> bool {
    &&& f.offset == o.offset
    &&& on_container(tree.nodes@, o.selected) && !o.expanded@[o.selected->0 as int] ==> {
        &&& r
        &&& f.expanded@ == o.expanded@.update(o.selected->0 as int, true)
        &&& f.selected == o.selected
    }
    &&& on_container(tree.nodes@, o.selected) && o.expanded@[o.selected->0 as int] ==> {
        &&& r == first_child(tree.nodes@, o.selected->0 as int) is Some
        &&& f.expanded@ == o.expanded@
        &&& f.selected == moved(
            o.selected,
            first_child(tree.nodes@, o.selected->0 as int),
        )
    }
    &&& !on_container(tree.nodes@, o.selected) ==> {
        &&& !r
        &&& f == o
    }
}

/// How `move_down` takes state `o` to `f`, reporting `r`.
pub open spec fn moved_down(tree: Tree, o: NavState, f: NavState, r: bool) -> bool {
    &&& f.expanded == o.expanded
    &&& f.offset == o.offset
    &&& f.selected == moved(
        o.selected,
        down_target(tree.nodes@, o.expanded@, o.selected),
    )
    &&& r == (f.selected != o.selected)
    &&& r == down_target(tree.nodes@, o.expanded@, o.selected) is Some
}

/// How `move_up` takes state `o` to `f`, reporting `r`.
pub open spec fn moved_up(tree: Tree, o: NavState, f: NavState, r: bool) -> bool {
    &&& f.expanded == o.expanded
    &&& f.offset == o.offset
    &&& f.selected == moved(
        o.selected,
        up_target(tree.nodes@, o.expanded@, o.selected),
    )
    &&& r == (f.selected != o.selected)
    &&& r == up_target(tree.nodes@, o.expanded@, o.selected) is Some
}

/// How `select_first` takes state `o` to `f`, reporting `r`.
pub open spec fn first_selected(tree: Tree, o: NavState, f: NavState, r: bool) -> bool {
    &&& f.expanded == o.expanded
    &&& f.offset == o.offset
    &&& f.selected == moved(
        None,
        next_shown(tree.nodes@, o.expanded@, 0),
    )
    &&& r == (f.selected != o.selected)
}

/// How `select_last` takes state `o` to `f`, reporting `r`.
pub open spec fn last_selected(tree: Tree, o: NavState, f: NavState, r: bool) -> bool {
    &&& f.expanded == o.expanded
    &&& f.offset == o.offset
    &&& f.selected == moved(
        None,
        prev_shown(tree.nodes@, o.expanded@, tree.nodes@.len() as int),
    )
    &&& r == (f.selected != o.selected)
}

/// How `clear_selection` takes state `o` to `f`, reporting `r`.
pub open spec fn selection_cleared(o: NavState, f: NavState, r: bool) -> bool {
    &&& f.selected is None
    &&& f.expanded == o.expanded
    &&& f.offset == o.offset
    &&& r == o.selected is Some
}

/// How `scroll_up` takes state `o` to `f`, reporting `r`.
pub open spec fn scrolled_up(o: NavState, f: NavState, r: bool, n: usize) -> bool {
    &&& f.selected == o.selected
    &&& f.expanded == o.expanded
    &&& f.offset == if o.offset >= n {
        o.offset - n
    } else {
        0
    }
    &&& r == (f.offset != o.offset)
}

/// How `scroll_down` takes state `o` to `f`, reporting `r`.
pub open spec fn scrolled_down(tree: Tree, o: NavState, f: NavState, r: bool, n: usize) -> bool {
    &&& f.selected == o.selected
    &&& f.expanded == o.expanded
    &&& f.offset == vstd::math::min(
        o.offset + n,
        max_offset(tree.nodes@, o.expanded@),
    )
    &&& r == (f.offset != o.offset)
}

/// Expansion, selection and scroll offset for one loaded document.
pub struct NavState {
    pub expanded: Vec<bool>,
    pub selected: Option<usize>,
    pub offset: usize,
}

impl NavState {
    /// The state fits `tree`: one expansion flag per node, and the selection
    /// (if any) is a visible node.
    pub open spec fn wf(&self, tree: &Tree) -> bool {
        &&& tree.wf()
        &&& self.expanded@.len() == tree.nodes@.len()
        &&& self.selected matches Some(s) ==> shown(tree.nodes@, self.expanded@, s as int)
    }

    /// A fresh state: nothing expanded, nothing selected, no scroll.
    pub fn new(tree: &Tree) -> (r: Self)
        requires
            tree.wf(),
        ensures
            r.wf(tree),
            r.selected is None,
            r.offset == 0,
            forall|i: int| 0 <= i < r.expanded@.len() ==> !r.expanded@[i],
    {
        let mut expanded: Vec<bool> = Vec::new();
        let mut i: usize = 0;
        while i < tree.nodes.len()
            invariant
                i <= tree.nodes@.len(),
                expanded@.len() == i,
                forall|j: int| 0 <= j < i ==> !expanded@[j],
            decreases tree.nodes@.len() - i,
        {
            expanded.push(false);
            i += 1;
        }
        NavState { expanded, selected: None, offset: 0 }
    }
}

/// Visibility of node `i` depends only on the flags of earlier nodes.
pub proof fn lemma_shown_frame(nodes: Seq<TreeNode>, e1: Seq<bool>, e2: Seq<bool>, i: int)
    requires
        e1.len() == nodes.len(),
        e2.len() == nodes.len(),
        forall|j: int| 0 <= j < i ==> e1[j] == e2[j],
    ensures
        shown(nodes, e1, i) == shown(nodes, e2, i),
    decreases i,
{
    if 0 <= i < nodes.len() {
        if let Some(p) = nodes[i].parent {
            if p < i {
                lemma_shown_frame(nodes, e1, e2, p as int);
            }
        }
    }
}

/// Whether node `i` is visible under the flags `exp`.
fn is_shown(tree: &Tree, exp: &Vec<bool>, i: usize) -> (r: bool)
    requires
        tree.wf(),
        exp@.len() == tree.nodes@.len(),
        i < tree.nodes@.len(),
    ensures
        r == shown(tree.nodes@, exp@, i as int),
{
    let mut k: usize = i;
    loop
        invariant
            tree.wf(),
            exp@.len() == tree.nodes@.len(),
            k < tree.nodes@.len(),
            shown(tree.nodes@, exp@, i as int) == shown(tree.nodes@, exp@, k as int),
        decreases k,
    {
        assert(linked(tree.nodes@, k as int));
        match tree.nodes[k].parent {
            None => {
                return true;
            },
            Some(p) => {
                if !exp[p] {
                    return false;
                }
                k = p;
            },
        }
    }
}

/// The first visible node at or after `from`.
fn find_next(tree: &Tree, exp: &Vec<bool>, from: usize) -> (r: Option<usize>)
    requires
        tree.wf(),
        exp@.len() == tree.nodes@.len(),
    ensures
        r matches Some(j) ==> next_shown(tree.nodes@, exp@, from as int) == Some(j as int),
        r is None ==> next_shown(tree.nodes@, exp@, from as int) is None,
{
    let mut k: usize = from;
    while k < tree.nodes.len()
        invariant
            tree.wf(),
            exp@.len() == tree.nodes@.len(),
            from <= k,
            next_shown(tree.nodes@, exp@, from as int) == next_shown(tree.nodes@, exp@, k as int),
        decreases tree.nodes@.len() - k,
    {
        if is_shown(tree, exp, k) {
            return Some(k);
        }
        k += 1;
    }
    None
}

/// The last visible node before `upto`.
fn find_prev(tree: &Tree, exp: &Vec<bool>, upto: usize) -> (r: Option<usize>)
    requires
        tree.wf(),
        exp@.len() == tree.nodes@.len(),
        upto <= tree.nodes@.len(),
    ensures
        r matches Some(j) ==> prev_shown(tree.nodes@, exp@, upto as int) == Some(j as int),
        r is None ==> prev_shown(tree.nodes@, exp@, upto as int) is None,
{
    let mut k: usize = upto;
    while k > 0
        invariant
            tree.wf(),
            exp@.len() == tree.nodes@.len(),
            k <= upto <= tree.nodes@.len(),
            prev_shown(tree.nodes@, exp@, upto as int) == prev_shown(tree.nodes@, exp@, k as int),
        decreases k,
    {
        if is_shown(tree, exp, k - 1) {
            return Some(k - 1);
        }
        k -= 1;
    }
    None
}

/// The number of visible nodes.
fn visible_count(tree: &Tree, exp: &Vec<bool>) -> (r: usize)
    requires
        tree.wf(),
        exp@.len() == tree.nodes@.len(),
    ensures
        r == count_shown(tree.nodes@, exp@, tree.nodes@.len() as int),
{
    let mut c: usize = 0;
    let mut k: usize = 0;
    while k < tree.nodes.len()
        invariant
            tree.wf(),
            exp@.len() == tree.nodes@.len(),
            k <= tree.nodes@.len(),
            c == count_shown(tree.nodes@, exp@, k as int),
            c <= k,
        decreases tree.nodes@.len() - k,
    {
        if is_shown(tree, exp, k) {
            c += 1;
        }
        k += 1;
    }
    c
}

proof fn lemma_next_shown(nodes: Seq<TreeNode>, exp: Seq<bool>, from: int)
    ensures
        next_shown(nodes, exp, from) matches Some(j) ==> from <= j < nodes.len() && shown(
            nodes,
            exp,
            j,
        ),
    decreases nodes.len() - from,
{
    if 0 <= from < nodes.len() && !shown(nodes, exp, from) {
        lemma_next_shown(nodes, exp, from + 1);
    }
}

proof fn lemma_prev_shown(nodes: Seq<TreeNode>, exp: Seq<bool>, upto: int)
    ensures
        prev_shown(nodes, exp, upto) matches Some(j) ==> 0 <= j < upto && shown(nodes, exp, j),
    decreases upto,
{
    if 0 < upto <= nodes.len() && !shown(nodes, exp, upto - 1) {
        lemma_prev_shown(nodes, exp, upto - 1);
    }
}

impl NavState {
    /// Flips the expansion of the selected node; nothing happens when no
    /// node is selected or the selected node is a leaf.
    pub fn toggle_selected(&mut self, tree: &Tree) -> (r: bool)
        requires
            old(self).wf(tree),
        ensures
            final(self).wf(tree),
            toggled(*tree, *old(self), *final(self), r),
    {
        match self.selected {
            Some(s) => {
                if tree.nodes[s].children.is_some() {
                    let ghost e0 = self.expanded@;
                    let flipped = !self.expanded[s];
                    self.expanded.set(s, flipped);
                    proof {
                        lemma_shown_frame(tree.nodes@, e0, self.expanded@, s as int);
                    }
                    true
                } else {
                    false
                }
            },
            None => false,
        }
    }

    /// Collapses the selected node if it is expanded; otherwise selects its
    /// parent. Nothing happens at a collapsed root or without a selection.
    pub fn move_left(&mut self, tree: &Tree) -> (r: bool)
        requires
            old(self).wf(tree),
        ensures
            final(self).wf(tree),
            moved_left(*tree, *old(self), *final(self), r),
    {
        match self.selected {
            Some(s) => {
                if self.expanded[s] {
                    let ghost e0 = self.expanded@;
                    self.expanded.set(s, false);
                    proof {
                        lemma_shown_frame(tree.nodes@, e0, self.expanded@, s as int);
                    }
                    true
                } else {
                    assert(linked(tree.nodes@, s as int));
                    match tree.nodes[s].parent {
                        Some(p) => {
                            self.selected = Some(p);
                            true
                        },
                        None => false,
                    }
                }
            },
            None => false,
        }
    }

    /// Expands the selected node if it is a collapsed container; otherwise
    /// selects its first child. Nothing happens on a leaf.
    pub fn move_right(&mut self, tree: &Tree) -> (r: bool)
        requires
            old(self).wf(tree),
        ensures
            final(self).wf(tree),
            moved_right(*tree, *old(self), *final(self), r),
    {
        match self.selected {
            Some(s) => {
                if tree.nodes[s].children.is_none() {
                    false
                } else if !self.expanded[s] {
                    let ghost e0 = self.expanded@;
                    self.expanded.set(s, true);
                    proof {
                        lemma_shown_frame(tree.nodes@, e0, self.expanded@, s as int);
                    }
                    true
                } else if s < tree.nodes.len() - 1 && tree.nodes[s + 1].parent == Some(s) {
                    self.selected = Some(s + 1);
                    true
                } else {
                    false
                }
            },
            None => false,
        }
    }

    /// Selects the next visible node (the first one when nothing is
    /// selected); nothing happens at the last visible node.
    pub fn move_down(&mut self, tree: &Tree) -> (r: bool)
        requires
            old(self).wf(tree),
        ensures
            final(self).wf(tree),
            moved_down(*tree, *old(self), *final(self), r),
    {
        let n = tree.nodes.len();
        let from: usize = match self.selected {
            Some(s) => {
                assert(shown(tree.nodes@, self.expanded@, s as int));
                assert(s < n);
                s + 1
            },
            None => 0,
        };
        proof {
            lemma_next_shown(tree.nodes@, self.expanded@, from as int);
        }
        match find_next(tree, &self.expanded, from) {
            Some(j) => {
                self.selected = Some(j);
                true
            },
            None => false,
        }
    }

    /// Selects the previous visible node (the last one when nothing is
    /// selected); nothing happens at the first visible node.
    pub fn move_up(&mut self, tree: &Tree) -> (r: bool)
        requires
            old(self).wf(tree),
        ensures
            final(self).wf(tree),
            moved_up(*tree, *old(self), *final(self), r),
    {
        let upto: usize = match self.selected {
            Some(s) => s,
            None => tree.nodes.len(),
        };
        proof {
            lemma_prev_shown(tree.nodes@, self.expanded@, upto as int);
        }
        match find_prev(tree, &self.expanded, upto) {
            Some(j) => {
                self.selected = Some(j);
                true
            },
            None => false,
        }
    }

    /// Selects the first visible node; reports whether the selection changed.
    pub fn select_first(&mut self, tree: &Tree) -> (r: bool)
        requires
            old(self).wf(tree),
        ensures
            final(self).wf(tree),
            first_selected(*tree, *old(self), *final(self), r),
    {
        proof {
            lemma_next_shown(tree.nodes@, self.expanded@, 0);
        }
        let target = find_next(tree, &self.expanded, 0);
        let r = target != self.selected;
        self.selected = target;
        r
    }

    /// Selects the last visible node; reports whether the selection changed.
    pub fn select_last(&mut self, tree: &Tree) -> (r: bool)
        requires
            old(self).wf(tree),
        ensures
            final(self).wf(tree),
            last_selected(*tree, *old(self), *final(self), r),
    {
        proof {
            lemma_prev_shown(tree.nodes@, self.expanded@, tree.nodes@.len() as int);
        }
        let target = find_prev(tree, &self.expanded, tree.nodes.len());
        let r = target != self.selected;
        self.selected = target;
        r
    }

    /// Drops the selection; reports whether there was one.
    pub fn clear_selection(&mut self) -> (r: bool)
        ensures
            selection_cleared(*old(self), *final(self), r),
    {
        let r = self.selected.is_some();
        self.selected = None;
        r
    }

    /// Scrolls up by `n` lines, stopping at the top.
    pub fn scroll_up(&mut self, n: usize) -> (r: bool)
        ensures
            scrolled_up(*old(self), *final(self), r, n),
    {
        let before = self.offset;
        self.offset = if self.offset >= n {
            self.offset - n
        } else {
            0
        };
        before != self.offset
    }

    /// Scrolls down by `n` lines, stopping at the last visible line.
    pub fn scroll_down(&mut self, tree: &Tree, n: usize) -> (r: bool)
        requires
            old(self).wf(tree),
        ensures
            final(self).wf(tree),
            scrolled_down(*tree, *old(self), *final(self), r, n),
    {
        let before = self.offset;
        let c = visible_count(tree, &self.expanded);
        let last: usize = if c == 0 {
            0
        } else {
            c - 1
        };
        let wanted: usize = if n <= last && self.offset <= last - n {
            self.offset + n
        } else {
            last
        };
        self.offset = wanted;
        before != self.offset
    }
}

impl NavState {
    /// The path of the selected node, if any.
    pub fn selected_path<'a>(&self, tree: &'a Tree) -> (r: Option<&'a Vec<String>>)
        requires
            self.wf(tree),
        ensures
            self.selected is None ==> r is None,
            self.selected matches Some(s) ==> r matches Some(p) && p.deep_view()
                == tree.nodes@[s as int].path_view(),
    {
        match self.selected {
            Some(s) => Some(&tree.nodes[s].path),
            None => None,
        }
    }
}

/// Moving down from the last visible node changes nothing and reports no
/// redraw, so repeating it changes nothing either.
pub proof fn lemma_move_down_at_end_is_still(tree: Tree, o: NavState, f: NavState, r: bool)
    requires
        o.selected matches Some(s) && next_shown(tree.nodes@, o.expanded@, s + 1) is None,
        moved_down(tree, o, f, r),
    ensures
        !r,
        f == o,
{
}

/// A discrete input event, each mapped to one transition.
pub enum NavEvent {
    /// Toggle the selected node (enter, space).
    Toggle,
    /// Collapse, or go to the parent (left arrow).
    Left,
    /// Expand, or go to the first child (right arrow).
    Right,
    Down,
    Up,
    /// Drop the selection (escape).
    Clear,
    /// Select the first visible node (home).
    First,
    /// Select the last visible node (end).
    Last,
    /// Scroll by a page of three lines.
    PageDown,
    PageUp,
    /// Scroll by one line (mouse wheel).
    WheelDown,
    WheelUp,
}

impl NavState {
    /// Applies the transition that `ev` stands for; reports whether a
    /// redraw is needed.
    pub fn apply(&mut self, tree: &Tree, ev: NavEvent) -> (r: bool)
        requires
            old(self).wf(tree),
        ensures
            final(self).wf(tree),
            ev is Toggle ==> toggled(*tree, *old(self), *final(self), r),
            ev is Left ==> moved_left(*tree, *old(self), *final(self), r),
            ev is Right ==> moved_right(*tree, *old(self), *final(self), r),
            ev is Down ==> moved_down(*tree, *old(self), *final(self), r),
            ev is Up ==> moved_up(*tree, *old(self), *final(self), r),
            ev is Clear ==> selection_cleared(*old(self), *final(self), r),
            ev is First ==> first_selected(*tree, *old(self), *final(self), r),
            ev is Last ==> last_selected(*tree, *old(self), *final(self), r),
            ev is PageDown ==> scrolled_down(*tree, *old(self), *final(self), r, 3),
            ev is PageUp ==> scrolled_up(*old(self), *final(self), r, 3),
            ev is WheelDown ==> scrolled_down(*tree, *old(self), *final(self), r, 1),
            ev is WheelUp ==> scrolled_up(*old(self), *final(self), r, 1),
    {
        match ev {
            NavEvent::Toggle => self.toggle_selected(tree),
            NavEvent::Left => self.move_left(tree),
            NavEvent::Right => self.move_right(tree),
            NavEvent::Down => self.move_down(tree),
            NavEvent::Up => self.move_up(tree),
            NavEvent::Clear => {
                let ghost o = *self;
                let r = self.clear_selection();
                assert(self.wf(tree)) by {
                    assert(self.expanded@ == o.expanded@);
                }
                r
            },
            NavEvent::First => self.select_first(tree),
            NavEvent::Last => self.select_last(tree),
            NavEvent::PageDown => self.scroll_down(tree, 3),
            NavEvent::PageUp => self.scroll_up(3),
            NavEvent::WheelDown => self.scroll_down(tree, 1),
            NavEvent::WheelUp => self.scroll_up(1),
        }
    }
}

} // verus!
