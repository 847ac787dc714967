//! Building the flattened, path-addressed node sequence from a value.
use vstd::prelude::*;
use crate::config::Icons;
use crate::text::{debug_quoted, decimal, lemma_decimal_injective, push_text, quoted_of, usize_text};
use crate::value::{keys_distinct, TreeValue};

verus! {

/// `"{n} {word}"`, where the word is singular exactly when `n == 1`.
pub open spec fn count_summary(n: nat, one: Seq<char>, many: Seq<char>) -> Seq<char> {
    decimal(n) + " "@ + if n == 1 {
        one
    } else {
        many
    }
}

/// The value summary shown after `=` on a node's line.
pub open spec fn summary_of(v: TreeValue) -> Seq<char> {
    match v {
        TreeValue::Null => "null"@,
        TreeValue::String(s) => quoted_of(s@),
        TreeValue::Number(n) => n@,
        TreeValue::Bool(b) => if b {
            "true"@
        } else {
            "false"@
        },
        TreeValue::Array(a, _) => count_summary(a@.len(), "item"@, "items"@),
        TreeValue::Object(o, _) => count_summary(o@.len(), "field"@, "fields"@),
    }
}

/// The icon configured for the value's type.
pub open spec fn icon_of(v: TreeValue, icons: Icons) -> Seq<char> {
    match v {
        TreeValue::Null => icons.null@,
        TreeValue::String(_) => icons.str@,
        TreeValue::Number(_) => icons.number@,
        TreeValue::Bool(_) => icons.bool@,
        TreeValue::Array(_, _) => icons.array@,
        TreeValue::Object(_, _) => icons.object@,
    }
}

/// The raw text kept for a node: a scalar's own text, or the container's
/// re-serialized subtree.
pub open spec fn detail_of(v: TreeValue) -> Seq<char> {
    match v {
        TreeValue::Null => Seq::empty(),
        TreeValue::String(s) => s@,
        TreeValue::Number(n) => n@,
        TreeValue::Bool(b) => if b {
            "true"@
        } else {
            "false"@
        },
        TreeValue::Array(_, d) => d@,
        TreeValue::Object(_, d) => d@,
    }
}

/// `<name> <icon> = <summary>`.
pub open spec fn label_of(name: Seq<char>, icon: Seq<char>, summary: Seq<char>) -> Seq<char> {
    name + " "@ + icon + " = "@ + summary
}

/// The name shown for a node: its last path segment, or `root` for the
/// empty path.
pub open spec fn name_of(path: Seq<Seq<char>>) -> Seq<char> {
    if path.len() == 0 {
        "root"@
    } else {
        path.last()
    }
}

/// The path segment of a container's `k`-th child: the index in decimal
/// for an array, the field name for an object.
pub open spec fn segment(v: TreeValue, k: int) -> Seq<char> {
    match v {
        TreeValue::Array(_, _) => decimal(k as nat),
        TreeValue::Object(o, _) => o@[k].0@,
        _ => Seq::empty(),
    }
}

/// A container's `k`-th child.
pub open spec fn child(v: TreeValue, k: int) -> TreeValue {
    match v {
        TreeValue::Array(a, _) => a@[k],
        TreeValue::Object(o, _) => o@[k].1,
        _ => TreeValue::Null,
    }
}

/// What a node records: path, name, icon, summary, label, detail and child
/// count.
pub type NodeView = (
    Seq<Seq<char>>,
    Seq<char>,
    Seq<char>,
    Seq<char>,
    Seq<char>,
    Seq<char>,
    Option<usize>,
);

/// The node that `v` at `path` becomes.
pub open spec fn node_of(v: TreeValue, path: Seq<Seq<char>>, icons: Icons) -> NodeView {
    (
        path,
        name_of(path),
        icon_of(v, icons),
        summary_of(v),
        label_of(name_of(path), icon_of(v, icons), summary_of(v)),
        detail_of(v),
        if v.is_container() {
            Some(v.child_count() as usize)
        } else {
            None
        },
    )
}

/// The nodes of `v` at `path` in pre-order: its own node, then the nodes
/// of each child in order.
pub open spec fn flat(v: TreeValue, path: Seq<Seq<char>>, icons: Icons) -> Seq<NodeView>
    decreases v, v.child_count() + 1,
{
    seq![node_of(v, path, icons)] + flat_children(v, path, icons, v.child_count())
}

/// The nodes of the first `k` children of `v` at `path`, in pre-order.
pub open spec fn flat_children(v: TreeValue, path: Seq<Seq<char>>, icons: Icons, k: nat) -> Seq<
    NodeView,
>
    decreases v, k,
{
    if k == 0 || k > v.child_count() {
        Seq::empty()
    } else {
        proof {
            match v {
                TreeValue::Array(a, _) => {
                    assert(decreases_to!(v => v->Array_0));
                    assert(decreases_to!(a => a[k - 1]));
                },
                TreeValue::Object(o, _) => {
                    assert(decreases_to!(v => v->Object_0));
                    assert(decreases_to!(o => o[k - 1]));
                    assert(decreases_to!(o[k - 1] => o[k - 1].1));
                },
                _ => {},
            }
        }
        flat_children(v, path, icons, (k - 1) as nat) + flat(
            child(v, k - 1),
            path.push(segment(v, k - 1)),
            icons,
        )
    }
}

/// The nodes of a document `v`: the nodes of the elements or fields of a
/// top-level container, or the single node of a scalar at the empty path.
pub open spec fn layout(v: TreeValue, icons: Icons) -> Seq<NodeView> {
    if v.is_container() {
        flat_children(v, Seq::empty(), icons, v.child_count())
    } else {
        flat(v, Seq::empty(), icons)
    }
}

/// One node of the tree, in pre-order position.
///
/// `parent` is the position of the enclosing container (`None` for a root);
/// `children` is the number of direct children of a container and `None` for
/// a scalar, so an empty container (`Some(0)`) differs from a leaf.
pub struct TreeNode {
    pub path: Vec<String>,
    pub name: String,
    pub icon: String,
    pub summary: String,
    pub label: String,
    pub detail: String,
    pub parent: Option<usize>,
    pub children: Option<usize>,
}

impl TreeNode {
    pub open spec fn path_view(&self) -> Seq<Seq<char>> {
        self.path.deep_view()
    }

    pub open spec fn view_node(&self) -> NodeView {
        (
            self.path_view(),
            self.name@,
            self.icon@,
            self.summary@,
            self.label@,
            self.detail@,
            self.children,
        )
    }
}

/// What each node of a sequence records.
pub open spec fn views(nodes: Seq<TreeNode>) -> Seq<NodeView> {
    nodes.map_values(|n: TreeNode| n.view_node())
}

proof fn lemma_views_split(out: Seq<TreeNode>, prev: Seq<TreeNode>, lo: int)
    requires
        0 <= lo <= prev.len() <= out.len(),
        forall|i: int| 0 <= i < prev.len() ==> out[i] == prev[i],
    ensures
        views(out.subrange(lo, out.len() as int)) == views(prev.subrange(lo, prev.len() as int))
            + views(out.subrange(prev.len() as int, out.len() as int)),
{
    assert(views(out.subrange(lo, out.len() as int)) =~= views(prev.subrange(lo, prev.len() as int))
        + views(out.subrange(prev.len() as int, out.len() as int)));
}

/// Node `i` sits right under its parent: the parent comes earlier, is a
/// container, and the node's path extends the parent's path by one segment.
/// A root has a path of at most one segment.
pub open spec fn linked(nodes: Seq<TreeNode>, i: int) -> bool {
    match nodes[i].parent {
        Some(p) => {
            &&& p < i
            &&& nodes[p as int].children is Some
            &&& nodes[i].path_view().len() > 0
            &&& nodes[i].path_view().drop_last() == nodes[p as int].path_view()
        },
        None => nodes[i].path_view().len() <= 1,
    }
}

/// What node `i` shows for the value `v`.
pub open spec fn shows(n: TreeNode, v: TreeValue, icons: Icons) -> bool {
    &&& n.name@ == name_of(n.path_view())
    &&& n.icon@ == icon_of(v, icons)
    &&& n.summary@ == summary_of(v)
    &&& n.label@ == label_of(name_of(n.path_view()), icon_of(v, icons), summary_of(v))
    &&& n.detail@ == detail_of(v)
    &&& n.children == if v.is_container() {
        Some(v.child_count() as usize)
    } else {
        None::<usize>
    }
}

/// The flattened tree: every node of the document in pre-order.
pub struct Tree {
    pub nodes: Vec<TreeNode>,
}

impl Tree {
    /// Every node is linked to its parent.
    pub open spec fn wf(&self) -> bool {
        forall|i: int| 0 <= i < self.nodes@.len() ==> #[trigger] linked(self.nodes@, i)
    }
}

fn count_text(n: usize, one: &str, many: &str) -> (r: String)
    ensures
        r@ == count_summary(n as nat, one@, many@),
{
    let mut s = usize_text(n);
    push_text(&mut s, " ");
    if n == 1 {
        push_text(&mut s, one);
    } else {
        push_text(&mut s, many);
    }
    s
}

/// The summary text of a value.
pub fn summary(v: &TreeValue) -> (r: String)
    ensures
        r@ == summary_of(*v),
{
    match v {
        TreeValue::Null => "null".to_owned(),
        TreeValue::String(s) => debug_quoted(s.as_str()),
        TreeValue::Number(n) => n.clone(),
        TreeValue::Bool(b) => if *b {
            "true".to_owned()
        } else {
            "false".to_owned()
        },
        TreeValue::Array(a, _) => count_text(a.len(), "item", "items"),
        TreeValue::Object(o, _) => count_text(o.len(), "field", "fields"),
    }
}

fn icon<'a>(v: &TreeValue, icons: &'a Icons) -> (r: &'a String)
    ensures
        r@ == icon_of(*v, *icons),
{
    match v {
        TreeValue::Null => &icons.null,
        TreeValue::String(_) => &icons.str,
        TreeValue::Number(_) => &icons.number,
        TreeValue::Bool(_) => &icons.bool,
        TreeValue::Array(_, _) => &icons.array,
        TreeValue::Object(_, _) => &icons.object,
    }
}

fn detail(v: &TreeValue) -> (r: String)
    ensures
        r@ == detail_of(*v),
{
    match v {
        TreeValue::Null => String::new(),
        TreeValue::String(s) => s.clone(),
        TreeValue::Number(n) => n.clone(),
        TreeValue::Bool(b) => if *b {
            "true".to_owned()
        } else {
            "false".to_owned()
        },
        TreeValue::Array(_, d) => d.clone(),
        TreeValue::Object(_, d) => d.clone(),
    }
}

/// The node label `<name> <icon> = <summary>`.
pub fn label(name: &str, icon: &str, summary: &str) -> (r: String)
    ensures
        r@ == label_of(name@, icon@, summary@),
{
    let mut s = name.to_owned();
    push_text(&mut s, " ");
    push_text(&mut s, icon);
    push_text(&mut s, " = ");
    push_text(&mut s, summary);
    s
}


/// `q` is a prefix of `p`.
pub open spec fn has_prefix(p: Seq<Seq<char>>, q: Seq<Seq<char>>) -> bool {
    p.len() >= q.len() && p.subrange(0, q.len() as int) == q
}

/// The nodes at positions `lo..hi` have pairwise distinct paths.
pub open spec fn distinct_between(nodes: Seq<TreeNode>, lo: int, hi: int) -> bool {
    forall|i: int, j: int|
        lo <= i < hi && lo <= j < hi && i != j ==> #[trigger] nodes[i].path_view()
            != #[trigger] nodes[j].path_view()
}

proof fn lemma_prefix_step(p: Seq<Seq<char>>, q: Seq<Seq<char>>, s: Seq<char>)
    requires
        has_prefix(p, q.push(s)),
    ensures
        has_prefix(p, q),
        p[q.len() as int] == s,
{
    let n = q.len() as int;
    assert(p.subrange(0, n + 1)[n] == q.push(s)[n]);
    assert forall|t: int| 0 <= t < n implies p.subrange(0, n)[t] == q[t] by {
        assert(p.subrange(0, n + 1)[t] == q.push(s)[t]);
    }
    assert(p.subrange(0, n) =~= q);
}

/// The segments of a container's children are pairwise distinct.
pub open spec fn segments_distinct(segs: Seq<Seq<char>>) -> bool {
    forall|i: int, j: int|
        0 <= i < segs.len() && 0 <= j < segs.len() && i != j ==> #[trigger] segs[i] != #[trigger] segs[j]
}

/// Each node at `lo..hi` lies under `pv`, in the subtree of one of the
/// first `k` children, whose segments are `segs`.
pub open spec fn under_children(
    nodes: Seq<TreeNode>,
    lo: int,
    hi: int,
    pv: Seq<Seq<char>>,
    segs: Seq<Seq<char>>,
    k: int,
) -> bool {
    forall|i: int|
        lo <= i < hi ==> {
            &&& #[trigger] has_prefix(nodes[i].path_view(), pv)
            &&& nodes[i].path_view().len() > pv.len()
            &&& exists|j: int| 0 <= j < k && nodes[i].path_view()[pv.len() as int] == segs[j]
        }
}

/// Appending the subtree of child `k` at `prev.len()..out.len()` keeps
/// the nodes from `lo` on under the first `k + 1` children, and keeps their
/// paths distinct when the segments are.
proof fn lemma_child_appended(
    prev: Seq<TreeNode>,
    out: Seq<TreeNode>,
    lo: int,
    pv: Seq<Seq<char>>,
    segs: Seq<Seq<char>>,
    k: int,
)
    requires
        0 <= lo <= prev.len() <= out.len(),
        0 <= k < segs.len(),
        forall|i: int| 0 <= i < prev.len() ==> out[i] == prev[i],
        under_children(prev, lo, prev.len() as int, pv, segs, k),
        forall|i: int|
            prev.len() <= i < out.len() ==> #[trigger] has_prefix(
                out[i].path_view(),
                pv.push(segs[k]),
            ),
    ensures
        under_children(out, lo, out.len() as int, pv, segs, k + 1),
        segments_distinct(segs) && distinct_between(prev, lo, prev.len() as int)
            && distinct_between(out, prev.len() as int, out.len() as int) ==> distinct_between(
            out,
            lo,
            out.len() as int,
        ),
{
    let n = pv.len() as int;
    assert forall|i: int| lo <= i < out.len() implies {
        &&& #[trigger] has_prefix(out[i].path_view(), pv)
        &&& out[i].path_view().len() > n
        &&& exists|j: int| 0 <= j < k + 1 && out[i].path_view()[n] == segs[j]
    } by {
        if i >= prev.len() {
            assert(has_prefix(out[i].path_view(), pv.push(segs[k])));
            lemma_prefix_step(out[i].path_view(), pv, segs[k]);
        } else {
            assert(has_prefix(prev[i].path_view(), pv));
            let j = choose|j: int| 0 <= j < k && prev[i].path_view()[n] == segs[j];
        }
    }
    if segments_distinct(segs) && distinct_between(prev, lo, prev.len() as int) && distinct_between(
        out,
        prev.len() as int,
        out.len() as int,
    ) {
        assert forall|i: int, j: int|
            lo <= i < out.len() && lo <= j < out.len() && i != j implies #[trigger] out[i].path_view()
                != #[trigger] out[j].path_view() by {
            if i < prev.len() && j < prev.len() {
                assert(prev[i].path_view() != prev[j].path_view());
            } else if i < prev.len() || j < prev.len() {
                let (x, y) = if i < prev.len() {
                    (i, j)
                } else {
                    (j, i)
                };
                assert(has_prefix(out[y].path_view(), pv.push(segs[k])));
                lemma_prefix_step(out[y].path_view(), pv, segs[k]);
                assert(has_prefix(prev[x].path_view(), pv));
                let jj = choose|jj: int| 0 <= jj < k && prev[x].path_view()[n] == segs[jj];
                assert(segs[jj] != segs[k]);
            }
        }
    }
}

/// A node at path `pv` followed by the subtrees of its children: all lie
/// under `pv`, the children's nodes deeper, and the paths stay distinct.
proof fn lemma_head_and_children(
    out: Seq<TreeNode>,
    me: int,
    pv: Seq<Seq<char>>,
    segs: Seq<Seq<char>>,
    k: int,
)
    requires
        0 <= me < out.len(),
        out[me].path_view() == pv,
        under_children(out, me + 1, out.len() as int, pv, segs, k),
    ensures
        forall|i: int| me <= i < out.len() ==> #[trigger] has_prefix(out[i].path_view(), pv),
        forall|i: int| me < i < out.len() ==> #[trigger] out[i].path_view().len() > pv.len(),
        distinct_between(out, me + 1, out.len() as int) ==> distinct_between(
            out,
            me,
            out.len() as int,
        ),
{
    assert(pv.subrange(0, pv.len() as int) =~= pv);
    assert forall|i: int| me <= i < out.len() implies #[trigger] has_prefix(out[i].path_view(), pv) by {
        if i > me {
            assert(has_prefix(out[i].path_view(), pv));
        }
    }
    assert forall|i: int| me < i < out.len() implies #[trigger] out[i].path_view().len() > pv.len() by {
        assert(has_prefix(out[i].path_view(), pv));
    }
    if distinct_between(out, me + 1, out.len() as int) {
        assert forall|i: int, j: int|
            me <= i < out.len() && me <= j < out.len() && i != j implies #[trigger] out[i].path_view()
                != #[trigger] out[j].path_view() by {
            if i == me {
                assert(has_prefix(out[j].path_view(), pv));
            } else if j == me {
                assert(has_prefix(out[i].path_view(), pv));
            }
        }
    }
}

/// `path` extended by one segment.
fn extended(path: &Vec<String>, seg: String) -> (r: Vec<String>)
    ensures
        r.deep_view() == path.deep_view().push(seg@),
{
    let mut r = path.clone();
    r.push(seg);
    assert(r.deep_view() =~= path.deep_view().push(seg@));
    r
}

fn name(path: &Vec<String>) -> (r: String)
    ensures
        r@ == name_of(path.deep_view()),
{
    if path.len() == 0 {
        "root".to_owned()
    } else {
        path[path.len() - 1].clone()
    }
}

/// Appends the node for `v` at `path`, then its subtree, in pre-order.
fn build_node(
    v: &TreeValue,
    path: Vec<String>,
    parent: Option<usize>,
    icons: &Icons,
    out: &mut Vec<TreeNode>,
)
    requires
        parent matches Some(p) ==> {
            &&& p < old(out)@.len()
            &&& old(out)@[p as int].children is Some
            &&& path.deep_view().len() > 0
            &&& path.deep_view().drop_last() == old(out)@[p as int].path_view()
        },
        parent is None ==> path.deep_view().len() <= 1,
    ensures
        final(out)@.len() > old(out)@.len(),
        !v.is_container() ==> final(out)@.len() == old(out)@.len() + 1,
        forall|i: int| 0 <= i < old(out)@.len() ==> final(out)@[i] == old(out)@[i],
        final(out)@[old(out)@.len() as int].path_view() == path.deep_view(),
        final(out)@[old(out)@.len() as int].parent == parent,
        shows(final(out)@[old(out)@.len() as int], *v, *icons),
        forall|i: int|
            old(out)@.len() <= i < final(out)@.len() ==> #[trigger] linked(final(out)@, i),
        forall|i: int|
            old(out)@.len() <= i < final(out)@.len() ==> #[trigger] has_prefix(
                final(out)@[i].path_view(),
                path.deep_view(),
            ),
        forall|i: int|
            old(out)@.len() < i < final(out)@.len() ==> #[trigger] final(out)@[i].path_view().len()
                > path.deep_view().len(),
        keys_distinct(*v) ==> distinct_between(
            final(out)@,
            old(out)@.len() as int,
            final(out)@.len() as int,
        ),
        views(final(out)@.subrange(old(out)@.len() as int, final(out)@.len() as int)) == flat(
            *v,
            path.deep_view(),
            *icons,
        ),
    decreases v,
{
    let me = out.len();
    let nm = name(&path);
    let ic = icon(v, icons);
    let sm = summary(v);
    let children = match v {
        TreeValue::Array(a, _) => Some(a.len()),
        TreeValue::Object(o, _) => Some(o.len()),
        _ => None,
    };
    let node = TreeNode {
        path: path.clone(),
        label: label(nm.as_str(), ic.as_str(), sm.as_str()),
        name: nm,
        icon: ic.clone(),
        summary: sm,
        detail: detail(v),
        parent,
        children,
    };
    out.push(node);
    let ghost head = out@[me as int];
    let ghost pv = path.deep_view();
    let ghost n = pv.len() as int;
    assert(linked(out@, me as int));
    assert(pv.subrange(0, n) =~= pv);
    assert(views(out@.subrange(me as int, out@.len() as int)) =~= seq![node_of(*v, pv, *icons)]);
    assert(flat_children(*v, pv, *icons, 0) =~= Seq::<NodeView>::empty());
    match v {
        TreeValue::Array(a, _) => {
            let mut k: usize = 0;
            proof {
                let ghost whole = *v;
                assert(whole->Array_0 == *a);
                assert(decreases_to!(whole => whole->Array_0));
            }
            let ghost segs = Seq::new(a@.len(), |j: int| decimal(j as nat));
            proof {
                assert forall|i: int, j: int|
                    0 <= i < segs.len() && 0 <= j < segs.len() && i != j implies #[trigger] segs[i]
                        != #[trigger] segs[j] by {
                    if segs[i] == segs[j] {
                        lemma_decimal_injective(i as nat, j as nat);
                    }
                }
            }
            while k < a.len()
                invariant
                    under_children(out@, me + 1, out@.len() as int, pv, segs, k as int),
                    keys_distinct(*v) ==> distinct_between(out@, me + 1, out@.len() as int),
                    pv == path.deep_view(),
                    n == pv.len(),
                    segs.len() == a@.len(),
                    k <= a@.len(),
                    segments_distinct(segs),
                    forall|j: int| 0 <= j < segs.len() ==> #[trigger] segs[j] == decimal(j as nat),
                    v.child_count() == a@.len(),
                    forall|j: int| 0 <= j < a@.len() ==> #[trigger] child(*v, j) == a@[j],
                    forall|j: int| 0 <= j < a@.len() ==> #[trigger] segment(*v, j) == segs[j],
                    views(out@.subrange(me as int, out@.len() as int)) == seq![node_of(*v, pv, *icons)]
                        + flat_children(*v, pv, *icons, k as nat),
                    keys_distinct(*v) ==> forall|j: int|
                        0 <= j < a@.len() ==> keys_distinct(#[trigger] a@[j]),
                    me == old(out)@.len(),
                    me < out@.len(),
                    out@[me as int] == head,
                    head.children is Some,
                    head.path_view() == path.deep_view(),
                    decreases_to!(*v => *a),
                    forall|i: int| 0 <= i < me ==> out@[i] == old(out)@[i],
                    forall|i: int| me <= i < out@.len() ==> #[trigger] linked(out@, i),
                decreases a.len() - k,
            {
                let seg = usize_text(k);
                assert(seg@ == segs[k as int]);
                let child_path = extended(&path, seg);
                proof {
                    assert(child_path.deep_view().drop_last() =~= path.deep_view());
                    assert(decreases_to!(*a => a[k as int]));
                }
                let ghost prev = out@;
                build_node(&a[k], child_path, Some(me), icons, out);
                assert forall|i: int| me <= i < out@.len() implies #[trigger] linked(out@, i) by {
                    if i < prev.len() {
                        assert(linked(prev, i));
                    }
                }
                proof {
                    if keys_distinct(*v) {
                        assert(keys_distinct(a@[k as int]));
                    }
                    lemma_child_appended(prev, out@, me + 1, pv, segs, k as int);
                }
                proof {
                    lemma_views_split(out@, prev, me as int);
                    assert(flat_children(*v, pv, *icons, (k + 1) as nat) == flat_children(
                        *v,
                        pv,
                        *icons,
                        k as nat,
                    ) + flat(child(*v, k as int), pv.push(segment(*v, k as int)), *icons));
                }
                k += 1;
            }
            proof {
                lemma_head_and_children(out@, me as int, pv, segs, k as int);
            }
        },
        TreeValue::Object(o, _) => {
            let mut k: usize = 0;
            proof {
                let ghost whole = *v;
                assert(whole->Object_0 == *o);
                assert(decreases_to!(whole => whole->Object_0));
            }
            let ghost segs = Seq::new(o@.len(), |j: int| o@[j].0@);
            proof {
                if keys_distinct(*v) {
                    assert forall|i: int, j: int|
                        0 <= i < segs.len() && 0 <= j < segs.len() && i != j implies #[trigger] segs[i]
                            != #[trigger] segs[j] by {
                        assert(o@[i].0@ != o@[j].0@);
                    }
                }
            }
            while k < o.len()
                invariant
                    under_children(out@, me + 1, out@.len() as int, pv, segs, k as int),
                    keys_distinct(*v) ==> distinct_between(out@, me + 1, out@.len() as int),
                    pv == path.deep_view(),
                    n == pv.len(),
                    segs.len() == o@.len(),
                    k <= o@.len(),
                    keys_distinct(*v) ==> segments_distinct(segs),
                    forall|j: int| 0 <= j < segs.len() ==> #[trigger] segs[j] == o@[j].0@,
                    v.child_count() == o@.len(),
                    forall|j: int| 0 <= j < o@.len() ==> #[trigger] child(*v, j) == o@[j].1,
                    forall|j: int| 0 <= j < o@.len() ==> #[trigger] segment(*v, j) == segs[j],
                    views(out@.subrange(me as int, out@.len() as int)) == seq![node_of(*v, pv, *icons)]
                        + flat_children(*v, pv, *icons, k as nat),
                    keys_distinct(*v) ==> forall|j: int|
                        0 <= j < o@.len() ==> keys_distinct(#[trigger] o@[j].1),
                    me == old(out)@.len(),
                    me < out@.len(),
                    out@[me as int] == head,
                    head.children is Some,
                    head.path_view() == path.deep_view(),
                    decreases_to!(*v => *o),
                    forall|i: int| 0 <= i < me ==> out@[i] == old(out)@[i],
                    forall|i: int| me <= i < out@.len() ==> #[trigger] linked(out@, i),
                decreases o.len() - k,
            {
                let child_path = extended(&path, o[k].0.clone());
                proof {
                    assert(child_path.deep_view().drop_last() =~= path.deep_view());
                    assert(decreases_to!(*o => o[k as int]));
                    assert(decreases_to!(o[k as int] => o[k as int].1));
                }
                let ghost prev = out@;
                build_node(&o[k].1, child_path, Some(me), icons, out);
                assert forall|i: int| me <= i < out@.len() implies #[trigger] linked(out@, i) by {
                    if i < prev.len() {
                        assert(linked(prev, i));
                    }
                }
                proof {
                    if keys_distinct(*v) {
                        assert(keys_distinct(o@[k as int].1));
                    }
                    lemma_child_appended(prev, out@, me + 1, pv, segs, k as int);
                }
                proof {
                    lemma_views_split(out@, prev, me as int);
                    assert(flat_children(*v, pv, *icons, (k + 1) as nat) == flat_children(
                        *v,
                        pv,
                        *icons,
                        k as nat,
                    ) + flat(child(*v, k as int), pv.push(segment(*v, k as int)), *icons));
                }
                k += 1;
            }
            proof {
                lemma_head_and_children(out@, me as int, pv, segs, k as int);
            }
        },
        _ => {},
    }
}

fn single(seg: String) -> (r: Vec<String>)
    ensures
        r.deep_view() == seq![seg@],
{
    let mut r: Vec<String> = Vec::new();
    r.push(seg);
    assert(r.deep_view() =~= seq![seg@]);
    r
}

impl Tree {
    /// Builds the node sequence of a document.
    ///
    /// The elements or fields of a top-level container are the roots, in
    /// order; any other value becomes a single root with the empty path,
    /// shown under the name `root`.
    pub fn build(value: &TreeValue, icons: &Icons) -> (r: Tree)
        ensures
            r.wf(),
            r.nodes@.len() == 0 <==> value.is_container() && value.child_count() == 0,
            keys_distinct(*value) ==> paths_distinct(r.nodes@),
            views(r.nodes@) == layout(*value, *icons),
            !value.is_container() ==> {
                &&& r.nodes@.len() == 1
                &&& r.nodes@[0].path_view() == Seq::<Seq<char>>::empty()
                &&& r.nodes@[0].parent is None
                &&& shows(r.nodes@[0], *value, *icons)
            },
            value matches TreeValue::Array(a, _) ==> a@.len() > 0 ==> {
                &&& r.nodes@[0].path_view() == seq![decimal(0)]
                &&& r.nodes@[0].parent is None
                &&& shows(r.nodes@[0], a@[0], *icons)
            },
            value matches TreeValue::Object(o, _) ==> o@.len() > 0 ==> {
                &&& r.nodes@[0].path_view() == seq![o@[0].0@]
                &&& r.nodes@[0].parent is None
                &&& shows(r.nodes@[0], o@[0].1, *icons)
            },
    {
        let mut out: Vec<TreeNode> = Vec::new();
        match value {
            TreeValue::Array(a, _) => {
                let mut k: usize = 0;
                let ghost segs = Seq::new(a@.len(), |j: int| decimal(j as nat));
                proof {
                    assert forall|i: int, j: int|
                        0 <= i < segs.len() && 0 <= j < segs.len() && i != j implies #[trigger] segs[i]
                            != #[trigger] segs[j] by {
                        if segs[i] == segs[j] {
                            lemma_decimal_injective(i as nat, j as nat);
                        }
                    }
                }
                while k < a.len()
                    invariant
                        under_children(out@, 0, out@.len() as int, Seq::empty(), segs, k as int),
                        keys_distinct(*value) ==> distinct_between(out@, 0, out@.len() as int),
                        segs.len() == a@.len(),
                        segments_distinct(segs),
                        forall|j: int| 0 <= j < segs.len() ==> #[trigger] segs[j] == decimal(j as nat),
                        value.child_count() == a@.len(),
                        forall|j: int| 0 <= j < a@.len() ==> #[trigger] child(*value, j) == a@[j],
                        forall|j: int| 0 <= j < a@.len() ==> #[trigger] segment(*value, j) == segs[j],
                        views(out@) == flat_children(*value, Seq::empty(), *icons, k as nat),
                        keys_distinct(*value) ==> forall|j: int|
                            0 <= j < a@.len() ==> keys_distinct(#[trigger] a@[j]),
                        k <= a.len(),
                        k == 0 <==> out@.len() == 0,
                        forall|i: int| 0 <= i < out@.len() ==> #[trigger] linked(out@, i),
                        a@.len() > 0 && k > 0 ==> {
                            &&& out@[0].path_view() == seq![decimal(0)]
                            &&& out@[0].parent is None
                            &&& shows(out@[0], a@[0], *icons)
                        },
                    decreases a.len() - k,
                {
                    let ghost prev = out@;
                    build_node(&a[k], single(usize_text(k)), None, icons, &mut out);
                    assert forall|i: int| 0 <= i < out@.len() implies #[trigger] linked(out@, i) by {
                        if i < prev.len() {
                            assert(linked(prev, i));
                        }
                    }
                    proof {
                        let ghost e = Seq::<Seq<char>>::empty();
                        assert(seq![segs[k as int]] =~= e.push(segs[k as int]));
                        if keys_distinct(*value) {
                            assert(keys_distinct(a@[k as int]));
                        }
                        lemma_child_appended(prev, out@, 0, e, segs, k as int);
                    }
                    proof {
                        lemma_views_split(out@, prev, 0);
                        assert(out@.subrange(0, out@.len() as int) =~= out@);
                        assert(prev.subrange(0, prev.len() as int) =~= prev);
                        assert(flat_children(*value, Seq::empty(), *icons, (k + 1) as nat)
                            == flat_children(*value, Seq::empty(), *icons, k as nat) + flat(
                            child(*value, k as int),
                            Seq::<Seq<char>>::empty().push(segment(*value, k as int)),
                            *icons,
                        ));
                    }
                    k += 1;
                }
            },
            TreeValue::Object(o, _) => {
                let mut k: usize = 0;
                let ghost segs = Seq::new(o@.len(), |j: int| o@[j].0@);
                proof {
                    if keys_distinct(*value) {
                        assert forall|i: int, j: int|
                            0 <= i < segs.len() && 0 <= j < segs.len() && i != j implies #[trigger] segs[i]
                                != #[trigger] segs[j] by {
                            assert(o@[i].0@ != o@[j].0@);
                        }
                    }
                }
                while k < o.len()
                    invariant
                        under_children(out@, 0, out@.len() as int, Seq::empty(), segs, k as int),
                        keys_distinct(*value) ==> distinct_between(out@, 0, out@.len() as int),
                        segs.len() == o@.len(),
                        keys_distinct(*value) ==> segments_distinct(segs),
                        forall|j: int| 0 <= j < segs.len() ==> #[trigger] segs[j] == o@[j].0@,
                        value.child_count() == o@.len(),
                        forall|j: int| 0 <= j < o@.len() ==> #[trigger] child(*value, j) == o@[j].1,
                        forall|j: int| 0 <= j < o@.len() ==> #[trigger] segment(*value, j) == segs[j],
                        views(out@) == flat_children(*value, Seq::empty(), *icons, k as nat),
                        keys_distinct(*value) ==> forall|j: int|
                            0 <= j < o@.len() ==> keys_distinct(#[trigger] o@[j].1),
                        k <= o.len(),
                        k == 0 <==> out@.len() == 0,
                        forall|i: int| 0 <= i < out@.len() ==> #[trigger] linked(out@, i),
                        o@.len() > 0 && k > 0 ==> {
                            &&& out@[0].path_view() == seq![o@[0].0@]
                            &&& out@[0].parent is None
                            &&& shows(out@[0], o@[0].1, *icons)
                        },
                    decreases o.len() - k,
                {
                    let ghost prev = out@;
                    build_node(&o[k].1, single(o[k].0.clone()), None, icons, &mut out);
                    assert forall|i: int| 0 <= i < out@.len() implies #[trigger] linked(out@, i) by {
                        if i < prev.len() {
                            assert(linked(prev, i));
                        }
                    }
                    proof {
                        let ghost e = Seq::<Seq<char>>::empty();
                        assert(seq![segs[k as int]] =~= e.push(segs[k as int]));
                        if keys_distinct(*value) {
                            assert(keys_distinct(o@[k as int].1));
                        }
                        lemma_child_appended(prev, out@, 0, e, segs, k as int);
                    }
                    proof {
                        lemma_views_split(out@, prev, 0);
                        assert(out@.subrange(0, out@.len() as int) =~= out@);
                        assert(prev.subrange(0, prev.len() as int) =~= prev);
                        assert(flat_children(*value, Seq::empty(), *icons, (k + 1) as nat)
                            == flat_children(*value, Seq::empty(), *icons, k as nat) + flat(
                            child(*value, k as int),
                            Seq::<Seq<char>>::empty().push(segment(*value, k as int)),
                            *icons,
                        ));
                    }
                    k += 1;
                }
            },
            _ => {
                let root: Vec<String> = Vec::new();
                assert(root.deep_view() =~= Seq::<Seq<char>>::empty());
                build_node(value, root, None, icons, &mut out);
                assert(out@.subrange(0, out@.len() as int) =~= out@);
            },
        }
        Tree { nodes: out }
    }
}

/// A container's summary is its element or field count followed by the
/// word for it, singular exactly when the count is one (so an empty
/// container reads `0 items` or `0 fields`).
pub proof fn lemma_container_summary(v: TreeValue)
    requires
        v.is_container(),
    ensures
        v is Array ==> summary_of(v) == decimal(v.child_count()) + " "@ + if v.child_count() == 1 {
            "item"@
        } else {
            "items"@
        },
        v is Object ==> summary_of(v) == decimal(v.child_count()) + " "@ + if v.child_count()
            == 1 {
            "field"@
        } else {
            "fields"@
        },
{
}

/// Whether two paths are equal.
fn same_path(a: &Vec<String>, b: &Vec<String>) -> (r: bool)
    ensures
        r == (a.deep_view() == b.deep_view()),
{
    if a.len() != b.len() {
        assert(a.deep_view().len() != b.deep_view().len());
        return false;
    }
    let mut k: usize = 0;
    while k < a.len()
        invariant
            a@.len() == b@.len(),
            k <= a@.len(),
            forall|j: int| 0 <= j < k ==> a@[j]@ == b@[j]@,
        decreases a@.len() - k,
    {
        if a[k] != b[k] {
            assert(a.deep_view()[k as int] != b.deep_view()[k as int]);
            return false;
        }
        k += 1;
    }
    assert(a.deep_view() =~= b.deep_view());
    true
}

/// The detail index: the raw text recorded for each path.
pub open spec fn detail_index(nodes: Seq<TreeNode>) -> Map<Seq<Seq<char>>, Seq<char>> {
    Map::new(
        |p: Seq<Seq<char>>| exists|i: int| 0 <= i < nodes.len() && nodes[i].path_view() == p,
        |p: Seq<Seq<char>>|
            nodes[choose|i: int| 0 <= i < nodes.len() && nodes[i].path_view() == p].detail@,
    )
}

/// No two nodes share a path.
pub open spec fn paths_distinct(nodes: Seq<TreeNode>) -> bool {
    forall|i: int, j: int|
        0 <= i < nodes.len() && 0 <= j < nodes.len() && i != j ==> #[trigger] nodes[i].path_view()
            != #[trigger] nodes[j].path_view()
}

/// Every node's path is a key of the detail index and every key is the
/// path of a node. Where paths are distinct (as in every tree built from a
/// value whose objects have distinct field names), each key is the path of
/// exactly one node and leads to that node's detail.
pub proof fn lemma_detail_index_matches_nodes(nodes: Seq<TreeNode>)
    ensures
        forall|i: int|
            0 <= i < nodes.len() ==> detail_index(nodes).contains_key(#[trigger] nodes[i].path_view()),
        forall|p: Seq<Seq<char>>|
            #[trigger] detail_index(nodes).contains_key(p) ==> exists|i: int|
                0 <= i < nodes.len() && nodes[i].path_view() == p,
        paths_distinct(nodes) ==> forall|i: int|
            0 <= i < nodes.len() ==> detail_index(nodes)[#[trigger] nodes[i].path_view()]
                == nodes[i].detail@,
        paths_distinct(nodes) ==> forall|i: int, j: int|
            0 <= i < nodes.len() && 0 <= j < nodes.len() && #[trigger] nodes[i].path_view()
                == #[trigger] nodes[j].path_view() ==> i == j,
{
    assert forall|i: int| 0 <= i < nodes.len() implies detail_index(nodes).contains_key(
        #[trigger] nodes[i].path_view(),
    ) by {
        assert(0 <= i < nodes.len() && nodes[i].path_view() == nodes[i].path_view());
    }
    if paths_distinct(nodes) {
        assert forall|i: int| 0 <= i < nodes.len() implies detail_index(
            nodes,
        )[#[trigger] nodes[i].path_view()] == nodes[i].detail@ by {
            let p = nodes[i].path_view();
            assert(0 <= i < nodes.len() && nodes[i].path_view() == p);
            let j = choose|j: int| 0 <= j < nodes.len() && nodes[j].path_view() == p;
            assert(nodes[j].path_view() == nodes[i].path_view());
        }
    }
}

impl Tree {
    /// The detail text recorded for `path`: that of the first node with
    /// this path, or `None` when no node has it.
    pub fn detail(&self, path: &Vec<String>) -> (r: Option<&String>)
        ensures
            r is Some <==> detail_index(self.nodes@).contains_key(path.deep_view()),
            r matches Some(d) ==> exists|i: int|
                0 <= i < self.nodes@.len() && self.nodes@[i].path_view() == path.deep_view()
                    && self.nodes@[i].detail == *d,
            r matches Some(d) ==> paths_distinct(self.nodes@) ==> d@ == detail_index(
                self.nodes@,
            )[path.deep_view()],
    {
        let mut k: usize = 0;
        while k < self.nodes.len()
            invariant
                k <= self.nodes@.len(),
                forall|j: int| 0 <= j < k ==> self.nodes@[j].path_view() != path.deep_view(),
            decreases self.nodes@.len() - k,
        {
            if same_path(&self.nodes[k].path, path) {
                proof {
                    let p = path.deep_view();
                    assert(0 <= k < self.nodes@.len() && self.nodes@[k as int].path_view() == p);
                    if paths_distinct(self.nodes@) {
                        let j = choose|j: int|
                            0 <= j < self.nodes@.len() && self.nodes@[j].path_view() == p;
                        assert(self.nodes@[j].path_view() == self.nodes@[k as int].path_view());
                    }
                }
                return Some(&self.nodes[k].detail);
            }
            k += 1;
        }
        None
    }
}

} // verus!
