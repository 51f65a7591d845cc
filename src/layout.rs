//! The layout passes: the direction-dispatching traversal, depth stacking, block stacking and grids.
use vstd::prelude::*;
pub use crate::style::{FlexDirection3D, Layout3D, Node3D, Style3D};
use crate::flex::{
    breaks, child_sizes, children_ok, collect_sizes, deepest, deepest_exec, flex_child_size, flex_location,
    lemma_deepest_bounds,
    flex_size, layout_flex, lemma_consts, lemma_mul_bound, lemma_scale, lemma_step, sizes_ok,
};
use crate::geometry::{Point3, Size3};
use crate::style::{
    MAX_CHILDREN, MAX_LEN, clamp, clamp_len, div_floor, fixed, len_ok, resolve,
    size_ok, style_ok,
};

verus! {

/// After the first `k` children of a depth stack: the z cursor, the running width and the
/// running height.
pub open spec fn depth_walk(sizes: Seq<Size3<i64>>, gap: int, limit: Option<int>, k: int) -> (int, int, int)
    decreases k,
{
    if k <= 0 {
        (0, 0, 0)
    } else {
        let prev = depth_walk(sizes, gap, limit, k - 1);
        let s = sizes[k - 1];
        let brk = breaks(prev.0, s.depth as int, limit);
        let z = if brk {
            0
        } else {
            prev.0
        };
        let w = if brk {
            prev.1 + s.width + gap
        } else {
            prev.1
        };
        (z + s.depth + gap, vstd::math::max(w, s.width as int), vstd::math::max(prev.2, s.height as int))
    }
}

/// The z of child `i` of a depth stack: the cursor, or zero where the child overflows the limit.
pub open spec fn depth_z(sizes: Seq<Size3<i64>>, gap: int, limit: Option<int>, i: int) -> int {
    let prev = depth_walk(sizes, gap, limit, i);
    if breaks(prev.0, sizes[i].depth as int, limit) {
        0
    } else {
        prev.0
    }
}

/// The depth limit at which a depth stack restarts its cursor; `None` where it never does.
pub open spec fn depth_limit(style: Style3D) -> Option<int> {
    if style.wrap {
        fixed(style.size.depth)
    } else {
        None
    }
}

/// The z of child `i` of a depth-stacking container.
pub open spec fn stack_z(style: Style3D, sizes: Seq<Size3<i64>>, i: int) -> int {
    depth_z(sizes, style.gap as int, depth_limit(style), i)
}

/// The container's own size after depth stacking.
pub open spec fn depth_size(style: Style3D, sizes: Seq<Size3<i64>>) -> Size3<i64> {
    let w = depth_walk(sizes, style.gap as int, depth_limit(style), sizes.len() as int);
    let z = if sizes.len() > 0 {
        w.0 - style.gap
    } else {
        0
    };
    Size3 {
        width: (match fixed(style.size.width) {
            Some(v) => v,
            None => clamp_len(w.1),
        }) as i64,
        height: (match fixed(style.size.height) {
            Some(v) => v,
            None => w.2,
        }) as i64,
        depth: (match fixed(style.size.depth) {
            Some(v) => v,
            None => clamp_len(z),
        }) as i64,
    }
}

proof fn lemma_depth_walk_bounds(sizes: Seq<Size3<i64>>, gap: int, limit: Option<int>, k: int)
    requires
        sizes_ok(sizes),
        len_ok(gap),
        0 <= k <= sizes.len(),
    ensures
        -((2 * MAX_LEN) * k) <= depth_walk(sizes, gap, limit, k).0 <= (2 * MAX_LEN) * k,
        -((2 * MAX_LEN) * k) <= depth_walk(sizes, gap, limit, k).1 <= (2 * MAX_LEN) * k,
        0 <= depth_walk(sizes, gap, limit, k).2 <= MAX_LEN,
        -(2 * MAX_LEN * MAX_CHILDREN) <= depth_walk(sizes, gap, limit, k).0 <= 2 * MAX_LEN * MAX_CHILDREN,
        -(2 * MAX_LEN * MAX_CHILDREN) <= depth_walk(sizes, gap, limit, k).1 <= 2 * MAX_LEN * MAX_CHILDREN,
    decreases k,
{
    if k > 0 {
        lemma_depth_walk_bounds(sizes, gap, limit, k - 1);
        assert(size_ok(sizes[k - 1]));
        let prev = depth_walk(sizes, gap, limit, k - 1);
        let s = sizes[k - 1];
        lemma_step(prev.0, s.depth + gap, 2 * MAX_LEN, k);
        lemma_step(0, s.depth + gap, 2 * MAX_LEN, k);
        lemma_step(prev.1, s.width + gap, 2 * MAX_LEN, k);
        lemma_step(prev.1, 0, 2 * MAX_LEN, k);
        lemma_step(0, s.width as int, 2 * MAX_LEN, k);
    }
    lemma_scale(2 * MAX_LEN, k, MAX_CHILDREN as int);
}

/// Stacks the children of `node` along depth, in order, and sizes the node from them.
pub fn layout_depth(node: &mut Node3D)
    requires
        style_ok(old(node).style),
        children_ok(old(node).children@),
    ensures
        final(node).style == old(node).style,
        final(node).layout.location == old(node).layout.location,
        final(node).layout.size == depth_size(old(node).style, child_sizes(old(node).children@)),
        size_ok(final(node).layout.size),
        final(node).children.len() == old(node).children.len(),
        forall|i: int|
            0 <= i < final(node).children.len() ==> {
                &&& (#[trigger] final(node).children@[i]).style == old(node).children@[i].style
                &&& final(node).children@[i].children == old(node).children@[i].children
                &&& final(node).children@[i].layout.size == old(node).children@[i].layout.size
                &&& final(node).children@[i].layout.location == (Point3 {
                    z: stack_z(old(node).style, child_sizes(old(node).children@), i) as i64,
                    ..old(node).children@[i].layout.location
                })
            },
{
    let ghost orig = node.children@;
    let style = node.style;
    let gap = style.gap;
    let sizes = collect_sizes(&node.children);
    let n = sizes.len();
    let limit = if style.wrap {
        resolve(style.size.depth)
    } else {
        None
    };
    let ghost lim = depth_limit(style);
    let mut kids: Vec<Node3D> = Vec::new();
    std::mem::swap(&mut kids, &mut node.children);
    let mut out: Vec<Node3D> = Vec::new();
    let mut cursor: i64 = 0;
    let mut width: i64 = 0;
    let mut height: i64 = 0;
    let mut i: usize = 0;
    while i < n
        invariant
            n == orig.len(),
            sizes@ == child_sizes(orig),
            sizes_ok(sizes@),
            style_ok(style),
            gap == style.gap,
            lim == depth_limit(style),
            lim == (match limit {
                Some(m) => Some(m as int),
                None => None,
            }),
            0 <= i <= n,
            (cursor as int, width as int, height as int) == depth_walk(sizes@, gap as int, lim, i as int),
            kids@ == orig.subrange(i as int, n as int),
            out.len() == i,
            forall|j: int|
                0 <= j < i ==> {
                    &&& (#[trigger] out@[j]).style == orig[j].style
                    &&& out@[j].children == orig[j].children
                    &&& out@[j].layout.size == orig[j].layout.size
                    &&& out@[j].layout.location == (Point3 {
                        z: stack_z(style, sizes@, j) as i64,
                        ..orig[j].layout.location
                    })
                },
        decreases n - i,
    {
        proof {
            lemma_depth_walk_bounds(sizes@, gap as int, lim, i as int);
            lemma_consts();
            assert(size_ok(sizes@[i as int]));
        }
        let s = sizes[i];
        let brk = match limit {
            Some(m) => cursor > 0 && cursor + s.depth > m,
            None => false,
        };
        if brk {
            cursor = 0;
            width = width + s.width + gap;
        }
        let mut c = kids.remove(0);
        assert(c == orig[i as int]);
        c.layout.location.z = cursor;
        out.push(c);
        cursor = cursor + s.depth + gap;
        if s.width > width {
            width = s.width;
        }
        if s.height > height {
            height = s.height;
        }
        i = i + 1;
    }
    proof {
        lemma_depth_walk_bounds(sizes@, gap as int, lim, n as int);
        lemma_consts();
    }
    if n > 0 {
        cursor = cursor - gap;
    }
    let w = match resolve(style.size.width) {
        Some(v) => v,
        None => clamp(width),
    };
    let h = match resolve(style.size.height) {
        Some(v) => v,
        None => height,
    };
    let d = match resolve(style.size.depth) {
        Some(v) => v,
        None => clamp(cursor),
    };
    node.layout.size = Size3 { width: w, height: h, depth: d };
    node.children = out;
}

/// Every node's style within the supported range, and no node with too many children.
pub open spec fn tree_ok(n: Node3D) -> bool
    decreases n,
{
    &&& style_ok(n.style)
    &&& n.children.len() <= MAX_CHILDREN
    &&& forall|i: int| 0 <= i < n.children.len() ==> tree_ok(#[trigger] n.children@[i])
}

/// Two trees with the same styles and the same structure; layouts may differ.
pub open spec fn same_shape(a: Node3D, b: Node3D) -> bool
    decreases a,
{
    &&& a.style == b.style
    &&& a.children.len() == b.children.len()
    &&& forall|i: int| 0 <= i < a.children.len() ==> same_shape(#[trigger] a.children@[i], b.children@[i])
}

/// The container's own size after the arrangement its direction selects.
pub open spec fn arranged_size(style: Style3D, sizes: Seq<Size3<i64>>) -> Size3<i64> {
    match style.flex_direction {
        FlexDirection3D::Row => flex_size(style, sizes, true),
        FlexDirection3D::Column => flex_size(style, sizes, false),
        FlexDirection3D::Depth => depth_size(style, sizes),
    }
}

/// The size that the traversal gives each of the first `k` children of `n`, before `n` arranges them.
pub open spec fn laid_sizes(n: Node3D, k: int) -> Seq<Size3<i64>>
    decreases n, 0int, k,
{
    if k <= 0 || k > n.children.len() {
        Seq::empty()
    } else {
        laid_sizes(n, k - 1).push(node_size(n.children@[k - 1]))
    }
}

/// The size that the traversal gives node `n`.
pub open spec fn node_size(n: Node3D) -> Size3<i64>
    decreases n, 1int, 0int,
{
    arranged_size(n.style, laid_sizes(n, n.children.len() as int))
}

/// The sizes of the children of `n` as the traversal computes them, before `n` arranges them.
pub open spec fn child_laid_sizes(n: Node3D) -> Seq<Size3<i64>> {
    laid_sizes(n, n.children.len() as int)
}

/// Where the arrangement of a container puts child `i`, which stood at `at`.
pub open spec fn arranged_location(style: Style3D, sizes: Seq<Size3<i64>>, at: Point3<i64>, i: int) -> Point3<i64> {
    match style.flex_direction {
        FlexDirection3D::Row => flex_location(style, sizes, true, i),
        FlexDirection3D::Column => flex_location(style, sizes, false, i),
        FlexDirection3D::Depth => Point3 { z: stack_z(style, sizes, i) as i64, ..at },
    }
}

/// The size the arrangement of a container leaves child `i` with.
pub open spec fn arranged_child_size(style: Style3D, sizes: Seq<Size3<i64>>, i: int) -> Size3<i64> {
    match style.flex_direction {
        FlexDirection3D::Row => flex_child_size(style, sizes, true, i),
        FlexDirection3D::Column => flex_child_size(style, sizes, false, i),
        FlexDirection3D::Depth => sizes[i],
    }
}

proof fn lemma_laid_sizes_len(n: Node3D, k: int)
    requires
        0 <= k <= n.children.len(),
    ensures
        laid_sizes(n, k).len() == k,
    decreases k,
{
    if k > 0 {
        lemma_laid_sizes_len(n, k - 1);
    }
}

proof fn lemma_same_shape_node(a: Node3D, a2: Node3D, b: Node3D)
    requires
        a.style == a2.style,
        a.children == a2.children,
        same_shape(a, b),
    ensures
        same_shape(a2, b),
{
}

/// Lays out the subtree held by `node`: children first, then `node` itself by its direction.
proof fn lemma_arranged_below_node(p: Node3D, x: Node3D, y: Node3D)
    requires
        arranged_below(p, x),
        x.style == y.style,
        x.children == y.children,
    ensures
        arranged_below(p, y),
{
}

fn laid_out(tree: Node3D) -> (r: Node3D)
    requires
        tree_ok(tree),
    ensures
        laid_out_from(tree, r),
        size_ok(r.layout.size),
    decreases tree,
{
    let ghost pre = tree;
    let mut node = tree;
    let mut kids: Vec<Node3D> = Vec::new();
    std::mem::swap(&mut kids, &mut node.children);
    let n = kids.len();
    let mut out: Vec<Node3D> = Vec::new();
    let mut i: usize = 0;
    while i < n
        invariant
            n == pre.children.len(),
            pre == tree,
            tree_ok(pre),
            0 <= i <= n,
            kids@ == pre.children@.subrange(i as int, n as int),
            out.len() == i,
            child_sizes(out@) == laid_sizes(pre, i as int),
            forall|j: int|
                0 <= j < i ==> {
                    &&& same_shape(#[trigger] out@[j], pre.children@[j])
                    &&& arranged_below(pre.children@[j], out@[j])
                    &&& out@[j].layout.location == pre.children@[j].layout.location
                    &&& size_ok(out@[j].layout.size)
                },
        decreases n - i,
    {
        let c = kids.remove(0);
        assert(c == pre.children@[i as int]);
        assert(tree_ok(c));
        let c2 = laid_out(c);
        out.push(c2);
        assert(child_sizes(out@) =~= laid_sizes(pre, i as int + 1));
        i = i + 1;
    }
    node.children = out;
    assert(children_ok(node.children@)) by {
        assert forall|j: int| 0 <= j < child_sizes(node.children@).len() implies size_ok(
            #[trigger] child_sizes(node.children@)[j],
        ) by {
            assert(size_ok(node.children@[j].layout.size));
        }
    }
    let ghost mid = node;
    match node.style.flex_direction {
        FlexDirection3D::Row => layout_flex(&mut node, true),
        FlexDirection3D::Column => layout_flex(&mut node, false),
        FlexDirection3D::Depth => layout_depth(&mut node),
    }
    proof {
        assert forall|j: int| 0 <= j < node.children.len() implies same_shape(
            #[trigger] node.children@[j],
            pre.children@[j],
        ) && arranged_below(pre.children@[j], node.children@[j]) by {
            lemma_same_shape_node(mid.children@[j], node.children@[j], pre.children@[j]);
            lemma_arranged_below_node(pre.children@[j], mid.children@[j], node.children@[j]);
        }
    }
    node
}

/// Every node below `pre` as one layout pass leaves it: each child placed and sized by its parent's
/// arrangement, and the same at every depth.
pub open spec fn arranged_below(pre: Node3D, post: Node3D) -> bool
    decreases pre,
{
    &&& post.style == pre.style
    &&& post.children.len() == pre.children.len()
    &&& forall|i: int|
        0 <= i < post.children.len() ==> {
            &&& (#[trigger] post.children@[i]).layout.location == arranged_location(
                pre.style,
                child_laid_sizes(pre),
                pre.children@[i].layout.location,
                i,
            )
            &&& post.children@[i].layout.size == arranged_child_size(pre.style, child_laid_sizes(pre), i)
            &&& arranged_below(pre.children@[i], post.children@[i])
        }
}

/// What one layout pass makes of `pre`: the same styles and structure, `pre`'s own location kept,
/// its size computed bottom-up, and every node below it placed and sized by its parent.
pub open spec fn laid_out_from(pre: Node3D, post: Node3D) -> bool {
    &&& same_shape(post, pre)
    &&& post.layout.location == pre.layout.location
    &&& post.layout.size == node_size(pre)
    &&& arranged_below(pre, post)
}

/// Computes the layout of the whole tree under `node`, each node arranged by its own direction.
pub fn compute_layout(node: &mut Node3D)
    requires
        tree_ok(*old(node)),
    ensures
        laid_out_from(*old(node), *final(node)),
{
    let mut tmp = Node3D::new(Style3D::default(), Vec::new());
    std::mem::swap(&mut tmp, node);
    *node = laid_out(tmp);
}

/// The y of child `k` of a block: the heights of the children before it, each with one gap.
pub open spec fn block_y(sizes: Seq<Size3<i64>>, gap: int, k: int) -> int
    decreases k,
{
    if k <= 0 {
        0
    } else {
        block_y(sizes, gap, k - 1) + sizes[k - 1].height + gap
    }
}

/// Largest width among the first `k` children, and at least zero.
pub open spec fn widest_child(sizes: Seq<Size3<i64>>, k: int) -> int
    decreases k,
{
    if k <= 0 {
        0
    } else {
        vstd::math::max(widest_child(sizes, k - 1), sizes[k - 1].width as int)
    }
}

/// A block's own size: each fixed axis as its style gives it; an automatic height holds its
/// children stacked with one gap between each two, an automatic width or depth the largest child's.
pub open spec fn block_stack_size(style: Style3D, sizes: Seq<Size3<i64>>) -> Size3<i64> {
    let n = sizes.len() as int;
    let gap = style.gap as int;
    let y = block_y(sizes, gap, n);
    Size3 {
        width: (match fixed(style.size.width) {
            Some(v) => v,
            None => widest_child(sizes, n),
        }) as i64,
        height: (match fixed(style.size.height) {
            Some(v) => v,
            None => if n > 0 {
                clamp_len(y - gap)
            } else {
                0
            },
        }) as i64,
        depth: (match fixed(style.size.depth) {
            Some(v) => v,
            None => deepest(sizes, n),
        }) as i64,
    }
}

/// The size that the block pass gives each of the first `k` children of `n`.
pub open spec fn block_sizes(n: Node3D, k: int) -> Seq<Size3<i64>>
    decreases n, 0int, k,
{
    if k <= 0 || k > n.children.len() {
        Seq::empty()
    } else {
        block_sizes(n, k - 1).push(block_size(n.children@[k - 1]))
    }
}

/// The size that the block pass gives node `n`.
pub open spec fn block_size(n: Node3D) -> Size3<i64>
    decreases n, 1int, 0int,
{
    block_stack_size(n.style, block_sizes(n, n.children.len() as int))
}

proof fn lemma_block_bounds(sizes: Seq<Size3<i64>>, gap: int, k: int)
    requires
        sizes_ok(sizes),
        len_ok(gap),
        0 <= k <= sizes.len(),
    ensures
        -((2 * MAX_LEN) * k) <= block_y(sizes, gap, k) <= (2 * MAX_LEN) * k,
        -(2 * MAX_LEN * MAX_CHILDREN) <= block_y(sizes, gap, k) <= 2 * MAX_LEN * MAX_CHILDREN,
        0 <= widest_child(sizes, k) <= MAX_LEN,
    decreases k,
{
    if k > 0 {
        lemma_block_bounds(sizes, gap, k - 1);
        assert(size_ok(sizes[k - 1]));
        lemma_step(block_y(sizes, gap, k - 1), sizes[k - 1].height + gap, 2 * MAX_LEN, k);
    }
    lemma_scale(2 * MAX_LEN, k, MAX_CHILDREN as int);
}

/// Every node below `pre` as one block pass leaves it: each child sized by the pass and moved to
/// its place along height, and the same at every depth.
pub open spec fn block_placed_below(pre: Node3D, post: Node3D) -> bool
    decreases pre,
{
    &&& post.style == pre.style
    &&& post.children.len() == pre.children.len()
    &&& forall|i: int|
        0 <= i < post.children.len() ==> {
            &&& (#[trigger] post.children@[i]).layout.location == (Point3 {
                y: block_y(block_sizes(pre, pre.children.len() as int), pre.style.gap as int, i) as i64,
                ..pre.children@[i].layout.location
            })
            &&& post.children@[i].layout.size == block_size(pre.children@[i])
            &&& block_placed_below(pre.children@[i], post.children@[i])
        }
}

/// What one block pass makes of `pre`: the same styles and structure, `pre`'s own location kept,
/// its size computed bottom-up, and every node below it placed along height and sized.
pub open spec fn block_laid_out_from(pre: Node3D, post: Node3D) -> bool {
    &&& same_shape(post, pre)
    &&& post.layout.location == pre.layout.location
    &&& post.layout.size == block_size(pre)
    &&& block_placed_below(pre, post)
}

proof fn lemma_block_below_node(p: Node3D, x: Node3D, y: Node3D)
    requires
        block_placed_below(p, x),
        x.style == y.style,
        x.children == y.children,
    ensures
        block_placed_below(p, y),
{
}

fn block_laid_out(tree: Node3D) -> (r: Node3D)
    requires
        tree_ok(tree),
    ensures
        block_laid_out_from(tree, r),
        size_ok(r.layout.size),
    decreases tree,
{
    let ghost pre = tree;
    let mut node = tree;
    let gap = node.style.gap;
    let mut kids: Vec<Node3D> = Vec::new();
    std::mem::swap(&mut kids, &mut node.children);
    let n = kids.len();
    let mut out: Vec<Node3D> = Vec::new();
    let mut y: i64 = 0;
    let mut width: i64 = 0;
    let mut depth: i64 = 0;
    let mut i: usize = 0;
    while i < n
        invariant
            n == pre.children.len(),
            pre == tree,
            tree_ok(pre),
            gap == pre.style.gap,
            0 <= i <= n,
            kids@ == pre.children@.subrange(i as int, n as int),
            out.len() == i,
            child_sizes(out@) == block_sizes(pre, i as int),
            y == block_y(child_sizes(out@), gap as int, i as int),
            width == widest_child(child_sizes(out@), i as int),
            depth == deepest(child_sizes(out@), i as int),
            sizes_ok(child_sizes(out@)),
            forall|j: int|
                0 <= j < i ==> {
                    &&& same_shape(#[trigger] out@[j], pre.children@[j])
                    &&& out@[j].layout.location == (Point3 {
                        y: block_y(child_sizes(out@), gap as int, j) as i64,
                        ..pre.children@[j].layout.location
                    })
                    &&& out@[j].layout.size == block_size(pre.children@[j])
                    &&& block_placed_below(pre.children@[j], out@[j])
                    &&& size_ok(out@[j].layout.size)
                },
        decreases n - i,
    {
        let c = kids.remove(0);
        assert(c == pre.children@[i as int]);
        assert(tree_ok(c));
        let mut c2 = block_laid_out(c);
        let ghost c2_before = c2;
        proof {
            lemma_block_bounds(child_sizes(out@), gap as int, i as int);
            lemma_consts();
        }
        c2.layout.location.y = y;
        proof {
            lemma_block_below_node(pre.children@[i as int], c2_before, c2);
        }
        let h = c2.layout.size.height;
        let w = c2.layout.size.width;
        let d = c2.layout.size.depth;
        let ghost before = child_sizes(out@);
        out.push(c2);
        proof {
            let after = child_sizes(out@);
            assert(after =~= block_sizes(pre, i as int + 1));
            assert(after.subrange(0, i as int) =~= before.subrange(0, i as int));
            lemma_prefix_stable(before, after, gap as int, i as int);
            assert forall|j: int| 0 <= j < i implies block_y(after, gap as int, j) == block_y(before, gap as int, j) by {
                assert(after.subrange(0, j) =~= before.subrange(0, j));
                lemma_prefix_stable(before, after, gap as int, j);
            }
            assert forall|k: int| 0 <= k < after.len() implies size_ok(#[trigger] after[k]) by {
                if k < i {
                    assert(after[k] == before[k]);
                }
            }
        }
        y = y + h + gap;
        if w > width {
            width = w;
        }
        if d > depth {
            depth = d;
        }
        i = i + 1;
    }
    proof {
        lemma_block_bounds(child_sizes(out@), gap as int, n as int);
        lemma_deepest_bounds(child_sizes(out@), n as int);
        lemma_consts();
    }
    let w = match resolve(node.style.size.width) {
        Some(v) => v,
        None => width,
    };
    let h = match resolve(node.style.size.height) {
        Some(v) => v,
        None => if n > 0 {
            clamp(y - gap)
        } else {
            0
        },
    };
    let d = match resolve(node.style.size.depth) {
        Some(v) => v,
        None => depth,
    };
    node.layout.size = Size3 { width: w, height: h, depth: d };
    node.children = out;
    assert(child_sizes(node.children@) == block_sizes(pre, n as int));
    node
}

proof fn lemma_prefix_stable(s: Seq<Size3<i64>>, t: Seq<Size3<i64>>, gap: int, k: int)
    requires
        0 <= k <= s.len(),
        k <= t.len(),
        s.subrange(0, k) == t.subrange(0, k),
    ensures
        block_y(s, gap, k) == block_y(t, gap, k),
        widest_child(s, k) == widest_child(t, k),
        deepest(s, k) == deepest(t, k),
    decreases k,
{
    if k > 0 {
        assert(s.subrange(0, k - 1) =~= s.subrange(0, k).subrange(0, k - 1));
        assert(t.subrange(0, k - 1) =~= t.subrange(0, k).subrange(0, k - 1));
        assert(s[k - 1] == s.subrange(0, k)[k - 1]);
        assert(t[k - 1] == t.subrange(0, k)[k - 1]);
        lemma_prefix_stable(s, t, gap, k - 1);
    }
}

/// Stacks the children of every node of the tree along height, children first.
pub fn compute_block_layout(node: &mut Node3D)
    requires
        tree_ok(*old(node)),
    ensures
        block_laid_out_from(*old(node), *final(node)),
{
    let mut tmp = Node3D::new(Style3D::default(), Vec::new());
    std::mem::swap(&mut tmp, node);
    *node = block_laid_out(tmp);
}

/// The size of each cell of a grid that divides `size` into `cols` by `rows` by `layers` cells.
pub open spec fn grid_cell(size: Size3<i64>, cols: int, rows: int, layers: int) -> Size3<i64> {
    Size3 {
        width: (size.width as int / cols) as i64,
        height: (size.height as int / rows) as i64,
        depth: (size.depth as int / layers) as i64,
    }
}

/// The position of child `i` of a grid: column `i mod cols`, row `(i div cols) mod rows`, layer
/// `i div (cols * rows)`.
pub open spec fn grid_location(size: Size3<i64>, cols: int, rows: int, layers: int, i: int) -> Point3<i64> {
    let cell = grid_cell(size, cols, rows, layers);
    Point3 {
        x: ((i % cols) * cell.width) as i64,
        y: (((i / cols) % rows) * cell.height) as i64,
        z: ((i / (cols * rows)) * cell.depth) as i64,
    }
}

/// Floor division of a length by a positive count.
fn div_count(a: i64, b: usize) -> (r: i64)
    requires
        b > 0,
        len_ok(a as int),
    ensures
        r == a as int / b as int,
        len_ok(r as int),
{
    if b as u64 > MAX_LEN as u64 {
        let ghost q = a as int / b as int;
        let ghost m = a as int % b as int;
        proof {
            vstd::arithmetic::div_mod::lemma_fundamental_div_mod(a as int, b as int);
            vstd::arithmetic::div_mod::lemma_mod_bound(a as int, b as int);
            assert(a >= 0 ==> q == 0) by (nonlinear_arith)
                requires
                    a as int == b * q + m,
                    0 <= m < b,
                    -MAX_LEN <= a <= MAX_LEN,
                    b > MAX_LEN,
            ;
            assert(a < 0 ==> q == -1) by (nonlinear_arith)
                requires
                    a as int == b * q + m,
                    0 <= m < b,
                    -MAX_LEN <= a <= MAX_LEN,
                    b > MAX_LEN,
            ;
        }
        if a >= 0 {
            0
        } else {
            -1
        }
    } else {
        let r = div_floor(a, b as i64);
        proof {
            vstd::arithmetic::div_mod::lemma_fundamental_div_mod(a as int, b as int);
            vstd::arithmetic::div_mod::lemma_mod_bound(a as int, b as int);
            let ghost m = a as int % b as int;
            assert(-MAX_LEN <= r <= MAX_LEN) by (nonlinear_arith)
                requires
                    a as int == b * r + m,
                    0 <= m < b,
                    -MAX_LEN <= a <= MAX_LEN,
                    b >= 1,
            ;
        }
        r
    }
}

/// Divides the already-sized `node` into a uniform grid and puts each child in its cell, sized to
/// the cell.
pub fn compute_grid_layout(node: &mut Node3D, cols: usize, rows: usize, layers: usize)
    requires
        cols > 0,
        rows > 0,
        layers > 0,
        size_ok(old(node).layout.size),
        old(node).children.len() <= MAX_CHILDREN,
    ensures
        final(node).style == old(node).style,
        final(node).layout == old(node).layout,
        final(node).children.len() == old(node).children.len(),
        forall|i: int|
            0 <= i < final(node).children.len() ==> {
                &&& (#[trigger] final(node).children@[i]).style == old(node).children@[i].style
                &&& final(node).children@[i].children == old(node).children@[i].children
                &&& final(node).children@[i].layout.size == grid_cell(
                    old(node).layout.size,
                    cols as int,
                    rows as int,
                    layers as int,
                )
                &&& final(node).children@[i].layout.location == grid_location(
                    old(node).layout.size,
                    cols as int,
                    rows as int,
                    layers as int,
                    i,
                )
            },
{
    let ghost orig = node.children@;
    let size = node.layout.size;
    let cell_w = div_count(size.width, cols);
    let cell_h = div_count(size.height, rows);
    let cell_d = div_count(size.depth, layers);
    let mut kids: Vec<Node3D> = Vec::new();
    std::mem::swap(&mut kids, &mut node.children);
    let n = kids.len();
    let mut out: Vec<Node3D> = Vec::new();
    let mut i: usize = 0;
    while i < n
        invariant
            n == orig.len(),
            n <= MAX_CHILDREN,
            cols > 0 && rows > 0 && layers > 0,
            cell_w as int == size.width as int / cols as int,
            cell_h as int == size.height as int / rows as int,
            cell_d as int == size.depth as int / layers as int,
            len_ok(cell_w as int) && len_ok(cell_h as int) && len_ok(cell_d as int),
            0 <= i <= n,
            kids@ == orig.subrange(i as int, n as int),
            out.len() == i,
            forall|j: int|
                0 <= j < i ==> {
                    &&& (#[trigger] out@[j]).style == orig[j].style
                    &&& out@[j].children == orig[j].children
                    &&& out@[j].layout.size == grid_cell(size, cols as int, rows as int, layers as int)
                    &&& out@[j].layout.location == grid_location(size, cols as int, rows as int, layers as int, j)
                },
        decreases n - i,
    {
        let c = i % cols;
        let r = (i / cols) % rows;
        let l = (i / cols) / rows;
        proof {
            vstd::arithmetic::div_mod::lemma_div_denominator(i as int, cols as int, rows as int);
            vstd::arithmetic::div_mod::lemma_mod_bound(i as int, cols as int);
            vstd::arithmetic::div_mod::lemma_mod_bound(i as int / cols as int, rows as int);
            vstd::arithmetic::div_mod::lemma_div_is_ordered_by_denominator(i as int, 1, cols as int);
            vstd::arithmetic::div_mod::lemma_div_is_ordered_by_denominator(i as int / cols as int, 1, rows as int);
            vstd::arithmetic::div_mod::lemma_mod_decreases(i as nat, cols as nat);
            vstd::arithmetic::div_mod::lemma_mod_decreases((i / cols) as nat, rows as nat);
            assert(c <= i);
            assert(r <= i / cols);
            assert(i as int / 1 == i as int);
            assert((i as int / cols as int) / 1 == i as int / cols as int);
            lemma_consts();
            lemma_mul_bound(cell_w as int, c as int, MAX_LEN as int, MAX_CHILDREN as int);
            lemma_mul_bound(cell_h as int, r as int, MAX_LEN as int, MAX_CHILDREN as int);
            lemma_mul_bound(cell_d as int, l as int, MAX_LEN as int, MAX_CHILDREN as int);
        }
        let mut child = kids.remove(0);
        assert(child == orig[i as int]);
        let ci = c as i64;
        let ri = r as i64;
        assert(ci * cell_w == cell_w * ci) by (nonlinear_arith);
        assert(ri * cell_h == cell_h * ri) by (nonlinear_arith);
        let li = l as i64;
        assert(li * cell_d == cell_d * li) by (nonlinear_arith);
        child.layout.location = Point3 { x: ci * cell_w, y: ri * cell_h, z: li * cell_d };
        child.layout.size = Size3 { width: cell_w, height: cell_h, depth: cell_d };
        out.push(child);
        i = i + 1;
    }
    node.children = out;
}

proof fn lemma_laid_sizes_same(a: Node3D, b: Node3D, k: int)
    requires
        same_shape(a, b),
        0 <= k <= a.children.len(),
    ensures
        laid_sizes(a, k) == laid_sizes(b, k),
    decreases a, 0int, k,
{
    if k > 0 {
        lemma_laid_sizes_same(a, b, k - 1);
        assert(same_shape(a.children@[k - 1], b.children@[k - 1]));
        lemma_same_shape_sizes(a.children@[k - 1], b.children@[k - 1]);
    }
}

/// Trees with the same styles and structure get the same sizes from the traversal, whatever
/// layouts they held before.
pub proof fn lemma_same_shape_sizes(a: Node3D, b: Node3D)
    requires
        same_shape(a, b),
    ensures
        node_size(a) == node_size(b),
        child_laid_sizes(a) == child_laid_sizes(b),
    decreases a, 1int, 0int,
{
    lemma_laid_sizes_same(a, b, a.children.len() as int);
}

/// Two trees whose nodes below the root hold the same layouts, at every depth.
pub open spec fn same_layouts_below(a: Node3D, b: Node3D) -> bool
    decreases a,
{
    &&& a.children.len() == b.children.len()
    &&& forall|i: int|
        0 <= i < a.children.len() ==> {
            &&& (#[trigger] a.children@[i]).layout == b.children@[i].layout
            &&& same_layouts_below(a.children@[i], b.children@[i])
        }
}

proof fn lemma_idempotent_below(a0: Node3D, a1: Node3D, a2: Node3D)
    requires
        same_shape(a1, a0),
        arranged_below(a0, a1),
        arranged_below(a1, a2),
    ensures
        same_layouts_below(a1, a2),
    decreases a0,
{
    lemma_same_shape_sizes(a1, a0);
    assert forall|i: int| 0 <= i < a1.children.len() implies (#[trigger] a1.children@[i]).layout
        == a2.children@[i].layout && same_layouts_below(a1.children@[i], a2.children@[i]) by {
        assert(same_shape(a1.children@[i], a0.children@[i]));
        lemma_idempotent_below(a0.children@[i], a1.children@[i], a2.children@[i]);
    }
}

/// Laying out a tree a second time changes nothing: every node keeps the location and size the
/// first pass gave it, at every depth.
pub proof fn lemma_layout_idempotent(a0: Node3D, a1: Node3D, a2: Node3D)
    requires
        laid_out_from(a0, a1),
        laid_out_from(a1, a2),
    ensures
        a2.layout == a1.layout,
        same_layouts_below(a1, a2),
{
    lemma_same_shape_sizes(a1, a0);
    lemma_idempotent_below(a0, a1, a2);
}

/// Two laid-out trees whose nodes below the root have the same sizes at every depth, and the same
/// locations wherever the parent arranges in a row or a column.
pub open spec fn agree_below(a: Node3D, b: Node3D) -> bool
    decreases a,
{
    &&& a.children.len() == b.children.len()
    &&& forall|i: int|
        0 <= i < a.children.len() ==> {
            &&& (#[trigger] a.children@[i]).layout.size == b.children@[i].layout.size
            &&& a.style.flex_direction != FlexDirection3D::Depth ==> a.children@[i].layout.location
                == b.children@[i].layout.location
            &&& agree_below(a.children@[i], b.children@[i])
        }
}

proof fn lemma_agree_below(a: Node3D, b: Node3D, a2: Node3D, b2: Node3D)
    requires
        same_shape(a, b),
        arranged_below(a, a2),
        arranged_below(b, b2),
    ensures
        agree_below(a2, b2),
    decreases a,
{
    lemma_same_shape_sizes(a, b);
    assert forall|i: int| 0 <= i < a2.children.len() implies {
        &&& (#[trigger] a2.children@[i]).layout.size == b2.children@[i].layout.size
        &&& a2.style.flex_direction != FlexDirection3D::Depth ==> a2.children@[i].layout.location
            == b2.children@[i].layout.location
        &&& agree_below(a2.children@[i], b2.children@[i])
    } by {
        assert(same_shape(a.children@[i], b.children@[i]));
        lemma_agree_below(a.children@[i], b.children@[i], a2.children@[i], b2.children@[i]);
    }
}

/// The layout of a tree depends on its styles and structure alone: two trees of the same shape
/// get the same size at every node, and the same location at every node whose parent arranges in
/// a row or a column, whatever layouts they held before.
pub proof fn lemma_layout_from_shape(a: Node3D, b: Node3D, a2: Node3D, b2: Node3D)
    requires
        same_shape(a, b),
        laid_out_from(a, a2),
        laid_out_from(b, b2),
    ensures
        a2.layout.size == b2.layout.size,
        agree_below(a2, b2),
{
    lemma_same_shape_sizes(a, b);
    lemma_agree_below(a, b, a2, b2);
}

/// The z of child `k` of a stack that never restarts: the depths of the children before it, each
/// with one gap.
pub open spec fn stacked_depth(sizes: Seq<Size3<i64>>, gap: int, k: int) -> int
    decreases k,
{
    if k <= 0 {
        0
    } else {
        stacked_depth(sizes, gap, k - 1) + sizes[k - 1].depth + gap
    }
}

proof fn lemma_walk_without_wrap(sizes: Seq<Size3<i64>>, gap: int, k: int)
    requires
        0 <= k <= sizes.len(),
    ensures
        depth_walk(sizes, gap, None, k).0 == stacked_depth(sizes, gap, k),
    decreases k,
{
    if k > 0 {
        lemma_walk_without_wrap(sizes, gap, k - 1);
    }
}

/// In a depth stack that does not wrap, each child's z is the sum of the depths of the children
/// before it, each with one gap; where no depth plus gap is negative, z never decreases from one
/// child to the next.
pub proof fn lemma_depth_stack_offsets(style: Style3D, sizes: Seq<Size3<i64>>, i: int)
    requires
        !style.wrap,
        0 <= i < sizes.len(),
    ensures
        stack_z(style, sizes, i) == stacked_depth(sizes, style.gap as int, i),
        (forall|j: int| 0 <= j < sizes.len() ==> #[trigger] sizes[j].depth + style.gap >= 0) && i + 1 < sizes.len()
            ==> stack_z(style, sizes, i) <= stack_z(style, sizes, i + 1),
{
    lemma_walk_without_wrap(sizes, style.gap as int, i);
    if i + 1 < sizes.len() {
        lemma_walk_without_wrap(sizes, style.gap as int, i + 1);
    }
}

proof fn lemma_block_sizes_same(a: Node3D, b: Node3D, k: int)
    requires
        same_shape(a, b),
        0 <= k <= a.children.len(),
    ensures
        block_sizes(a, k) == block_sizes(b, k),
    decreases a, 0int, k,
{
    if k > 0 {
        lemma_block_sizes_same(a, b, k - 1);
        assert(same_shape(a.children@[k - 1], b.children@[k - 1]));
        lemma_same_shape_block_size(a.children@[k - 1], b.children@[k - 1]);
    }
}

/// Trees with the same styles and structure get the same sizes from the block pass.
pub proof fn lemma_same_shape_block_size(a: Node3D, b: Node3D)
    requires
        same_shape(a, b),
    ensures
        block_size(a) == block_size(b),
        block_sizes(a, a.children.len() as int) == block_sizes(b, b.children.len() as int),
    decreases a, 1int, 0int,
{
    lemma_block_sizes_same(a, b, a.children.len() as int);
}

proof fn lemma_block_idempotent_below(a0: Node3D, a1: Node3D, a2: Node3D)
    requires
        same_shape(a1, a0),
        block_placed_below(a0, a1),
        block_placed_below(a1, a2),
    ensures
        same_layouts_below(a1, a2),
    decreases a0,
{
    lemma_same_shape_block_size(a1, a0);
    assert forall|i: int| 0 <= i < a1.children.len() implies (#[trigger] a1.children@[i]).layout
        == a2.children@[i].layout && same_layouts_below(a1.children@[i], a2.children@[i]) by {
        assert(same_shape(a1.children@[i], a0.children@[i]));
        lemma_same_shape_block_size(a1.children@[i], a0.children@[i]);
        lemma_block_idempotent_below(a0.children@[i], a1.children@[i], a2.children@[i]);
    }
}

/// Running the block pass a second time changes nothing: every node keeps the location and size
/// the first pass gave it, at every depth.
pub proof fn lemma_block_layout_idempotent(a0: Node3D, a1: Node3D, a2: Node3D)
    requires
        block_laid_out_from(a0, a1),
        block_laid_out_from(a1, a2),
    ensures
        a2.layout == a1.layout,
        same_layouts_below(a1, a2),
{
    lemma_same_shape_block_size(a1, a0);
    lemma_block_idempotent_below(a0, a1, a2);
}

} // verus!
