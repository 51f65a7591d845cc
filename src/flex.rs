//! Row and column arrangement: line assignment, container sizing and placement.
use vstd::prelude::*;
use crate::geometry::{Point3, Size3};
use crate::style::{Layout3D, Node3D, div_floor, clamp, resolve, style_ok};
use crate::style::{AlignItems, Dimension, JustifyContent, Style3D, MAX_CHILDREN, MAX_LEN, clamp_len, fixed, len_ok, size_ok};

verus! {

/// Extent of a child along the main axis (width for a row, height for a column).
pub open spec fn main_of(s: Size3<i64>, row: bool) -> int {
    if row {
        s.width as int
    } else {
        s.height as int
    }
}

/// Extent of a child along the cross axis (height for a row, width for a column).
pub open spec fn cross_of(s: Size3<i64>, row: bool) -> int {
    if row {
        s.height as int
    } else {
        s.width as int
    }
}

/// Children sizes within the supported range, and not too many of them.
pub open spec fn sizes_ok(sizes: Seq<Size3<i64>>) -> bool {
    &&& sizes.len() <= MAX_CHILDREN
    &&& forall|i: int| 0 <= i < sizes.len() ==> size_ok(#[trigger] sizes[i])
}

/// An optional length as an optional integer.
pub open spec fn opt_len(o: Option<i64>) -> Option<int> {
    match o {
        Some(m) => Some(m as int),
        None => None,
    }
}

/// Whether a child of main extent `w` opens a new line after a line of running extent `acc`.
pub open spec fn breaks(acc: int, w: int, limit: Option<int>) -> bool {
    match limit {
        Some(m) => acc > 0 && acc + w > m,
        None => false,
    }
}

/// After the first `k` children: the line of the last of them, and that line's running extent
/// (each child counted with one gap after it).
pub open spec fn line_walk(sizes: Seq<Size3<i64>>, row: bool, gap: int, limit: Option<int>, k: int) -> (int, int)
    decreases k,
{
    if k <= 0 {
        (0, 0)
    } else {
        let prev = line_walk(sizes, row, gap, limit, k - 1);
        let w = main_of(sizes[k - 1], row);
        if breaks(prev.1, w, limit) {
            (prev.0 + 1, w + gap)
        } else {
            (prev.0, prev.1 + w + gap)
        }
    }
}

/// The line of each child.
pub open spec fn line_seq(sizes: Seq<Size3<i64>>, row: bool, gap: int, limit: Option<int>) -> Seq<usize> {
    Seq::new(sizes.len(), |i: int| line_walk(sizes, row, gap, limit, i + 1).0 as usize)
}

/// The number of lines; there is always at least one.
pub open spec fn line_total_count(sizes: Seq<Size3<i64>>, row: bool, gap: int, limit: Option<int>) -> int {
    line_walk(sizes, row, gap, limit, sizes.len() as int).0 + 1
}

/// Sum of the main extents of the first `k` children that lie on line `l`.
pub open spec fn line_sum(sizes: Seq<Size3<i64>>, row: bool, lines: Seq<usize>, l: int, k: int) -> int
    decreases k,
{
    if k <= 0 {
        0
    } else {
        line_sum(sizes, row, lines, l, k - 1) + if lines[k - 1] as int == l {
            main_of(sizes[k - 1], row)
        } else {
            0
        }
    }
}

/// Number of the first `k` children that lie on line `l`.
pub open spec fn line_len(lines: Seq<usize>, l: int, k: int) -> int
    decreases k,
{
    if k <= 0 {
        0
    } else {
        line_len(lines, l, k - 1) + if lines[k - 1] as int == l {
            1int
        } else {
            0
        }
    }
}

/// Largest cross extent among the first `k` children on line `l`, and at least zero.
pub open spec fn line_max(sizes: Seq<Size3<i64>>, row: bool, lines: Seq<usize>, l: int, k: int) -> int
    decreases k,
{
    if k <= 0 {
        0
    } else {
        let m = line_max(sizes, row, lines, l, k - 1);
        if lines[k - 1] as int == l && cross_of(sizes[k - 1], row) > m {
            cross_of(sizes[k - 1], row)
        } else {
            m
        }
    }
}

/// Main extent of line `l`: its children and the gaps between them.
pub open spec fn line_extent(sizes: Seq<Size3<i64>>, row: bool, lines: Seq<usize>, gap: int, l: int) -> int {
    let n = sizes.len() as int;
    let c = line_len(lines, l, n);
    line_sum(sizes, row, lines, l, n) + gap * (if c > 0 { c - 1 } else { 0 })
}

/// Largest main extent among the first `m` lines (zero where `m` is zero).
pub open spec fn widest_line(sizes: Seq<Size3<i64>>, row: bool, lines: Seq<usize>, gap: int, m: int) -> int
    decreases m,
{
    if m <= 0 {
        0
    } else if m == 1 {
        line_extent(sizes, row, lines, gap, 0)
    } else {
        let w = widest_line(sizes, row, lines, gap, m - 1);
        let e = line_extent(sizes, row, lines, gap, m - 1);
        if e > w {
            e
        } else {
            w
        }
    }
}

/// Cross offset of line `m`: the cross extents of the lines before it, each with one gap.
pub open spec fn lines_before(sizes: Seq<Size3<i64>>, row: bool, lines: Seq<usize>, gap: int, m: int) -> int
    decreases m,
{
    if m <= 0 {
        0
    } else {
        lines_before(sizes, row, lines, gap, m - 1) + line_max(sizes, row, lines, m - 1, sizes.len() as int) + gap
    }
}

/// Largest depth among the first `k` children, and at least zero.
pub open spec fn deepest(sizes: Seq<Size3<i64>>, k: int) -> int
    decreases k,
{
    if k <= 0 {
        0
    } else {
        let d = deepest(sizes, k - 1);
        if sizes[k - 1].depth > d {
            sizes[k - 1].depth as int
        } else {
            d
        }
    }
}

/// The dimension of the main axis in a style.
pub open spec fn main_dim(style: Style3D, row: bool) -> Dimension {
    if row {
        style.size.width
    } else {
        style.size.height
    }
}

/// The dimension of the cross axis in a style.
pub open spec fn cross_dim(style: Style3D, row: bool) -> Dimension {
    if row {
        style.size.height
    } else {
        style.size.width
    }
}

/// The main-axis limit at which lines wrap; `None` where lines never wrap.
pub open spec fn wrap_limit(style: Style3D, row: bool) -> Option<int> {
    if style.wrap {
        fixed(main_dim(style, row))
    } else {
        None
    }
}

/// The line of each child of a container.
pub open spec fn flex_lines(style: Style3D, sizes: Seq<Size3<i64>>, row: bool) -> Seq<usize> {
    line_seq(sizes, row, style.gap as int, wrap_limit(style, row))
}

pub open spec fn flex_line_count(style: Style3D, sizes: Seq<Size3<i64>>, row: bool) -> int {
    line_total_count(sizes, row, style.gap as int, wrap_limit(style, row))
}

/// Container main extent: fixed, else the widest line.
pub open spec fn flex_main(style: Style3D, sizes: Seq<Size3<i64>>, row: bool) -> int {
    match fixed(main_dim(style, row)) {
        Some(v) => v,
        None => clamp_len(
            widest_line(sizes, row, flex_lines(style, sizes, row), style.gap as int, flex_line_count(style, sizes, row)),
        ),
    }
}

/// Container cross extent: fixed, else the lines' cross extents with gaps between them.
pub open spec fn flex_cross(style: Style3D, sizes: Seq<Size3<i64>>, row: bool) -> int {
    match fixed(cross_dim(style, row)) {
        Some(v) => v,
        None => clamp_len(
            lines_before(sizes, row, flex_lines(style, sizes, row), style.gap as int, flex_line_count(style, sizes, row))
                - style.gap,
        ),
    }
}

/// Container depth: fixed, else the deepest child.
pub open spec fn flex_depth(style: Style3D, sizes: Seq<Size3<i64>>) -> int {
    match fixed(style.size.depth) {
        Some(v) => v,
        None => deepest(sizes, sizes.len() as int),
    }
}

/// The container's own size after a row or column arrangement.
pub open spec fn flex_size(style: Style3D, sizes: Seq<Size3<i64>>, row: bool) -> Size3<i64> {
    let m = flex_main(style, sizes, row) as i64;
    let c = flex_cross(style, sizes, row) as i64;
    let d = flex_depth(style, sizes) as i64;
    if row {
        Size3 { width: m, height: c, depth: d }
    } else {
        Size3 { width: c, height: m, depth: d }
    }
}

/// Main-axis start and spacing on a line with free space `free` holding `count` children.
pub open spec fn justify(j: JustifyContent, free: int, gap: int, count: int) -> (int, int) {
    match j {
        JustifyContent::FlexStart => (0, gap),
        JustifyContent::Center => (free / 2, gap),
        JustifyContent::FlexEnd => (free, gap),
        JustifyContent::SpaceBetween if count > 1 => (0, free / (count - 1)),
        _ => (0, gap),
    }
}

/// Offset along an axis of extent `extent` of a child of extent `child`.
pub open spec fn align_offset(a: AlignItems, extent: int, child: int) -> int {
    match a {
        AlignItems::Center => (extent - child) / 2,
        AlignItems::FlexEnd => extent - child,
        _ => 0,
    }
}

/// Main-axis position of child `i`.
pub open spec fn flex_main_pos(style: Style3D, sizes: Seq<Size3<i64>>, row: bool, i: int) -> int {
    let lines = flex_lines(style, sizes, row);
    let l = lines[i] as int;
    let n = sizes.len() as int;
    let free = flex_main(style, sizes, row) - line_extent(sizes, row, lines, style.gap as int, l);
    let js = justify(style.justify_content, free, style.gap as int, line_len(lines, l, n));
    js.0 + line_sum(sizes, row, lines, l, i) + js.1 * line_len(lines, l, i)
}

/// Cross-axis position of child `i`: the offset of its line, plus its alignment within the
/// container's cross extent.
pub open spec fn flex_cross_pos(style: Style3D, sizes: Seq<Size3<i64>>, row: bool, i: int) -> int {
    let lines = flex_lines(style, sizes, row);
    let l = lines[i] as int;
    lines_before(sizes, row, lines, style.gap as int, l) + align_offset(
        style.align_items,
        flex_cross(style, sizes, row),
        cross_of(sizes[i], row),
    )
}

/// Position of child `i` after a row or column arrangement.
pub open spec fn flex_location(style: Style3D, sizes: Seq<Size3<i64>>, row: bool, i: int) -> Point3<i64> {
    let m = flex_main_pos(style, sizes, row, i) as i64;
    let c = flex_cross_pos(style, sizes, row, i) as i64;
    let z = align_offset(style.align_items, flex_depth(style, sizes), sizes[i].depth as int) as i64;
    if row {
        Point3 { x: m, y: c, z }
    } else {
        Point3 { x: c, y: m, z }
    }
}

/// Cross extent of line `l`: the container's fixed cross size where it has one and holds a single
/// line, else the line's largest child.
pub open spec fn line_cross_extent(style: Style3D, sizes: Seq<Size3<i64>>, row: bool, l: int) -> int {
    match fixed(cross_dim(style, row)) {
        Some(v) if flex_line_count(style, sizes, row) == 1 => v,
        _ => line_max(sizes, row, flex_lines(style, sizes, row), l, sizes.len() as int),
    }
}

/// Size of child `i` after a row or column arrangement: stretch fills its line's cross extent and
/// the container's depth.
pub open spec fn flex_child_size(style: Style3D, sizes: Seq<Size3<i64>>, row: bool, i: int) -> Size3<i64> {
    let s = sizes[i];
    if style.align_items == AlignItems::Stretch {
        let lines = flex_lines(style, sizes, row);
        let c = line_cross_extent(style, sizes, row, lines[i] as int) as i64;
        let d = flex_depth(style, sizes) as i64;
        if row {
            Size3 { width: s.width, height: c, depth: d }
        } else {
            Size3 { width: c, height: s.height, depth: d }
        }
    } else {
        s
    }
}

pub(crate) proof fn lemma_mul_bound(a: int, k: int, bound: int, kmax: int)
    requires
        -bound <= a <= bound,
        0 <= k <= kmax,
    ensures
        -(bound * kmax) <= a * k <= bound * kmax,
{
    assert(-(bound * kmax) <= a * k <= bound * kmax) by (nonlinear_arith)
        requires
            -bound <= a <= bound,
            0 <= k <= kmax,
    ;
}

proof fn lemma_spread_bound(free: int, m: int, c: int)
    requires
        m >= 1,
        0 <= c <= m,
    ensures
        -(if free < 0 { -free } else { free }) - m <= (free / m) * c <= (if free < 0 { -free } else { free }),
{
    let q = free / m;
    let r = free % m;
    vstd::arithmetic::div_mod::lemma_fundamental_div_mod(free, m);
    vstd::arithmetic::div_mod::lemma_mod_bound(free, m);
    assert(free == q * m + r && 0 <= r < m);
    assert(-(if free < 0 { -free } else { free }) - m <= q * c <= (if free < 0 { -free } else { free })) by (nonlinear_arith)
        requires
            free == q * m + r,
            0 <= r < m,
            m >= 1,
            0 <= c <= m,
    ;
}

proof fn lemma_walk_bounds(sizes: Seq<Size3<i64>>, row: bool, gap: int, limit: Option<int>, k: int)
    requires
        sizes_ok(sizes),
        len_ok(gap),
        0 <= k <= sizes.len(),
    ensures
        0 <= line_walk(sizes, row, gap, limit, k).0 <= (if k > 0 { k - 1 } else { 0 }),
        -((2 * MAX_LEN) * k) <= line_walk(sizes, row, gap, limit, k).1 <= (2 * MAX_LEN) * k,
        -wide() <= line_walk(sizes, row, gap, limit, k).1 <= wide(),
    decreases k,
{
    if k > 0 {
        lemma_walk_bounds(sizes, row, gap, limit, k - 1);
        assert(size_ok(sizes[k - 1]));
        lemma_step(line_walk(sizes, row, gap, limit, k - 1).1, main_of(sizes[k - 1], row) + gap, 2 * MAX_LEN, k);
        lemma_step(0, main_of(sizes[k - 1], row) + gap, 2 * MAX_LEN, k);
    }
    lemma_scale(2 * MAX_LEN, k, MAX_CHILDREN as int);
}

/// A bound on intermediate sums: twice the largest length, once per child.
pub open spec fn wide() -> int {
    2 * MAX_LEN * MAX_CHILDREN
}

pub(crate) proof fn lemma_consts()
    ensures
        MAX_LEN == 0x10_0000_0000,
        MAX_CHILDREN == 0x1_0000,
        MAX_LEN * MAX_CHILDREN == 0x10_0000_0000_0000,
        2 * MAX_LEN * MAX_CHILDREN == 0x20_0000_0000_0000,
        2 * MAX_LEN * (MAX_CHILDREN + 1) == 0x20_0020_0000_0000,
{
    assert(MAX_LEN * MAX_CHILDREN == 0x10_0000_0000_0000) by (nonlinear_arith)
        requires
            MAX_LEN == 0x10_0000_0000,
            MAX_CHILDREN == 0x1_0000,
    ;
    assert(2 * MAX_LEN * MAX_CHILDREN == 0x20_0000_0000_0000) by (nonlinear_arith)
        requires
            MAX_LEN == 0x10_0000_0000,
            MAX_CHILDREN == 0x1_0000,
    ;
    assert(2 * MAX_LEN * (MAX_CHILDREN + 1) == 0x20_0020_0000_0000) by (nonlinear_arith)
        requires
            MAX_LEN == 0x10_0000_0000,
            MAX_CHILDREN == 0x1_0000,
    ;
}

pub(crate) proof fn lemma_step(a: int, d: int, b: int, k: int)
    requires
        k >= 1,
        b >= 0,
        -(b * (k - 1)) <= a <= b * (k - 1),
        -b <= d <= b,
    ensures
        -(b * k) <= a + d <= b * k,
{
    assert(-(b * k) <= a + d <= b * k) by (nonlinear_arith)
        requires
            k >= 1,
            b >= 0,
            -(b * (k - 1)) <= a <= b * (k - 1),
            -b <= d <= b,
    ;
}

pub(crate) proof fn lemma_scale(b: int, k: int, kmax: int)
    requires
        b >= 0,
        0 <= k <= kmax,
    ensures
        0 <= b * k <= b * kmax,
{
    assert(0 <= b * k <= b * kmax) by (nonlinear_arith)
        requires
            b >= 0,
            0 <= k <= kmax,
    ;
}

proof fn lemma_line_bounds(sizes: Seq<Size3<i64>>, row: bool, lines: Seq<usize>, l: int, k: int)
    requires
        sizes_ok(sizes),
        lines.len() == sizes.len(),
        0 <= k <= sizes.len(),
    ensures
        -(MAX_LEN * k) <= line_sum(sizes, row, lines, l, k) <= MAX_LEN * k,
        -(MAX_LEN * MAX_CHILDREN) <= line_sum(sizes, row, lines, l, k) <= MAX_LEN * MAX_CHILDREN,
        0 <= line_len(lines, l, k) <= k,
        0 <= line_max(sizes, row, lines, l, k) <= MAX_LEN,
    decreases k,
{
    if k > 0 {
        lemma_line_bounds(sizes, row, lines, l, k - 1);
        assert(size_ok(sizes[k - 1]));
        let add = if lines[k - 1] as int == l { main_of(sizes[k - 1], row) } else { 0 };
        lemma_step(line_sum(sizes, row, lines, l, k - 1), add, MAX_LEN as int, k);
    }
    lemma_scale(MAX_LEN as int, k, MAX_CHILDREN as int);
}

pub(crate) proof fn lemma_deepest_bounds(sizes: Seq<Size3<i64>>, k: int)
    requires
        sizes_ok(sizes),
        0 <= k <= sizes.len(),
    ensures
        0 <= deepest(sizes, k) <= MAX_LEN,
    decreases k,
{
    if k > 0 {
        lemma_deepest_bounds(sizes, k - 1);
        assert(size_ok(sizes[k - 1]));
    }
}

fn main_ext(s: &Size3<i64>, row: bool) -> (r: i64)
    ensures
        r == main_of(*s, row),
{
    if row {
        s.width
    } else {
        s.height
    }
}

fn cross_ext(s: &Size3<i64>, row: bool) -> (r: i64)
    ensures
        r == cross_of(*s, row),
{
    if row {
        s.height
    } else {
        s.width
    }
}

/// Assigns each child to a line, opening a new line before a child that would pass the limit.
pub fn assign_lines(sizes: &Vec<Size3<i64>>, row: bool, gap: i64, limit: Option<i64>) -> (lines: Vec<usize>)
    requires
        sizes_ok(sizes@),
        len_ok(gap as int),
    ensures
        lines@ == line_seq(sizes@, row, gap as int, opt_len(limit)),
        forall|i: int| 0 <= i < lines.len() ==> lines@[i] <= i,
{
    let ghost lim = opt_len(limit);
    let n = sizes.len();
    let mut lines: Vec<usize> = Vec::new();
    let mut line: usize = 0;
    let mut acc: i64 = 0;
    let mut i: usize = 0;
    while i < n
        invariant
            n == sizes.len(),
            sizes_ok(sizes@),
            len_ok(gap as int),
            lim == opt_len(limit),
            0 <= i <= n,
            lines.len() == i,
            line as int == line_walk(sizes@, row, gap as int, lim, i as int).0,
            acc as int == line_walk(sizes@, row, gap as int, lim, i as int).1,
            line <= i,
            forall|j: int| 0 <= j < i ==> lines@[j] as int == line_walk(sizes@, row, gap as int, lim, j + 1).0,
            forall|j: int| 0 <= j < i ==> lines@[j] <= j,
        decreases n - i,
    {
        proof {
            lemma_walk_bounds(sizes@, row, gap as int, lim, i as int);
            lemma_walk_bounds(sizes@, row, gap as int, lim, i as int + 1);
            assert(size_ok(sizes@[i as int]));
        }
        let w = main_ext(&sizes[i], row);
        let brk = match limit {
            Some(m) => {
                    acc > 0 && acc + w > m
            },
            None => false,
        };
        if brk {
            line = line + 1;
            acc = w + gap;
        } else {
            acc = acc + w + gap;
        }
        lines.push(line);
        i = i + 1;
    }
    assert(lines@ =~= line_seq(sizes@, row, gap as int, lim));
    lines
}

/// For the first `k` children on line `l`: the sum of their main extents, their number, and
/// their largest cross extent (at least zero).
fn line_stats(sizes: &Vec<Size3<i64>>, row: bool, lines: &Vec<usize>, l: usize, k: usize) -> (r: (i64, i64, i64))
    requires
        sizes_ok(sizes@),
        lines.len() == sizes.len(),
        k <= sizes.len(),
    ensures
        r.0 == line_sum(sizes@, row, lines@, l as int, k as int),
        r.1 == line_len(lines@, l as int, k as int),
        r.2 == line_max(sizes@, row, lines@, l as int, k as int),
{
    let mut sum: i64 = 0;
    let mut count: i64 = 0;
    let mut max: i64 = 0;
    let mut j: usize = 0;
    while j < k
        invariant
            sizes_ok(sizes@),
            lines.len() == sizes.len(),
            k <= sizes.len(),
            0 <= j <= k,
            sum == line_sum(sizes@, row, lines@, l as int, j as int),
            count == line_len(lines@, l as int, j as int),
            max == line_max(sizes@, row, lines@, l as int, j as int),
        decreases k - j,
    {
        proof {
            lemma_line_bounds(sizes@, row, lines@, l as int, j as int);
            assert(size_ok(sizes@[j as int]));
        }
        if lines[j] == l {
            sum = sum + main_ext(&sizes[j], row);
            count = count + 1;
            let c = cross_ext(&sizes[j], row);
            if c > max {
                max = c;
            }
        }
        j = j + 1;
    }
    (sum, count, max)
}

proof fn lemma_walk_mono(sizes: Seq<Size3<i64>>, row: bool, gap: int, limit: Option<int>, j: int, k: int)
    requires
        0 <= j <= k <= sizes.len(),
    ensures
        line_walk(sizes, row, gap, limit, j).0 <= line_walk(sizes, row, gap, limit, k).0,
    decreases k - j,
{
    if j < k {
        lemma_walk_mono(sizes, row, gap, limit, j, k - 1);
    }
}

proof fn lemma_len_before(lines: Seq<usize>, l: int, i: int, k: int)
    requires
        0 <= i < k <= lines.len(),
        lines[i] as int == l,
    ensures
        line_len(lines, l, i) + 1 <= line_len(lines, l, k),
    decreases k - i,
{
    if k > i + 1 {
        lemma_len_before(lines, l, i, k - 1);
    }
}

/// Sizes of a sequence of nodes.
pub open spec fn child_sizes(children: Seq<Node3D>) -> Seq<Size3<i64>> {
    Seq::new(children.len(), |i: int| children[i].layout.size)
}

pub(crate) fn collect_sizes(children: &Vec<Node3D>) -> (r: Vec<Size3<i64>>)
    ensures
        r@ == child_sizes(children@),
{
    let mut r: Vec<Size3<i64>> = Vec::new();
    let mut i: usize = 0;
    while i < children.len()
        invariant
            0 <= i <= children.len(),
            r@ =~= child_sizes(children@).subrange(0, i as int),
        decreases children.len() - i,
    {
        r.push(children[i].layout.size);
        i = i + 1;
    }
    assert(r@ =~= child_sizes(children@));
    r
}

/// For each of the first `nl` lines: its main extent, its child count, its cross extent and its
/// cross offset; then the widest line and the offset after the last line.
fn line_extents(sizes: &Vec<Size3<i64>>, row: bool, lines: &Vec<usize>, gap: i64, nl: usize) -> (r: (
    Vec<i64>,
    Vec<i64>,
    Vec<i64>,
    Vec<i64>,
    i64,
    i64,
))
    requires
        sizes_ok(sizes@),
        lines.len() == sizes.len(),
        len_ok(gap as int),
        nl <= MAX_CHILDREN + 1,
    ensures
        r.0.len() == nl && r.1.len() == nl && r.2.len() == nl && r.3.len() == nl,
        forall|l: int|
            0 <= l < nl ==> {
                &&& r.0@[l] == line_extent(sizes@, row, lines@, gap as int, l)
                &&& r.1@[l] == line_len(lines@, l, sizes.len() as int)
                &&& r.2@[l] == line_max(sizes@, row, lines@, l, sizes.len() as int)
                &&& r.3@[l] == lines_before(sizes@, row, lines@, gap as int, l)
                &&& -(2 * MAX_LEN * MAX_CHILDREN) <= r.0@[l] <= 2 * MAX_LEN * MAX_CHILDREN
                &&& 0 <= r.1@[l] <= sizes.len()
                &&& 0 <= r.2@[l] <= MAX_LEN
                &&& -(2 * MAX_LEN * (MAX_CHILDREN + 1)) <= r.3@[l] <= 2 * MAX_LEN * (MAX_CHILDREN + 1)
            },
        r.4 == widest_line(sizes@, row, lines@, gap as int, nl as int),
        -(2 * MAX_LEN * MAX_CHILDREN) <= r.4 <= 2 * MAX_LEN * MAX_CHILDREN,
        r.5 == lines_before(sizes@, row, lines@, gap as int, nl as int),
        -(2 * MAX_LEN * (MAX_CHILDREN + 1)) <= r.5 <= 2 * MAX_LEN * (MAX_CHILDREN + 1),
{
    let n = sizes.len();
    let mut extents: Vec<i64> = Vec::new();
    let mut counts: Vec<i64> = Vec::new();
    let mut crosses: Vec<i64> = Vec::new();
    let mut befores: Vec<i64> = Vec::new();
    let mut widest: i64 = 0;
    let mut before: i64 = 0;
    let mut l: usize = 0;
    while l < nl
        invariant
            n == sizes.len(),
            sizes_ok(sizes@),
            lines.len() == sizes.len(),
            len_ok(gap as int),
            nl <= MAX_CHILDREN + 1,
            0 <= l <= nl,
            extents.len() == l && counts.len() == l && crosses.len() == l && befores.len() == l,
            forall|m: int|
                0 <= m < l ==> {
                    &&& extents@[m] == line_extent(sizes@, row, lines@, gap as int, m)
                    &&& counts@[m] == line_len(lines@, m, n as int)
                    &&& crosses@[m] == line_max(sizes@, row, lines@, m, n as int)
                    &&& befores@[m] == lines_before(sizes@, row, lines@, gap as int, m)
                    &&& -(2 * MAX_LEN * MAX_CHILDREN) <= extents@[m] <= 2 * MAX_LEN * MAX_CHILDREN
                    &&& 0 <= counts@[m] <= n
                    &&& 0 <= crosses@[m] <= MAX_LEN
                    &&& -(2 * MAX_LEN * (MAX_CHILDREN + 1)) <= befores@[m] <= 2 * MAX_LEN * (MAX_CHILDREN + 1)
                },
            widest == widest_line(sizes@, row, lines@, gap as int, l as int),
            -(2 * MAX_LEN * MAX_CHILDREN) <= widest <= 2 * MAX_LEN * MAX_CHILDREN,
            before == lines_before(sizes@, row, lines@, gap as int, l as int),
            -((2 * MAX_LEN) * l) <= before <= (2 * MAX_LEN) * l,
        decreases nl - l,
    {
        let (sum, count, max) = line_stats(sizes, row, lines, l, n);
        proof {
            lemma_line_bounds(sizes@, row, lines@, l as int, n as int);
            lemma_mul_bound(gap as int, if count > 0 { count - 1 } else { 0 }, MAX_LEN as int, MAX_CHILDREN as int);
            lemma_scale(2 * MAX_LEN, l as int, MAX_CHILDREN as int + 1);
        }
        let ext: i64 = sum + gap * (if count > 0 { count - 1 } else { 0 });
        if l == 0 || ext > widest {
            widest = ext;
        }
        extents.push(ext);
        counts.push(count);
        crosses.push(max);
        befores.push(before);
        proof {
            lemma_step(before as int, max + gap, 2 * MAX_LEN, l as int + 1);
            lemma_consts();
        }
        before = before + max + gap;
        l = l + 1;
    }
    proof {
        lemma_scale(2 * MAX_LEN, nl as int, MAX_CHILDREN as int + 1);
    }
    (extents, counts, crosses, befores, widest, before)
}

fn justify_exec(j: JustifyContent, free: i64, gap: i64, count: i64) -> (r: (i64, i64))
    requires
        count >= 0,
    ensures
        r == (justify(j, free as int, gap as int, count as int).0 as i64, justify(j, free as int, gap as int, count as int).1 as i64),
        r.0 as int == justify(j, free as int, gap as int, count as int).0,
        r.1 as int == justify(j, free as int, gap as int, count as int).1,
{
    match j {
        JustifyContent::FlexStart => (0, gap),
        JustifyContent::Center => (div_floor(free, 2), gap),
        JustifyContent::FlexEnd => (free, gap),
        JustifyContent::SpaceBetween => {
            if count > 1 {
                (0, div_floor(free, count - 1))
            } else {
                (0, gap)
            }
        },
        _ => (0, gap),
    }
}

fn align_exec(a: AlignItems, extent: i64, child: i64) -> (r: i64)
    requires
        -0x10_0000_0000_0000 <= extent <= 0x10_0000_0000_0000,
        -0x10_0000_0000_0000 <= child <= 0x10_0000_0000_0000,
    ensures
        r == align_offset(a, extent as int, child as int),
{
    match a {
        AlignItems::Center => div_floor(extent - child, 2),
        AlignItems::FlexEnd => extent - child,
        _ => 0,
    }
}

pub(crate) fn deepest_exec(sizes: &Vec<Size3<i64>>) -> (r: i64)
    requires
        sizes_ok(sizes@),
    ensures
        r == deepest(sizes@, sizes.len() as int),
{
    let mut d: i64 = 0;
    let mut i: usize = 0;
    while i < sizes.len()
        invariant
            sizes_ok(sizes@),
            0 <= i <= sizes.len(),
            d == deepest(sizes@, i as int),
        decreases sizes.len() - i,
    {
        if sizes[i].depth > d {
            d = sizes[i].depth;
        }
        i = i + 1;
    }
    d
}

/// Children of a container whose style and sizes lie within the supported range.
pub open spec fn children_ok(children: Seq<Node3D>) -> bool {
    sizes_ok(child_sizes(children))
}

/// Arranges the children of `node` in lines along its main axis (width for a row, height for a
/// column) and sizes the node from them.
pub fn layout_flex(node: &mut Node3D, row: bool)
    requires
        style_ok(old(node).style),
        children_ok(old(node).children@),
    ensures
        final(node).style == old(node).style,
        final(node).layout.location == old(node).layout.location,
        final(node).layout.size == flex_size(old(node).style, child_sizes(old(node).children@), row),
        size_ok(final(node).layout.size),
        final(node).children.len() == old(node).children.len(),
        forall|i: int|
            0 <= i < final(node).children.len() ==> {
                &&& (#[trigger] final(node).children@[i]).style == old(node).children@[i].style
                &&& final(node).children@[i].children == old(node).children@[i].children
                &&& final(node).children@[i].layout.location == flex_location(
                    old(node).style,
                    child_sizes(old(node).children@),
                    row,
                    i,
                )
                &&& final(node).children@[i].layout.size == flex_child_size(
                    old(node).style,
                    child_sizes(old(node).children@),
                    row,
                    i,
                )
            },
{
    let ghost orig = node.children@;
    let style = node.style;
    let gap = style.gap;
    let sizes = collect_sizes(&node.children);
    let n = sizes.len();
    let main_fixed = if row {
        resolve(style.size.width)
    } else {
        resolve(style.size.height)
    };
    let cross_fixed = if row {
        resolve(style.size.height)
    } else {
        resolve(style.size.width)
    };
    let limit = if style.wrap {
        main_fixed
    } else {
        None
    };
    let lines = assign_lines(&sizes, row, gap, limit);
    assert(lines@ == flex_lines(style, sizes@, row));
    let nl: usize = if n == 0 {
        1
    } else {
        lines[n - 1] + 1
    };
    proof {
        let lim = wrap_limit(style, row);
        assert forall|j: int| 0 <= j < n implies lines@[j] as int == line_walk(sizes@, row, gap as int, lim, j + 1).0 && lines@[j] < nl by {
            lemma_walk_bounds(sizes@, row, gap as int, lim, j + 1);
            lemma_walk_mono(sizes@, row, gap as int, lim, j + 1, n as int);
            lemma_walk_bounds(sizes@, row, gap as int, lim, n as int);
        }
    }
    assert(nl == flex_line_count(style, sizes@, row));
    let (extents, counts, crosses, befores, widest, total_before) = line_extents(&sizes, row, &lines, gap, nl);
    let cont_main: i64 = match main_fixed {
        Some(v) => v,
        None => clamp(widest),
    };
    let cont_cross: i64 = match cross_fixed {
        Some(v) => v,
        None => clamp(total_before - gap),
    };
    let cont_depth: i64 = match resolve(style.size.depth) {
        Some(v) => v,
        None => deepest_exec(&sizes),
    };
    proof {
        lemma_deepest_bounds(sizes@, n as int);
        lemma_consts();
    }
    assert(cont_main == flex_main(style, sizes@, row));
    assert(cont_cross == flex_cross(style, sizes@, row));
    assert(cont_depth == flex_depth(style, sizes@));
    node.layout.size = if row {
        Size3 { width: cont_main, height: cont_cross, depth: cont_depth }
    } else {
        Size3 { width: cont_cross, height: cont_main, depth: cont_depth }
    };

    let mut kids: Vec<Node3D> = Vec::new();
    std::mem::swap(&mut kids, &mut node.children);
    let mut out: Vec<Node3D> = Vec::new();
    let mut i: usize = 0;
    while i < n
        invariant
            n == orig.len(),
            sizes@ == child_sizes(orig),
            sizes_ok(sizes@),
            len_ok(gap as int),
            gap == style.gap,
            lines@ == flex_lines(style, sizes@, row),
            lines.len() == n,
            forall|j: int| 0 <= j < n ==> lines@[j] <= j,
            forall|j: int| 0 <= j < n ==> lines@[j] < nl,
            nl <= MAX_CHILDREN + 1,
            extents.len() == nl && counts.len() == nl && crosses.len() == nl && befores.len() == nl,
            forall|l: int|
                0 <= l < nl ==> {
                    &&& extents@[l] == line_extent(sizes@, row, lines@, gap as int, l)
                    &&& counts@[l] == line_len(lines@, l, n as int)
                    &&& crosses@[l] == line_max(sizes@, row, lines@, l, n as int)
                    &&& befores@[l] == lines_before(sizes@, row, lines@, gap as int, l)
                    &&& -(2 * MAX_LEN * MAX_CHILDREN) <= extents@[l] <= 2 * MAX_LEN * MAX_CHILDREN
                    &&& 0 <= counts@[l] <= n
                    &&& 0 <= crosses@[l] <= MAX_LEN
                    &&& -(2 * MAX_LEN * (MAX_CHILDREN + 1)) <= befores@[l] <= 2 * MAX_LEN * (MAX_CHILDREN + 1)
                },
            cont_main == flex_main(style, sizes@, row),
            cont_cross == flex_cross(style, sizes@, row),
            nl == flex_line_count(style, sizes@, row),
            opt_len(cross_fixed) == fixed(cross_dim(style, row)),
            cont_depth == flex_depth(style, sizes@),
            len_ok(cont_main as int) && len_ok(cont_cross as int) && len_ok(cont_depth as int),
            0 <= i <= n,
            kids@ == orig.subrange(i as int, n as int),
            out.len() == i,
            forall|j: int|
                0 <= j < i ==> {
                    &&& (#[trigger] out@[j]).style == orig[j].style
                    &&& out@[j].children == orig[j].children
                    &&& out@[j].layout.location == flex_location(style, sizes@, row, j)
                    &&& out@[j].layout.size == flex_child_size(style, sizes@, row, j)
                },
        decreases n - i,
    {
        let l = lines[i];
        let (psum, plen, _) = line_stats(&sizes, row, &lines, l, i);
        let cnt = counts[l];
        let free = cont_main - extents[l];
        let (start, spacing) = justify_exec(style.justify_content, free, gap, cnt);
        proof {
            lemma_consts();
            lemma_line_bounds(sizes@, row, lines@, l as int, i as int);
            lemma_len_before(lines@, l as int, i as int, n as int);
            assert(size_ok(sizes@[i as int]));
            if style.justify_content == JustifyContent::SpaceBetween && cnt > 1 {
                lemma_spread_bound(free as int, cnt - 1, plen as int);
            } else {
                lemma_mul_bound(gap as int, plen as int, MAX_LEN as int, MAX_CHILDREN as int);
            }
        }
        let main_pos = start + psum + spacing * plen;
        let child_cross = cross_ext(&sizes[i], row);
        let cross_pos = befores[l] + align_exec(style.align_items, cont_cross, child_cross);
        let z = align_exec(style.align_items, cont_depth, sizes[i].depth);
        let mut c = kids.remove(0);
        assert(c == orig[i as int]);
        c.layout.location = if row {
            Point3 { x: main_pos, y: cross_pos, z }
        } else {
            Point3 { x: cross_pos, y: main_pos, z }
        };
        if style.align_items == AlignItems::Stretch {
            let line_cross = match cross_fixed {
                Some(v) => if nl == 1 {
                    v
                } else {
                    crosses[l]
                },
                None => crosses[l],
            };
            if row {
                c.layout.size.height = line_cross;
            } else {
                c.layout.size.width = line_cross;
            }
            c.layout.size.depth = cont_depth;
        }
        out.push(c);
        i = i + 1;
    }
    node.children = out;
}

/// Sum of the widths of the first `k` children.
pub open spec fn sum_widths(sizes: Seq<Size3<i64>>, k: int) -> int
    decreases k,
{
    if k <= 0 {
        0
    } else {
        sum_widths(sizes, k - 1) + sizes[k - 1].width
    }
}

proof fn lemma_single_line(sizes: Seq<Size3<i64>>, gap: int, k: int)
    requires
        0 <= k <= sizes.len(),
    ensures
        line_walk(sizes, true, gap, None, k).0 == 0,
    decreases k,
{
    if k > 0 {
        lemma_single_line(sizes, gap, k - 1);
    }
}

proof fn lemma_first_line_sums(sizes: Seq<Size3<i64>>, lines: Seq<usize>, k: int)
    requires
        0 <= k <= sizes.len(),
        lines.len() == sizes.len(),
        forall|j: int| 0 <= j < lines.len() ==> lines[j] == 0,
    ensures
        line_sum(sizes, true, lines, 0, k) == sum_widths(sizes, k),
        line_len(lines, 0, k) == k,
    decreases k,
{
    if k > 0 {
        lemma_first_line_sums(sizes, lines, k - 1);
    }
}

/// In a row that does not wrap, the children share one line of extent: the sum of their widths
/// plus one gap between each two. With an automatic width the row is that wide (where that extent
/// lies within the supported range); with a fixed width and centred content the
/// first child starts at half of the fixed width less that extent.
pub proof fn lemma_row_extent(style: Style3D, sizes: Seq<Size3<i64>>)
    requires
        !style.wrap,
        sizes.len() >= 1,
    ensures
        ({
            let total = sum_widths(sizes, sizes.len() as int) + style.gap * (sizes.len() - 1);
            &&& (style.size.width == Dimension::Auto && len_ok(total))
                ==> flex_size(style, sizes, true).width == total
            &&& (forall|w: i64|
                style.size.width == Dimension::Length(w) && style.justify_content == JustifyContent::Center
                    ==> #[trigger] flex_location(style, sizes, true, 0).x == ((w - total) / 2) as i64)
        }),
{
    let n = sizes.len() as int;
    let gap = style.gap as int;
    let lines = flex_lines(style, sizes, true);
    assert(wrap_limit(style, true) == None::<int>);
    assert forall|j: int| 0 <= j < lines.len() implies lines[j] == 0 by {
        lemma_single_line(sizes, gap, j + 1);
    }
    lemma_single_line(sizes, gap, n);
    lemma_first_line_sums(sizes, lines, n);
    lemma_first_line_sums(sizes, lines, 0);
    assert(flex_line_count(style, sizes, true) == 1);
}

} // verus!
