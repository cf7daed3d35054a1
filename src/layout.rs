//! Monitor layout: horizontal packing, the edge-contiguity check, and
//! cursor clamping and motion over the union of monitor rectangles.
use vstd::prelude::*;
use vstd::string::StrSliceExecFns;

use crate::events::FrameworkError;

verus! {

/// Minimal monitor description used by the layout algorithms.
#[derive(Debug, Clone, PartialEq, Eq)]
pub struct MonitorSpec {
    /// Stable monitor identifier.
    pub id: String,
    /// Width in layout-space pixels.
    pub width: i32,
    /// Height in layout-space pixels.
    pub height: i32,
}

/// A monitor positioned in the global layout space.
#[derive(Debug, Clone, PartialEq, Eq)]
pub struct MonitorPlacement {
    /// Stable monitor identifier.
    pub id: String,
    /// Top-left X coordinate.
    pub x: i32,
    /// Top-left Y coordinate.
    pub y: i32,
    /// Width in layout-space pixels.
    pub width: i32,
    /// Height in layout-space pixels.
    pub height: i32,
}

pub open spec fn nonneg(v: i32) -> int {
    if v > 0 {
        v as int
    } else {
        0
    }
}

pub open spec fn left(m: MonitorPlacement) -> int {
    m.x as int
}

pub open spec fn top(m: MonitorPlacement) -> int {
    m.y as int
}

/// The right edge; a negative width counts as zero.
pub open spec fn right(m: MonitorPlacement) -> int {
    m.x + nonneg(m.width)
}

/// The bottom edge; a negative height counts as zero.
pub open spec fn bottom(m: MonitorPlacement) -> int {
    m.y + nonneg(m.height)
}

/// The x extents of two rectangles overlap with positive length.
pub open spec fn x_overlap(a: MonitorPlacement, b: MonitorPlacement) -> bool {
    left(a) < right(b) && left(b) < right(a)
}

/// The y extents of two rectangles overlap with positive length.
pub open spec fn y_overlap(a: MonitorPlacement, b: MonitorPlacement) -> bool {
    top(a) < bottom(b) && top(b) < bottom(a)
}

/// Two rectangles share a vertical or horizontal edge segment of positive length.
pub open spec fn touches(a: MonitorPlacement, b: MonitorPlacement) -> bool {
    ((right(a) == left(b) || right(b) == left(a)) && y_overlap(a, b)) || ((bottom(a) == top(b)
        || bottom(b) == top(a)) && x_overlap(a, b))
}

/// Two rectangles overlap with positive area.
pub open spec fn overlaps(a: MonitorPlacement, b: MonitorPlacement) -> bool {
    x_overlap(a, b) && y_overlap(a, b)
}

/// The monitors reachable from the first one by at most `k` touches.
pub open spec fn reach(ps: Seq<MonitorPlacement>, k: nat) -> Set<int>
    decreases k,
{
    if k == 0 {
        set![0int]
    } else {
        let r = reach(ps, (k - 1) as nat);
        r.union(
            Set::new(
                |j: int|
                    0 <= j < ps.len() && exists|i: int|
                        0 <= i < ps.len() && #[trigger] r.contains(i) && touches(ps[i], ps[j]),
            ),
        )
    }
}

/// Every monitor can be reached from the first one through touching monitors.
pub open spec fn connected(ps: Seq<MonitorPlacement>) -> bool {
    forall|j: int| 0 <= j < ps.len() ==> #[trigger] reach(ps, ps.len()).contains(j)
}

/// No two monitors overlap with positive area.
pub open spec fn no_overlap(ps: Seq<MonitorPlacement>) -> bool {
    forall|i: int, j: int| 0 <= i < j < ps.len() ==> !#[trigger] overlaps(ps[i], ps[j])
}

/// Monitor `i` touches some other monitor.
pub open spec fn touches_another(ps: Seq<MonitorPlacement>, i: int) -> bool {
    exists|j: int| 0 <= j < ps.len() && j != i && #[trigger] touches(ps[i], ps[j])
}

/// Every monitor touches some other monitor.
pub open spec fn each_touches_another(ps: Seq<MonitorPlacement>) -> bool {
    forall|i: int| 0 <= i < ps.len() ==> #[trigger] touches_another(ps, i)
}

/// The touch graph has a single component.
pub open spec fn contiguous(ps: Seq<MonitorPlacement>) -> bool {
    ps.len() <= 1 || connected(ps)
}

/// The strict layout invariant: no overlaps, no monitor alone, no islands.
pub open spec fn valid_layout(ps: Seq<MonitorPlacement>) -> bool {
    ps.len() <= 1 || (no_overlap(ps) && each_touches_another(ps) && connected(ps))
}

proof fn lemma_reach_in_range(ps: Seq<MonitorPlacement>, k: nat, j: int)
    requires
        ps.len() >= 1,
        reach(ps, k).contains(j),
    ensures
        0 <= j < ps.len(),
    decreases k,
{
    if k > 0 {
        if reach(ps, (k - 1) as nat).contains(j) {
            lemma_reach_in_range(ps, (k - 1) as nat, j);
        }
    }
}

fn right_edge(m: &MonitorPlacement) -> (r: i64)
    ensures
        r == right(*m),
{
    m.x as i64 + if m.width > 0 {
        m.width as i64
    } else {
        0
    }
}

fn bottom_edge(m: &MonitorPlacement) -> (r: i64)
    ensures
        r == bottom(*m),
{
    m.y as i64 + if m.height > 0 {
        m.height as i64
    } else {
        0
    }
}

/// Whether two monitors share an edge segment of positive length.
pub fn monitors_touch(a: &MonitorPlacement, b: &MonitorPlacement) -> (r: bool)
    ensures
        r == touches(*a, *b),
{
    let ax1 = a.x as i64;
    let ay1 = a.y as i64;
    let ax2 = right_edge(a);
    let ay2 = bottom_edge(a);
    let bx1 = b.x as i64;
    let by1 = b.y as i64;
    let bx2 = right_edge(b);
    let by2 = bottom_edge(b);
    let x_ov = ax1 < bx2 && bx1 < ax2;
    let y_ov = ay1 < by2 && by1 < ay2;
    let vertical_touch = (ax2 == bx1 || bx2 == ax1) && y_ov;
    let horizontal_touch = (ay2 == by1 || by2 == ay1) && x_ov;
    vertical_touch || horizontal_touch
}

/// Whether two monitors overlap with positive area.
pub fn monitors_overlap_area(a: &MonitorPlacement, b: &MonitorPlacement) -> (r: bool)
    ensures
        r == overlaps(*a, *b),
{
    let ax1 = a.x as i64;
    let ay1 = a.y as i64;
    let ax2 = right_edge(a);
    let ay2 = bottom_edge(a);
    let bx1 = b.x as i64;
    let by1 = b.y as i64;
    let bx2 = right_edge(b);
    let by2 = bottom_edge(b);
    (ax1 < bx2 && bx1 < ax2) && (ay1 < by2 && by1 < ay2)
}

/// For each monitor, whether it is reachable from the first one.
fn reachable_flags(monitors: &[MonitorPlacement]) -> (r: Vec<bool>)
    requires
        monitors@.len() >= 1,
    ensures
        r@.len() == monitors@.len(),
        forall|j: int| 0 <= j < monitors@.len() ==> r@[j] == reach(monitors@, monitors@.len()).contains(j),
{
    let ghost ps = monitors@;
    let n = monitors.len();
    let mut seen: Vec<bool> = Vec::new();
    let mut j: usize = 0;
    while j < n
        invariant
            j <= n,
            n == ps.len(),
            seen@.len() == j,
            forall|t: int| 0 <= t < j ==> seen@[t] == (t == 0),
        decreases n - j,
    {
        seen.push(j == 0);
        j = j + 1;
    }
    assert forall|t: int| 0 <= t < n implies seen@[t] == reach(ps, 0).contains(t) by {}
    let mut k: usize = 0;
    while k < n
        invariant
            k <= n,
            n == ps.len(),
            ps == monitors@,
            seen@.len() == n,
            forall|t: int| 0 <= t < n ==> seen@[t] == reach(ps, k as nat).contains(t),
        decreases n - k,
    {
        let ghost r = reach(ps, k as nat);
        let mut next: Vec<bool> = Vec::new();
        let mut j: usize = 0;
        while j < n
            invariant
                j <= n,
                n == ps.len(),
                ps == monitors@,
                seen@.len() == n,
                next@.len() == j,
                r == reach(ps, k as nat),
                forall|t: int| 0 <= t < n ==> seen@[t] == r.contains(t),
                forall|t: int| 0 <= t < j ==> next@[t] == reach(ps, (k + 1) as nat).contains(t),
            decreases n - j,
        {
            let mut flag = seen[j];
            let mut i: usize = 0;
            while i < n && !flag
                invariant
                    i <= n,
                    j < n,
                    n == ps.len(),
                    ps == monitors@,
                    seen@.len() == n,
                    r == reach(ps, k as nat),
                    forall|t: int| 0 <= t < n ==> seen@[t] == r.contains(t),
                    flag ==> r.contains(j as int) || exists|t: int|
                        0 <= t < n && #[trigger] r.contains(t) && touches(ps[t], ps[j as int]),
                    !flag ==> !r.contains(j as int) && forall|t: int|
                        0 <= t < i ==> !(#[trigger] r.contains(t) && touches(ps[t], ps[j as int])),
                decreases n - i,
            {
                if seen[i] && monitors_touch(&monitors[i], &monitors[j]) {
                    assert(r.contains(i as int) && touches(ps[i as int], ps[j as int]));
                    flag = true;
                }
                i = i + 1;
            }
            proof {
                if !flag {
                    assert forall|t: int| 0 <= t < n && #[trigger] r.contains(t) implies !touches(ps[t], ps[j as int]) by {
                        lemma_reach_in_range(ps, k as nat, t);
                    }
                    assert(!reach(ps, (k + 1) as nat).contains(j as int));
                } else {
                    assert(reach(ps, (k + 1) as nat).contains(j as int));
                }
            }
            next.push(flag);
            j = j + 1;
        }
        seen = next;
        k = k + 1;
    }
    seen
}

/// Returns `true` if all monitors form one edge-touch connected component.
pub fn is_contiguous(monitors: &[MonitorPlacement]) -> (r: bool)
    ensures
        r == contiguous(monitors@),
{
    if monitors.len() <= 1 {
        return true;
    }
    let seen = reachable_flags(monitors);
    let mut j: usize = 0;
    while j < seen.len()
        invariant
            j <= seen@.len(),
            monitors@.len() > 1,
            seen@.len() == monitors@.len(),
            forall|t: int| 0 <= t < monitors@.len() ==> seen@[t] == reach(monitors@, monitors@.len()).contains(t),
            forall|t: int| 0 <= t < j ==> reach(monitors@, monitors@.len()).contains(t),
        decreases seen@.len() - j,
    {
        if !seen[j] {
            assert(!reach(monitors@, monitors@.len()).contains(j as int));
            return false;
        }
        j = j + 1;
    }
    true
}

/// Validates the strict layout invariant: no overlap area, every monitor
/// touches another monitor edge, and no islands.
pub fn is_valid_edge_contiguous_layout(monitors: &[MonitorPlacement]) -> (r: bool)
    ensures
        r == valid_layout(monitors@),
{
    let ghost ps = monitors@;
    let n = monitors.len();
    if n <= 1 {
        return true;
    }
    let mut i: usize = 0;
    while i < n
        invariant
            i <= n,
            n == ps.len(),
            ps == monitors@,
            forall|a: int, b: int| 0 <= a < i && a < b < n ==> !#[trigger] overlaps(ps[a], ps[b]),
        decreases n - i,
    {
        let mut j: usize = i + 1;
        while j < n
            invariant
                i < j <= n,
                n == ps.len(),
                ps == monitors@,
                forall|a: int, b: int| 0 <= a < i && a < b < n ==> !#[trigger] overlaps(ps[a], ps[b]),
                forall|b: int| i < b < j ==> !#[trigger] overlaps(ps[i as int], ps[b]),
            decreases n - j,
        {
            if monitors_overlap_area(&monitors[i], &monitors[j]) {
                assert(overlaps(ps[i as int], ps[j as int]));
                return false;
            }
            j = j + 1;
        }
        i = i + 1;
    }
    let mut i: usize = 0;
    while i < n
        invariant
            i <= n,
            n == ps.len(),
            ps == monitors@,
            no_overlap(ps),
            n > 1,
            forall|a: int| 0 <= a < i ==> #[trigger] touches_another(ps, a),
        decreases n - i,
    {
        let mut found = false;
        let mut j: usize = 0;
        while j < n && !found
            invariant
                j <= n,
                i < n,
                n == ps.len(),
                ps == monitors@,
                found ==> touches_another(ps, i as int),
                !found ==> forall|b: int| 0 <= b < j && b != i ==> !#[trigger] touches(ps[i as int], ps[b]),
            decreases n - j,
        {
            if j != i && monitors_touch(&monitors[i], &monitors[j]) {
                found = true;
            }
            j = j + 1;
        }
        if !found {
            assert(!touches_another(ps, i as int));
            return false;
        }
        i = i + 1;
    }
    is_contiguous(monitors)
}

/// Bound on point coordinates, so that sums of squared distances fit in
/// 128 bits and sums of coordinates fit in 64.
pub const COORD_LIMIT: i64 = 0x1000_0000_0000_0000;

pub open spec fn coord_ok(v: int) -> bool {
    -COORD_LIMIT <= v <= COORD_LIMIT
}

/// The point lies in the half-open rectangle of the monitor.
pub open spec fn inside(m: MonitorPlacement, x: int, y: int) -> bool {
    left(m) <= x < right(m) && top(m) <= y < bottom(m)
}

/// The point lies in the closed rectangle of the monitor.
pub open spec fn on_closed(m: MonitorPlacement, x: int, y: int) -> bool {
    left(m) <= x <= right(m) && top(m) <= y <= bottom(m)
}

pub open spec fn in_layout(ps: Seq<MonitorPlacement>, x: int, y: int) -> bool {
    exists|i: int| 0 <= i < ps.len() && #[trigger] inside(ps[i], x, y)
}

/// The point lies in the union of the closed monitor rectangles.
pub open spec fn in_closed_layout(ps: Seq<MonitorPlacement>, x: int, y: int) -> bool {
    exists|i: int| 0 <= i < ps.len() && #[trigger] on_closed(ps[i], x, y)
}

pub open spec fn clamp_int(v: int, lo: int, hi: int) -> int {
    if v < lo {
        lo
    } else if v > hi {
        hi
    } else {
        v
    }
}

/// The point of the closed rectangle nearest to `(x, y)`.
pub open spec fn project(m: MonitorPlacement, x: int, y: int) -> (int, int) {
    (clamp_int(x, left(m), right(m)), clamp_int(y, top(m), bottom(m)))
}

/// Squared distance from `(x, y)` to the rectangle.
pub open spec fn dist2(m: MonitorPlacement, x: int, y: int) -> int {
    let p = project(m, x, y);
    (p.0 - x) * (p.0 - x) + (p.1 - y) * (p.1 - y)
}

/// Index of the first of the first `n` monitors at the least distance.
pub open spec fn nearest(ps: Seq<MonitorPlacement>, x: int, y: int, n: nat) -> int
    decreases n,
{
    if n <= 1 {
        0
    } else {
        let b = nearest(ps, x, y, (n - 1) as nat);
        if dist2(ps[n - 1], x, y) < dist2(ps[b], x, y) {
            n - 1
        } else {
            b
        }
    }
}

/// A point inside the layout stays; any other point moves to its projection
/// onto the nearest monitor (the first one on ties). An empty layout keeps
/// every point.
pub open spec fn clamp_point(ps: Seq<MonitorPlacement>, x: int, y: int) -> (int, int) {
    if ps.len() == 0 || in_layout(ps, x, y) {
        (x, y)
    } else {
        project(ps[nearest(ps, x, y, ps.len())], x, y)
    }
}

proof fn lemma_nearest(ps: Seq<MonitorPlacement>, x: int, y: int, n: nat)
    requires
        1 <= n <= ps.len(),
    ensures
        0 <= nearest(ps, x, y, n) < n,
        forall|i: int| 0 <= i < n ==> dist2(ps[nearest(ps, x, y, n)], x, y) <= #[trigger] dist2(ps[i], x, y),
    decreases n,
{
    if n > 1 {
        lemma_nearest(ps, x, y, (n - 1) as nat);
    }
}

proof fn lemma_dist2_zero(m: MonitorPlacement, x: int, y: int)
    requires
        dist2(m, x, y) <= 0,
    ensures
        project(m, x, y) == (x, y),
{
    let p = project(m, x, y);
    let a = p.0 - x;
    let b = p.1 - y;
    assert(a == 0 && b == 0) by (nonlinear_arith)
        requires
            a * a + b * b <= 0,
    ;
}

/// Clamping a point always lands in the union of the closed monitor
/// rectangles, unless there are no monitors.
pub proof fn lemma_clamp_contained(ps: Seq<MonitorPlacement>, x: int, y: int)
    requires
        ps.len() > 0,
    ensures
        in_closed_layout(ps, clamp_point(ps, x, y).0, clamp_point(ps, x, y).1),
{
    if in_layout(ps, x, y) {
        let i = choose|i: int| 0 <= i < ps.len() && #[trigger] inside(ps[i], x, y);
        assert(on_closed(ps[i], x, y));
    } else {
        lemma_nearest(ps, x, y, ps.len());
        let b = nearest(ps, x, y, ps.len());
        let q = project(ps[b], x, y);
        assert(on_closed(ps[b], q.0, q.1));
    }
}

/// Clamping is idempotent: a clamped point is its own clamp.
pub proof fn lemma_clamp_idempotent(ps: Seq<MonitorPlacement>, x: int, y: int)
    ensures
        clamp_point(ps, clamp_point(ps, x, y).0, clamp_point(ps, x, y).1) == clamp_point(ps, x, y),
{
    if ps.len() > 0 && !in_layout(ps, x, y) {
        lemma_nearest(ps, x, y, ps.len());
        let b = nearest(ps, x, y, ps.len());
        let q = project(ps[b], x, y);
        if !in_layout(ps, q.0, q.1) {
            lemma_nearest(ps, q.0, q.1, ps.len());
            let c = nearest(ps, q.0, q.1, ps.len());
            assert(project(ps[b], q.0, q.1) == q);
            assert(dist2(ps[b], q.0, q.1) == 0);
            assert(dist2(ps[c], q.0, q.1) <= dist2(ps[b], q.0, q.1));
            lemma_dist2_zero(ps[c], q.0, q.1);
        }
    }
}

proof fn lemma_square_bound(d: int)
    requires
        -0x2000_0000_0000_0000 <= d <= 0x2000_0000_0000_0000,
    ensures
        0 <= d * d <= 0x400_0000_0000_0000_0000_0000_0000_0000,
{
    let a = if d >= 0 { d } else { -d };
    assert(d * d == a * a) by (nonlinear_arith)
        requires
            a == d || a == -d,
    ;
    vstd::arithmetic::mul::lemma_mul_upper_bound(a, 0x2000_0000_0000_0000, a, 0x2000_0000_0000_0000);
    assert(a * a >= 0) by (nonlinear_arith)
        requires
            a >= 0,
    ;
}

fn rect_contains(m: &MonitorPlacement, x: i64, y: i64) -> (r: bool)
    ensures
        r == inside(*m, x as int, y as int),
{
    let l = m.x as i64;
    let t = m.y as i64;
    let rt = right_edge(m);
    let b = bottom_edge(m);
    x >= l && x < rt && y >= t && y < b
}

fn any_contains(monitors: &[MonitorPlacement], x: i64, y: i64) -> (r: bool)
    ensures
        r == in_layout(monitors@, x as int, y as int),
{
    let mut i: usize = 0;
    while i < monitors.len()
        invariant
            i <= monitors@.len(),
            forall|j: int| 0 <= j < i ==> !#[trigger] inside(monitors@[j], x as int, y as int),
        decreases monitors@.len() - i,
    {
        if rect_contains(&monitors[i], x, y) {
            return true;
        }
        i = i + 1;
    }
    false
}

fn clamp_coord(v: i64, lo: i64, hi: i64) -> (r: i64)
    ensures
        r == clamp_int(v as int, lo as int, hi as int),
{
    if v < lo {
        lo
    } else if v > hi {
        hi
    } else {
        v
    }
}

/// The projection of the point onto the monitor and its squared distance.
fn project_onto(m: &MonitorPlacement, x: i64, y: i64) -> (r: (i64, i64, i128))
    requires
        coord_ok(x as int),
        coord_ok(y as int),
    ensures
        (r.0 as int, r.1 as int) == project(*m, x as int, y as int),
        r.2 == dist2(*m, x as int, y as int),
{
    let cx = clamp_coord(x, m.x as i64, right_edge(m));
    let cy = clamp_coord(y, m.y as i64, bottom_edge(m));
    let dx = cx as i128 - x as i128;
    let dy = cy as i128 - y as i128;
    proof {
        lemma_square_bound(dx as int);
        lemma_square_bound(dy as int);
    }
    (cx, cy, dx * dx + dy * dy)
}

/// Clamps a point to the nearest valid position inside the monitor layout.
pub fn clamp_point_to_layout(monitors: &[MonitorPlacement], x: i64, y: i64) -> (r: (i64, i64))
    requires
        coord_ok(x as int),
        coord_ok(y as int),
    ensures
        (r.0 as int, r.1 as int) == clamp_point(monitors@, x as int, y as int),
{
    if monitors.len() == 0 {
        return (x, y);
    }
    if any_contains(monitors, x, y) {
        return (x, y);
    }
    let ghost ps = monitors@;
    let first = project_onto(&monitors[0], x, y);
    let mut best_x = first.0;
    let mut best_y = first.1;
    let mut best_d = first.2;
    let ghost mut b: int = 0;
    let mut i: usize = 1;
    while i < monitors.len()
        invariant
            1 <= i <= monitors@.len(),
            ps == monitors@,
            coord_ok(x as int),
            coord_ok(y as int),
            b == nearest(ps, x as int, y as int, i as nat),
            0 <= b < ps.len(),
            (best_x as int, best_y as int) == project(ps[b], x as int, y as int),
            best_d == dist2(ps[b], x as int, y as int),
        decreases monitors@.len() - i,
    {
        let c = project_onto(&monitors[i], x, y);
        if c.2 < best_d {
            best_x = c.0;
            best_y = c.1;
            best_d = c.2;
            proof {
                b = i as int;
            }
        }
        i = i + 1;
    }
    (best_x, best_y)
}

/// Largest number of sub-steps one motion is split into.
pub const MAX_MOTION_STEPS: i64 = 8192;

/// Bound on the components of a motion.
pub open spec fn delta_ok(v: int) -> bool {
    -COORD_LIMIT / 2 <= v <= COORD_LIMIT / 2
}

pub open spec fn abs_int(v: int) -> int {
    if v < 0 {
        -v
    } else {
        v
    }
}

/// The number of sub-steps: the larger component, at least 1 and at most
/// `MAX_MOTION_STEPS`.
pub open spec fn motion_steps(dx: int, dy: int) -> int {
    let m = if abs_int(dx) > abs_int(dy) {
        abs_int(dx)
    } else {
        abs_int(dy)
    };
    if m < 1 {
        1
    } else if m > MAX_MOTION_STEPS {
        MAX_MOTION_STEPS as int
    } else {
        m
    }
}

/// The `k`-th of `n` integer sub-steps of `d`: the sub-steps add up to `d`
/// and differ from `d / n` by less than one.
pub open spec fn step_part(d: int, k: int, n: int) -> int {
    let a = abs_int(d);
    let part = (a * (k + 1)) / n - (a * k) / n;
    if d < 0 {
        -part
    } else {
        part
    }
}

/// Sub-steps `k..n` of a motion from `(x, y)`: a step that stays in the
/// layout is taken, one that leaves it is clamped back, and the motion
/// stops where clamping would not move the cursor at all.
pub open spec fn walk(ps: Seq<MonitorPlacement>, x: int, y: int, dx: int, dy: int, n: int, k: int) -> (int, int)
    decreases n - k,
{
    if k >= n {
        (x, y)
    } else {
        let nx = x + step_part(dx, k, n);
        let ny = y + step_part(dy, k, n);
        if in_layout(ps, nx, ny) {
            walk(ps, nx, ny, dx, dy, n, k + 1)
        } else {
            let c = clamp_point(ps, nx, ny);
            if c == (x, y) {
                (x, y)
            } else {
                walk(ps, c.0, c.1, dx, dy, n, k + 1)
            }
        }
    }
}

/// Where a motion by `(dx, dy)` from `(sx, sy)` ends.
pub open spec fn move_point(ps: Seq<MonitorPlacement>, sx: int, sy: int, dx: int, dy: int) -> (int, int) {
    if ps.len() == 0 {
        (sx + dx, sy + dy)
    } else {
        let c = clamp_point(ps, sx, sy);
        walk(ps, c.0, c.1, dx, dy, motion_steps(dx, dy), 0)
    }
}

proof fn lemma_closed_bounds(ps: Seq<MonitorPlacement>, x: int, y: int)
    requires
        in_closed_layout(ps, x, y),
    ensures
        -0x8000_0000 <= x <= 0x1_0000_0000,
        -0x8000_0000 <= y <= 0x1_0000_0000,
{
    let i = choose|i: int| 0 <= i < ps.len() && #[trigger] on_closed(ps[i], x, y);
}

proof fn lemma_step_part_bound(d: int, k: int, n: int)
    requires
        0 <= k < n,
    ensures
        abs_int(step_part(d, k, n)) <= abs_int(d),
{
    let a = abs_int(d);
    vstd::arithmetic::mul::lemma_mul_inequality(k, k + 1, a);
    vstd::arithmetic::mul::lemma_mul_inequality(k + 1, n, a);
    assert(a * k >= 0) by (nonlinear_arith)
        requires
            a >= 0,
            k >= 0,
    ;
    vstd::arithmetic::div_mod::lemma_div_is_ordered(a * k, a * (k + 1), n);
    vstd::arithmetic::div_mod::lemma_div_is_ordered(a * (k + 1), a * n, n);
    vstd::arithmetic::div_mod::lemma_div_pos_is_pos(a * k, n);
    assert(a * n == n * a) by (nonlinear_arith);
    assert(k * a == a * k) by (nonlinear_arith);
    assert((k + 1) * a == a * (k + 1)) by (nonlinear_arith);
    vstd::arithmetic::div_mod::lemma_div_by_multiple(a, n);
}

proof fn lemma_walk_contained(ps: Seq<MonitorPlacement>, x: int, y: int, dx: int, dy: int, n: int, k: int)
    requires
        ps.len() > 0,
        in_closed_layout(ps, x, y),
    ensures
        in_closed_layout(ps, walk(ps, x, y, dx, dy, n, k).0, walk(ps, x, y, dx, dy, n, k).1),
    decreases n - k,
{
    if k < n {
        let nx = x + step_part(dx, k, n);
        let ny = y + step_part(dy, k, n);
        if in_layout(ps, nx, ny) {
            let i = choose|i: int| 0 <= i < ps.len() && #[trigger] inside(ps[i], nx, ny);
            assert(on_closed(ps[i], nx, ny));
            lemma_walk_contained(ps, nx, ny, dx, dy, n, k + 1);
        } else {
            lemma_clamp_contained(ps, nx, ny);
            let c = clamp_point(ps, nx, ny);
            if c != (x, y) {
                lemma_walk_contained(ps, c.0, c.1, dx, dy, n, k + 1);
            }
        }
    }
}

/// After a motion over a non-empty layout the cursor lies in the union of
/// the closed monitor rectangles.
pub proof fn lemma_motion_contained(ps: Seq<MonitorPlacement>, sx: int, sy: int, dx: int, dy: int)
    requires
        ps.len() > 0,
    ensures
        in_closed_layout(ps, move_point(ps, sx, sy, dx, dy).0, move_point(ps, sx, sy, dx, dy).1),
{
    lemma_clamp_contained(ps, sx, sy);
    let c = clamp_point(ps, sx, sy);
    lemma_walk_contained(ps, c.0, c.1, dx, dy, motion_steps(dx, dy), 0);
}

fn step_part_exec(d: i64, k: i64, n: i64) -> (r: i64)
    requires
        0 <= k < n <= MAX_MOTION_STEPS,
        delta_ok(d as int),
    ensures
        r == step_part(d as int, k as int, n as int),
{
    let a: u128 = if d < 0 {
        (-d) as u128
    } else {
        d as u128
    };
    proof {
        lemma_step_part_bound(d as int, k as int, n as int);
        vstd::arithmetic::mul::lemma_mul_upper_bound(a as int, 0x1000_0000_0000_0000, k + 1, 0x2001);
        vstd::arithmetic::mul::lemma_mul_inequality(k as int, k + 1, a as int);
        assert(k * a == a * k) by (nonlinear_arith);
        assert((k + 1) * a == a * (k + 1)) by (nonlinear_arith);
        assert(a * k >= 0) by (nonlinear_arith)
            requires
                a >= 0,
                k >= 0,
        ;
        vstd::arithmetic::div_mod::lemma_div_is_ordered(a * k, a * (k + 1), n as int);
    }
    let part = (a * (k as u128 + 1)) / (n as u128) - (a * (k as u128)) / (n as u128);
    if d < 0 {
        -(part as i64)
    } else {
        part as i64
    }
}

/// Moves a cursor by `(delta_x, delta_y)` in unit-sized sub-steps, so that it
/// cannot cross a gap between monitors that do not touch.
pub fn move_cursor_no_tunnel(
    monitors: &[MonitorPlacement],
    start_x: i64,
    start_y: i64,
    delta_x: i64,
    delta_y: i64,
) -> (r: (i64, i64))
    requires
        coord_ok(start_x as int),
        coord_ok(start_y as int),
        delta_ok(delta_x as int),
        delta_ok(delta_y as int),
    ensures
        (r.0 as int, r.1 as int) == move_point(monitors@, start_x as int, start_y as int, delta_x as int, delta_y as int),
{
    if monitors.len() == 0 {
        return (start_x + delta_x, start_y + delta_y);
    }
    let ghost ps = monitors@;
    let start = clamp_point_to_layout(monitors, start_x, start_y);
    let mut x = start.0;
    let mut y = start.1;
    proof {
        lemma_clamp_contained(ps, start_x as int, start_y as int);
    }
    let ax = if delta_x < 0 { -delta_x } else { delta_x };
    let ay = if delta_y < 0 { -delta_y } else { delta_y };
    let m = if ax > ay { ax } else { ay };
    let n: i64 = if m < 1 {
        1
    } else if m > MAX_MOTION_STEPS {
        MAX_MOTION_STEPS
    } else {
        m
    };
    let ghost total = walk(ps, x as int, y as int, delta_x as int, delta_y as int, n as int, 0);
    let mut k: i64 = 0;
    while k < n
        invariant
            0 <= k <= n <= MAX_MOTION_STEPS,
            ps == monitors@,
            ps.len() > 0,
            n == motion_steps(delta_x as int, delta_y as int),
            delta_ok(delta_x as int),
            delta_ok(delta_y as int),
            in_closed_layout(ps, x as int, y as int),
            walk(ps, x as int, y as int, delta_x as int, delta_y as int, n as int, k as int) == total,
            total == move_point(ps, start_x as int, start_y as int, delta_x as int, delta_y as int),
        decreases n - k,
    {
        proof {
            lemma_closed_bounds(ps, x as int, y as int);
            lemma_step_part_bound(delta_x as int, k as int, n as int);
            lemma_step_part_bound(delta_y as int, k as int, n as int);
        }
        let nx = x + step_part_exec(delta_x, k, n);
        let ny = y + step_part_exec(delta_y, k, n);
        if any_contains(monitors, nx, ny) {
            proof {
                let i = choose|i: int| 0 <= i < ps.len() && #[trigger] inside(ps[i], nx as int, ny as int);
                assert(on_closed(ps[i], nx as int, ny as int));
            }
            x = nx;
            y = ny;
        } else {
            let c = clamp_point_to_layout(monitors, nx, ny);
            proof {
                lemma_clamp_contained(ps, nx as int, ny as int);
            }
            if c.0 == x && c.1 == y {
                return (x, y);
            }
            x = c.0;
            y = c.1;
        }
        k = k + 1;
    }
    (x, y)
}

/// What packing reads of a monitor: its id, width and height.
pub type SpecView = (Seq<char>, i32, i32);

impl View for MonitorSpec {
    type V = SpecView;

    open spec fn view(&self) -> SpecView {
        (self.id@, self.width, self.height)
    }
}

impl View for MonitorPlacement {
    type V = (Seq<char>, i32, i32, i32, i32);

    open spec fn view(&self) -> (Seq<char>, i32, i32, i32, i32) {
        (self.id@, self.x, self.y, self.width, self.height)
    }
}

pub open spec fn spec_views(s: Seq<MonitorSpec>) -> Seq<SpecView> {
    Seq::new(s.len(), |i: int| s[i]@)
}

pub open spec fn placement_views(s: Seq<MonitorPlacement>) -> Seq<(Seq<char>, i32, i32, i32, i32)> {
    Seq::new(s.len(), |i: int| s[i]@)
}

/// Lexicographic order of identifiers by code point (the order of `str`).
pub open spec fn id_lt(a: Seq<char>, b: Seq<char>) -> bool
    decreases a.len(),
{
    if a.len() == 0 {
        b.len() > 0
    } else if b.len() == 0 {
        false
    } else if a[0] != b[0] {
        (a[0] as int) < (b[0] as int)
    } else {
        id_lt(a.drop_first(), b.drop_first())
    }
}

/// Packing order: by id, then width, then height.
pub open spec fn spec_le(a: SpecView, b: SpecView) -> bool {
    id_lt(a.0, b.0) || (a.0 == b.0 && (a.1 < b.1 || (a.1 == b.1 && a.2 <= b.2)))
}

pub open spec fn sorted_views(s: Seq<SpecView>) -> bool {
    forall|i: int, j: int| 0 <= i <= j < s.len() ==> #[trigger] spec_le(s[i], s[j])
}

/// The monitors in packing order.
pub open spec fn sorted_by_id(s: Seq<SpecView>) -> Seq<SpecView> {
    choose|t: Seq<SpecView>| sorted_views(t) && t.to_multiset() == s.to_multiset()
}

/// Left edge of the `i`-th packed monitor: the sum of the widths before it
/// (negative ones counting as zero), saturating at `i32::MAX`.
pub open spec fn offset(s: Seq<SpecView>, i: int) -> int
    decreases i,
{
    if i <= 0 {
        0
    } else {
        let v = offset(s, i - 1) + nonneg(s[i - 1].1);
        if v > i32::MAX {
            i32::MAX as int
        } else {
            v
        }
    }
}

/// Monitors sorted by id and placed left to right at `y = 0`.
pub open spec fn horizontal(s: Seq<SpecView>) -> Seq<(Seq<char>, i32, i32, i32, i32)> {
    let t = sorted_by_id(s);
    Seq::new(t.len(), |i: int| (t[i].0, offset(t, i) as i32, 0i32, t[i].1, t[i].2))
}

proof fn lemma_id_lt_irreflexive(a: Seq<char>)
    ensures
        !id_lt(a, a),
    decreases a.len(),
{
    if a.len() > 0 {
        lemma_id_lt_irreflexive(a.drop_first());
    }
}

proof fn lemma_id_lt_asymmetric(a: Seq<char>, b: Seq<char>)
    requires
        id_lt(a, b),
    ensures
        !id_lt(b, a),
    decreases a.len(),
{
    if a.len() > 0 && b.len() > 0 && a[0] == b[0] {
        lemma_id_lt_asymmetric(a.drop_first(), b.drop_first());
    }
}

proof fn lemma_id_lt_transitive(a: Seq<char>, b: Seq<char>, c: Seq<char>)
    requires
        id_lt(a, b),
        id_lt(b, c),
    ensures
        id_lt(a, c),
    decreases a.len(),
{
    if a.len() > 0 && b.len() > 0 && c.len() > 0 && a[0] == b[0] && b[0] == c[0] {
        lemma_id_lt_transitive(a.drop_first(), b.drop_first(), c.drop_first());
    }
}

proof fn lemma_id_lt_total(a: Seq<char>, b: Seq<char>)
    requires
        a != b,
    ensures
        id_lt(a, b) || id_lt(b, a),
    decreases a.len(),
{
    if a.len() == 0 && b.len() == 0 {
        assert(a =~= b);
    } else if a.len() > 0 && b.len() > 0 && a[0] != b[0] {
        assert((a[0] as int) != (b[0] as int));
        assert(id_lt(a, b) == ((a[0] as int) < (b[0] as int)));
        assert(id_lt(b, a) == ((b[0] as int) < (a[0] as int)));
    } else if a.len() > 0 && b.len() > 0 && a[0] == b[0] {
        if a.drop_first() == b.drop_first() {
            assert(a =~= seq![a[0]] + a.drop_first());
            assert(b =~= seq![b[0]] + b.drop_first());
        } else {
            lemma_id_lt_total(a.drop_first(), b.drop_first());
        }
    }
}

proof fn lemma_le_antisymmetric(a: SpecView, b: SpecView)
    requires
        spec_le(a, b),
        spec_le(b, a),
    ensures
        a == b,
{
    lemma_id_lt_irreflexive(a.0);
    if id_lt(a.0, b.0) {
        lemma_id_lt_asymmetric(a.0, b.0);
    }
}

proof fn lemma_le_transitive(a: SpecView, b: SpecView, c: SpecView)
    requires
        spec_le(a, b),
        spec_le(b, c),
    ensures
        spec_le(a, c),
{
    if id_lt(a.0, b.0) && id_lt(b.0, c.0) {
        lemma_id_lt_transitive(a.0, b.0, c.0);
    }
}

proof fn lemma_le_total(a: SpecView, b: SpecView)
    ensures
        spec_le(a, b) || spec_le(b, a),
{
    if a.0 != b.0 {
        lemma_id_lt_total(a.0, b.0);
    }
}

/// Two sorted arrangements of the same monitors are the same sequence.
proof fn lemma_sorted_unique(s1: Seq<SpecView>, s2: Seq<SpecView>)
    requires
        sorted_views(s1),
        sorted_views(s2),
        s1.to_multiset() == s2.to_multiset(),
    ensures
        s1 == s2,
    decreases s1.len(),
{
    broadcast use vstd::seq_lib::group_to_multiset_ensures;

    if s1.len() == 0 {
        assert(s2.to_multiset().len() == 0);
        assert(s2 =~= s1);
    } else {
        assert(s1.contains(s1[0]));
        assert(s2.to_multiset().count(s1[0]) > 0);
        assert(s2.contains(s1[0]));
        let j = choose|j: int| 0 <= j < s2.len() && s2[j] == s1[0];
        assert(s2.len() > 0);
        assert(s2.contains(s2[0]));
        assert(s1.to_multiset().count(s2[0]) > 0);
        assert(s1.contains(s2[0]));
        let i = choose|i: int| 0 <= i < s1.len() && s1[i] == s2[0];
        assert(spec_le(s1[0], s1[i]));
        assert(spec_le(s2[0], s2[j]));
        lemma_le_antisymmetric(s1[0], s2[0]);
        let r1 = s1.remove(0);
        let r2 = s2.remove(0);
        assert(r1.to_multiset() == s1.to_multiset().remove(s1[0]));
        assert(r2.to_multiset() == s2.to_multiset().remove(s2[0]));
        assert forall|a: int, b: int| 0 <= a <= b < r1.len() implies #[trigger] spec_le(r1[a], r1[b]) by {
            assert(r1[a] == s1[a + 1] && r1[b] == s1[b + 1]);
        }
        assert forall|a: int, b: int| 0 <= a <= b < r2.len() implies #[trigger] spec_le(r2[a], r2[b]) by {
            assert(r2[a] == s2[a + 1] && r2[b] == s2[b + 1]);
        }
        lemma_sorted_unique(r1, r2);
        assert(s1 =~= seq![s1[0]] + r1);
        assert(s2 =~= seq![s2[0]] + r2);
    }
}

/// Packing depends only on which monitors are given, not on their order.
pub proof fn lemma_horizontal_layout_deterministic(a: Seq<MonitorSpec>, b: Seq<MonitorSpec>)
    requires
        spec_views(a).to_multiset() == spec_views(b).to_multiset(),
    ensures
        horizontal(spec_views(a)) == horizontal(spec_views(b)),
{
}

/// Whether identifier `a` sorts before `b`.
fn id_less(a: &str, b: &str) -> (r: bool)
    ensures
        r == id_lt(a@, b@),
{
    let la = a.unicode_len();
    let lb = b.unicode_len();
    let mut i: usize = 0;
    assert(a@.skip(0) =~= a@);
    assert(b@.skip(0) =~= b@);
    while i < la && i < lb
        invariant
            la == a@.len(),
            lb == b@.len(),
            i <= la,
            i <= lb,
            id_lt(a@, b@) == id_lt(a@.skip(i as int), b@.skip(i as int)),
        decreases la - i,
    {
        let ca = a.get_char(i);
        let cb = b.get_char(i);
        assert(a@.skip(i as int)[0] == ca && b@.skip(i as int)[0] == cb);
        if ca != cb {
            return (ca as u32) < (cb as u32);
        }
        assert(a@.skip(i as int).drop_first() =~= a@.skip(i + 1));
        assert(b@.skip(i as int).drop_first() =~= b@.skip(i + 1));
        i = i + 1;
    }
    i == la && i < lb
}

/// Whether `a` comes no later than `b` in packing order.
fn spec_le_exec(a: &MonitorSpec, b: &MonitorSpec) -> (r: bool)
    ensures
        r == spec_le(a@, b@),
{
    if id_less(a.id.as_str(), b.id.as_str()) {
        return true;
    }
    if a.id != b.id {
        return false;
    }
    a.width < b.width || (a.width == b.width && a.height <= b.height)
}

fn copy_spec(m: &MonitorSpec) -> (r: MonitorSpec)
    ensures
        r@ == m@,
{
    MonitorSpec { id: m.id.clone(), width: m.width, height: m.height }
}

/// The monitors in packing order.
fn sort_specs(monitors: &[MonitorSpec]) -> (r: Vec<MonitorSpec>)
    ensures
        sorted_views(spec_views(r@)),
        spec_views(r@).to_multiset() == spec_views(monitors@).to_multiset(),
{
    broadcast use vstd::seq_lib::group_to_multiset_ensures;

    let mut out: Vec<MonitorSpec> = Vec::new();
    let mut i: usize = 0;
    while i < monitors.len()
        invariant
            i <= monitors@.len(),
            sorted_views(spec_views(out@)),
            spec_views(out@).to_multiset() == spec_views(monitors@.subrange(0, i as int)).to_multiset(),
        decreases monitors@.len() - i,
    {
        let e = copy_spec(&monitors[i]);
        let ghost v = e@;
        let ghost before = spec_views(out@);
        let mut pos: usize = 0;
        while pos < out.len() && spec_le_exec(&out[pos], &e)
            invariant
                pos <= out@.len(),
                before == spec_views(out@),
                v == e@,
                forall|k: int| 0 <= k < pos ==> #[trigger] spec_le(before[k], v),
            decreases out@.len() - pos,
        {
            pos = pos + 1;
        }
        proof {
            if pos < out@.len() {
                lemma_le_total(before[pos as int], v);
                assert forall|k: int| pos <= k < before.len() implies #[trigger] spec_le(v, before[k]) by {
                    assert(spec_le(before[pos as int], before[k]));
                    lemma_le_transitive(v, before[pos as int], before[k]);
                }
            }
        }
        out.insert(pos, e);
        proof {
            let after = spec_views(out@);
            before.insert_ensures(pos as int, v);
            assert(after =~= before.insert(pos as int, v));
            assert forall|a: int, b: int| 0 <= a <= b < after.len() implies #[trigger] spec_le(after[a], after[b]) by {
                lemma_id_lt_irreflexive(after[a].0);
                if a < pos && b > pos {
                    lemma_le_transitive(after[a], v, after[b]);
                }
            }
            assert(after.remove(pos as int) =~= before);
            after.to_multiset_ensures();
            assert(after.remove(pos as int).to_multiset() =~= after.to_multiset().remove(after[pos as int]));
            assert(after.to_multiset().remove(v) =~= before.to_multiset());
            assert(after[pos as int] == v);
            assert(after.contains(v));
            assert(after.to_multiset().count(v) > 0);
            assert(after.to_multiset() =~= before.to_multiset().insert(v));
            let pre = monitors@.subrange(0, i as int);
            assert(spec_views(monitors@.subrange(0, i + 1)) =~= spec_views(pre).push(v));
            spec_views(pre).to_multiset_ensures();
            assert(spec_views(pre).push(v).to_multiset() =~= spec_views(pre).to_multiset().insert(v));
        }
        i = i + 1;
    }
    proof {
        assert(monitors@.subrange(0, monitors@.len() as int) =~= monitors@);
    }
    out
}

/// Deterministic baseline layout: monitors sorted by id are placed left to
/// right, all at `y = 0`, with saturating x addition.
pub fn layout_horizontal(monitors: &[MonitorSpec]) -> (r: Vec<MonitorPlacement>)
    ensures
        placement_views(r@) == horizontal(spec_views(monitors@)),
        sorted_views(sorted_by_id(spec_views(monitors@))),
        sorted_by_id(spec_views(monitors@)).to_multiset() == spec_views(monitors@).to_multiset(),
{
    let sorted = sort_specs(monitors);
    let ghost t = spec_views(sorted@);
    proof {
        let c = sorted_by_id(spec_views(monitors@));
        assert(sorted_views(c) && c.to_multiset() == spec_views(monitors@).to_multiset());
        lemma_sorted_unique(c, t);
    }
    let mut next_x: i32 = 0;
    let mut out: Vec<MonitorPlacement> = Vec::new();
    let mut i: usize = 0;
    while i < sorted.len()
        invariant
            i <= sorted@.len(),
            t == spec_views(sorted@),
            next_x == offset(t, i as int),
            out@.len() == i,
            forall|k: int| 0 <= k < i ==> #[trigger] out@[k]@ == (t[k].0, offset(t, k) as i32, 0i32, t[k].1, t[k].2),
        decreases sorted@.len() - i,
    {
        let m = &sorted[i];
        out.push(MonitorPlacement { id: m.id.clone(), x: next_x, y: 0, width: m.width, height: m.height });
        let w: i64 = if m.width > 0 { m.width as i64 } else { 0 };
        let sum: i64 = next_x as i64 + w;
        next_x = if sum > i32::MAX as i64 { i32::MAX } else { sum as i32 };
        i = i + 1;
    }
    assert(placement_views(out@) =~= horizontal(spec_views(monitors@)));
    out
}

/// Whether two identifiers are equal.
fn id_equal(a: &str, b: &str) -> (r: bool)
    ensures
        r == (a@ == b@),
{
    let lt = id_less(a, b);
    let gt = id_less(b, a);
    proof {
        if a@ == b@ {
            lemma_id_lt_irreflexive(a@);
        } else {
            lemma_id_lt_total(a@, b@);
        }
    }
    !lt && !gt
}

/// Index of the first monitor with the given id.
pub open spec fn index_of_id(ps: Seq<MonitorPlacement>, id: Seq<char>) -> int {
    choose|i: int| 0 <= i < ps.len() && ps[i].id@ == id && forall|j: int| 0 <= j < i ==> #[trigger] ps[j].id@ != id
}

pub open spec fn has_id(ps: Seq<MonitorPlacement>, id: Seq<char>) -> bool {
    exists|i: int| 0 <= i < ps.len() && #[trigger] ps[i].id@ == id
}

/// The placements with the first monitor of the given id moved to `(x, y)`.
pub open spec fn moved(ps: Seq<MonitorPlacement>, id: Seq<char>, x: i32, y: i32) -> Seq<MonitorPlacement> {
    let i = index_of_id(ps, id);
    ps.update(i, MonitorPlacement { x, y, ..ps[i] })
}

fn copy_placement(m: &MonitorPlacement) -> (r: MonitorPlacement)
    ensures
        r == *m,
{
    MonitorPlacement { id: m.id.clone(), x: m.x, y: m.y, width: m.width, height: m.height }
}

/// What packing reads of each placed monitor.
pub open spec fn specs_of(ps: Seq<MonitorPlacement>) -> Seq<SpecView> {
    Seq::new(ps.len(), |i: int| (ps[i].id@, ps[i].width, ps[i].height))
}

/// Index of the first packed entry with the given id.
pub open spec fn packed_index(packed: Seq<(Seq<char>, i32, i32, i32, i32)>, id: Seq<char>) -> int {
    choose|j: int| 0 <= j < packed.len() && packed[j].0 == id && forall|k: int| 0 <= k < j ==> #[trigger] packed[k].0 != id
}

/// Each monitor moved to where horizontal packing puts the first monitor
/// with its id.
pub open spec fn repacked(ps: Seq<MonitorPlacement>) -> Seq<MonitorPlacement> {
    let packed = horizontal(specs_of(ps));
    Seq::new(
        ps.len(),
        |i: int|
            MonitorPlacement {
                x: packed[packed_index(packed, ps[i].id@)].1,
                y: packed[packed_index(packed, ps[i].id@)].2,
                ..ps[i]
            },
    )
}

fn spec_of_placement(m: &MonitorPlacement) -> (r: MonitorSpec)
    ensures
        r@ == (m.id@, m.width, m.height),
{
    MonitorSpec { id: m.id.clone(), width: m.width, height: m.height }
}

/// Monitor placements together with a cursor that stays on them.
pub struct LayoutContext {
    placements: Vec<MonitorPlacement>,
    cursor: (i64, i64),
}

impl LayoutContext {
    /// The monitors and the cursor position.
    pub closed spec fn placements(&self) -> Seq<MonitorPlacement> {
        self.placements@
    }

    pub closed spec fn cursor(&self) -> (int, int) {
        (self.cursor.0 as int, self.cursor.1 as int)
    }

    /// The cursor is a representable point, and on a monitor if there is one.
    pub open spec fn wf(&self) -> bool {
        &&& coord_ok(self.cursor().0)
        &&& coord_ok(self.cursor().1)
        &&& self.placements().len() > 0 ==> in_closed_layout(
            self.placements(),
            self.cursor().0,
            self.cursor().1,
        )
    }

    /// A context over the given placements, with the cursor clamped onto them.
    pub fn new(placements: Vec<MonitorPlacement>, cursor_x: i64, cursor_y: i64) -> (r: LayoutContext)
        requires
            coord_ok(cursor_x as int),
            coord_ok(cursor_y as int),
        ensures
            r.wf(),
            r.placements() == placements@,
            r.cursor() == clamp_point(placements@, cursor_x as int, cursor_y as int),
    {
        let c = clamp_point_to_layout(placements.as_slice(), cursor_x, cursor_y);
        proof {
            if placements@.len() > 0 {
                lemma_clamp_contained(placements@, cursor_x as int, cursor_y as int);
                lemma_closed_bounds(placements@, c.0 as int, c.1 as int);
            }
        }
        LayoutContext { placements, cursor: c }
    }

    pub fn cursor_position(&self) -> (r: (i64, i64))
        ensures
            (r.0 as int, r.1 as int) == self.cursor(),
    {
        self.cursor
    }

    pub fn monitors(&self) -> (r: &[MonitorPlacement])
        ensures
            r@ == self.placements(),
    {
        self.placements.as_slice()
    }

    /// Moves one monitor. The change is kept only if the layout stays
    /// edge-contiguous and free of overlaps; the cursor is then clamped onto
    /// the new layout. Otherwise nothing changes.
    pub fn set_monitor_position(&mut self, monitor_id: &str, x: i32, y: i32) -> (r: Result<(), FrameworkError>)
        requires
            old(self).wf(),
        ensures
            final(self).wf(),
            !has_id(old(self).placements(), monitor_id@) ==> {
                &&& r is Err
                &&& r->Err_0 is MonitorNotFound
                &&& r->Err_0->MonitorNotFound_0@ == monitor_id@
                &&& *final(self) == *old(self)
            },
            has_id(old(self).placements(), monitor_id@) ==> {
                let ps = moved(old(self).placements(), monitor_id@, x, y);
                if valid_layout(ps) {
                    &&& r is Ok
                    &&& final(self).placements() == ps
                    &&& final(self).cursor() == clamp_point(ps, old(self).cursor().0, old(self).cursor().1)
                } else {
                    &&& r is Err
                    &&& r->Err_0 is Config
                    &&& *final(self) == *old(self)
                }
            },
            r is Ok ==> valid_layout(final(self).placements()),
    {
        let ghost ps = self.placements@;
        let mut idx: usize = 0;
        while idx < self.placements.len() && !id_equal(self.placements[idx].id.as_str(), monitor_id)
            invariant
                idx <= ps.len(),
                ps == self.placements@,
                forall|j: int| 0 <= j < idx ==> #[trigger] ps[j].id@ != monitor_id@,
            decreases ps.len() - idx,
        {
            idx = idx + 1;
        }
        if idx == self.placements.len() {
            return Err(FrameworkError::MonitorNotFound(monitor_id.to_owned()));
        }
        proof {
            assert(has_id(ps, monitor_id@));
            let c = index_of_id(ps, monitor_id@);
            if c < idx {
                assert(ps[c].id@ != monitor_id@);
            }
            if idx < c {
            }
            assert(c == idx);
        }
        let mut next: Vec<MonitorPlacement> = Vec::new();
        let mut i: usize = 0;
        while i < self.placements.len()
            invariant
                i <= ps.len(),
                ps == self.placements@,
                idx < ps.len(),
                next@.len() == i,
                forall|j: int| 0 <= j < i ==> #[trigger] next@[j] == (if j == idx {
                    MonitorPlacement { x, y, ..ps[j] }
                } else {
                    ps[j]
                }),
            decreases ps.len() - i,
        {
            let mut p = copy_placement(&self.placements[i]);
            if i == idx {
                p.x = x;
                p.y = y;
            }
            next.push(p);
            i = i + 1;
        }
        assert(next@ =~= moved(ps, monitor_id@, x, y));
        if !is_valid_edge_contiguous_layout(next.as_slice()) {
            return Err(
                FrameworkError::Config(
                    "invalid monitor layout: monitors must edge-touch, must not overlap, and cannot form islands".to_owned(),
                ),
            );
        }
        let c = clamp_point_to_layout(next.as_slice(), self.cursor.0, self.cursor.1);
        proof {
            lemma_clamp_contained(next@, self.cursor.0 as int, self.cursor.1 as int);
            lemma_closed_bounds(next@, c.0 as int, c.1 as int);
        }
        self.placements = next;
        self.cursor = c;
        Ok(())
    }

    /// Moves every monitor to its place in the horizontal packing and clamps
    /// the cursor onto the result.
    pub fn apply_horizontal_layout(&mut self)
        requires
            old(self).wf(),
        ensures
            final(self).wf(),
            final(self).placements() == repacked(old(self).placements()),
            final(self).cursor() == clamp_point(repacked(old(self).placements()), old(self).cursor().0, old(self).cursor().1),
    {
        broadcast use vstd::seq_lib::group_to_multiset_ensures;

        let ghost ps = self.placements@;
        let mut specs: Vec<MonitorSpec> = Vec::new();
        let mut i: usize = 0;
        while i < self.placements.len()
            invariant
                i <= ps.len(),
                ps == self.placements@,
                specs@.len() == i,
                forall|k: int| 0 <= k < i ==> #[trigger] specs@[k]@ == specs_of(ps)[k],
            decreases ps.len() - i,
        {
            let s = spec_of_placement(&self.placements[i]);
            specs.push(s);
            i = i + 1;
        }
        assert(spec_views(specs@) =~= specs_of(ps));
        let packed = layout_horizontal(specs.as_slice());
        let ghost pv = placement_views(packed@);
        let mut next: Vec<MonitorPlacement> = Vec::new();
        let mut i: usize = 0;
        while i < self.placements.len()
            invariant
                i <= ps.len(),
                ps == self.placements@,
                pv == placement_views(packed@),
                pv == horizontal(specs_of(ps)),
                sorted_by_id(specs_of(ps)).to_multiset() == specs_of(ps).to_multiset(),
                next@.len() == i,
                forall|k: int| 0 <= k < i ==> #[trigger] next@[k] == repacked(ps)[k],
            decreases ps.len() - i,
        {
            let m = &self.placements[i];
            proof {
                let s = specs_of(ps);
                let st = sorted_by_id(s);
                s.to_multiset_ensures();
                st.to_multiset_ensures();
                assert(s.contains(s[i as int]));
                assert(s.to_multiset().count(s[i as int]) > 0);
                assert(st.to_multiset().count(s[i as int]) > 0);
                assert(st.contains(s[i as int]));
                let k = choose|k: int| 0 <= k < st.len() && st[k] == s[i as int];
                assert(pv[k].0 == m.id@);
            }
            let mut j: usize = 0;
            while j < packed.len() && !id_equal(packed[j].id.as_str(), m.id.as_str())
                invariant
                    j <= packed@.len(),
                    pv == placement_views(packed@),
                    forall|k: int| 0 <= k < j ==> #[trigger] pv[k].0 != m.id@,
                    exists|k: int| 0 <= k < pv.len() && pv[k].0 == m.id@,
                decreases packed@.len() - j,
            {
                j = j + 1;
            }
            proof {
                if j == packed@.len() {
                    let k = choose|k: int| 0 <= k < pv.len() && pv[k].0 == m.id@;
                    assert(pv[k].0 != m.id@);
                }
                assert(pv[j as int].0 == m.id@);
                let f = packed_index(pv, m.id@);
                if f < j {
                    assert(pv[f].0 != m.id@);
                }
                if j < f {
                    assert(pv[j as int].0 != m.id@);
                }
            }
            let mut p = copy_placement(m);
            p.x = packed[j].x;
            p.y = packed[j].y;
            next.push(p);
            i = i + 1;
        }
        assert(next@ =~= repacked(ps));
        let c = clamp_point_to_layout(next.as_slice(), self.cursor.0, self.cursor.1);
        proof {
            if next@.len() > 0 {
                lemma_clamp_contained(next@, self.cursor.0 as int, self.cursor.1 as int);
                lemma_closed_bounds(next@, c.0 as int, c.1 as int);
            }
        }
        self.placements = next;
        self.cursor = c;
    }

    /// Applies a relative pointer motion without tunnelling across gaps.
    pub fn move_cursor(&mut self, dx: i64, dy: i64)
        requires
            old(self).wf(),
            delta_ok(dx as int),
            delta_ok(dy as int),
            old(self).placements().len() == 0 ==> coord_ok(old(self).cursor().0 + dx) && coord_ok(
                old(self).cursor().1 + dy,
            ),
        ensures
            final(self).wf(),
            final(self).placements() == old(self).placements(),
            final(self).cursor() == move_point(
                old(self).placements(),
                old(self).cursor().0,
                old(self).cursor().1,
                dx as int,
                dy as int,
            ),
    {
        let c = move_cursor_no_tunnel(self.placements.as_slice(), self.cursor.0, self.cursor.1, dx, dy);
        proof {
            if self.placements@.len() > 0 {
                lemma_motion_contained(self.placements@, self.cursor.0 as int, self.cursor.1 as int, dx as int, dy as int);
                lemma_closed_bounds(self.placements@, c.0 as int, c.1 as int);
            }
        }
        self.cursor = c;
    }

    /// Places the cursor at an absolute position, clamped onto the layout.
    pub fn warp_cursor(&mut self, x: i64, y: i64)
        requires
            old(self).wf(),
            coord_ok(x as int),
            coord_ok(y as int),
        ensures
            final(self).wf(),
            final(self).placements() == old(self).placements(),
            final(self).cursor() == clamp_point(old(self).placements(), x as int, y as int),
    {
        let c = clamp_point_to_layout(self.placements.as_slice(), x, y);
        proof {
            if self.placements@.len() > 0 {
                lemma_clamp_contained(self.placements@, x as int, y as int);
                lemma_closed_bounds(self.placements@, c.0 as int, c.1 as int);
            }
        }
        self.cursor = c;
    }
}

/// `a + b` saturated to the range of `i32`.
pub open spec fn sat_add_i32(a: i32, b: i32) -> int {
    let s = a + b;
    if s > i32::MAX {
        i32::MAX as int
    } else if s < i32::MIN {
        i32::MIN as int
    } else {
        s
    }
}

/// The largest `x + width` and the largest `y + height` (each saturated to
/// `i32`) of the first `n` monitors, each at least 1.
pub open spec fn extent(ps: Seq<MonitorPlacement>, n: int) -> (int, int)
    decreases n,
{
    if n <= 0 {
        (1, 1)
    } else {
        let e = extent(ps, n - 1);
        let r = sat_add_i32(ps[n - 1].x, ps[n - 1].width);
        let b = sat_add_i32(ps[n - 1].y, ps[n - 1].height);
        (if r > e.0 {
            r
        } else {
            e.0
        }, if b > e.1 {
            b
        } else {
            e.1
        })
    }
}

fn sat_add_i32_exec(a: i32, b: i32) -> (r: i64)
    ensures
        r == sat_add_i32(a, b),
{
    let s = a as i64 + b as i64;
    if s > i32::MAX as i64 {
        i32::MAX as i64
    } else if s < i32::MIN as i64 {
        i32::MIN as i64
    } else {
        s
    }
}

/// The size of the box from the origin that holds every monitor, at least
/// 1 by 1: what normalized tablet and touch positions scale to.
pub fn layout_extent(monitors: &[MonitorPlacement]) -> (r: (i64, i64))
    ensures
        (r.0 as int, r.1 as int) == extent(monitors@, monitors@.len() as int),
{
    let mut w: i64 = 1;
    let mut h: i64 = 1;
    let mut i: usize = 0;
    while i < monitors.len()
        invariant
            i <= monitors@.len(),
            (w as int, h as int) == extent(monitors@, i as int),
            1 <= w <= i32::MAX,
            1 <= h <= i32::MAX,
        decreases monitors@.len() - i,
    {
        let r = sat_add_i32_exec(monitors[i].x, monitors[i].width);
        let b = sat_add_i32_exec(monitors[i].y, monitors[i].height);
        if r > w {
            w = r;
        }
        if b > h {
            h = b;
        }
        i = i + 1;
    }
    (w, h)
}

/// The positions a motion visits, sub-step by sub-step, from `(x, y)` to
/// where `walk` ends.
pub open spec fn walk_path(ps: Seq<MonitorPlacement>, x: int, y: int, dx: int, dy: int, n: int, k: int) -> Seq<(int, int)>
    decreases n - k,
{
    if k >= n {
        seq![(x, y)]
    } else {
        let nx = x + step_part(dx, k, n);
        let ny = y + step_part(dy, k, n);
        if in_layout(ps, nx, ny) {
            seq![(x, y)] + walk_path(ps, nx, ny, dx, dy, n, k + 1)
        } else {
            let c = clamp_point(ps, nx, ny);
            if c == (x, y) {
                seq![(x, y)]
            } else {
                seq![(x, y)] + walk_path(ps, c.0, c.1, dx, dy, n, k + 1)
            }
        }
    }
}

pub open spec fn near(p: (int, int), q: (int, int), s: int) -> bool {
    abs_int(p.0 - q.0) <= s && abs_int(p.1 - q.1) <= s
}

proof fn lemma_step_part_unit(d: int, k: int, n: int)
    requires
        0 <= k < n,
        abs_int(d) <= n,
    ensures
        abs_int(step_part(d, k, n)) <= 1,
{
    let a = abs_int(d);
    lemma_step_part_bound(d, k, n);
    assert(a * (k + 1) == a * k + a) by (nonlinear_arith);
    assert(a * k >= 0) by (nonlinear_arith)
        requires
            a >= 0,
            k >= 0,
    ;
    vstd::arithmetic::div_mod::lemma_div_is_ordered(a * k + a, a * k + n, n);
    vstd::arithmetic::div_mod::lemma_hoist_over_denominator(a * k, 1, n as nat);
    vstd::arithmetic::div_mod::lemma_div_is_ordered(a * k, a * k + a, n);
}

proof fn lemma_clamp_near_axis(v: int, lo: int, hi: int, z: int)
    requires
        lo <= z <= hi,
    ensures
        abs_int(clamp_int(v, lo, hi) - v) <= abs_int(z - v),
{
}

proof fn lemma_square_le(a: int, b: int)
    requires
        abs_int(a) <= abs_int(b),
    ensures
        a * a <= b * b,
{
    let x = abs_int(a);
    let y = abs_int(b);
    assert(a * a == x * x) by (nonlinear_arith)
        requires
            x == a || x == -a,
    ;
    assert(b * b == y * y) by (nonlinear_arith)
        requires
            y == b || y == -b,
    ;
    assert(x * x <= y * y) by (nonlinear_arith)
        requires
            0 <= x <= y,
    ;
}

/// From a point on the layout, a proposal at most `s` away on each axis
/// is clamped back to within `2 s` of the proposal on each axis.
proof fn lemma_clamp_stays_near(ps: Seq<MonitorPlacement>, x: int, y: int, nx: int, ny: int, s: int)
    requires
        ps.len() > 0,
        in_closed_layout(ps, x, y),
        !in_layout(ps, nx, ny),
        s >= 0,
        near((x, y), (nx, ny), s),
    ensures
        near(clamp_point(ps, nx, ny), (nx, ny), 2 * s),
{
    let j = choose|j: int| 0 <= j < ps.len() && #[trigger] on_closed(ps[j], x, y);
    lemma_nearest(ps, nx, ny, ps.len());
    let b = nearest(ps, nx, ny, ps.len());
    let c = project(ps[b], nx, ny);
    let pj = project(ps[j], nx, ny);
    lemma_clamp_near_axis(nx, left(ps[j]), right(ps[j]), x);
    lemma_clamp_near_axis(ny, top(ps[j]), bottom(ps[j]), y);
    lemma_square_le(pj.0 - nx, x - nx);
    lemma_square_le(pj.1 - ny, y - ny);
    lemma_square_le(x - nx, s);
    lemma_square_le(y - ny, s);
    assert(dist2(ps[b], nx, ny) <= dist2(ps[j], nx, ny));
    let u = c.0 - nx;
    let v = c.1 - ny;
    assert(u * u + v * v <= 2 * (s * s));
    assert(v * v >= 0) by (nonlinear_arith);
    assert(u * u >= 0) by (nonlinear_arith);
    assert(abs_int(u) <= 2 * s) by (nonlinear_arith)
        requires
            u * u <= 2 * (s * s),
            s >= 0,
    ;
    assert(abs_int(v) <= 2 * s) by (nonlinear_arith)
        requires
            v * v <= 2 * (s * s),
            s >= 0,
    ;
}

proof fn lemma_walk_path(ps: Seq<MonitorPlacement>, x: int, y: int, dx: int, dy: int, n: int, k: int)
    requires
        ps.len() > 0,
        in_closed_layout(ps, x, y),
        0 <= k <= n,
        abs_int(dx) <= n,
        abs_int(dy) <= n,
    ensures
        walk_path(ps, x, y, dx, dy, n, k).len() > 0,
        walk_path(ps, x, y, dx, dy, n, k)[0] == (x, y),
        walk_path(ps, x, y, dx, dy, n, k).last() == walk(ps, x, y, dx, dy, n, k),
        forall|i: int|
            0 <= i < walk_path(ps, x, y, dx, dy, n, k).len() - 1 ==> near(
                #[trigger] walk_path(ps, x, y, dx, dy, n, k)[i],
                walk_path(ps, x, y, dx, dy, n, k)[i + 1],
                3,
            ),
    decreases n - k,
{
    if k < n {
        let nx = x + step_part(dx, k, n);
        let ny = y + step_part(dy, k, n);
        lemma_step_part_unit(dx, k, n);
        lemma_step_part_unit(dy, k, n);
        let path = walk_path(ps, x, y, dx, dy, n, k);
        if in_layout(ps, nx, ny) {
            let i0 = choose|i: int| 0 <= i < ps.len() && #[trigger] inside(ps[i], nx, ny);
            assert(on_closed(ps[i0], nx, ny));
            lemma_walk_path(ps, nx, ny, dx, dy, n, k + 1);
            let rest = walk_path(ps, nx, ny, dx, dy, n, k + 1);
            assert(path == seq![(x, y)] + rest);
            assert forall|i: int| 0 <= i < path.len() - 1 implies near(#[trigger] path[i], path[i + 1], 3) by {
                if i > 0 {
                    assert(path[i] == rest[i - 1] && path[i + 1] == rest[i]);
                }
            }
        } else {
            let c = clamp_point(ps, nx, ny);
            if c != (x, y) {
                lemma_clamp_stays_near(ps, x, y, nx, ny, 1);
                lemma_clamp_contained(ps, nx, ny);
                lemma_walk_path(ps, c.0, c.1, dx, dy, n, k + 1);
                let rest = walk_path(ps, c.0, c.1, dx, dy, n, k + 1);
                assert(path == seq![(x, y)] + rest);
                assert forall|i: int| 0 <= i < path.len() - 1 implies near(#[trigger] path[i], path[i + 1], 3) by {
                    if i > 0 {
                        assert(path[i] == rest[i - 1] && path[i + 1] == rest[i]);
                    }
                }
            }
        }
    }
}

/// A motion of at most `MAX_MOTION_STEPS` pixels per axis over a non-empty
/// layout visits positions that start at the clamped start, end where the
/// motion ends, and differ from one to the next by at most 3 pixels on each
/// axis: no single sub-step jumps a gap wider than that.
pub proof fn lemma_motion_moves_in_small_steps(ps: Seq<MonitorPlacement>, sx: int, sy: int, dx: int, dy: int)
    requires
        ps.len() > 0,
        abs_int(dx) <= MAX_MOTION_STEPS,
        abs_int(dy) <= MAX_MOTION_STEPS,
    ensures
        ({
            let c = clamp_point(ps, sx, sy);
            let path = walk_path(ps, c.0, c.1, dx, dy, motion_steps(dx, dy), 0);
            &&& path.len() > 0
            &&& path[0] == c
            &&& path.last() == move_point(ps, sx, sy, dx, dy)
            &&& forall|i: int| 0 <= i < path.len() - 1 ==> near(#[trigger] path[i], path[i + 1], 3)
        }),
{
    lemma_clamp_contained(ps, sx, sy);
    let c = clamp_point(ps, sx, sy);
    lemma_walk_path(ps, c.0, c.1, dx, dy, motion_steps(dx, dy), 0);
}

} // verus!
