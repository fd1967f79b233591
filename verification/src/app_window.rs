//! Window docking, classic-Winamp style: every frameless window snaps into one
//! movable group, and the player (the master) drags its whole connected group.
//!
//! The group is recomputed from the actual window positions every time a drag
//! starts or ends; this module holds those rectangles and decides who belongs
//! to the group, where followers go, and which windows the player owns.

use vstd::prelude::*;

verus! {

/// An outer window rectangle in physical pixels.
#[derive(Clone, Copy)]
pub struct WindowRect {
    pub x: i32,
    pub y: i32,
    pub width: u32,
    pub height: u32,
}

/// The right and bottom edges of a rectangle fit in `i32`.
pub open spec fn rect_fits(r: WindowRect) -> bool {
    &&& r.width <= i32::MAX
    &&& r.height <= i32::MAX
    &&& r.x + r.width <= i32::MAX
    &&& r.y + r.height <= i32::MAX
}

pub open spec fn right_of(r: WindowRect) -> int {
    r.x + r.width
}

pub open spec fn bottom_of(r: WindowRect) -> int {
    r.y + r.height
}

impl WindowRect {
    pub fn right(&self) -> (r: i32)
        requires
            rect_fits(*self),
        ensures
            r == right_of(*self),
    {
        self.x + self.width as i32
    }

    pub fn bottom(&self) -> (r: i32)
        requires
            rect_fits(*self),
        ensures
            r == bottom_of(*self),
    {
        self.y + self.height as i32
    }
}

/// How close two edges must be to count as flush.
pub const DOCK_TOLERANCE: i32 = 3;

pub open spec fn abs_int(v: int) -> int {
    if v < 0 {
        -v
    } else {
        v
    }
}

/// Two windows are docked when one edge is flush (within the tolerance) and
/// they overlap on the perpendicular axis.
pub open spec fn adjacent_spec(a: WindowRect, b: WindowRect) -> bool {
    let vertical_overlap = a.y < bottom_of(b) && b.y < bottom_of(a);
    let horizontal_overlap = a.x < right_of(b) && b.x < right_of(a);
    (vertical_overlap && (abs_int(right_of(a) - b.x) <= 3 || abs_int(right_of(b) - a.x) <= 3))
        || (horizontal_overlap && (abs_int(bottom_of(a) - b.y) <= 3 || abs_int(bottom_of(b) - a.y)
        <= 3))
}

fn abs_i64(v: i64) -> (r: i64)
    requires
        v > i64::MIN,
    ensures
        r == abs_int(v as int),
{
    if v < 0 {
        -v
    } else {
        v
    }
}

/// Two windows are docked when one edge is flush (within a small tolerance)
/// and they overlap on the perpendicular axis.
pub fn adjacent(a: &WindowRect, b: &WindowRect) -> (r: bool)
    ensures
        r == adjacent_spec(*a, *b),
{
    let tol = DOCK_TOLERANCE as i64;
    let (ax, ay) = (a.x as i64, a.y as i64);
    let (ar, ab) = (ax + a.width as i64, ay + a.height as i64);
    let (bx, by) = (b.x as i64, b.y as i64);
    let (br, bb) = (bx + b.width as i64, by + b.height as i64);
    let vertical_overlap = ay < bb && by < ab;
    let horizontal_overlap = ax < br && bx < ar;
    (vertical_overlap && (abs_i64(ar - bx) <= tol || abs_i64(br - ax) <= tol)) || (horizontal_overlap
        && (abs_i64(ab - by) <= tol || abs_i64(bb - ay) <= tol))
}

/// `v` wrapped into `i32` the way two's-complement `i32` arithmetic wraps a
/// sum or difference of two `i32` values.
pub open spec fn wrap_i32(v: int) -> i32 {
    if v > i32::MAX {
        (v - 0x1_0000_0000) as i32
    } else if v < i32::MIN {
        (v + 0x1_0000_0000) as i32
    } else {
        v as i32
    }
}

/// `a + b`, wrapping on overflow.
fn wrapping_add_i32(a: i32, b: i32) -> (r: i32)
    ensures
        r == wrap_i32(a + b),
{
    let v = a as i64 + b as i64;
    if v > i32::MAX as i64 {
        (v - 0x1_0000_0000i64) as i32
    } else if v < i32::MIN as i64 {
        (v + 0x1_0000_0000i64) as i32
    } else {
        v as i32
    }
}

/// `a - b`, wrapping on overflow.
fn wrapping_sub_i32(a: i32, b: i32) -> (r: i32)
    ensures
        r == wrap_i32(a - b),
{
    let v = a as i64 - b as i64;
    if v > i32::MAX as i64 {
        (v - 0x1_0000_0000i64) as i32
    } else if v < i32::MIN as i64 {
        (v + 0x1_0000_0000i64) as i32
    } else {
        v as i32
    }
}

/// Docking is mutual: `a` is docked to `b` exactly when `b` is docked to `a`.
pub proof fn law_adjacent_symmetric(a: WindowRect, b: WindowRect)
    ensures
        adjacent_spec(a, b) == adjacent_spec(b, a),
{
}

/// The label of the master window that drags the whole group.
pub open spec fn master_label() -> Seq<char> {
    seq!['p', 'l', 'a', 'y', 'e', 'r']
}

/// One registered window, as last read from the window system.
pub struct DockEntry {
    pub label: String,
    /// Outer rectangle; missing when it could not be read.
    pub rect: Option<WindowRect>,
    pub visible: bool,
    /// Native handle, once the main thread has recorded it.
    pub hwnd: Option<isize>,
}

/// The docking manager's state.
pub struct Dock {
    pub windows: Vec<DockEntry>,
    /// Label of the window currently being dragged, if any.
    pub dragging: Option<String>,
    /// While the player is dragged, each other group member's fixed offset from
    /// the player, frozen at drag start.
    pub group_offsets: Vec<(String, i32, i32)>,
    /// Docked offset of a window that was hidden while docked, so it re-docks
    /// to the player when shown again.
    pub hidden_offset: Vec<(String, i32, i32)>,
    /// Labels of the followers the player currently owns natively.
    pub owned_by_player: Vec<String>,
}

pub open spec fn labels_unique(e: Seq<DockEntry>) -> bool {
    forall|i: int, j: int| 0 <= i < e.len() && 0 <= j < e.len() && i != j ==> e[i].label@ != e[j].label@
}


/// Window `j` is pulled into the group from window `i`: both rectangles are
/// known, `j` is visible, and they are docked.
pub open spec fn linked(e: Seq<DockEntry>, i: int, j: int) -> bool {
    &&& 0 <= i < e.len()
    &&& 0 <= j < e.len()
    &&& e[i].rect is Some
    &&& e[j].rect is Some
    &&& e[j].visible
    &&& adjacent_spec(e[i].rect->0, e[j].rect->0)
}

/// A chain of windows, each pulled in from the one before.
pub open spec fn is_chain(e: Seq<DockEntry>, p: Seq<int>) -> bool {
    &&& p.len() >= 1
    &&& forall|k: int| 0 <= k < p.len() ==> 0 <= #[trigger] p[k] < e.len()
    &&& forall|k: int| 0 <= k < p.len() - 1 ==> linked(e, #[trigger] p[k], p[k + 1])
}

/// `label` is in the group of `start`: it is `start` itself, or a chain of
/// docked visible windows leads to it from `start`.
pub open spec fn in_group(e: Seq<DockEntry>, start: Seq<char>, label: Seq<char>) -> bool {
    ||| label == start
    ||| exists|p: Seq<int>|
        #![trigger is_chain(e, p)]
        is_chain(e, p) && e[p[0]].label@ == start && e[p.last()].label@ == label
}

pub open spec fn string_views(v: Seq<String>) -> Seq<Seq<char>> {
    v.map_values(|s: String| s@)
}

/// Index of the window labelled `label`.
pub fn find_window(windows: &Vec<DockEntry>, label: &String) -> (r: Option<usize>)
    ensures
        match r {
            Some(i) => i < windows.len() && windows@[i as int].label@ == label@,
            None => forall|i: int| 0 <= i < windows.len() ==> windows@[i].label@ != label@,
        },
{
    let mut i: usize = 0;
    while i < windows.len()
        invariant
            i <= windows.len(),
            forall|k: int| 0 <= k < i ==> windows@[k].label@ != label@,
        decreases windows.len() - i,
    {
        if windows[i].label == *label {
            return Some(i);
        }
        i += 1;
    }
    None
}

pub open spec fn count_true(s: Seq<bool>) -> nat
    decreases s.len(),
{
    if s.len() == 0 {
        0
    } else {
        (if s.last() {
            1nat
        } else {
            0nat
        }) + count_true(s.drop_last())
    }
}

proof fn lemma_count_true_bound(s: Seq<bool>)
    ensures
        count_true(s) <= s.len(),
    decreases s.len(),
{
    if s.len() > 0 {
        lemma_count_true_bound(s.drop_last());
    }
}

proof fn lemma_count_true_set(s: Seq<bool>, i: int)
    requires
        0 <= i < s.len(),
        !s[i],
    ensures
        count_true(s.update(i, true)) == count_true(s) + 1,
    decreases s.len(),
{
    let t = s.update(i, true);
    if i == s.len() - 1 {
        assert(t.drop_last() =~= s.drop_last());
    } else {
        assert(t.drop_last() =~= s.drop_last().update(i, true));
        lemma_count_true_set(s.drop_last(), i);
    }
}

/// Every window on a chain from a group member that starts inside a closed
/// set stays inside it.
proof fn lemma_chain_closed(e: Seq<DockEntry>, p: Seq<int>, visited: Seq<bool>)
    requires
        is_chain(e, p),
        visited.len() == e.len(),
        visited[p[0]],
        forall|i: int, j: int| 0 <= i < e.len() && visited[i] && linked(e, i, j) ==> visited[j],
    ensures
        visited[p.last()],
    decreases p.len(),
{
    if p.len() > 1 {
        let q = p.drop_last();
        assert(is_chain(e, q)) by {
            assert forall|k: int| 0 <= k < q.len() - 1 implies linked(e, #[trigger] q[k], q[k + 1]) by {
                assert(linked(e, p[k], p[k + 1]));
            }
        }
        lemma_chain_closed(e, q, visited);
        assert(linked(e, p[p.len() - 2], p[p.len() - 1]));
    }
}

/// The chains found so far: every visited or pending window `i` has a chain
/// `paths[i]` from `s` to `i`.
pub open spec fn chains_ok(
    e: Seq<DockEntry>,
    s: int,
    visited: Seq<bool>,
    stack: Seq<usize>,
    paths: Seq<Seq<int>>,
) -> bool {
    &&& paths.len() == e.len()
    &&& visited.len() == e.len()
    &&& forall|t: int| 0 <= t < stack.len() ==> #[trigger] stack[t] < e.len()
    &&& forall|i: int|
        0 <= i < e.len() && (visited[i] || stack.contains(i as usize)) ==> {
            &&& is_chain(e, #[trigger] paths[i])
            &&& paths[i][0] == s
            &&& paths[i].last() == i
        }
}

/// Push every unvisited visible window docked to `c`.
fn push_neighbors(
    e: &Vec<DockEntry>,
    c: usize,
    visited: &Vec<bool>,
    stack: &mut Vec<usize>,
    Ghost(s): Ghost<int>,
    Ghost(paths): Ghost<Seq<Seq<int>>>,
) -> (new_paths: Ghost<Seq<Seq<int>>>)
    requires
        c < e.len(),
        visited@.len() == e.len(),
        visited@[c as int],
        chains_ok(e@, s, visited@, old(stack)@, paths),
    ensures
        chains_ok(e@, s, visited@, final(stack)@, new_paths@),
        forall|t: int| 0 <= t < old(stack)@.len() ==> final(stack)@.contains(#[trigger] old(stack)@[t]),
        forall|j: int| linked(e@, c as int, j) ==> visited@[j] || final(stack)@.contains(j as usize),
{
    let n = e.len();
    let ghost mut ps = paths;
    let cr = match e[c].rect {
        Some(cr) => cr,
        None => {
            return Ghost(ps);
        },
    };
    let ghost st_in = stack@;
    let mut j: usize = 0;
    while j < n
        invariant
            n == e.len(),
            c < n,
            j <= n,
            e@[c as int].rect == Some(cr),
            visited@[c as int],
            chains_ok(e@, s, visited@, stack@, ps),
            forall|jj: int|
                0 <= jj < j && linked(e@, c as int, jj) ==> visited@[jj] || stack@.contains(
                    jj as usize,
                ),
            forall|t: int| 0 <= t < st_in.len() ==> stack@.contains(#[trigger] st_in[t]),
        decreases n - j,
    {
        if !visited[j] && e[j].visible {
            match e[j].rect {
                Some(jr) => {
                    if adjacent(&cr, &jr) {
                        let ghost st0 = stack@;
                        stack.push(j);
                        proof {
                            let pc = ps[c as int];
                            let pj = pc.push(j as int);
                            assert(linked(e@, c as int, j as int));
                            assert(is_chain(e@, pj)) by {
                                assert forall|k: int| 0 <= k < pj.len() - 1 implies linked(
                                    e@,
                                    #[trigger] pj[k],
                                    pj[k + 1],
                                ) by {
                                    if k < pc.len() - 1 {
                                        assert(pj[k] == pc[k]);
                                        assert(pj[k + 1] == pc[k + 1]);
                                    }
                                }
                            }
                            let ps0 = ps;
                            ps = ps.update(j as int, pj);
                            assert(stack@[st0.len() as int] == j);
                            assert forall|t: int| 0 <= t < st0.len() implies stack@.contains(
                                #[trigger] st0[t],
                            ) by {
                                assert(stack@[t] == st0[t]);
                            }
                            assert forall|i: int|
                                0 <= i < e@.len() && (visited@[i] || stack@.contains(i as usize)) implies {
                                    &&& is_chain(e@, #[trigger] ps[i])
                                    &&& ps[i][0] == s
                                    &&& ps[i].last() == i
                                } by {
                                if i != j {
                                    if stack@.contains(i as usize) && !visited@[i] {
                                        let t = choose|t: int| 0 <= t < stack@.len() && stack@[t] == i as usize;
                                        assert(t < st0.len());
                                        assert(st0[t] == i as usize);
                                        assert(st0.contains(i as usize));
                                    }
                                    assert(ps[i] == ps0[i]);
                                }
                            }
                            assert forall|t: int| 0 <= t < st_in.len() implies stack@.contains(#[trigger] st_in[t]) by {
                                assert(st0.contains(st_in[t]));
                                let u = choose|u: int| 0 <= u < st0.len() && st0[u] == st_in[t];
                                assert(stack@[u] == st0[u]);
                            }
                            assert forall|jj: int|
                                0 <= jj < j + 1 && linked(e@, c as int, jj) implies visited@[jj] || stack@.contains(
                                    jj as usize,
                                ) by {
                                if jj < j && !visited@[jj] {
                                    assert(st0.contains(jj as usize));
                                    let u = choose|u: int| 0 <= u < st0.len() && st0[u] == jj as usize;
                                    assert(stack@[u] == st0[u]);
                                }
                            }
                        }
                    }
                },
                None => {},
            }
        }
        j += 1;
    }
    Ghost(ps)
}

/// Depth-first search from window `s`: marks every window reachable from it.
fn visit_group(e: &Vec<DockEntry>, s: usize) -> (res: (Vec<bool>, Ghost<Seq<Seq<int>>>))
    requires
        s < e.len(),
    ensures
        res.0@.len() == e.len(),
        res.0@[s as int],
        forall|i: int, j: int| 0 <= i < e.len() && res.0@[i] && linked(e@, i, j) ==> res.0@[j],
        forall|i: int|
            0 <= i < e.len() && res.0@[i] ==> {
                &&& is_chain(e@, #[trigger] res.1@[i])
                &&& res.1@[i][0] == s
                &&& res.1@[i].last() == i
            },
{
    let n = e.len();
    let mut visited: Vec<bool> = Vec::new();
    let mut k: usize = 0;
    while k < n
        invariant
            k <= n == e.len(),
            visited@.len() == k,
            forall|i: int| 0 <= i < k ==> !visited@[i],
        decreases n - k,
    {
        visited.push(false);
        k += 1;
    }
    proof {
        lemma_count_prefix_false(visited@, visited@.len());
        assert(visited@.subrange(0, visited@.len() as int) =~= visited@);
    }
    let mut stack: Vec<usize> = vec![s];
    let ghost mut paths: Seq<Seq<int>> = Seq::new(n as nat, |i: int| seq![s as int]);
    proof {
        assert(stack@.contains(s)) by {
            assert(stack@[0] == s);
        }
        assert forall|i: int| 0 <= i < e@.len() && (visited@[i] || stack@.contains(i as usize)) implies {
            &&& is_chain(e@, #[trigger] paths[i])
            &&& paths[i][0] == s
            &&& paths[i].last() == i
        } by {
            let t = choose|t: int| 0 <= t < stack@.len() && stack@[t] == i as usize;
            assert(t == 0);
        }
    }
    while stack.len() > 0
        invariant
            n == e.len(),
            s < n,
            count_true(visited@) <= n,
            chains_ok(e@, s as int, visited@, stack@, paths),
            visited@[s as int] || stack@.contains(s),
            forall|i: int, j: int|
                0 <= i < n && visited@[i] && linked(e@, i, j) ==> visited@[j] || stack@.contains(
                    j as usize,
                ),
        decreases n - count_true(visited@), stack.len(),
    {
        let ghost full = stack@;
        let c = stack.pop().unwrap();
        proof {
            assert(full =~= stack@.push(c));
            assert forall|x: usize| full.contains(x) implies x == c || stack@.contains(x) by {
                let t = choose|t: int| 0 <= t < full.len() && full[t] == x;
                if t < stack@.len() {
                    assert(stack@[t] == x);
                }
            }
            assert(c < n) by {
                assert(full[full.len() - 1] == c);
            }
        }
        if visited[c] {
            proof {
                assert forall|i: int| 0 <= i < e@.len() && (visited@[i] || stack@.contains(i as usize)) implies {
                    &&& is_chain(e@, #[trigger] paths[i])
                    &&& paths[i][0] == s
                    &&& paths[i].last() == i
                } by {
                    if stack@.contains(i as usize) {
                        let t = choose|t: int| 0 <= t < stack@.len() && stack@[t] == i as usize;
                        assert(full[t] == i as usize);
                    }
                }
            }
            continue;
        }
        let ghost vis_before = visited@;
        proof {
            assert(full.contains(c)) by {
                assert(full[full.len() - 1] == c);
            }
        }
        visited.set(c, true);
        proof {
            lemma_count_true_set(vis_before, c as int);
            lemma_count_true_bound(visited@);
            assert forall|i: int| 0 <= i < e@.len() && (visited@[i] || stack@.contains(i as usize)) implies {
                &&& is_chain(e@, #[trigger] paths[i])
                &&& paths[i][0] == s
                &&& paths[i].last() == i
            } by {
                if i != c && !vis_before[i] {
                    let t = choose|t: int| 0 <= t < stack@.len() && stack@[t] == i as usize;
                    assert(full[t] == i as usize);
                }
            }
        }
        let ghost st_mid = stack@;
        let Ghost(np) = push_neighbors(e, c, &visited, &mut stack, Ghost(s as int), Ghost(paths));
        proof {
            paths = np;
            assert forall|i: int, j: int|
                0 <= i < n && visited@[i] && linked(e@, i, j) implies visited@[j] || stack@.contains(
                    j as usize,
                ) by {
                if i != c {
                    assert(vis_before[i]);
                    if !vis_before[j] && j != c {
                        assert(full.contains(j as usize));
                        assert(st_mid.contains(j as usize));
                        let t = choose|t: int| 0 <= t < st_mid.len() && st_mid[t] == j as usize;
                        assert(stack@.contains(st_mid[t]));
                    }
                }
            }
        }
    }
    proof {
        assert forall|i: int, j: int| 0 <= i < e@.len() && visited@[i] && linked(e@, i, j) implies visited@[j] by {
            if !visited@[j] {
                assert(stack@.contains(j as usize));
                let t = choose|t: int| 0 <= t < stack@.len() && stack@[t] == j as usize;
            }
        }
        if !visited@[s as int] {
            let t = choose|t: int| 0 <= t < stack@.len() && stack@[t] == s;
        }
    }
    (visited, Ghost(paths))
}

/// Labels of every visible window transitively docked to `start` (inclusive).
pub fn connected_group(dock: &Dock, start: &String) -> (r: Vec<String>)
    requires
        labels_unique(dock.windows@),
    ensures
        forall|l: Seq<char>| #![trigger string_views(r@).contains(l)]
            string_views(r@).contains(l) <==> in_group(dock.windows@, start@, l),
        string_views(r@).no_duplicates(),
{
    let e = &dock.windows;
    let n = e.len();
    let si = find_window(e, start);
    match si {
        None => {
            let r = vec![start.clone()];
            proof {
                assert(string_views(r@) =~= seq![start@]);
                assert forall|l: Seq<char>| #![trigger string_views(r@).contains(l)]
                    string_views(r@).contains(l) <==> in_group(e@, start@, l) by {
                    if in_group(e@, start@, l) && l != start@ {
                        let p = choose|p: Seq<int>|
                            #![trigger is_chain(e@, p)]
                            is_chain(e@, p) && e@[p[0]].label@ == start@ && e@[p.last()].label@ == l;
                        assert(0 <= p[0] < e@.len());
                    }
                    if l == start@ {
                        assert(string_views(r@)[0] == l);
                    }
                }
            }
            r
        },
        Some(s) => {
            let (visited, Ghost(paths)) = visit_group(e, s);
            let r = labels_where(e, &visited);
            proof {
                assert forall|l: Seq<char>| #![trigger string_views(r@).contains(l)]
                    string_views(r@).contains(l) <==> in_group(e@, start@, l) by {
                    if string_views(r@).contains(l) {
                        let m = choose|m: int| 0 <= m < n && visited@[m] && e@[m].label@ == l;
                        let p = paths[m];
                        assert(is_chain(e@, p) && e@[p[0]].label@ == start@ && e@[p.last()].label@ == l);
                    }
                    if in_group(e@, start@, l) {
                        if l == start@ {
                            assert(visited@[s as int] && e@[s as int].label@ == l);
                        } else {
                            let p = choose|p: Seq<int>|
                                #![trigger is_chain(e@, p)]
                                is_chain(e@, p) && e@[p[0]].label@ == start@ && e@[p.last()].label@ == l;
                            assert(p[0] == s as int);
                            lemma_chain_closed(e@, p, visited@);
                            assert(visited@[p.last()] && e@[p.last()].label@ == l);
                        }
                    }
                }
            }
            r
        },
    }
}

/// The labels of the marked windows, in registration order.
fn labels_where(e: &Vec<DockEntry>, marked: &Vec<bool>) -> (r: Vec<String>)
    requires
        labels_unique(e@),
        marked@.len() == e.len(),
    ensures
        forall|l: Seq<char>| #![trigger string_views(r@).contains(l)]
            string_views(r@).contains(l) <==> exists|m: int|
                0 <= m < e.len() && marked@[m] && e@[m].label@ == l,
        string_views(r@).no_duplicates(),
{
    let n = e.len();
    let mut r: Vec<String> = Vec::new();
    let mut i: usize = 0;
    while i < n
        invariant
            i <= n == e.len(),
            marked@.len() == n,
            labels_unique(e@),
            forall|l: Seq<char>| #![trigger string_views(r@).contains(l)]
                string_views(r@).contains(l) <==> exists|m: int|
                    0 <= m < i && marked@[m] && e@[m].label@ == l,
            string_views(r@).no_duplicates(),
        decreases n - i,
    {
        if marked[i] {
            let ghost before = string_views(r@);
            r.push(e[i].label.clone());
            proof {
                let after = string_views(r@);
                assert(after =~= before.push(e@[i as int].label@));
                assert forall|l: Seq<char>| #![trigger after.contains(l)]
                    after.contains(l) <==> exists|m: int|
                        0 <= m < i + 1 && marked@[m] && e@[m].label@ == l by {
                    if after.contains(l) {
                        let t = choose|t: int| 0 <= t < after.len() && after[t] == l;
                        if t < before.len() {
                            assert(before[t] == l);
                            assert(before.contains(l));
                        }
                    }
                    if exists|m: int| 0 <= m < i + 1 && marked@[m] && e@[m].label@ == l {
                        let m = choose|m: int| 0 <= m < i + 1 && marked@[m] && e@[m].label@ == l;
                        if m < i {
                            assert(before.contains(l));
                            let t = choose|t: int| 0 <= t < before.len() && before[t] == l;
                            assert(after[t] == l);
                        } else {
                            assert(after[before.len() as int] == l);
                        }
                    }
                }
                assert forall|a: int, b: int|
                    0 <= a < after.len() && 0 <= b < after.len() && a != b implies after[a] != after[b] by {
                    if a == before.len() || b == before.len() {
                        let o = if a == before.len() { b } else { a };
                        assert(after[o] == before[o]);
                        assert(before.contains(before[o]));
                        let m = choose|m: int| 0 <= m < i && marked@[m] && e@[m].label@ == before[o];
                        assert(m != i);
                    } else {
                        assert(after[a] == before[a]);
                        assert(after[b] == before[b]);
                    }
                }
            }
        }
        i += 1;
    }
    r
}

proof fn lemma_count_prefix_false(v: Seq<bool>, m: nat)
    requires
        m <= v.len(),
        forall|i: int| 0 <= i < v.len() ==> !v[i],
    ensures
        count_true(v.subrange(0, m as int)) == 0,
    decreases m,
{
    if m > 0 {
        assert(v.subrange(0, m as int).drop_last() =~= v.subrange(0, m - 1));
        lemma_count_prefix_false(v, (m - 1) as nat);
    }
}

/// Whether `v` holds a string equal to `s`.
pub fn contains_string(v: &Vec<String>, s: &String) -> (r: bool)
    ensures
        r == string_views(v@).contains(s@),
{
    let mut i: usize = 0;
    while i < v.len()
        invariant
            i <= v.len(),
            forall|k: int| 0 <= k < i ==> v@[k]@ != s@,
        decreases v.len() - i,
    {
        if v[i] == *s {
            assert(string_views(v@)[i as int] == s@);
            return true;
        }
        i += 1;
    }
    assert forall|k: int| 0 <= k < string_views(v@).len() implies string_views(v@)[k] != s@ by {
        assert(string_views(v@)[k] == v@[k]@);
    }
    false
}

fn master() -> (r: String)
    ensures
        r@ == master_label(),
{
    let c = vec!['p', 'l', 'a', 'y', 'e', 'r'];
    assert(c@ =~= master_label());
    crate::text::string_from_chars(&c)
}

/// The rectangle recorded for the window labelled `l`, if any.
pub open spec fn rect_for(e: Seq<DockEntry>, l: Seq<char>) -> Option<WindowRect> {
    if exists|i: int| 0 <= i < e.len() && e[i].label@ == l {
        e[choose|i: int| 0 <= i < e.len() && e[i].label@ == l].rect
    } else {
        None
    }
}

pub open spec fn keys_unique(v: Seq<(String, i32, i32)>) -> bool {
    forall|i: int, j: int| 0 <= i < v.len() && 0 <= j < v.len() && i != j ==> v[i].0@ != v[j].0@
}

/// The offset stored for `l`, if any.
pub open spec fn offset_for(v: Seq<(String, i32, i32)>, l: Seq<char>) -> Option<(i32, i32)> {
    if exists|i: int| 0 <= i < v.len() && v[i].0@ == l {
        let i = choose|i: int| 0 <= i < v.len() && v[i].0@ == l;
        Some((v[i].1, v[i].2))
    } else {
        None
    }
}

/// The docking state is usable: labels are unique and each offset table has
/// one entry per label.
pub open spec fn dock_wf(d: Dock) -> bool {
    &&& labels_unique(d.windows@)
    &&& keys_unique(d.group_offsets@)
    &&& keys_unique(d.hidden_offset@)
    &&& string_views(d.owned_by_player@).no_duplicates()
}

/// A frozen group offset: where `l` sits relative to the player `p`, if `l`
/// is another member of the player's group whose rectangle is known.
pub open spec fn drag_offset_spec(e: Seq<DockEntry>, p: WindowRect, l: Seq<char>) -> Option<(i32, i32)> {
    if l != master_label() && in_group(e, master_label(), l) && rect_for(e, l) is Some {
        let r = rect_for(e, l)->0;
        Some((wrap_i32(r.x - p.x), wrap_i32(r.y - p.y)))
    } else {
        None
    }
}

proof fn lemma_rect_for(e: Seq<DockEntry>, i: int)
    requires
        labels_unique(e),
        0 <= i < e.len(),
    ensures
        rect_for(e, e[i].label@) == e[i].rect,
{
    let l = e[i].label@;
    assert(exists|k: int| 0 <= k < e.len() && e[k].label@ == l);
    let k = choose|k: int| 0 <= k < e.len() && e[k].label@ == l;
    assert(k == i);
}

proof fn lemma_offset_for(v: Seq<(String, i32, i32)>, i: int)
    requires
        keys_unique(v),
        0 <= i < v.len(),
    ensures
        offset_for(v, v[i].0@) == Some((v[i].1, v[i].2)),
{
    let l = v[i].0@;
    assert(exists|k: int| 0 <= k < v.len() && v[k].0@ == l);
    let k = choose|k: int| 0 <= k < v.len() && v[k].0@ == l;
    assert(k == i);
}

/// The frozen offsets of the first `k` windows, in registration order.
pub open spec fn collect_offsets(e: Seq<DockEntry>, p: WindowRect, k: int) -> Seq<(String, i32, i32)>
    decreases k,
{
    if k <= 0 {
        Seq::empty()
    } else {
        collect_offsets(e, p, k - 1) + match drag_offset_spec(e, p, e[k - 1].label@) {
            Some(o) => seq![(e[k - 1].label, o.0, o.1)],
            None => Seq::empty(),
        }
    }
}

proof fn lemma_collect_offsets(e: Seq<DockEntry>, p: WindowRect, k: int)
    requires
        labels_unique(e),
        0 <= k <= e.len(),
    ensures
        keys_unique(collect_offsets(e, p, k)),
        forall|l: Seq<char>| #[trigger] offset_for(collect_offsets(e, p, k), l) == if exists|i: int|
            0 <= i < k && e[i].label@ == l {
            drag_offset_spec(e, p, l)
        } else {
            None
        },
        forall|t: int| 0 <= t < collect_offsets(e, p, k).len() ==> exists|i: int|
            0 <= i < k && e[i].label@ == (#[trigger] collect_offsets(e, p, k)[t]).0@,
    decreases k,
{
    if k > 0 {
        lemma_collect_offsets(e, p, k - 1);
        let prev = collect_offsets(e, p, k - 1);
        let cur = collect_offsets(e, p, k);
        let lk = e[k - 1].label@;
        assert forall|t: int| 0 <= t < prev.len() implies prev[t].0@ != lk by {
            let i = choose|i: int| 0 <= i < k - 1 && e[i].label@ == (#[trigger] prev[t]).0@;
        }
        match drag_offset_spec(e, p, lk) {
            Some(o) => {
                assert(cur == prev.push((e[k - 1].label, o.0, o.1)));
                assert forall|t: int| 0 <= t < cur.len() implies exists|i: int|
                    0 <= i < k && e[i].label@ == (#[trigger] cur[t]).0@ by {
                    if t < prev.len() {
                        assert(cur[t] == prev[t]);
                        let i = choose|i: int| 0 <= i < k - 1 && e[i].label@ == (#[trigger] prev[t]).0@;
                    } else {
                        assert(e[k - 1].label@ == cur[t].0@);
                    }
                }
                assert forall|a: int, b: int| 0 <= a < cur.len() && 0 <= b < cur.len() && a != b
                    implies cur[a].0@ != cur[b].0@ by {
                    if a < prev.len() {
                        assert(cur[a] == prev[a]);
                    }
                    if b < prev.len() {
                        assert(cur[b] == prev[b]);
                    }
                }
                assert forall|l: Seq<char>| #[trigger] offset_for(cur, l) == if exists|i: int|
                    0 <= i < k && e[i].label@ == l {
                    drag_offset_spec(e, p, l)
                } else {
                    None
                } by {
                    if l == lk {
                        lemma_offset_for(cur, prev.len() as int);
                    } else {
                        if exists|t: int| 0 <= t < prev.len() && prev[t].0@ == l {
                            let t = choose|t: int| 0 <= t < prev.len() && prev[t].0@ == l;
                            lemma_offset_for(prev, t);
                            assert(cur[t] == prev[t]);
                            lemma_offset_for(cur, t);
                        } else {
                            assert forall|t: int| 0 <= t < cur.len() implies cur[t].0@ != l by {
                                if t < prev.len() {
                                    assert(cur[t] == prev[t]);
                                }
                            }
                        }
                        if exists|i: int| 0 <= i < k && e[i].label@ == l {
                            let i = choose|i: int| 0 <= i < k && e[i].label@ == l;
                            assert(i < k - 1);
                        }
                    }
                }
            },
            None => {
                assert(cur =~= prev);
                assert forall|t: int| 0 <= t < cur.len() implies exists|i: int|
                    0 <= i < k && e[i].label@ == (#[trigger] cur[t]).0@ by {
                    let i = choose|i: int| 0 <= i < k - 1 && e[i].label@ == (#[trigger] prev[t]).0@;
                }
                assert forall|l: Seq<char>| #[trigger] offset_for(cur, l) == if exists|i: int|
                    0 <= i < k && e[i].label@ == l {
                    drag_offset_spec(e, p, l)
                } else {
                    None
                } by {
                    if exists|i: int| 0 <= i < k && e[i].label@ == l {
                        let i = choose|i: int| 0 <= i < k && e[i].label@ == l;
                        if i == k - 1 {
                            if exists|t: int| 0 <= t < prev.len() && prev[t].0@ == l {
                                let t = choose|t: int| 0 <= t < prev.len() && prev[t].0@ == l;
                                assert(prev[t].0@ != lk);
                            }
                        }
                    }
                }
            },
        }
    }
}

/// The native handle recorded for the window labelled `l`, if any.
pub open spec fn hwnd_for(e: Seq<DockEntry>, l: Seq<char>) -> Option<isize> {
    if exists|i: int| 0 <= i < e.len() && e[i].label@ == l {
        e[choose|i: int| 0 <= i < e.len() && e[i].label@ == l].hwnd
    } else {
        None
    }
}

proof fn lemma_hwnd_for(e: Seq<DockEntry>, i: int)
    requires
        labels_unique(e),
        0 <= i < e.len(),
    ensures
        hwnd_for(e, e[i].label@) == e[i].hwnd,
{
    let l = e[i].label@;
    assert(exists|k: int| 0 <= k < e.len() && e[k].label@ == l);
    let k = choose|k: int| 0 <= k < e.len() && e[k].label@ == l;
    assert(k == i);
}

/// Follower moves for the first `k` frozen offsets.
pub open spec fn drag_targets_spec(
    e: Seq<DockEntry>,
    offs: Seq<(String, i32, i32)>,
    px: i32,
    py: i32,
    k: int,
) -> Seq<(isize, i32, i32)>
    decreases k,
{
    if k <= 0 {
        Seq::empty()
    } else {
        drag_targets_spec(e, offs, px, py, k - 1) + match hwnd_for(e, offs[k - 1].0@) {
            Some(h) => seq![(h, wrap_i32(px + offs[k - 1].1), wrap_i32(py + offs[k - 1].2))],
            None => Seq::empty(),
        }
    }
}

/// The windows after registering `label`.
pub open spec fn register_spec(e: Seq<DockEntry>, label: String, rect: Option<WindowRect>, visible: bool) -> Seq<DockEntry> {
    if exists|i: int| 0 <= i < e.len() && e[i].label@ == label@ {
        let i = choose|i: int| 0 <= i < e.len() && e[i].label@ == label@;
        e.update(
            i,
            DockEntry {
                label: e[i].label,
                rect: if rect is Some {
                    rect
                } else {
                    e[i].rect
                },
                visible,
                hwnd: e[i].hwnd,
            },
        )
    } else {
        e.push(DockEntry { label, rect, visible, hwnd: None })
    }
}

/// The windows after applying one reading per window.
pub open spec fn refresh_spec(e: Seq<DockEntry>, readings: Seq<(Option<WindowRect>, Option<bool>)>) -> Seq<DockEntry> {
    Seq::new(
        e.len(),
        |i: int|
            DockEntry {
                label: e[i].label,
                rect: if readings[i].0 is Some {
                    readings[i].0
                } else {
                    e[i].rect
                },
                visible: match readings[i].1 {
                    Some(v) => v,
                    None => e[i].visible,
                },
                hwnd: e[i].hwnd,
            },
    )
}

/// A refresh takes every reading that succeeded: a window whose rectangle or
/// visibility was read has exactly that rectangle or visibility afterwards,
/// and keeps the old one where the reading failed; labels and handles stay.
pub proof fn law_refresh_takes_readings(e: Seq<DockEntry>, readings: Seq<(Option<WindowRect>, Option<bool>)>)
    requires
        readings.len() == e.len(),
    ensures
        refresh_spec(e, readings).len() == e.len(),
        forall|i: int| 0 <= i < e.len() ==> {
            let w = #[trigger] refresh_spec(e, readings)[i];
            &&& w.label == e[i].label
            &&& w.hwnd == e[i].hwnd
            &&& (readings[i].0 matches Some(r) ==> w.rect == Some(r))
            &&& (readings[i].0 is None ==> w.rect == e[i].rect)
            &&& (readings[i].1 matches Some(v) ==> w.visible == v)
            &&& (readings[i].1 is None ==> w.visible == e[i].visible)
        },
{
}

/// Registering a window records the rectangle and visibility it was given
/// (a rectangle that could not be read keeps the last one recorded): a new
/// label is added at the end, a known one is updated in place.
pub proof fn law_register_records(e: Seq<DockEntry>, label: String, rect: Option<WindowRect>, visible: bool)
    requires
        labels_unique(e),
    ensures
        ({
            let after = register_spec(e, label, rect, visible);
            &&& forall|i: int| 0 <= i < e.len() && e[i].label@ == label@ ==> {
                &&& after.len() == e.len()
                &&& (#[trigger] after[i]).label == e[i].label
                &&& after[i].visible == visible
                &&& after[i].hwnd == e[i].hwnd
                &&& (rect matches Some(r) ==> after[i].rect == Some(r))
                &&& (rect is None ==> after[i].rect == e[i].rect)
                &&& forall|j: int| 0 <= j < e.len() && j != i ==> after[j] == e[j]
            }
            &&& (forall|i: int| 0 <= i < e.len() ==> e[i].label@ != label@) ==> after == e.push(
                DockEntry { label, rect, visible, hwnd: None },
            )
        }),
{
    let after = register_spec(e, label, rect, visible);
    assert forall|i: int| 0 <= i < e.len() && e[i].label@ == label@ implies {
        &&& after.len() == e.len()
        &&& (#[trigger] after[i]).label == e[i].label
        &&& after[i].visible == visible
        &&& after[i].hwnd == e[i].hwnd
        &&& (rect matches Some(r) ==> after[i].rect == Some(r))
        &&& (rect is None ==> after[i].rect == e[i].rect)
        &&& forall|j: int| 0 <= j < e.len() && j != i ==> after[j] == e[j]
    } by {
        let k = choose|k: int| 0 <= k < e.len() && e[k].label@ == label@;
        assert(k == i);
    }
}

/// Whether the window labelled `l` is visible (unknown windows are not).
pub open spec fn visible_for(e: Seq<DockEntry>, l: Seq<char>) -> bool {
    if exists|i: int| 0 <= i < e.len() && e[i].label@ == l {
        e[choose|i: int| 0 <= i < e.len() && e[i].label@ == l].visible
    } else {
        false
    }
}

proof fn lemma_visible_for(e: Seq<DockEntry>, i: int)
    requires
        labels_unique(e),
        0 <= i < e.len(),
    ensures
        visible_for(e, e[i].label@) == e[i].visible,
{
    let l = e[i].label@;
    assert(exists|k: int| 0 <= k < e.len() && e[k].label@ == l);
    let k = choose|k: int| 0 <= k < e.len() && e[k].label@ == l;
    assert(k == i);
}

/// `l` is a registered window other than the player, with a native handle.
pub open spec fn is_follower(e: Seq<DockEntry>, l: Seq<char>) -> bool {
    l != master_label() && exists|i: int|
        0 <= i < e.len() && e[i].label@ == l && e[i].label@ != master_label() && e[i].hwnd is Some
}

/// Whether the player should own follower `l`: it is in the player's group
/// and visible.
pub open spec fn owned_after(e: Seq<DockEntry>, l: Seq<char>) -> bool {
    in_group(e, master_label(), l) && visible_for(e, l)
}

/// The ownership changes for the first `k` windows, given the player's handle
/// `ph` and the labels it owned before.
pub open spec fn owner_calls(e: Seq<DockEntry>, owned: Seq<Seq<char>>, ph: isize, k: int) -> Seq<(isize, isize)>
    decreases k,
{
    if k <= 0 {
        Seq::empty()
    } else {
        let d = e[k - 1];
        owner_calls(e, owned, ph, k - 1) + if d.label@ != master_label() && d.hwnd is Some {
            let now = in_group(e, master_label(), d.label@) && d.visible;
            let before = owned.contains(d.label@);
            if now && !before {
                seq![(d.hwnd->0, ph)]
            } else if !now && before {
                seq![(d.hwnd->0, 0isize)]
            } else {
                Seq::empty()
            }
        } else {
            Seq::empty()
        }
    }
}

/// A native-ownership call `c` is due to one of the first `k` windows: a
/// follower with that handle that has just joined the player's visible group
/// (owner: the player) or just left it (owner 0).
pub open spec fn call_justified(e: Seq<DockEntry>, owned: Seq<Seq<char>>, ph: isize, k: int, c: (isize, isize)) -> bool {
    exists|i: int|
        #![trigger e[i]]
        0 <= i < k && e[i].hwnd == Some(c.0) && e[i].label@ != master_label() && ((c.1 == ph && in_group(
            e,
            master_label(),
            e[i].label@,
        ) && e[i].visible && !owned.contains(e[i].label@)) || (c.1 == 0 && !(in_group(e, master_label(), e[i].label@)
            && e[i].visible) && owned.contains(e[i].label@)))
}

/// Native ownership follows the group: every call either hands a follower
/// that has just joined the player's visible group to the player, or
/// releases (owner 0) one that has just left it; and every follower with a
/// handle whose membership changed gets its call.
pub proof fn law_owner_calls_follow_group(e: Seq<DockEntry>, owned: Seq<Seq<char>>, ph: isize, k: int)
    requires
        0 <= k <= e.len(),
    ensures
        forall|t: int| 0 <= t < owner_calls(e, owned, ph, k).len() ==> call_justified(e, owned, ph, k, #[trigger] owner_calls(e, owned, ph, k)[t]),
        forall|i: int| 0 <= i < k && e[i].label@ != master_label() && (#[trigger] e[i]).hwnd is Some ==> {
            let now = in_group(e, master_label(), e[i].label@) && e[i].visible;
            let before = owned.contains(e[i].label@);
            &&& (now && !before) ==> owner_calls(e, owned, ph, k).contains((e[i].hwnd->0, ph))
            &&& (!now && before) ==> owner_calls(e, owned, ph, k).contains((e[i].hwnd->0, 0isize))
        },
    decreases k,
{
    if k > 0 {
        law_owner_calls_follow_group(e, owned, ph, k - 1);
        let prev = owner_calls(e, owned, ph, k - 1);
        let cur = owner_calls(e, owned, ph, k);
        let d = e[k - 1];
        let extra = cur.subrange(prev.len() as int, cur.len() as int);
        assert(cur =~= prev + extra);
        let now_k = in_group(e, master_label(), d.label@) && d.visible;
        let before_k = owned.contains(d.label@);
        assert(extra.len() <= 1);
        assert(extra.len() == 1 ==> d.label@ != master_label() && d.hwnd is Some && ((now_k && !before_k && extra[0] == (d.hwnd->0, ph)) || (!now_k && before_k && extra[0] == (d.hwnd->0, 0isize))));
        assert((d.label@ != master_label() && d.hwnd is Some && now_k != before_k) ==> extra.len() == 1);
        assert forall|t: int| 0 <= t < cur.len() implies call_justified(e, owned, ph, k, #[trigger] cur[t]) by {
            if t < prev.len() {
                assert(cur[t] == prev[t]);
                assert(call_justified(e, owned, ph, k - 1, prev[t]));
                let i = choose|i: int|
                    #![trigger e[i]]
                    0 <= i < k - 1 && e[i].hwnd == Some(prev[t].0) && e[i].label@ != master_label() && ((prev[t].1 == ph
                        && in_group(e, master_label(), e[i].label@) && e[i].visible && !owned.contains(e[i].label@)) || (
                    prev[t].1 == 0 && !(in_group(e, master_label(), e[i].label@) && e[i].visible) && owned.contains(
                        e[i].label@,
                    )));
                assert(e[i].hwnd == Some(cur[t].0));
            } else {
                assert(cur[t] == extra[t - prev.len()]);
                assert(e[k - 1].hwnd == Some(cur[t].0));
            }
        }
        assert forall|i: int| 0 <= i < k && e[i].label@ != master_label() && (#[trigger] e[i]).hwnd is Some implies {
            let now = in_group(e, master_label(), e[i].label@) && e[i].visible;
            let before = owned.contains(e[i].label@);
            &&& (now && !before) ==> cur.contains((e[i].hwnd->0, ph))
            &&& (!now && before) ==> cur.contains((e[i].hwnd->0, 0isize))
        } by {
            if i < k - 1 {
                let now = in_group(e, master_label(), e[i].label@) && e[i].visible;
                let before = owned.contains(e[i].label@);
                if now && !before {
                    let t = choose|t: int| 0 <= t < prev.len() && prev[t] == (e[i].hwnd->0, ph);
                    assert(cur[t] == prev[t]);
                }
                if !now && before {
                    let t = choose|t: int| 0 <= t < prev.len() && prev[t] == (e[i].hwnd->0, 0isize);
                    assert(cur[t] == prev[t]);
                }
            } else {
                if extra.len() == 1 {
                    assert(cur[prev.len() as int] == extra[0]);
                }
            }
        }
    }
}

/// The offset from the player remembered when the window labelled `l` is
/// hidden while its rectangle is `live`: kept only for a follower docked in
/// the player's group whose rectangle and the player's are both known.
pub open spec fn hide_offset(e: Seq<DockEntry>, l: Seq<char>, live: Option<WindowRect>) -> Option<(i32, i32)> {
    if l != master_label() && in_group(e, master_label(), l) && live is Some && rect_for(e, master_label()) is Some {
        let w = live->0;
        let p = rect_for(e, master_label())->0;
        Some((wrap_i32(w.x - p.x), wrap_i32(w.y - p.y)))
    } else {
        None
    }
}

/// Where a shown window goes to re-dock: its remembered offset from the
/// player's rectangle, when both are known.
pub open spec fn redock_spec(offset: Option<(i32, i32)>, player: Option<WindowRect>) -> Option<(i32, i32)> {
    match (offset, player) {
        (Some(o), Some(p)) => Some((wrap_i32(p.x + o.0), wrap_i32(p.y + o.1))),
        _ => None,
    }
}

/// The windows after marking the one labelled `l` visible or hidden.
pub open spec fn visibility_spec(e: Seq<DockEntry>, l: Seq<char>, visible: bool) -> Seq<DockEntry> {
    if exists|i: int| 0 <= i < e.len() && e[i].label@ == l {
        let i = choose|i: int| 0 <= i < e.len() && e[i].label@ == l;
        e.update(i, DockEntry { visible, ..e[i] })
    } else {
        e
    }
}

/// Remove the offset stored for `l`, returning it.
fn take_offset(v: &mut Vec<(String, i32, i32)>, l: &String) -> (r: Option<(i32, i32)>)
    requires
        keys_unique(old(v)@),
    ensures
        keys_unique(final(v)@),
        r == offset_for(old(v)@, l@),
        forall|x: Seq<char>| #[trigger] offset_for(final(v)@, x) == if x == l@ {
            None
        } else {
            offset_for(old(v)@, x)
        },
{
    let ghost v0 = v@;
    let mut i: usize = 0;
    while i < v.len()
        invariant
            i <= v@.len(),
            v@ == v0,
            v0 == old(v)@,
            keys_unique(v0),
            forall|k: int| 0 <= k < i ==> v0[k].0@ != l@,
        decreases v@.len() - i,
    {
        if v[i].0 == *l {
            let (_, dx, dy) = v.remove(i);
            proof {
                assert(v@ =~= v0.remove(i as int));
                lemma_offset_for(v0, i as int);
                assert forall|a: int, b: int| 0 <= a < v@.len() && 0 <= b < v@.len() && a != b
                    implies v@[a].0@ != v@[b].0@ by {
                    let a0 = if a < i { a } else { a + 1 };
                    let b0 = if b < i { b } else { b + 1 };
                    assert(v@[a] == v0[a0] && v@[b] == v0[b0]);
                }
                assert forall|x: Seq<char>| #[trigger] offset_for(v@, x) == if x == l@ {
                    None
                } else {
                    offset_for(v0, x)
                } by {
                    if exists|k: int| 0 <= k < v0.len() && v0[k].0@ == x {
                        let k = choose|k: int| 0 <= k < v0.len() && v0[k].0@ == x;
                        lemma_offset_for(v0, k);
                        if k < i {
                            assert(v@[k] == v0[k]);
                            lemma_offset_for(v@, k);
                        } else if k > i {
                            assert(v@[k - 1] == v0[k]);
                            lemma_offset_for(v@, k - 1);
                        } else {
                            assert forall|t: int| 0 <= t < v@.len() implies v@[t].0@ != x by {
                                let t0 = if t < i { t } else { t + 1 };
                                assert(v@[t] == v0[t0]);
                            }
                        }
                    } else {
                        assert forall|t: int| 0 <= t < v@.len() implies v@[t].0@ != x by {
                            let t0 = if t < i { t } else { t + 1 };
                            assert(v@[t] == v0[t0]);
                        }
                    }
                }
            }
            return Some((dx, dy));
        }
        i += 1;
    }
    None
}

/// Store (or replace) the offset for `l`.
fn put_offset(v: &mut Vec<(String, i32, i32)>, l: &String, dx: i32, dy: i32)
    requires
        keys_unique(old(v)@),
    ensures
        keys_unique(final(v)@),
        forall|x: Seq<char>| #[trigger] offset_for(final(v)@, x) == if x == l@ {
            Some((dx, dy))
        } else {
            offset_for(old(v)@, x)
        },
{
    let _ = take_offset(v, l);
    let ghost v1 = v@;
    v.push((l.clone(), dx, dy));
    proof {
        assert forall|k: int| 0 <= k < v1.len() implies v1[k].0@ != l@ by {
            if v1[k].0@ == l@ {
                lemma_offset_for(v1, k);
            }
        }
        assert forall|a: int, b: int| 0 <= a < v@.len() && 0 <= b < v@.len() && a != b
            implies v@[a].0@ != v@[b].0@ by {
            if a < v1.len() {
                assert(v@[a] == v1[a]);
            }
            if b < v1.len() {
                assert(v@[b] == v1[b]);
            }
        }
        lemma_offset_for(v@, v1.len() as int);
        assert forall|x: Seq<char>| x != l@ implies #[trigger] offset_for(v@, x) == offset_for(v1, x) by {
            if exists|k: int| 0 <= k < v1.len() && v1[k].0@ == x {
                let k = choose|k: int| 0 <= k < v1.len() && v1[k].0@ == x;
                lemma_offset_for(v1, k);
                assert(v@[k] == v1[k]);
                lemma_offset_for(v@, k);
            } else {
                assert forall|t: int| 0 <= t < v@.len() implies v@[t].0@ != x by {
                    if t < v1.len() {
                        assert(v@[t] == v1[t]);
                    }
                }
            }
        }
    }
}

impl Dock {
    /// An empty docking manager.
    pub fn new() -> (d: Dock)
        ensures
            dock_wf(d),
            d.windows@.len() == 0,
            d.dragging is None,
            d.group_offsets@.len() == 0,
            d.hidden_offset@.len() == 0,
            d.owned_by_player@.len() == 0,
    {
        let d = Dock {
            windows: Vec::new(),
            dragging: None,
            group_offsets: Vec::new(),
            hidden_offset: Vec::new(),
            owned_by_player: Vec::new(),
        };
        assert(string_views(d.owned_by_player@) =~= Seq::<Seq<char>>::empty());
        d
    }

    /// Freeze the player's connected group so it can be dragged as one rigid
    /// unit: record each other member's offset from the player, and mark the
    /// player as the window being dragged.
    pub fn on_master_drag_started(&mut self)
        requires
            dock_wf(*old(self)),
        ensures
            dock_wf(*final(self)),
            final(self).windows@ == old(self).windows@,
            final(self).hidden_offset@ == old(self).hidden_offset@,
            final(self).owned_by_player@ == old(self).owned_by_player@,
            final(self).dragging matches Some(d) && d@ == master_label(),
            forall|l: Seq<char>|
                #[trigger] offset_for(final(self).group_offsets@, l) == match rect_for(
                    old(self).windows@,
                    master_label(),
                ) {
                    Some(p) => drag_offset_spec(old(self).windows@, p, l),
                    None => None,
                },
    {
        let m = master();
        let group = connected_group(self, &m);
        let mut offsets: Vec<(String, i32, i32)> = Vec::new();
        let pi = find_window(&self.windows, &m);
        let ghost e = self.windows@;
        proof {
            if let Some(k) = pi {
                lemma_rect_for(e, k as int);
            }
        }
        let player = match pi {
            Some(k) => self.windows[k].rect,
            None => None,
        };
        if let Some(p) = player {
            let n = self.windows.len();
            let mut i: usize = 0;
            while i < n
                invariant
                    i <= n == self.windows.len(),
                    e == self.windows@,
                    m@ == master_label(),
                    labels_unique(e),
                    rect_for(e, master_label()) == Some(p),
                    pi matches Some(k) && k < n && e[k as int].rect == Some(p),
                    forall|l: Seq<char>| #![trigger string_views(group@).contains(l)]
                        string_views(group@).contains(l) <==> in_group(e, master_label(), l),
                    offsets@ == collect_offsets(e, p, i as int),
                decreases n - i,
            {
                proof {
                    lemma_rect_for(e, i as int);
                }
                let ghost before = offsets@;
                let ghost li = e[i as int].label@;
                let label = &self.windows[i].label;
                let is_master = *label == m;
                let member = !is_master && contains_string(&group, label);
                if member && self.windows[i].rect.is_some() {
                    let r = self.windows[i].rect.unwrap();
                    proof {
                        assert(string_views(group@).contains(li));
                        assert(in_group(e, master_label(), li));
                        assert(drag_offset_spec(e, p, li) == Some((wrap_i32(r.x - p.x), wrap_i32(r.y - p.y))));
                    }
                    let dx = wrapping_sub_i32(r.x, p.x);
                    let dy = wrapping_sub_i32(r.y, p.y);
                    offsets.push((label.clone(), dx, dy));
                    assert(offsets@ =~= collect_offsets(e, p, i + 1));
                } else {
                    proof {
                        if !is_master && e[i as int].rect is Some {
                            assert(!string_views(group@).contains(li));
                        }
                    }
                    assert(drag_offset_spec(e, p, li) is None);
                    assert(offsets@ =~= collect_offsets(e, p, i + 1));
                }
                i += 1;
            }
            proof {
                lemma_collect_offsets(e, p, n as int);
                assert forall|l: Seq<char>| #[trigger] offset_for(offsets@, l) == drag_offset_spec(e, p, l) by {
                    if !(exists|mm: int| 0 <= mm < n && e[mm].label@ == l) {
                        assert(rect_for(e, l) is None);
                    }
                }
            }
        } else {
            assert(offsets@ =~= Seq::<(String, i32, i32)>::empty());
        }
        self.group_offsets = offsets;
        self.dragging = Some(m);
    }

    /// A window was dropped: forget the drag and the frozen offsets.
    pub fn on_drag_ended(&mut self)
        requires
            dock_wf(*old(self)),
        ensures
            dock_wf(*final(self)),
            final(self).windows@ == old(self).windows@,
            final(self).hidden_offset@ == old(self).hidden_offset@,
            final(self).owned_by_player@ == old(self).owned_by_player@,
            final(self).dragging is None,
            final(self).group_offsets@.len() == 0,
    {
        self.dragging = None;
        self.group_offsets = Vec::new();
    }

    /// A follower started being dragged: remember which one.
    pub fn on_follower_drag_started(&mut self, label: String)
        requires
            dock_wf(*old(self)),
        ensures
            dock_wf(*final(self)),
            final(self).windows@ == old(self).windows@,
            final(self).group_offsets@ == old(self).group_offsets@,
            final(self).hidden_offset@ == old(self).hidden_offset@,
            final(self).owned_by_player@ == old(self).owned_by_player@,
            final(self).dragging == Some(label),
    {
        self.dragging = Some(label);
    }

    /// Where each frozen follower goes when the player moves to `(px, py)`
    /// during its own drag: `(native handle, x, y)` for every member with a
    /// recorded handle, in the order the offsets were frozen. Nothing moves
    /// unless the player is the window being dragged.
    pub fn drag_targets(&self, px: i32, py: i32) -> (r: Vec<(isize, i32, i32)>)
        requires
            dock_wf(*self),
        ensures
            r@ == (if self.dragging matches Some(d) && d@ == master_label() {
                drag_targets_spec(self.windows@, self.group_offsets@, px, py, self.group_offsets@.len() as int)
            } else {
                Seq::empty()
            }),
    {
        let mut r: Vec<(isize, i32, i32)> = Vec::new();
        let m = master();
        let dragging_master = match &self.dragging {
            Some(d) => *d == m,
            None => false,
        };
        if !dragging_master {
            return r;
        }
        let mut k: usize = 0;
        while k < self.group_offsets.len()
            invariant
                k <= self.group_offsets@.len(),
                dock_wf(*self),
                r@ == drag_targets_spec(self.windows@, self.group_offsets@, px, py, k as int),
            decreases self.group_offsets@.len() - k,
        {
            let (label, dx, dy) = &self.group_offsets[k];
            let wi = find_window(&self.windows, label);
            proof {
                if let Some(w) = wi {
                    lemma_hwnd_for(self.windows@, w as int);
                } else {
                    assert(!(exists|i: int| 0 <= i < self.windows@.len() && self.windows@[i].label@ == label@));
                }
            }
            if let Some(w) = wi {
                if let Some(h) = self.windows[w].hwnd {
                    r.push((h, wrapping_add_i32(px, *dx), wrapping_add_i32(py, *dy)));
                }
            }
            assert(r@ =~= drag_targets_spec(self.windows@, self.group_offsets@, px, py, k + 1));
            k += 1;
        }
        r
    }

    /// Record a window (or refresh one already known). A rectangle that could
    /// not be read keeps the last one recorded.
    pub fn register(&mut self, label: String, rect: Option<WindowRect>, visible: bool)
        requires
            dock_wf(*old(self)),
        ensures
            dock_wf(*final(self)),
            final(self).windows@ == register_spec(old(self).windows@, label, rect, visible),
            final(self).dragging == old(self).dragging,
            final(self).group_offsets@ == old(self).group_offsets@,
            final(self).hidden_offset@ == old(self).hidden_offset@,
            final(self).owned_by_player@ == old(self).owned_by_player@,
    {
        let ghost e = self.windows@;
        match find_window(&self.windows, &label) {
            Some(i) => {
                let old_rect = self.windows[i].rect;
                let hwnd = self.windows[i].hwnd;
                let l = self.windows[i].label.clone();
                let entry = DockEntry {
                    label: l,
                    rect: if rect.is_some() { rect } else { old_rect },
                    visible,
                    hwnd,
                };
                self.windows.set(i, entry);
                proof {
                    assert(exists|k: int| 0 <= k < e.len() && e[k].label@ == label@);
                    let k = choose|k: int| 0 <= k < e.len() && e[k].label@ == label@;
                    assert(k == i);
                    assert(self.windows@ =~= register_spec(e, label, rect, visible));
                    assert(labels_unique(self.windows@)) by {
                        assert forall|a: int, b: int|
                            0 <= a < self.windows@.len() && 0 <= b < self.windows@.len() && a != b
                                implies self.windows@[a].label@ != self.windows@[b].label@ by {
                            assert(self.windows@[a].label@ == e[a].label@);
                            assert(self.windows@[b].label@ == e[b].label@);
                        }
                    }
                }
            },
            None => {
                self.windows.push(DockEntry { label, rect, visible, hwnd: None });
                proof {
                    assert(self.windows@ =~= register_spec(e, label, rect, visible));
                    assert(labels_unique(self.windows@)) by {
                        assert forall|a: int, b: int|
                            0 <= a < self.windows@.len() && 0 <= b < self.windows@.len() && a != b
                                implies self.windows@[a].label@ != self.windows@[b].label@ by {
                            if a < e.len() {
                                assert(self.windows@[a] == e[a]);
                            }
                            if b < e.len() {
                                assert(self.windows@[b] == e[b]);
                            }
                        }
                    }
                }
            },
        }
    }

    /// Record the native handle of the window labelled `label`.
    pub fn set_hwnd(&mut self, label: &String, hwnd: isize)
        requires
            dock_wf(*old(self)),
        ensures
            dock_wf(*final(self)),
            final(self).windows@ == (if exists|i: int| 0 <= i < old(self).windows@.len() && old(self).windows@[i].label@ == label@ {
                let i = choose|i: int| 0 <= i < old(self).windows@.len() && old(self).windows@[i].label@ == label@;
                old(self).windows@.update(i, DockEntry { hwnd: Some(hwnd), ..old(self).windows@[i] })
            } else {
                old(self).windows@
            }),
            final(self).dragging == old(self).dragging,
            final(self).group_offsets@ == old(self).group_offsets@,
            final(self).hidden_offset@ == old(self).hidden_offset@,
            final(self).owned_by_player@ == old(self).owned_by_player@,
    {
        let ghost e = self.windows@;
        if let Some(i) = find_window(&self.windows, label) {
            let d = &self.windows[i];
            let entry = DockEntry { label: d.label.clone(), rect: d.rect, visible: d.visible, hwnd: Some(hwnd) };
            self.windows.set(i, entry);
            proof {
                let k = choose|k: int| 0 <= k < e.len() && e[k].label@ == label@;
                assert(k == i);
                assert(self.windows@ =~= e.update(i as int, DockEntry { hwnd: Some(hwnd), ..e[i as int] }));
                assert forall|a: int, b: int|
                    0 <= a < self.windows@.len() && 0 <= b < self.windows@.len() && a != b
                        implies self.windows@[a].label@ != self.windows@[b].label@ by {
                    assert(self.windows@[a].label@ == e[a].label@);
                    assert(self.windows@[b].label@ == e[b].label@);
                }
            }
        }
    }


    /// Apply fresh readings of every window's rectangle and visibility (in
    /// registration order); a reading that failed leaves the old value.
    pub fn refresh(&mut self, readings: &Vec<(Option<WindowRect>, Option<bool>)>)
        requires
            dock_wf(*old(self)),
            readings@.len() == old(self).windows@.len(),
        ensures
            dock_wf(*final(self)),
            final(self).windows@ == refresh_spec(old(self).windows@, readings@),
            final(self).dragging == old(self).dragging,
            final(self).group_offsets@ == old(self).group_offsets@,
            final(self).hidden_offset@ == old(self).hidden_offset@,
            final(self).owned_by_player@ == old(self).owned_by_player@,
    {
        let ghost e = self.windows@;
        let ghost d0 = self.dragging;
        let ghost g0 = self.group_offsets@;
        let ghost h0 = self.hidden_offset@;
        let ghost o0 = self.owned_by_player@;
        let mut i: usize = 0;
        while i < readings.len()
            invariant
                i <= readings@.len() == e.len() == self.windows@.len(),
                self.dragging == d0,
                self.group_offsets@ == g0,
                self.hidden_offset@ == h0,
                self.owned_by_player@ == o0,
                forall|k: int| 0 <= k < i ==> self.windows@[k] == refresh_spec(e, readings@)[k],
                forall|k: int| i <= k < e.len() ==> self.windows@[k] == e[k],
            decreases readings@.len() - i,
        {
            let d = &self.windows[i];
            let (rect, vis) = readings[i];
            let entry = DockEntry {
                label: d.label.clone(),
                rect: if rect.is_some() { rect } else { d.rect },
                visible: match vis {
                    Some(v) => v,
                    None => d.visible,
                },
                hwnd: d.hwnd,
            };
            self.windows.set(i, entry);
            i += 1;
        }
        proof {
            assert(self.windows@ =~= refresh_spec(e, readings@));
            assert forall|a: int, b: int|
                0 <= a < self.windows@.len() && 0 <= b < self.windows@.len() && a != b
                    implies self.windows@[a].label@ != self.windows@[b].label@ by {
                assert(self.windows@[a].label@ == e[a].label@);
                assert(self.windows@[b].label@ == e[b].label@);
            }
        }
    }

    /// Make every window in the player's group owned by the player (so the
    /// group minimizes and restores together) and release any window that has
    /// left it. Returns the ownership changes to apply, as `(follower handle,
    /// new owner handle)` with 0 for "no owner", in registration order.
    pub fn update_owners(&mut self) -> (calls: Vec<(isize, isize)>)
        requires
            dock_wf(*old(self)),
        ensures
            dock_wf(*final(self)),
            final(self).windows@ == old(self).windows@,
            final(self).dragging == old(self).dragging,
            final(self).group_offsets@ == old(self).group_offsets@,
            final(self).hidden_offset@ == old(self).hidden_offset@,
            match hwnd_for(old(self).windows@, master_label()) {
                None => {
                    &&& calls@.len() == 0
                    &&& final(self).owned_by_player@ == old(self).owned_by_player@
                },
                Some(ph) => {
                    &&& calls@ == owner_calls(
                        old(self).windows@,
                        string_views(old(self).owned_by_player@),
                        ph,
                        old(self).windows@.len() as int,
                    )
                    &&& forall|l: Seq<char>|
                        #![trigger string_views(final(self).owned_by_player@).contains(l)]
                        string_views(final(self).owned_by_player@).contains(l) == if is_follower(
                            old(self).windows@,
                            l,
                        ) {
                            owned_after(old(self).windows@, l)
                        } else {
                            string_views(old(self).owned_by_player@).contains(l)
                        }
                },
            },
    {
        let ghost e = self.windows@;
        let ghost owned0 = string_views(self.owned_by_player@);
        let m = master();
        let mi = find_window(&self.windows, &m);
        proof {
            if let Some(k) = mi {
                lemma_hwnd_for(e, k as int);
            }
        }
        let ph = match mi {
            Some(k) => match self.windows[k].hwnd {
                Some(h) => h,
                None => {
                    return Vec::new();
                },
            },
            None => {
                return Vec::new();
            },
        };
        let group = connected_group(self, &m);
        let n = self.windows.len();
        let mut calls: Vec<(isize, isize)> = Vec::new();
        let mut now_owned: Vec<String> = Vec::new();
        let mut i: usize = 0;
        while i < n
            invariant
                i <= n == e.len(),
                e == self.windows@,
                m@ == master_label(),
                labels_unique(e),
                owned0 == string_views(self.owned_by_player@),
                forall|l: Seq<char>| #![trigger string_views(group@).contains(l)]
                    string_views(group@).contains(l) <==> in_group(e, master_label(), l),
                calls@ == owner_calls(e, owned0, ph, i as int),
                string_views(now_owned@).no_duplicates(),
                forall|l: Seq<char>| #![trigger string_views(now_owned@).contains(l)]
                    string_views(now_owned@).contains(l) <==> exists|k: int|
                        0 <= k < i && e[k].label@ == l && is_follower(e, l) && owned_after(e, l),
            decreases n - i,
        {
            let d = &self.windows[i];
            let ghost li = d.label@;
            proof {
                lemma_hwnd_for(e, i as int);
            }
            let is_master = d.label == m;
            let ghost before_calls = calls@;
            let ghost before_owned = string_views(now_owned@);
            if !is_master && d.hwnd.is_some() {
                let h = d.hwnd.unwrap();
                let in_g = contains_string(&group, &d.label) && d.visible;
                let owned = contains_string(&self.owned_by_player, &d.label);
                proof {
                    assert(is_follower(e, li));
                    if string_views(group@).contains(li) {
                        assert(in_group(e, master_label(), li));
                    }
                    if in_group(e, master_label(), li) {
                        assert(string_views(group@).contains(li));
                    }
                    lemma_visible_for(e, i as int);
                    assert(in_g == owned_after(e, li));
                }
                if in_g && !owned {
                    calls.push((h, ph));
                } else if !in_g && owned {
                    calls.push((h, 0));
                }
                if in_g {
                    now_owned.push(d.label.clone());
                }
                proof {
                    assert(calls@ =~= owner_calls(e, owned0, ph, i + 1));
                }
            } else {
                proof {
                    assert(calls@ =~= owner_calls(e, owned0, ph, i + 1));
                    if is_master {
                        assert(!is_follower(e, li));
                    } else {
                        assert(!is_follower(e, li));
                    }
                }
            }
            proof {
                let after = string_views(now_owned@);
                assert forall|l: Seq<char>| #![trigger after.contains(l)]
                    after.contains(l) <==> exists|k: int|
                        0 <= k < i + 1 && e[k].label@ == l && is_follower(e, l) && owned_after(e, l) by {
                    if after.contains(l) {
                        let t = choose|t: int| 0 <= t < after.len() && after[t] == l;
                        if t < before_owned.len() {
                            assert(before_owned[t] == l);
                            assert(before_owned.contains(l));
                        } else {
                            assert(l == li);
                        }
                    }
                    if exists|k: int| 0 <= k < i + 1 && e[k].label@ == l && is_follower(e, l) && owned_after(e, l) {
                        let k = choose|k: int| 0 <= k < i + 1 && e[k].label@ == l && is_follower(e, l) && owned_after(e, l);
                        if k < i {
                            assert(before_owned.contains(l));
                            let t = choose|t: int| 0 <= t < before_owned.len() && before_owned[t] == l;
                            assert(after[t] == l);
                        } else {
                            assert(after[after.len() - 1] == l);
                        }
                    }
                }
                assert forall|a: int, b: int| 0 <= a < after.len() && 0 <= b < after.len() && a != b
                    implies after[a] != after[b] by {
                    if after.len() > before_owned.len() && (a == before_owned.len() || b == before_owned.len()) {
                        let o = if a == before_owned.len() { b } else { a };
                        assert(after[o] == before_owned[o]);
                        assert(before_owned.contains(before_owned[o]));
                        let k = choose|k: int| 0 <= k < i && e[k].label@ == before_owned[o] && is_follower(e, before_owned[o]) && owned_after(e, before_owned[o]);
                        assert(k != i);
                    } else {
                        assert(after[a] == before_owned[a]);
                        assert(after[b] == before_owned[b]);
                    }
                }
            }
            i += 1;
        }
        let ghost followers_part = string_views(now_owned@);
        let mut j: usize = 0;
        while j < self.owned_by_player.len()
            invariant
                j <= self.owned_by_player@.len(),
                e == self.windows@,
                owned0 == string_views(self.owned_by_player@),
                owned0.no_duplicates(),
                labels_unique(e),
                string_views(now_owned@).no_duplicates(),
                forall|l: Seq<char>| #![trigger string_views(now_owned@).contains(l)]
                    string_views(now_owned@).contains(l) <==> (followers_part.contains(l)
                        || exists|k: int| 0 <= k < j && owned0[k] == l && !is_follower(e, l)),
                forall|l: Seq<char>| followers_part.contains(l) ==> is_follower(e, l),
            decreases self.owned_by_player@.len() - j,
        {
            let l = &self.owned_by_player[j];
            let ghost lv = l@;
            let fol = self.is_registered_follower(l);
            if !fol {
                let ghost before = string_views(now_owned@);
                now_owned.push(l.clone());
                proof {
                    let after = string_views(now_owned@);
                    assert(after =~= before.push(lv));
                    assert forall|x: Seq<char>| #![trigger after.contains(x)]
                        after.contains(x) <==> (followers_part.contains(x)
                            || exists|k: int| 0 <= k < j + 1 && owned0[k] == x && !is_follower(e, x)) by {
                        if after.contains(x) {
                            let t = choose|t: int| 0 <= t < after.len() && after[t] == x;
                            if t < before.len() {
                                assert(before[t] == x);
                                assert(before.contains(x));
                            } else {
                                assert(owned0[j as int] == x);
                            }
                        }
                        if exists|k: int| 0 <= k < j + 1 && owned0[k] == x && !is_follower(e, x) {
                            let k = choose|k: int| 0 <= k < j + 1 && owned0[k] == x && !is_follower(e, x);
                            if k == j {
                                assert(after[after.len() - 1] == x);
                            } else {
                                assert(before.contains(x));
                                let t = choose|t: int| 0 <= t < before.len() && before[t] == x;
                                assert(after[t] == x);
                            }
                        }
                        if followers_part.contains(x) {
                            assert(before.contains(x));
                            let t = choose|t: int| 0 <= t < before.len() && before[t] == x;
                            assert(after[t] == x);
                        }
                    }
                    assert forall|a: int, b: int| 0 <= a < after.len() && 0 <= b < after.len() && a != b
                        implies after[a] != after[b] by {
                        if a == before.len() || b == before.len() {
                            let o = if a == before.len() { b } else { a };
                            assert(after[o] == before[o]);
                            assert(before.contains(before[o]));
                            if followers_part.contains(before[o]) {
                            } else {
                                let k = choose|k: int| 0 <= k < j && owned0[k] == before[o] && !is_follower(e, before[o]);
                                assert(owned0[k] == owned0[j as int] ==> k == j);
                            }
                        } else {
                            assert(after[a] == before[a]);
                            assert(after[b] == before[b]);
                        }
                    }
                }
            } else {
                proof {
                    let after = string_views(now_owned@);
                    assert forall|x: Seq<char>| #![trigger after.contains(x)]
                        after.contains(x) <==> (followers_part.contains(x)
                            || exists|k: int| 0 <= k < j + 1 && owned0[k] == x && !is_follower(e, x)) by {
                        if exists|k: int| 0 <= k < j + 1 && owned0[k] == x && !is_follower(e, x) {
                            let k = choose|k: int| 0 <= k < j + 1 && owned0[k] == x && !is_follower(e, x);
                            assert(k != j);
                        }
                    }
                }
            }
            j += 1;
        }
        proof {
            let fin = string_views(now_owned@);
            assert forall|l: Seq<char>| #![trigger fin.contains(l)]
                fin.contains(l) == if is_follower(e, l) {
                    owned_after(e, l)
                } else {
                    owned0.contains(l)
                } by {
                if is_follower(e, l) {
                    if owned_after(e, l) {
                        let k = choose|k: int| 0 <= k < e.len() && e[k].label@ == l && e[k].label@ != master_label() && e[k].hwnd is Some;
                        assert(followers_part.contains(l));
                    }
                    if fin.contains(l) && !followers_part.contains(l) {
                        let k = choose|k: int| 0 <= k < owned0.len() && owned0[k] == l && !is_follower(e, l);
                    }
                    if followers_part.contains(l) {
                        let k = choose|k: int| 0 <= k < n && e[k].label@ == l && is_follower(e, l) && owned_after(e, l);
                    }
                } else {
                    if owned0.contains(l) {
                        let k = choose|k: int| 0 <= k < owned0.len() && owned0[k] == l;
                    }
                    if fin.contains(l) && !followers_part.contains(l) {
                        let k = choose|k: int| 0 <= k < owned0.len() && owned0[k] == l && !is_follower(e, l);
                        assert(owned0.contains(l));
                    }
                }
            }
        }
        self.owned_by_player = now_owned;
        calls
    }

    /// Whether `label` names a registered follower with a native handle.
    fn is_registered_follower(&self, label: &String) -> (r: bool)
        requires
            labels_unique(self.windows@),
        ensures
            r == is_follower(self.windows@, label@),
    {
        let m = master();
        if *label == m {
            return false;
        }
        match find_window(&self.windows, label) {
            Some(i) => {
                proof {
                    lemma_hwnd_for(self.windows@, i as int);
                }
                self.windows[i].hwnd.is_some()
            },
            None => false,
        }
    }


    /// A follower was shown or hidden. Showing it forgets its remembered
    /// docked offset and returns where to put it to re-dock to the player;
    /// hiding a window that is docked in the player's group remembers its
    /// offset from the player (`live` is its rectangle right now).
    pub fn set_visible(&mut self, label: &String, visible: bool, live: Option<WindowRect>) -> (redock: Option<(i32, i32)>)
        requires
            dock_wf(*old(self)),
        ensures
            dock_wf(*final(self)),
            final(self).windows@ == visibility_spec(old(self).windows@, label@, visible),
            final(self).dragging == old(self).dragging,
            final(self).group_offsets@ == old(self).group_offsets@,
            final(self).owned_by_player@ == old(self).owned_by_player@,
            visible ==> redock == redock_spec(
                offset_for(old(self).hidden_offset@, label@),
                rect_for(old(self).windows@, master_label()),
            ),
            visible ==> forall|l: Seq<char>| #[trigger] offset_for(final(self).hidden_offset@, l) == if l == label@ {
                None
            } else {
                offset_for(old(self).hidden_offset@, l)
            },
            !visible ==> redock is None,
            !visible ==> forall|l: Seq<char>| #[trigger] offset_for(final(self).hidden_offset@, l) == if l == label@
                && hide_offset(old(self).windows@, l, live) is Some {
                hide_offset(old(self).windows@, l, live)
            } else {
                offset_for(old(self).hidden_offset@, l)
            },
    {
        let ghost e = self.windows@;
        let m = master();
        let mi = find_window(&self.windows, &m);
        proof {
            if let Some(k) = mi {
                lemma_rect_for(e, k as int);
            }
        }
        let player = match mi {
            Some(k) => self.windows[k].rect,
            None => None,
        };
        let mut redock: Option<(i32, i32)> = None;
        if visible {
            let taken = take_offset(&mut self.hidden_offset, label);
            if let Some((dx, dy)) = taken {
                if let Some(p) = player {
                    redock = Some((wrapping_add_i32(p.x, dx), wrapping_add_i32(p.y, dy)));
                }
            }
        } else {
            if *label != m {
                let group = connected_group(self, &m);
                if contains_string(&group, label) {
                    if let (Some(p), Some(r)) = (player, live) {
                        let dx = wrapping_sub_i32(r.x, p.x);
                        let dy = wrapping_sub_i32(r.y, p.y);
                        put_offset(&mut self.hidden_offset, label, dx, dy);
                    }
                }
            }
        }
        self.set_visible_flag(label, visible);
        redock
    }

    fn set_visible_flag(&mut self, label: &String, visible: bool)
        requires
            dock_wf(*old(self)),
        ensures
            dock_wf(*final(self)),
            final(self).windows@ == visibility_spec(old(self).windows@, label@, visible),
            final(self).dragging == old(self).dragging,
            final(self).group_offsets@ == old(self).group_offsets@,
            final(self).hidden_offset@ == old(self).hidden_offset@,
            final(self).owned_by_player@ == old(self).owned_by_player@,
    {
        let ghost e = self.windows@;
        if let Some(i) = find_window(&self.windows, label) {
            let d = &self.windows[i];
            let entry = DockEntry { label: d.label.clone(), rect: d.rect, visible, hwnd: d.hwnd };
            self.windows.set(i, entry);
            proof {
                let k = choose|k: int| 0 <= k < e.len() && e[k].label@ == label@;
                assert(k == i);
                assert(self.windows@ =~= visibility_spec(e, label@, visible));
                assert forall|a: int, b: int|
                    0 <= a < self.windows@.len() && 0 <= b < self.windows@.len() && a != b
                        implies self.windows@[a].label@ != self.windows@[b].label@ by {
                    assert(self.windows@[a].label@ == e[a].label@);
                    assert(self.windows@[b].label@ == e[b].label@);
                }
            }
        }
    }

}


/// Hiding a docked follower and showing it again re-docks it at the same
/// offset from the player: wherever the player has moved meanwhile, the
/// window comes back shifted by exactly the player's move, and to the very
/// spot it was hidden at when the player has not moved.
pub proof fn law_hide_then_show_redocks(e: Seq<DockEntry>, l: Seq<char>, w: WindowRect, q: WindowRect)
    requires
        hide_offset(e, l, Some(w)) is Some,
    ensures
        ({
            let p = rect_for(e, master_label())->0;
            let r = redock_spec(hide_offset(e, l, Some(w)), Some(q));
            &&& r is Some
            &&& (q.x == p.x && q.y == p.y ==> r == Some((w.x, w.y)))
            &&& (i32::MIN <= w.x + (q.x - p.x) <= i32::MAX && i32::MIN <= w.y + (q.y - p.y) <= i32::MAX
                ==> r == Some(((w.x + (q.x - p.x)) as i32, (w.y + (q.y - p.y)) as i32)))
        }),
{
}

/// Dragging the player moves its group rigidly: moving the player by
/// `(dx, dy)` moves every member's target by exactly the same amount.
pub proof fn law_drag_is_rigid(
    e: Seq<DockEntry>,
    offs: Seq<(String, i32, i32)>,
    px: i32,
    py: i32,
    qx: i32,
    qy: i32,
    k: int,
)
    requires
        0 <= k <= offs.len(),
        forall|j: int| 0 <= j < offs.len() ==> {
            &&& i32::MIN <= px + (#[trigger] offs[j]).1 <= i32::MAX
            &&& i32::MIN <= py + offs[j].2 <= i32::MAX
            &&& i32::MIN <= qx + offs[j].1 <= i32::MAX
            &&& i32::MIN <= qy + offs[j].2 <= i32::MAX
        },
    ensures
        drag_targets_spec(e, offs, px, py, k).len() == drag_targets_spec(e, offs, qx, qy, k).len(),
        forall|i: int| 0 <= i < drag_targets_spec(e, offs, px, py, k).len() ==> {
            let a = #[trigger] drag_targets_spec(e, offs, px, py, k)[i];
            let b = drag_targets_spec(e, offs, qx, qy, k)[i];
            &&& a.0 == b.0
            &&& b.1 - a.1 == qx - px
            &&& b.2 - a.2 == qy - py
        },
    decreases k,
{
    if k > 0 {
        law_drag_is_rigid(e, offs, px, py, qx, qy, k - 1);
        let o = offs[k - 1];
        assert(i32::MIN <= px + o.1 <= i32::MAX && i32::MIN <= qx + o.1 <= i32::MAX);
        assert(i32::MIN <= py + o.2 <= i32::MAX && i32::MIN <= qy + o.2 <= i32::MAX);
        let pa = drag_targets_spec(e, offs, px, py, k - 1);
        let pb = drag_targets_spec(e, offs, qx, qy, k - 1);
        let a = drag_targets_spec(e, offs, px, py, k);
        let b = drag_targets_spec(e, offs, qx, qy, k);
        assert forall|i: int| 0 <= i < a.len() implies {
            let x = #[trigger] a[i];
            let y = b[i];
            &&& x.0 == y.0
            &&& y.1 - x.1 == qx - px
            &&& y.2 - x.2 == qy - py
        } by {
            if i < pa.len() {
                assert(a[i] == pa[i] && b[i] == pb[i]);
            }
        }
    }
}

} // verus!
