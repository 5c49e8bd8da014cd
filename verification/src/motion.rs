use vstd::prelude::*;
use vstd::arithmetic::div_mod::{
    lemma_fundamental_div_mod, lemma_fundamental_div_mod_converse, lemma_mod_bound,
};
use vstd::set_lib::{lemma_int_range, lemma_len_subset, set_int_range};
use crate::errors::DimensionMismatchError;
use crate::frame::{lemma_row_major_index_in_range, Frame, FrameView};

verus! {

/// The absolute difference of two pixel samples.
pub open spec fn abs_diff(a: u8, b: u8) -> int {
    if a >= b {
        a - b
    } else {
        b - a
    }
}

/// The change mask between the background model and a new frame: one entry
/// per pixel, true exactly when the two samples differ by more than the
/// sensitivity threshold.
pub open spec fn mask_of(bg: FrameView, fr: FrameView, threshold: u8) -> Seq<bool> {
    Seq::new(
        (bg.width * bg.height) as nat,
        |p: int| abs_diff(bg.pixels[p], fr.pixels[p]) > threshold,
    )
}

/// Whether `p` is the flat index of a pixel of a `width` x `height` grid.
pub open spec fn in_grid(width: int, height: int, p: int) -> bool {
    0 <= p < width * height
}

/// The column of a flat index in row-major order.
pub open spec fn grid_x(width: int, p: int) -> int {
    p % width
}

/// The row of a flat index in row-major order.
pub open spec fn grid_y(width: int, p: int) -> int {
    p / width
}

/// Two grid cells are adjacent when they share a side.
pub open spec fn adjacent(width: int, height: int, p: int, q: int) -> bool {
    &&& in_grid(width, height, p)
    &&& in_grid(width, height, q)
    &&& {
        let px = grid_x(width, p);
        let py = grid_y(width, p);
        let qx = grid_x(width, q);
        let qy = grid_y(width, q);
        ||| (px == qx && (qy == py + 1 || qy == py - 1))
        ||| (py == qy && (qx == px + 1 || qx == px - 1))
    }
}

/// A walk through changed pixels: every step moves to an adjacent cell, and
/// every visited cell is marked changed in the mask.
pub open spec fn is_path(mask: Seq<bool>, width: int, height: int, path: Seq<int>) -> bool {
    &&& path.len() >= 1
    &&& forall|i: int|
        0 <= i < path.len() ==> in_grid(width, height, #[trigger] path[i]) && mask[path[i]]
    &&& forall|i: int|
        0 <= i < path.len() - 1 ==> adjacent(width, height, #[trigger] path[i], path[i + 1])
}

/// Two changed pixels are connected when a walk through changed pixels leads
/// from one to the other.
pub open spec fn connected(mask: Seq<bool>, width: int, height: int, p: int, q: int) -> bool {
    exists|path: Seq<int>|
        is_path(mask, width, height, path) && path.first() == p && path.last() == q
}

/// The connected region of changed pixels around `p`.
pub open spec fn component(mask: Seq<bool>, width: int, height: int, p: int) -> Set<int> {
    Set::new(|q: int| connected(mask, width, height, p, q))
}

/// A blob: a non-empty set of changed pixels, mutually connected through
/// changed pixels. Its cardinality is its area, in pixels.
pub open spec fn is_blob(mask: Seq<bool>, width: int, height: int, pixels: Set<int>) -> bool {
    &&& pixels.finite()
    &&& pixels.len() >= 1
    &&& forall|p: int|
        #[trigger] pixels.contains(p) ==> in_grid(width, height, p) && mask[p]
    &&& forall|p: int, q: int|
        pixels.contains(p) && pixels.contains(q) ==> connected(mask, width, height, p, q)
}

/// Whether the change mask holds a connected changed region of at least
/// `min_area` pixels. This is the motion criterion.
pub open spec fn has_motion_blob(mask: Seq<bool>, width: int, height: int, min_area: int) -> bool {
    exists|p: int|
        #[trigger] in_grid(width, height, p) && mask[p] && component(mask, width, height, p).len()
            >= min_area
}

/// A flat index decomposes into its row and column.
pub proof fn lemma_flat_coords(width: int, height: int, p: int)
    requires
        width >= 1,
        height >= 1,
        in_grid(width, height, p),
    ensures
        p == grid_y(width, p) * width + grid_x(width, p),
        0 <= grid_x(width, p) < width,
        0 <= grid_y(width, p) < height,
{
    lemma_fundamental_div_mod(p, width);
    lemma_mod_bound(p, width);
    let gx = grid_x(width, p);
    let gy = grid_y(width, p);
    assert(width * gy == gy * width) by (nonlinear_arith);
    assert(0 <= gy < height) by (nonlinear_arith)
        requires
            width >= 1,
            height >= 1,
            0 <= p < width * height,
            p == width * gy + gx,
            0 <= gx < width,
    ;
}

/// A row and column pair yields a flat index with those coordinates.
pub proof fn lemma_coords_flat(width: int, height: int, x: int, y: int)
    requires
        width >= 1,
        height >= 1,
        0 <= x < width,
        0 <= y < height,
    ensures
        in_grid(width, height, y * width + x),
        grid_x(width, y * width + x) == x,
        grid_y(width, y * width + x) == y,
{
    lemma_row_major_index_in_range(width, height, x, y);
    lemma_fundamental_div_mod_converse(y * width + x, width, y, x);
}

/// Adjacency does not depend on the order of the two cells.
pub proof fn lemma_adjacent_sym(width: int, height: int, p: int, q: int)
    ensures
        adjacent(width, height, p, q) == adjacent(width, height, q, p),
{
}

/// Every changed pixel is connected to itself.
pub proof fn lemma_connected_refl(mask: Seq<bool>, width: int, height: int, p: int)
    requires
        in_grid(width, height, p),
        mask[p],
    ensures
        connected(mask, width, height, p, p),
{
    let path = seq![p];
    assert(is_path(mask, width, height, path));
    assert(path.first() == p && path.last() == p);
}

/// A connection extends across one adjacent changed pixel.
pub proof fn lemma_connected_step(
    mask: Seq<bool>,
    width: int,
    height: int,
    p: int,
    q: int,
    r: int,
)
    requires
        connected(mask, width, height, p, q),
        adjacent(width, height, q, r),
        mask[r],
    ensures
        connected(mask, width, height, p, r),
{
    let path = choose|path: Seq<int>|
        is_path(mask, width, height, path) && path.first() == p && path.last() == q;
    let ext = path.push(r);
    assert forall|i: int| 0 <= i < ext.len() implies in_grid(width, height, #[trigger] ext[i])
        && mask[ext[i]] by {
        if i < path.len() {
            assert(ext[i] == path[i]);
        } else {
            assert(ext[i] == r);
        }
    };
    assert forall|i: int|
        0 <= i < ext.len() - 1 implies adjacent(width, height, #[trigger] ext[i], ext[i + 1]) by {
        if i < path.len() - 1 {
            assert(ext[i] == path[i] && ext[i + 1] == path[i + 1]);
        } else {
            assert(ext[i] == path[path.len() - 1] && ext[i + 1] == r);
        }
    };
    assert(is_path(mask, width, height, ext) && ext.first() == p && ext.last() == r);
}

/// Connectivity is transitive: two walks concatenate.
pub proof fn lemma_connected_trans(
    mask: Seq<bool>,
    width: int,
    height: int,
    p: int,
    q: int,
    r: int,
)
    requires
        connected(mask, width, height, p, q),
        connected(mask, width, height, q, r),
    ensures
        connected(mask, width, height, p, r),
{
    let a = choose|a: Seq<int>| is_path(mask, width, height, a) && a.first() == p && a.last() == q;
    let b = choose|b: Seq<int>| is_path(mask, width, height, b) && b.first() == q && b.last() == r;
    if b.len() == 1 {
        assert(q == r);
    } else {
        let c = a + b.drop_first();
        assert(c.len() == a.len() + b.len() - 1);
        assert forall|i: int| 0 <= i < c.len() implies in_grid(width, height, #[trigger] c[i])
            && mask[c[i]] by {
            if i < a.len() {
                assert(c[i] == a[i]);
            } else {
                assert(c[i] == b[i - a.len() + 1]);
            }
        };
        assert forall|i: int|
            0 <= i < c.len() - 1 implies adjacent(width, height, #[trigger] c[i], c[i + 1]) by {
            if i < a.len() - 1 {
                assert(c[i] == a[i] && c[i + 1] == a[i + 1]);
            } else if i == a.len() - 1 {
                assert(c[i] == a[a.len() - 1]);
                assert(c[i + 1] == b[1]);
                assert(adjacent(width, height, b[0], b[1]));
            } else {
                assert(c[i] == b[i - a.len() + 1] && c[i + 1] == b[i - a.len() + 2]);
            }
        };
        assert(c.first() == p);
        assert(c.last() == b[b.len() - 1]);
        assert(is_path(mask, width, height, c) && c.first() == p && c.last() == r);
    }
}

/// Connectivity does not depend on direction: a walk reverses.
pub proof fn lemma_connected_sym(mask: Seq<bool>, width: int, height: int, p: int, q: int)
    requires
        connected(mask, width, height, p, q),
    ensures
        connected(mask, width, height, q, p),
{
    let a = choose|a: Seq<int>| is_path(mask, width, height, a) && a.first() == p && a.last() == q;
    let n = a.len();
    let rev = Seq::new(n as nat, |i: int| a[n - 1 - i]);
    assert forall|i: int| 0 <= i < rev.len() implies in_grid(width, height, #[trigger] rev[i])
        && mask[rev[i]] by {
        assert(rev[i] == a[n - 1 - i]);
    };
    assert forall|i: int|
        0 <= i < rev.len() - 1 implies adjacent(width, height, #[trigger] rev[i], rev[i + 1]) by {
        assert(rev[i] == a[n - 1 - i]);
        assert(rev[i + 1] == a[n - 2 - i]);
        assert(adjacent(width, height, a[n - 2 - i], a[n - 2 - i + 1]));
        lemma_adjacent_sym(width, height, a[n - 2 - i], a[n - 1 - i]);
    };
    assert(rev.first() == q && rev.last() == p);
    assert(is_path(mask, width, height, rev));
}

/// Both ends of a connection are changed pixels of the grid.
pub proof fn lemma_connected_members(mask: Seq<bool>, width: int, height: int, p: int, q: int)
    requires
        connected(mask, width, height, p, q),
    ensures
        in_grid(width, height, p),
        mask[p],
        in_grid(width, height, q),
        mask[q],
{
    let a = choose|a: Seq<int>| is_path(mask, width, height, a) && a.first() == p && a.last() == q;
    assert(a[0] == p);
    assert(a[a.len() - 1] == q);
}

/// A component is a finite region of the grid.
pub proof fn lemma_component_finite(mask: Seq<bool>, width: int, height: int, p: int)
    requires
        width >= 1,
        height >= 1,
    ensures
        component(mask, width, height, p).finite(),
        component(mask, width, height, p).len() <= width * height,
{
    let comp = component(mask, width, height, p);
    let range = set_int_range(0, width * height);
    lemma_int_range(0, width * height);
    assert forall|q: int| comp.contains(q) implies range.contains(q) by {
        lemma_connected_members(mask, width, height, p, q);
    };
    lemma_len_subset(comp, range);
}

/// Connected pixels share one component.
pub proof fn lemma_component_eq(mask: Seq<bool>, width: int, height: int, p: int, q: int)
    requires
        connected(mask, width, height, p, q),
    ensures
        component(mask, width, height, p) == component(mask, width, height, q),
{
    assert forall|r: int|
        component(mask, width, height, p).contains(r) == component(
            mask,
            width,
            height,
            q,
        ).contains(r) by {
        if connected(mask, width, height, p, r) {
            lemma_connected_sym(mask, width, height, p, q);
            lemma_connected_trans(mask, width, height, q, p, r);
        }
        if connected(mask, width, height, q, r) {
            lemma_connected_trans(mask, width, height, p, q, r);
        }
    };
    assert(component(mask, width, height, p) =~= component(mask, width, height, q));
}

/// Walks cannot leave a set of changed pixels that is closed under
/// adjacency: if the marking covers the walk's start, it covers its end.
pub proof fn lemma_closed_covers_walk(
    mask: Seq<bool>,
    width: int,
    height: int,
    vis: Seq<bool>,
    path: Seq<int>,
)
    requires
        vis.len() == mask.len(),
        mask.len() == width * height,
        is_path(mask, width, height, path),
        vis[path.first()],
        forall|a: int, b: int|
            0 <= a < vis.len() && vis[a] && #[trigger] adjacent(width, height, a, b) && mask[b]
                ==> vis[b],
    ensures
        vis[path.last()],
    decreases path.len(),
{
    if path.len() > 1 {
        assert(adjacent(width, height, path[0], path[1]));
        assert(vis[path[1]]);
        let rest = path.drop_first();
        assert forall|i: int| 0 <= i < rest.len() implies in_grid(width, height, #[trigger] rest[i])
            && mask[rest[i]] by {
            assert(rest[i] == path[i + 1]);
        };
        assert forall|i: int|
            0 <= i < rest.len() - 1 implies adjacent(
            width,
            height,
            #[trigger] rest[i],
            rest[i + 1],
        ) by {
            assert(rest[i] == path[i + 1] && rest[i + 1] == path[i + 2]);
        };
        assert(is_path(mask, width, height, rest));
        assert(rest.first() == path[1]);
        assert(rest.last() == path.last());
        lemma_closed_covers_walk(mask, width, height, vis, rest);
    }
}

/// Noise-tolerance law: when every pixel of the new frame lies within the
/// sensitivity threshold of the background model, no pixel is marked changed
/// and no blob of any positive area exists.
pub proof fn lemma_quiet_frame_no_motion(bg: FrameView, fr: FrameView, threshold: u8, min_area: int)
    requires
        forall|p: int|
            0 <= p < bg.width * bg.height ==> abs_diff(
                #[trigger] bg.pixels[p],
                fr.pixels[p],
            ) <= threshold,
        min_area >= 1,
    ensures
        !has_motion_blob(mask_of(bg, fr, threshold), bg.width, bg.height, min_area),
{
    let mask = mask_of(bg, fr, threshold);
    assert forall|p: int|
        !(in_grid(bg.width, bg.height, p) && mask[p] && component(
            mask,
            bg.width,
            bg.height,
            p,
        ).len() >= min_area) by {
        if in_grid(bg.width, bg.height, p) {
            assert(!mask[p]);
        }
    };
}

/// Blob law: a connected region of changed pixels whose area reaches the
/// minimum makes the mask show motion.
pub proof fn lemma_blob_shows_motion(
    mask: Seq<bool>,
    width: int,
    height: int,
    blob: Set<int>,
    min_area: int,
)
    requires
        width >= 1,
        height >= 1,
        is_blob(mask, width, height, blob),
        blob.len() >= min_area,
        min_area >= 1,
    ensures
        has_motion_blob(mask, width, height, min_area),
{
    let p = blob.choose();
    assert(blob.contains(p));
    let comp = component(mask, width, height, p);
    assert forall|q: int| blob.contains(q) implies comp.contains(q) by {
        assert(connected(mask, width, height, p, q));
    };
    lemma_component_finite(mask, width, height, p);
    lemma_len_subset(blob, comp);
    assert(in_grid(width, height, p) && mask[p] && comp.len() >= min_area);
}

/// The pixels marked in `vis` beyond those already marked in `old_vis`.
spec fn newly_visited(old_vis: Seq<bool>, vis: Seq<bool>) -> Set<int> {
    Set::new(|q: int| 0 <= q < vis.len() && vis[q] && !old_vis[q])
}

/// Whether the exploration stack holds the flat index `a`.
spec fn stack_has(stack: Seq<usize>, a: int) -> bool {
    exists|i: int| 0 <= i < stack.len() && #[trigger] stack[i] == a
}

/// The working state of one flood fill from `start`, against the marking
/// `old_vis` that held before the fill began. `except` names one cell whose
/// unexplored neighbours are still permitted (the cell being expanded), or
/// -1 for none.
spec fn fill_inv(
    mask: Seq<bool>,
    width: int,
    height: int,
    old_vis: Seq<bool>,
    vis: Seq<bool>,
    stack: Seq<usize>,
    start: int,
    area: int,
    except: int,
) -> bool {
    &&& vis.len() == mask.len()
    &&& old_vis.len() == mask.len()
    &&& mask.len() == width * height
    &&& 0 <= start < mask.len()
    &&& vis[start]
    &&& stack.no_duplicates()
    &&& forall|i: int|
        0 <= i < stack.len() ==> in_grid(width, height, #[trigger] stack[i] as int)
            && vis[stack[i] as int] && !old_vis[stack[i] as int]
    &&& forall|q: int| 0 <= q < vis.len() && old_vis[q] ==> #[trigger] vis[q]
    &&& forall|q: int|
        0 <= q < vis.len() && #[trigger] vis[q] ==> old_vis[q] || connected(
            mask,
            width,
            height,
            start,
            q,
        )
    &&& forall|q: int| 0 <= q < vis.len() && #[trigger] vis[q] ==> mask[q]
    &&& forall|a: int, b: int|
        0 <= a < vis.len() && vis[a] && !old_vis[a] && a != except && !stack_has(stack, a)
            && #[trigger] adjacent(width, height, a, b) && mask[b] ==> vis[b]
    &&& area == newly_visited(old_vis, vis).len()
    &&& 0 <= area <= mask.len()
}

/// The set of newly marked pixels is finite and no larger than the grid.
proof fn lemma_newly_visited_bound(old_vis: Seq<bool>, vis: Seq<bool>)
    ensures
        newly_visited(old_vis, vis).finite(),
        newly_visited(old_vis, vis).len() <= vis.len(),
{
    let newly = newly_visited(old_vis, vis);
    let range = set_int_range(0, vis.len() as int);
    lemma_int_range(0, vis.len() as int);
    lemma_len_subset(newly, range);
}

/// Consider one neighbour `nb` of the cell `p` being expanded: when it is a
/// changed pixel not yet marked, mark it, count it, and queue it for its own
/// expansion.
fn visit_neighbor(
    mask: &Vec<bool>,
    width: u32,
    height: u32,
    visited: &mut Vec<bool>,
    stack: &mut Vec<usize>,
    area: usize,
    p: usize,
    nb: usize,
    Ghost(old_vis): Ghost<Seq<bool>>,
    Ghost(start): Ghost<int>,
) -> (new_area: usize)
    requires
        width >= 1,
        height >= 1,
        fill_inv(
            mask@,
            width as int,
            height as int,
            old_vis,
            old(visited)@,
            old(stack)@,
            start,
            area as int,
            p as int,
        ),
        nb < mask@.len(),
        adjacent(width as int, height as int, p as int, nb as int),
        connected(mask@, width as int, height as int, start, p as int),
    ensures
        fill_inv(
            mask@,
            width as int,
            height as int,
            old_vis,
            final(visited)@,
            final(stack)@,
            start,
            new_area as int,
            p as int,
        ),
        mask@[nb as int] ==> final(visited)@[nb as int],
        forall|q: int|
            0 <= q < mask@.len() && old(visited)@[q] ==> #[trigger] final(visited)@[q],
        (final(stack)@ == old(stack)@ && new_area == area) || (final(stack)@ == old(
            stack,
        )@.push(nb) && new_area == area + 1),
        forall|a: int| stack_has(old(stack)@, a) ==> stack_has(final(stack)@, a),
    {
    if mask[nb] && !visited[nb] {
        let n = mask.len();
        let ghost vis0 = visited@;
        let ghost stack0 = stack@;
        visited[nb] = true;
        stack.push(nb);
        proof {
            lemma_connected_step(
                mask@,
                width as int,
                height as int,
                start,
                p as int,
                nb as int,
            );
            let newly0 = newly_visited(old_vis, vis0);
            let newly1 = newly_visited(old_vis, visited@);
            lemma_newly_visited_bound(old_vis, vis0);
            assert(!old_vis[nb as int]);
            assert(newly1 =~= newly0.insert(nb as int));
            vstd::set::axiom_set_insert_len(newly0, nb as int);
            lemma_newly_visited_bound(old_vis, visited@);
            assert forall|i: int| 0 <= i < stack@.len() implies in_grid(
                width as int,
                height as int,
                #[trigger] stack@[i] as int,
            ) && visited@[stack@[i] as int] && !old_vis[stack@[i] as int] by {
                if i < stack0.len() {
                    assert(stack@[i] == stack0[i]);
                } else {
                    assert(stack@[i] == nb);
                }
            };
            assert(stack@.no_duplicates()) by {
                assert forall|i: int, j: int|
                    0 <= i < stack@.len() && 0 <= j < stack@.len() && i != j implies stack@[i]
                    != stack@[j] by {
                    if i < stack0.len() && j < stack0.len() {
                    } else if i < stack0.len() {
                        assert(vis0[stack0[i] as int]);
                        assert(!vis0[nb as int]);
                    } else if j < stack0.len() {
                        assert(vis0[stack0[j] as int]);
                        assert(!vis0[nb as int]);
                    }
                };
            };
            assert forall|a: int, b: int|
                0 <= a < visited@.len() && visited@[a] && !old_vis[a] && a != p as int
                    && !stack_has(stack@, a) && #[trigger] adjacent(
                    width as int,
                    height as int,
                    a,
                    b,
                ) && mask@[b] implies visited@[b] by {
                assert(a != nb as int) by {
                    assert(stack@[stack@.len() - 1] == nb);
                }
                assert(vis0[a]);
                assert(!stack_has(stack0, a)) by {
                    if stack_has(stack0, a) {
                        let i = choose|i: int|
                            0 <= i < stack0.len() && #[trigger] stack0[i] == a;
                        assert(stack@[i] == a);
                    }
                }
            };
            assert forall|a: int| stack_has(stack0, a) implies stack_has(stack@, a) by {
                let i = choose|i: int| 0 <= i < stack0.len() && #[trigger] stack0[i] == a;
                assert(stack@[i] == a);
            };
            assert(newly_visited(old_vis, visited@).len() == area + 1);
            assert(area + 1 <= n);
        }
        area + 1
    } else {
        area
    }
}

/// Flood fill: starting from an unmarked changed pixel, mark its whole
/// connected region and return the region's area, in pixels. The marking
/// handed in must be closed under adjacency between changed pixels, so the
/// region to explore cannot overlap it.
fn flood_fill(
    mask: &Vec<bool>,
    width: u32,
    height: u32,
    visited: &mut Vec<bool>,
    start: usize,
) -> (area: usize)
    requires
        width >= 1,
        height >= 1,
        mask@.len() == (width as int) * (height as int),
        old(visited)@.len() == mask@.len(),
        (start as int) < mask@.len(),
        mask@[start as int],
        !old(visited)@[start as int],
        forall|q: int| 0 <= q < mask@.len() && #[trigger] old(visited)@[q] ==> mask@[q],
        forall|a: int, b: int|
            0 <= a < mask@.len() && old(visited)@[a] && #[trigger] adjacent(
                width as int,
                height as int,
                a,
                b,
            ) && mask@[b] ==> old(visited)@[b],
    ensures
        final(visited)@.len() == mask@.len(),
        forall|q: int|
            0 <= q < mask@.len() ==> (#[trigger] final(visited)@[q] <==> old(visited)@[q]
                || connected(mask@, width as int, height as int, start as int, q)),
        forall|q: int| 0 <= q < mask@.len() && #[trigger] final(visited)@[q] ==> mask@[q],
        area == component(mask@, width as int, height as int, start as int).len(),
{
    let ghost old_vis = old(visited)@;
    let ghost wi = width as int;
    let ghost hi = height as int;
    let ghost st = start as int;
    let n = mask.len();
    let mut stack: Vec<usize> = Vec::new();
    stack.push(start);
    visited[start] = true;
    let mut area: usize = 1;
    proof {
        lemma_connected_refl(mask@, wi, hi, st);
        let newly = newly_visited(old_vis, visited@);
        assert(newly =~= Set::empty().insert(st));
        vstd::set::axiom_set_insert_len(Set::<int>::empty(), st);
        assert(stack@[0] == start);
        assert(stack_has(stack@, st));
        assert(fill_inv(mask@, wi, hi, old_vis, visited@, stack@, st, 1, -1));
    }
    while stack.len() > 0
        invariant
            width >= 1,
            height >= 1,
            wi == width as int,
            hi == height as int,
            st == start as int,
            mask@.len() == wi * hi,
            n == mask@.len(),
            old_vis.len() == mask@.len(),
            mask@[st],
            0 <= st < mask@.len(),
            !old_vis[st],
            forall|q: int| 0 <= q < mask@.len() && #[trigger] old_vis[q] ==> mask@[q],
            forall|a: int, b: int|
                0 <= a < mask@.len() && old_vis[a] && #[trigger] adjacent(wi, hi, a, b)
                    && mask@[b] ==> old_vis[b],
            fill_inv(mask@, wi, hi, old_vis, visited@, stack@, st, area as int, -1),
        decreases n - area, stack@.len(),
    {
        let ghost stack0 = stack@;
        let p = stack.pop().unwrap();
        proof {
            assert(stack0[stack0.len() - 1] == p);
            assert(visited@[p as int] && !old_vis[p as int]);
            assert(connected(mask@, wi, hi, st, p as int));
            assert forall|a: int|
                a != p as int && stack_has(stack0, a) implies stack_has(stack@, a) by {
                let i = choose|i: int| 0 <= i < stack0.len() && #[trigger] stack0[i] == a;
                assert(i < stack0.len() - 1);
                assert(stack@[i] == a);
            };
            assert(fill_inv(mask@, wi, hi, old_vis, visited@, stack@, st, area as int, p as int));
        }
        let wu = width as usize;
        let hu = height as usize;
        let px = p % wu;
        let py = p / wu;
        proof {
            lemma_flat_coords(wi, hi, p as int);
            assert(px as int == grid_x(wi, p as int));
            assert(py as int == grid_y(wi, p as int));
        }
        let mut a = area;
        if px + 1 < wu {
            proof {
                lemma_coords_flat(wi, hi, px as int + 1, py as int);
                assert((py as int) * wi + px as int + 1 == p as int + 1);
                assert(adjacent(wi, hi, p as int, p as int + 1));
            }
            let nb = p + 1;
            a = visit_neighbor(
                mask,
                width,
                height,
                visited,
                &mut stack,
                a,
                p,
                nb,
                Ghost(old_vis),
                Ghost(st),
            );
        }
        if px > 0 {
            proof {
                lemma_coords_flat(wi, hi, px as int - 1, py as int);
                assert((py as int) * wi + px as int - 1 == p as int - 1);
                assert(adjacent(wi, hi, p as int, p as int - 1));
            }
            let nb = p - 1;
            a = visit_neighbor(
                mask,
                width,
                height,
                visited,
                &mut stack,
                a,
                p,
                nb,
                Ghost(old_vis),
                Ghost(st),
            );
        }
        if py + 1 < hu {
            proof {
                lemma_coords_flat(wi, hi, px as int, py as int + 1);
                assert((py as int + 1) * wi == (py as int) * wi + wi) by (nonlinear_arith);
                assert((py as int + 1) * wi + px as int == p as int + wi);
                assert(adjacent(wi, hi, p as int, p as int + wi));
                assert(in_grid(wi, hi, p as int + wi));
            }
            let nb = p + wu;
            a = visit_neighbor(
                mask,
                width,
                height,
                visited,
                &mut stack,
                a,
                p,
                nb,
                Ghost(old_vis),
                Ghost(st),
            );
        }
        if py > 0 {
            proof {
                lemma_coords_flat(wi, hi, px as int, py as int - 1);
                assert((py as int - 1) * wi == (py as int) * wi - wi) by (nonlinear_arith);
                assert((py as int - 1) * wi + px as int == p as int - wi);
                assert(adjacent(wi, hi, p as int, p as int - wi));
            }
            let nb = p - wu;
            a = visit_neighbor(
                mask,
                width,
                height,
                visited,
                &mut stack,
                a,
                p,
                nb,
                Ghost(old_vis),
                Ghost(st),
            );
        }
        area = a;
        proof {
            assert forall|b: int|
                #[trigger] adjacent(wi, hi, p as int, b) && mask@[b] implies visited@[b] by {
                lemma_flat_coords(wi, hi, b);
                let bx = grid_x(wi, b);
                let by = grid_y(wi, b);
                let pxi = px as int;
                let pyi = py as int;
                if by == pyi && bx == pxi + 1 {
                    assert(b == p as int + 1) by {
                        lemma_coords_flat(wi, hi, bx, by);
                    };
                } else if by == pyi && bx == pxi - 1 {
                    assert(b == p as int - 1) by {
                        lemma_coords_flat(wi, hi, bx, by);
                    };
                } else if bx == pxi && by == pyi + 1 {
                    assert((pyi + 1) * wi == pyi * wi + wi) by (nonlinear_arith);
                    assert(b == p as int + wi) by {
                        lemma_coords_flat(wi, hi, bx, by);
                    };
                } else {
                    assert(bx == pxi && by == pyi - 1);
                    assert((pyi - 1) * wi == pyi * wi - wi) by (nonlinear_arith);
                    assert(b == p as int - wi) by {
                        lemma_coords_flat(wi, hi, bx, by);
                    };
                }
            };
            assert(fill_inv(mask@, wi, hi, old_vis, visited@, stack@, st, area as int, -1));
        }
    }
    proof {
        assert forall|a: int, b: int|
            0 <= a < n && visited@[a] && #[trigger] adjacent(wi, hi, a, b) && mask@[b]
            implies visited@[b] by {
            if old_vis[a] {
            } else {
                assert(!stack_has(stack@, a));
            }
        };
        assert forall|q: int|
            0 <= q < n && connected(mask@, wi, hi, st, q) implies visited@[q] by {
            let path = choose|path: Seq<int>|
                is_path(mask@, wi, hi, path) && path.first() == st && path.last() == q;
            lemma_closed_covers_walk(mask@, wi, hi, visited@, path);
        };
        assert forall|q: int| connected(mask@, wi, hi, st, q) implies !old_vis[q] by {
            if old_vis[q] {
                lemma_connected_members(mask@, wi, hi, st, q);
                lemma_connected_sym(mask@, wi, hi, st, q);
                let path = choose|path: Seq<int>|
                    is_path(mask@, wi, hi, path) && path.first() == q && path.last() == st;
                lemma_closed_covers_walk(mask@, wi, hi, old_vis, path);
                assert(false);
            }
        };
        let comp = component(mask@, wi, hi, st);
        let newly = newly_visited(old_vis, visited@);
        assert forall|q: int| comp.contains(q) == newly.contains(q) by {
            if comp.contains(q) {
                lemma_connected_members(mask@, wi, hi, st, q);
                assert(0 <= q < n);
                assert(visited@[q]);
                assert(!old_vis[q]);
            }
            if newly.contains(q) {
                assert(visited@[q] && !old_vis[q]);
            }
        };
        assert(comp =~= newly);
    }
    area
}

/// Whether the change mask holds a connected changed region of at least
/// `min_area` pixels, by labelling each region once and measuring it.
fn has_blob_at_least(mask: &Vec<bool>, width: u32, height: u32, min_area: u32) -> (found: bool)
    requires
        width >= 1,
        height >= 1,
        mask@.len() == (width as int) * (height as int),
        min_area >= 1,
    ensures
        found == has_motion_blob(mask@, width as int, height as int, min_area as int),
{
    let ghost wi = width as int;
    let ghost hi = height as int;
    let n = mask.len();
    let mut visited: Vec<bool> = vec![false; n];
    let mut seed: usize = 0;
    while seed < n
        invariant
            width >= 1,
            height >= 1,
            wi == width as int,
            hi == height as int,
            mask@.len() == wi * hi,
            n == mask@.len(),
            visited@.len() == n,
            min_area >= 1,
            seed <= n,
            forall|q: int| 0 <= q < n && #[trigger] visited@[q] ==> mask@[q],
            forall|a: int, b: int|
                0 <= a < n && visited@[a] && #[trigger] adjacent(wi, hi, a, b) && mask@[b]
                    ==> visited@[b],
            forall|q: int|
                0 <= q < n && #[trigger] visited@[q] ==> component(mask@, wi, hi, q).len()
                    < min_area,
            forall|q: int| 0 <= q < seed && mask@[q] ==> #[trigger] visited@[q],
        decreases n - seed,
    {
        if mask[seed] && !visited[seed] {
            let ghost pre_vis = visited@;
            let area = flood_fill(mask, width, height, &mut visited, seed);
            if area >= min_area as usize {
                proof {
                    assert(in_grid(wi, hi, seed as int));
                    assert(mask@[seed as int]);
                    assert(component(mask@, wi, hi, seed as int).len() >= min_area);
                }
                return true;
            }
            proof {
                lemma_connected_refl(mask@, wi, hi, seed as int);
                assert forall|q: int|
                    0 <= q < n && #[trigger] visited@[q] implies component(mask@, wi, hi, q).len()
                    < min_area by {
                    if !pre_vis[q] {
                        assert(connected(mask@, wi, hi, seed as int, q));
                        lemma_component_eq(mask@, wi, hi, seed as int, q);
                    }
                };
                assert forall|a: int, b: int|
                    0 <= a < n && visited@[a] && #[trigger] adjacent(wi, hi, a, b) && mask@[b]
                    implies visited@[b] by {
                    if pre_vis[a] {
                        assert(pre_vis[b]);
                    } else {
                        assert(connected(mask@, wi, hi, seed as int, a));
                        lemma_connected_step(mask@, wi, hi, seed as int, a, b);
                    }
                };
            }
        }
        seed = seed + 1;
    }
    proof {
        assert forall|p: int|
            !(#[trigger] in_grid(wi, hi, p) && mask@[p] && component(mask@, wi, hi, p).len()
                >= min_area) by {
            if in_grid(wi, hi, p) && mask@[p] {
                assert(visited@[p]);
            }
        };
    }
    false
}

/// The change mask between the background model and a new frame, one entry
/// per pixel: whether the samples differ by more than the threshold.
fn diff_mask(bg: &Frame, fr: &Frame, threshold: u8) -> (mask: Vec<bool>)
    requires
        bg@.wf(),
        fr@.wf(),
        bg@.width == fr@.width,
        bg@.height == fr@.height,
    ensures
        mask@ == mask_of(bg@, fr@, threshold),
{
    let n = bg.pixels.len();
    let mut mask: Vec<bool> = Vec::new();
    let mut i: usize = 0;
    while i < n
        invariant
            n == bg@.pixels.len(),
            n == fr@.pixels.len(),
            i <= n,
            mask@.len() == i,
            forall|j: int|
                0 <= j < i ==> #[trigger] mask@[j] == (abs_diff(bg@.pixels[j], fr@.pixels[j])
                    > threshold),
        decreases n - i,
    {
        let a = bg.pixels[i];
        let b = fr.pixels[i];
        let difference = if a >= b {
            a - b
        } else {
            b - a
        };
        mask.push(difference > threshold);
        i = i + 1;
    }
    proof {
        assert(mask@ =~= mask_of(bg@, fr@, threshold));
    }
    mask
}

/// The mathematical content of a [`MotionDetector`].
#[verifier::ext_equal]
pub ghost struct DetectorView {
    pub background: Option<FrameView>,
    pub threshold: u8,
    pub min_contour_area: u32,
}

impl DetectorView {
    pub open spec fn wf(self) -> bool {
        &&& self.min_contour_area >= 1
        &&& match self.background {
            Some(bg) => bg.wf(),
            None => true,
        }
    }
}

/// Flags motion frame by frame against a rolling background model.
///
/// The model holds the last accepted preprocessed frame: it is set on the
/// first frame (cold start) and replaced whenever motion is confirmed, so
/// gradual lighting drift cannot cause permanent false positives; it is
/// deliberately left unchanged on quiet frames.
pub struct MotionDetector {
    pub background: Option<Frame>,
    pub threshold: u8,
    pub min_contour_area: u32,
}

impl View for MotionDetector {
    type V = DetectorView;

    open spec fn view(&self) -> DetectorView {
        DetectorView {
            background: match self.background {
                Some(ref frame) => Some(frame@),
                None => None,
            },
            threshold: self.threshold,
            min_contour_area: self.min_contour_area,
        }
    }
}

impl MotionDetector {
    /// A detector with no background model yet.
    ///
    /// `threshold` is the sensitivity: per-pixel differences above it count
    /// as change. `min_contour_area` is the least pixel count a connected
    /// changed region must reach to count as motion; a zero minimum would
    /// flag every frame, so it is excluded.
    pub fn new(threshold: u8, min_contour_area: u32) -> (detector: MotionDetector)
        requires
            min_contour_area >= 1,
        ensures
            detector@.background is None,
            detector@.threshold == threshold,
            detector@.min_contour_area == min_contour_area,
            detector@.wf(),
    {
        MotionDetector { background: None, threshold, min_contour_area }
    }

    /// Process one preprocessed (grayscale, denoised) frame and report
    /// whether it shows motion.
    ///
    /// On the first frame the model is initialised and no motion reported.
    /// Afterwards, the frame shows motion exactly when the change mask
    /// against the model holds a connected changed region of at least the
    /// minimum area; on motion the model is replaced by this frame, on a
    /// quiet frame it is kept. A frame whose dimensions differ from the
    /// model's is refused outright.
    pub fn detect_motion(&mut self, frame: &Frame) -> (result: Result<
        bool,
        DimensionMismatchError,
    >)
        requires
            old(self)@.wf(),
            frame@.wf(),
        ensures
            final(self)@.threshold == old(self)@.threshold,
            final(self)@.min_contour_area == old(self)@.min_contour_area,
            final(self)@.wf(),
            match old(self)@.background {
                None => result == Result::<bool, DimensionMismatchError>::Ok(false)
                    && final(self)@.background == Some(frame@),
                Some(bg) => {
                    if bg.width != frame@.width || bg.height != frame@.height {
                        result == Result::<bool, DimensionMismatchError>::Err(
                            DimensionMismatchError,
                        ) && final(self)@ == old(self)@
                    } else {
                        let motion = has_motion_blob(
                            mask_of(bg, frame@, old(self)@.threshold),
                            bg.width,
                            bg.height,
                            old(self)@.min_contour_area as int,
                        );
                        &&& result == Result::<bool, DimensionMismatchError>::Ok(motion)
                        &&& motion ==> final(self)@.background == Some(frame@)
                        &&& !motion ==> final(self)@ == old(self)@
                    }
                },
            },
    {
        match &self.background {
            None => {
                self.background = Some(frame.duplicate());
                Ok(false)
            },
            Some(bg) => {
                if bg.width != frame.width || bg.height != frame.height {
                    return Err(DimensionMismatchError);
                }
                let width = bg.width;
                let height = bg.height;
                let mask = diff_mask(bg, frame, self.threshold);
                let motion = has_blob_at_least(&mask, width, height, self.min_contour_area);
                if motion {
                    self.background = Some(frame.duplicate());
                }
                Ok(motion)
            },
        }
    }
}

} // verus!
