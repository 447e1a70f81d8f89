//! Masks over images: which pixels of a captured render should be repainted.

use vstd::prelude::*;

verus! {

/// An image held as plain values: `width * height` RGBA pixels, row by row.
pub struct SourceImage {
    pub width: u32,
    pub height: u32,
    pub pixels: Vec<[u8; 4]>,
}

impl SourceImage {
    pub open spec fn wf(&self) -> bool {
        self.pixels.len() == self.width * self.height
    }

    pub open spec fn in_bounds(&self, x: int, y: int) -> bool {
        0 <= x < self.width && 0 <= y < self.height
    }

    pub open spec fn pixel(&self, x: int, y: int) -> [u8; 4] {
        self.pixels@[y * self.width + x]
    }
}

/// The squared distance between the RGB parts of two pixels.
pub open spec fn color_distance_squared(a: [u8; 4], b: [u8; 4]) -> int {
    (a[0] - b[0]) * (a[0] - b[0]) + (a[1] - b[1]) * (a[1] - b[1]) + (a[2] - b[2]) * (a[2] - b[2])
}

/// Whether two pixels are alike within `tolerance`: their RGB distance, rounded down and
/// capped at 255, is at most `tolerance`.
pub open spec fn within_tolerance(a: [u8; 4], b: [u8; 4], tolerance: u8) -> bool {
    tolerance == 255 || color_distance_squared(a, b) < (tolerance + 1) * (tolerance + 1)
}

/// Whether the RGB parts of two pixels are alike within `tolerance`.
pub fn colors_within_tolerance(a: [u8; 4], b: [u8; 4], tolerance: u8) -> (r: bool)
    ensures
        r == within_tolerance(a, b, tolerance),
{
    let d0 = a[0] as i32 - b[0] as i32;
    let d1 = a[1] as i32 - b[1] as i32;
    let d2 = a[2] as i32 - b[2] as i32;
    assert(0 <= d0 * d0 <= 65025) by (nonlinear_arith)
        requires
            -255 <= d0 <= 255,
    ;
    assert(0 <= d1 * d1 <= 65025) by (nonlinear_arith)
        requires
            -255 <= d1 <= 255,
    ;
    assert(0 <= d2 * d2 <= 65025) by (nonlinear_arith)
        requires
            -255 <= d2 <= 255,
    ;
    let dist = d0 * d0 + d1 * d1 + d2 * d2;
    let t = tolerance as i32 + 1;
    assert(0 <= t * t <= 65536) by (nonlinear_arith)
        requires
            1 <= t <= 256,
    ;
    tolerance == 255 || dist < t * t
}

/// Whether `(x, y)` and `(u, v)` are horizontal or vertical neighbours.
pub open spec fn adjacent(a: (int, int), b: (int, int)) -> bool {
    (a.0 == b.0 && (a.1 == b.1 + 1 || a.1 + 1 == b.1)) || (a.1 == b.1 && (a.0 == b.0 + 1 || a.0
        + 1 == b.0))
}

/// Whether the wand may spread to `p`: it lies in the image, is not masked yet, and is alike
/// to the seed pixel.
pub open spec fn wand_open(mask: Seq<bool>, image: SourceImage, seed: (int, int), tolerance: u8, p: (int, int)) -> bool {
    image.in_bounds(p.0, p.1) && !mask[p.1 * image.width + p.0] && within_tolerance(
        image.pixel(seed.0, seed.1),
        image.pixel(p.0, p.1),
        tolerance,
    )
}

/// A path of neighbouring open pixels that starts at the seed.
pub open spec fn wand_path(
    mask: Seq<bool>,
    image: SourceImage,
    seed: (int, int),
    tolerance: u8,
    path: Seq<(int, int)>,
) -> bool {
    &&& path.len() > 0
    &&& path[0] == seed
    &&& forall|k: int| 0 <= k < path.len() ==> wand_open(mask, image, seed, tolerance, #[trigger] path[k])
    &&& forall|k: int| 0 <= k < path.len() - 1 ==> adjacent(#[trigger] path[k], path[k + 1])
}

/// Whether the wand, started at `seed` on `mask`, reaches `p`.
pub open spec fn wand_reaches(mask: Seq<bool>, image: SourceImage, seed: (int, int), tolerance: u8, p: (int, int)) -> bool {
    exists|path: Seq<(int, int)>|
        wand_path(mask, image, seed, tolerance, path) && #[trigger] path.last() == p
}


/// Where pixel `p` of an image of width `w` is stored.
pub open spec fn pixel_index(w: int, p: (int, int)) -> int {
    p.1 * w + p.0
}

/// The pixel stored at index `i` of an image of width `w`.
pub open spec fn pixel_pos(w: int, i: int) -> (int, int) {
    (i % w, i / w)
}

/// The index of a pixel inside the image lies inside the image, and gives the pixel back.
pub proof fn lemma_pixel_index(w: int, h: int, p: (int, int))
    requires
        0 <= p.0 < w,
        0 <= p.1 < h,
    ensures
        0 <= pixel_index(w, p) < w * h,
        pixel_pos(w, pixel_index(w, p)) == p,
{
    let i = pixel_index(w, p);
    vstd::arithmetic::div_mod::lemma_fundamental_div_mod_converse(i, w, p.1, p.0);
    assert(0 <= p.1 * w <= (h - 1) * w) by (nonlinear_arith)
        requires
            0 <= p.1 < h,
            0 < w,
    ;
    assert((h - 1) * w + w == w * h) by (nonlinear_arith);
}

/// The pixel of an index inside the image lies inside the image, and gives the index back.
pub proof fn lemma_pixel_pos(w: int, h: int, i: int)
    requires
        0 < w,
        0 <= i < w * h,
    ensures
        0 <= pixel_pos(w, i).0 < w,
        0 <= pixel_pos(w, i).1 < h,
        pixel_index(w, pixel_pos(w, i)) == i,
{
    vstd::arithmetic::div_mod::lemma_fundamental_div_mod(i, w);
    vstd::arithmetic::div_mod::lemma_mod_pos_bound(i, w);
    vstd::arithmetic::div_mod::lemma_div_pos_is_pos(i, w);
    let y = i / w;
    assert(y * w == w * y) by (nonlinear_arith);
    assert(y < h) by (nonlinear_arith)
        requires
            y * w <= i,
            i < w * h,
            0 < w,
    ;
}

/// The mask that the magic wand leaves: every pixel that was masked, or that the wand reaches
/// from the seed.
pub open spec fn wand_result(mask: Seq<bool>, image: SourceImage, seed: (int, int), tolerance: u8) -> Seq<bool> {
    Seq::new(
        mask.len(),
        |i: int| mask[i] || wand_reaches(mask, image, seed, tolerance, pixel_pos(image.width as int, i)),
    )
}

/// The wand spreads from its seed only: started on a masked pixel, it reaches nothing.
pub proof fn lemma_wand_from_masked_seed(
    mask: Seq<bool>,
    image: SourceImage,
    seed: (int, int),
    tolerance: u8,
    p: (int, int),
)
    requires
        mask[pixel_index(image.width as int, seed)],
    ensures
        !wand_reaches(mask, image, seed, tolerance, p),
{
    if wand_reaches(mask, image, seed, tolerance, p) {
        let path = choose|path: Seq<(int, int)>|
            wand_path(mask, image, seed, tolerance, path) && #[trigger] path.last() == p;
        assert(wand_open(mask, image, seed, tolerance, path[0]));
    }
}

/// Using the magic wand twice from the same seed does no more than using it once.
pub proof fn lemma_wand_twice(mask: Seq<bool>, image: SourceImage, seed: (int, int), tolerance: u8)
    requires
        image.wf(),
        mask.len() == image.width * image.height,
        image.in_bounds(seed.0, seed.1),
    ensures
        wand_result(wand_result(mask, image, seed, tolerance), image, seed, tolerance) == wand_result(
            mask,
            image,
            seed,
            tolerance,
        ),
{
    let w = image.width as int;
    let once = wand_result(mask, image, seed, tolerance);
    let s = pixel_index(w, seed);
    lemma_pixel_index(w, image.height as int, seed);
    assert(once[s]) by {
        if !mask[s] {
            let path = seq![seed];
            assert(color_distance_squared(image.pixel(seed.0, seed.1), image.pixel(seed.0, seed.1)) == 0);
            assert((tolerance + 1) * (tolerance + 1) > 0) by (nonlinear_arith);
            assert(wand_open(mask, image, seed, tolerance, path[0]));
            assert(wand_path(mask, image, seed, tolerance, path));
            assert(path.last() == pixel_pos(w, s));
        }
    }
    assert forall|i: int| 0 <= i < once.len() implies #[trigger] wand_result(once, image, seed, tolerance)[i]
        == once[i] by {
        lemma_wand_from_masked_seed(once, image, seed, tolerance, pixel_pos(w, i));
    }
    assert(wand_result(once, image, seed, tolerance) =~= once);
}

/// How many entries of a mask are unset.
pub open spec fn count_unset(s: Seq<bool>) -> nat
    decreases s.len(),
{
    if s.len() == 0 {
        0
    } else {
        count_unset(s.drop_last()) + if s.last() {
            0nat
        } else {
            1nat
        }
    }
}

proof fn lemma_count_unset_set(s: Seq<bool>, i: int)
    requires
        0 <= i < s.len(),
        !s[i],
    ensures
        count_unset(s.update(i, true)) + 1 == count_unset(s),
    decreases s.len(),
{
    let t = s.update(i, true);
    if i == s.len() - 1 {
        assert(t.drop_last() =~= s.drop_last());
    } else {
        assert(t.drop_last() =~= s.drop_last().update(i, true));
        lemma_count_unset_set(s.drop_last(), i);
    }
}

/// Whether pixel `n` is still waiting in `queue` at or after `head`.
pub open spec fn queued_from(queue: Seq<(usize, usize)>, head: int, n: (int, int)) -> bool {
    exists|k: int| head <= k < queue.len() && #[trigger] queue[k] == (n.0 as usize, n.1 as usize)
}

/// Pixel `i` was set by the wand (it was not set before).
pub open spec fn newly_set(old_mask: Seq<bool>, mask: Seq<bool>, i: int) -> bool {
    mask[i] && !old_mask[i]
}

/// Every in-bounds neighbour of pixel `i` is set, unlike the seed, or still queued.
pub open spec fn neighbours_settled(
    mask: Seq<bool>,
    image: SourceImage,
    seed: (int, int),
    tolerance: u8,
    queue: Seq<(usize, usize)>,
    head: int,
    i: int,
) -> bool {
    forall|n: (int, int)|
        image.in_bounds(n.0, n.1) && #[trigger] adjacent(pixel_pos(image.width as int, i), n)
            ==> mask[pixel_index(image.width as int, n)] || !within_tolerance(
            image.pixel(seed.0, seed.1),
            image.pixel(n.0, n.1),
            tolerance,
        ) || queued_from(queue, head, n)
}

/// Setting the pixel taken from the head of the queue, after queueing its neighbours, keeps
/// every set pixel's neighbours settled.
proof fn lemma_wand_step_settled(
    old_mask: Seq<bool>,
    before: Seq<bool>,
    mask: Seq<bool>,
    image: SourceImage,
    seed: (int, int),
    tolerance: u8,
    old_queue: Seq<(usize, usize)>,
    queue: Seq<(usize, usize)>,
    old_head: int,
    cur: (int, int),
)
    requires
        image.wf(),
        image.width > 0,
        before.len() == old_mask.len() == image.width * image.height,
        image.in_bounds(cur.0, cur.1),
        !before[pixel_index(image.width as int, cur)],
        mask == before.update(pixel_index(image.width as int, cur), true),
        0 <= old_head < old_queue.len(),
        old_queue[old_head] == (cur.0 as usize, cur.1 as usize),
        queue.len() >= old_queue.len(),
        forall|k: int| 0 <= k < old_queue.len() ==> queue[k] == old_queue[k],
        forall|n: (int, int)|
            image.in_bounds(n.0, n.1) && adjacent(cur, n) ==> queued_from(
                queue,
                old_queue.len() as int,
                n,
            ),
        forall|i: int|
            0 <= i < before.len() && #[trigger] newly_set(old_mask, before, i) ==> neighbours_settled(
                before,
                image,
                seed,
                tolerance,
                old_queue,
                old_head,
                i,
            ),
    ensures
        forall|i: int|
            0 <= i < mask.len() && #[trigger] newly_set(old_mask, mask, i) ==> neighbours_settled(
                mask,
                image,
                seed,
                tolerance,
                queue,
                old_head + 1,
                i,
            ),
{
    let w = image.width as int;
    let h = image.height as int;
    let ci = pixel_index(w, cur);
    lemma_pixel_index(w, h, cur);
    assert forall|i: int| 0 <= i < mask.len() && #[trigger] newly_set(old_mask, mask, i) implies neighbours_settled(
        mask,
        image,
        seed,
        tolerance,
        queue,
        old_head + 1,
        i,
    ) by {
        assert forall|n: (int, int)|
            image.in_bounds(n.0, n.1) && #[trigger] adjacent(pixel_pos(w, i), n) implies mask[pixel_index(
            w,
            n,
        )] || !within_tolerance(image.pixel(seed.0, seed.1), image.pixel(n.0, n.1), tolerance)
            || queued_from(queue, old_head + 1, n) by {
            lemma_pixel_index(w, h, n);
            if i == ci {
                let k = choose|k: int|
                    old_queue.len() <= k < queue.len() && #[trigger] queue[k] == (
                        n.0 as usize,
                        n.1 as usize,
                    );
                assert(old_head + 1 <= k);
            } else {
                assert(newly_set(old_mask, before, i));
                assert(neighbours_settled(before, image, seed, tolerance, old_queue, old_head, i));
                if !mask[pixel_index(w, n)] && within_tolerance(
                    image.pixel(seed.0, seed.1),
                    image.pixel(n.0, n.1),
                    tolerance,
                ) {
                    assert(queued_from(old_queue, old_head, n));
                    let k = choose|k: int|
                        old_head <= k < old_queue.len() && #[trigger] old_queue[k] == (
                            n.0 as usize,
                            n.1 as usize,
                        );
                    assert(queue[k] == old_queue[k]);
                    if k == old_head {
                        assert(n == cur);
                    }
                }
            }
        }
    }
}

/// Dropping a queued pixel that is not alike to the seed keeps every set pixel's neighbours
/// settled.
proof fn lemma_wand_skip_settled(
    old_mask: Seq<bool>,
    mask: Seq<bool>,
    image: SourceImage,
    seed: (int, int),
    tolerance: u8,
    queue: Seq<(usize, usize)>,
    old_head: int,
    cur: (int, int),
)
    requires
        image.wf(),
        image.width > 0,
        mask.len() == old_mask.len() == image.width * image.height,
        image.in_bounds(cur.0, cur.1),
        !within_tolerance(image.pixel(seed.0, seed.1), image.pixel(cur.0, cur.1), tolerance),
        0 <= old_head < queue.len(),
        queue[old_head] == (cur.0 as usize, cur.1 as usize),
        forall|i: int|
            0 <= i < mask.len() && #[trigger] newly_set(old_mask, mask, i) ==> neighbours_settled(
                mask,
                image,
                seed,
                tolerance,
                queue,
                old_head,
                i,
            ),
    ensures
        forall|i: int|
            0 <= i < mask.len() && #[trigger] newly_set(old_mask, mask, i) ==> neighbours_settled(
                mask,
                image,
                seed,
                tolerance,
                queue,
                old_head + 1,
                i,
            ),
{
    let w = image.width as int;
    let h = image.height as int;
    assert forall|i: int| 0 <= i < mask.len() && #[trigger] newly_set(old_mask, mask, i) implies neighbours_settled(
        mask,
        image,
        seed,
        tolerance,
        queue,
        old_head + 1,
        i,
    ) by {
        assert forall|n: (int, int)|
            image.in_bounds(n.0, n.1) && #[trigger] adjacent(pixel_pos(w, i), n) implies mask[pixel_index(
            w,
            n,
        )] || !within_tolerance(image.pixel(seed.0, seed.1), image.pixel(n.0, n.1), tolerance)
            || queued_from(queue, old_head + 1, n) by {
            assert(neighbours_settled(mask, image, seed, tolerance, queue, old_head, i));
            if !mask[pixel_index(w, n)] && within_tolerance(
                image.pixel(seed.0, seed.1),
                image.pixel(n.0, n.1),
                tolerance,
            ) {
                let k = choose|k: int|
                    old_head <= k < queue.len() && #[trigger] queue[k] == (n.0 as usize, n.1 as usize);
                if k == old_head {
                    assert(n == cur);
                }
            }
        }
    }
}

/// Everything the wand has set is reachable from the seed.
proof fn lemma_wand_extend(
    old_mask: Seq<bool>,
    image: SourceImage,
    seed: (int, int),
    tolerance: u8,
    from: (int, int),
    to: (int, int),
)
    requires
        wand_reaches(old_mask, image, seed, tolerance, from),
        adjacent(from, to),
        wand_open(old_mask, image, seed, tolerance, to),
    ensures
        wand_reaches(old_mask, image, seed, tolerance, to),
{
    let path = choose|path: Seq<(int, int)>|
        wand_path(old_mask, image, seed, tolerance, path) && #[trigger] path.last() == from;
    let next = path.push(to);
    assert forall|k: int| 0 <= k < next.len() implies wand_open(
        old_mask,
        image,
        seed,
        tolerance,
        #[trigger] next[k],
    ) by {
        if k < path.len() {
            assert(next[k] == path[k]);
        }
    }
    assert forall|k: int| 0 <= k < next.len() - 1 implies adjacent(#[trigger] next[k], next[k + 1]) by {
        if k < path.len() - 1 {
            assert(next[k] == path[k]);
            assert(next[k + 1] == path[k + 1]);
        } else {
            assert(next[k] == from);
        }
    }
    assert(wand_path(old_mask, image, seed, tolerance, next));
    assert(next.last() == to);
}

/// The seed reaches itself when it is open.
proof fn lemma_wand_seed(old_mask: Seq<bool>, image: SourceImage, seed: (int, int), tolerance: u8)
    requires
        wand_open(old_mask, image, seed, tolerance, seed),
    ensures
        wand_reaches(old_mask, image, seed, tolerance, seed),
{
    let path = seq![seed];
    assert(wand_path(old_mask, image, seed, tolerance, path));
    assert(path.last() == seed);
}

/// Once nothing is queued, every pixel on a path from the seed has been set by the wand.
proof fn lemma_wand_complete(
    old_mask: Seq<bool>,
    mask: Seq<bool>,
    image: SourceImage,
    seed: (int, int),
    tolerance: u8,
    queue: Seq<(usize, usize)>,
    path: Seq<(int, int)>,
    k: int,
)
    requires
        image.wf(),
        image.width > 0,
        mask.len() == old_mask.len() == image.width * image.height,
        wand_path(old_mask, image, seed, tolerance, path),
        newly_set(old_mask, mask, pixel_index(image.width as int, seed)),
        forall|i: int|
            0 <= i < mask.len() && newly_set(old_mask, mask, i) ==> neighbours_settled(
                mask,
                image,
                seed,
                tolerance,
                queue,
                queue.len() as int,
                i,
            ),
        0 <= k < path.len(),
    ensures
        newly_set(old_mask, mask, pixel_index(image.width as int, path[k])),
    decreases k,
{
    if k > 0 {
        lemma_wand_complete(old_mask, mask, image, seed, tolerance, queue, path, k - 1);
        let prev = path[k - 1];
        let cur = path[k];
        assert(adjacent(path[k - 1], path[k]));
        assert(wand_open(old_mask, image, seed, tolerance, path[k - 1]));
        assert(wand_open(old_mask, image, seed, tolerance, path[k]));
        let w = image.width as int;
        let h = image.height as int;
        lemma_pixel_index(w, h, prev);
        let pi = pixel_index(w, prev);
        assert(neighbours_settled(mask, image, seed, tolerance, queue, queue.len() as int, pi));
        assert(adjacent(pixel_pos(w, pi), cur));
        lemma_pixel_index(w, h, cur);
    }
}

/// What holds of the wand's state between two steps: the mask only grows, what it set is
/// reachable, every queued pixel is the seed or next to a set pixel, and the neighbours of set
/// pixels are set, unlike the seed, or still queued.
#[verifier::opaque]
pub open spec fn wand_state(
    old_mask: Seq<bool>,
    mask: Seq<bool>,
    image: SourceImage,
    s: (int, int),
    tolerance: u8,
    queue: Seq<(usize, usize)>,
    parents: Seq<int>,
    head: int,
) -> bool {
    let w = image.width as int;
    let h = image.height as int;
    &&& image.wf()
    &&& w > 0
    &&& h > 0
    &&& 0 <= s.0 < w
    &&& 0 <= s.1 < h
    &&& mask.len() == old_mask.len() == w * h
    &&& 0 <= head <= queue.len()
    &&& queue.len() >= 1
    &&& queue[0] == (s.0 as usize, s.1 as usize)
    &&& parents.len() == queue.len()
    &&& forall|k: int| 0 <= k < queue.len() ==> (#[trigger] queue[k]).0 < w && queue[k].1 < h
    &&& forall|i: int| 0 <= i < mask.len() ==> old_mask[i] ==> #[trigger] mask[i]
    &&& forall|i: int|
        0 <= i < mask.len() && #[trigger] newly_set(old_mask, mask, i) ==> wand_reaches(
            old_mask,
            image,
            s,
            tolerance,
            pixel_pos(w, i),
        )
    &&& forall|k: int|
        0 <= k < queue.len() ==> {
            let pk = #[trigger] parents[k];
            (pk == -1 && queue[k] == (s.0 as usize, s.1 as usize)) || (0 <= pk < mask.len()
                && newly_set(old_mask, mask, pk) && adjacent(
                pixel_pos(w, pk),
                (queue[k].0 as int, queue[k].1 as int),
            ))
        }
    &&& forall|i: int|
        0 <= i < mask.len() && #[trigger] newly_set(old_mask, mask, i) ==> neighbours_settled(
            mask,
            image,
            s,
            tolerance,
            queue,
            head,
            i,
        )
    &&& head > 0 ==> old_mask[pixel_index(w, s)] || mask[pixel_index(w, s)]
}

/// Queues the in-bounds neighbours of `(x, y)`: left, right, up, down.
fn queue_neighbours(queue: &mut Vec<(usize, usize)>, x: usize, y: usize, width: usize, height: usize)
    requires
        x < width,
        y < height,
    ensures
        old(queue).len() <= final(queue).len() <= old(queue).len() + 4,
        forall|k: int| 0 <= k < old(queue).len() ==> final(queue)@[k] == old(queue)@[k],
        forall|k: int|
            old(queue).len() <= k < final(queue).len() ==> (#[trigger] final(queue)@[k]).0 < width
                && final(queue)@[k].1 < height && adjacent(
                (x as int, y as int),
                (final(queue)@[k].0 as int, final(queue)@[k].1 as int),
            ),
        forall|n: (int, int)|
            0 <= n.0 < width && 0 <= n.1 < height && adjacent((x as int, y as int), n)
                ==> queued_from(final(queue)@, old(queue).len() as int, n),
{
    let ghost q0 = queue.len() as int;
    let ghost mut kl: int = -1;
    let ghost mut kr: int = -1;
    let ghost mut ku: int = -1;
    let ghost mut kd: int = -1;
    if x > 0 {
        proof {
            kl = queue.len() as int;
        }
        queue.push((x - 1, y));
    }
    if x + 1 < width {
        proof {
            kr = queue.len() as int;
        }
        queue.push((x + 1, y));
    }
    if y > 0 {
        proof {
            ku = queue.len() as int;
        }
        queue.push((x, y - 1));
    }
    if y + 1 < height {
        proof {
            kd = queue.len() as int;
        }
        queue.push((x, y + 1));
    }
    proof {
        let cur = (x as int, y as int);
        assert(x > 0 ==> queue@[kl] == ((x - 1) as usize, y) && q0 <= kl);
        assert(x + 1 < width ==> queue@[kr] == ((x + 1) as usize, y) && q0 <= kr);
        assert(y > 0 ==> queue@[ku] == (x, (y - 1) as usize) && q0 <= ku);
        assert(y + 1 < height ==> queue@[kd] == (x, (y + 1) as usize) && q0 <= kd);
        assert forall|n: (int, int)|
            0 <= n.0 < width && 0 <= n.1 < height && adjacent(cur, n) implies queued_from(
            queue@,
            q0,
            n,
        ) by {
            if n == (cur.0 - 1, cur.1) {
                assert(queue@[kl] == (n.0 as usize, n.1 as usize));
            } else if n == (cur.0 + 1, cur.1) {
                assert(queue@[kr] == (n.0 as usize, n.1 as usize));
            } else if n == (cur.0, cur.1 - 1) {
                assert(queue@[ku] == (n.0 as usize, n.1 as usize));
            } else {
                assert(queue@[kd] == (n.0 as usize, n.1 as usize));
            }
        }
    }
}

/// Dropping a queued pixel that is already set keeps every set pixel's neighbours settled.
proof fn lemma_wand_masked_settled(
    old_mask: Seq<bool>,
    mask: Seq<bool>,
    image: SourceImage,
    seed: (int, int),
    tolerance: u8,
    queue: Seq<(usize, usize)>,
    old_head: int,
    cur: (int, int),
)
    requires
        image.wf(),
        image.width > 0,
        mask.len() == old_mask.len() == image.width * image.height,
        image.in_bounds(cur.0, cur.1),
        mask[pixel_index(image.width as int, cur)],
        0 <= old_head < queue.len(),
        queue[old_head] == (cur.0 as usize, cur.1 as usize),
        forall|i: int|
            0 <= i < mask.len() && #[trigger] newly_set(old_mask, mask, i) ==> neighbours_settled(
                mask,
                image,
                seed,
                tolerance,
                queue,
                old_head,
                i,
            ),
    ensures
        forall|i: int|
            0 <= i < mask.len() && #[trigger] newly_set(old_mask, mask, i) ==> neighbours_settled(
                mask,
                image,
                seed,
                tolerance,
                queue,
                old_head + 1,
                i,
            ),
{
    let w = image.width as int;
    let h = image.height as int;
    assert forall|i: int| 0 <= i < mask.len() && #[trigger] newly_set(old_mask, mask, i) implies neighbours_settled(
        mask,
        image,
        seed,
        tolerance,
        queue,
        old_head + 1,
        i,
    ) by {
        assert forall|n: (int, int)|
            image.in_bounds(n.0, n.1) && #[trigger] adjacent(pixel_pos(w, i), n) implies mask[pixel_index(
            w,
            n,
        )] || !within_tolerance(image.pixel(seed.0, seed.1), image.pixel(n.0, n.1), tolerance)
            || queued_from(queue, old_head + 1, n) by {
            assert(neighbours_settled(mask, image, seed, tolerance, queue, old_head, i));
            if !mask[pixel_index(w, n)] && within_tolerance(
                image.pixel(seed.0, seed.1),
                image.pixel(n.0, n.1),
                tolerance,
            ) {
                let k = choose|k: int|
                    old_head <= k < queue.len() && #[trigger] queue[k] == (n.0 as usize, n.1 as usize);
                if k == old_head {
                    assert(n == cur);
                }
            }
        }
    }
}

proof fn lemma_state_after_masked(
    old_mask: Seq<bool>,
    mask: Seq<bool>,
    image: SourceImage,
    s: (int, int),
    tolerance: u8,
    queue: Seq<(usize, usize)>,
    parents: Seq<int>,
    head: int,
    cur: (int, int),
)
    requires
        wand_state(old_mask, mask, image, s, tolerance, queue, parents, head),
        head < queue.len(),
        queue[head] == (cur.0 as usize, cur.1 as usize),
        image.in_bounds(cur.0, cur.1),
        mask[pixel_index(image.width as int, cur)],
    ensures
        wand_state(old_mask, mask, image, s, tolerance, queue, parents, head + 1),
{
    reveal(wand_state);
    if head == 0 {
        assert(cur == s);
    }
    lemma_wand_masked_settled(old_mask, mask, image, s, tolerance, queue, head, cur);
}

proof fn lemma_state_after_unlike(
    old_mask: Seq<bool>,
    mask: Seq<bool>,
    image: SourceImage,
    s: (int, int),
    tolerance: u8,
    queue: Seq<(usize, usize)>,
    parents: Seq<int>,
    head: int,
    cur: (int, int),
)
    requires
        wand_state(old_mask, mask, image, s, tolerance, queue, parents, head),
        head < queue.len(),
        queue[head] == (cur.0 as usize, cur.1 as usize),
        image.in_bounds(cur.0, cur.1),
        !within_tolerance(image.pixel(s.0, s.1), image.pixel(cur.0, cur.1), tolerance),
    ensures
        wand_state(old_mask, mask, image, s, tolerance, queue, parents, head + 1),
{
    reveal(wand_state);
    if head == 0 {
        assert(cur == s);
        let p = image.pixel(s.0, s.1);
        assert(color_distance_squared(p, p) == 0) by (nonlinear_arith);
        assert((tolerance + 1) * (tolerance + 1) > 0) by (nonlinear_arith);
    }
    lemma_wand_skip_settled(old_mask, mask, image, s, tolerance, queue, head, cur);
}

#[verifier::rlimit(50)]
proof fn lemma_state_after_set(
    old_mask: Seq<bool>,
    before: Seq<bool>,
    mask: Seq<bool>,
    image: SourceImage,
    s: (int, int),
    tolerance: u8,
    old_queue: Seq<(usize, usize)>,
    queue: Seq<(usize, usize)>,
    parents: Seq<int>,
    head: int,
    cur: (int, int),
) -> (ps: Seq<int>)
    requires
        wand_state(old_mask, before, image, s, tolerance, old_queue, parents, head),
        head < old_queue.len(),
        old_queue[head] == (cur.0 as usize, cur.1 as usize),
        image.in_bounds(cur.0, cur.1),
        !before[pixel_index(image.width as int, cur)],
        within_tolerance(image.pixel(s.0, s.1), image.pixel(cur.0, cur.1), tolerance),
        mask == before.update(pixel_index(image.width as int, cur), true),
        old_queue.len() <= queue.len(),
        forall|k: int| 0 <= k < old_queue.len() ==> queue[k] == old_queue[k],
        forall|k: int|
            old_queue.len() <= k < queue.len() ==> (#[trigger] queue[k]).0 < image.width
                && queue[k].1 < image.height && adjacent(cur, (queue[k].0 as int, queue[k].1 as int)),
        forall|n: (int, int)|
            image.in_bounds(n.0, n.1) && adjacent(cur, n) ==> queued_from(
                queue,
                old_queue.len() as int,
                n,
            ),
    ensures
        wand_state(old_mask, mask, image, s, tolerance, queue, ps, head + 1),
        ps.len() == queue.len(),
{
    reveal(wand_state);
    let w = image.width as int;
    let h = image.height as int;
    let pcur = parents[head];
    let new_index = pixel_index(w, cur);
    lemma_pixel_index(w, h, cur);
    lemma_pixel_index(w, h, s);
    assert(!old_mask[new_index]);
    assert(wand_open(old_mask, image, s, tolerance, cur));
    if pcur == -1 {
        lemma_wand_seed(old_mask, image, s, tolerance);
    } else {
        assert(newly_set(old_mask, before, pcur));
        lemma_pixel_pos(w, h, pcur);
        lemma_wand_extend(old_mask, image, s, tolerance, pixel_pos(w, pcur), cur);
    }
    if head == 0 {
        assert(cur == s);
    }
    assert(old_mask[pixel_index(w, s)] || mask[pixel_index(w, s)]) by {
        if pixel_index(w, s) != new_index {
            assert(mask[pixel_index(w, s)] == before[pixel_index(w, s)]);
        }
    }
    lemma_wand_step_settled(old_mask, before, mask, image, s, tolerance, old_queue, queue, head, cur);
    assert forall|i: int|
        0 <= i < mask.len() && #[trigger] newly_set(old_mask, mask, i) implies wand_reaches(
        old_mask,
        image,
        s,
        tolerance,
        pixel_pos(w, i),
    ) by {
        if i != new_index {
            assert(newly_set(old_mask, before, i));
        }
    }
    let ps = parents + Seq::new((queue.len() - old_queue.len()) as nat, |k: int| new_index);
    assert forall|k: int| 0 <= k < queue.len() implies {
        let pk = #[trigger] ps[k];
        (pk == -1 && queue[k] == (s.0 as usize, s.1 as usize)) || (0 <= pk < mask.len()
            && newly_set(old_mask, mask, pk) && adjacent(
            pixel_pos(w, pk),
            (queue[k].0 as int, queue[k].1 as int),
        ))
    } by {
        if k < old_queue.len() {
            assert(ps[k] == parents[k]);
            assert(queue[k] == old_queue[k]);
            if parents[k] != -1 {
                assert(newly_set(old_mask, before, parents[k]));
            }
        } else {
            assert(ps[k] == new_index);
        }
    }
    assert forall|i: int| 0 <= i < mask.len() && old_mask[i] implies #[trigger] mask[i] by {
        if i != new_index {
            assert(mask[i] == before[i]);
        }
    }
    assert forall|k: int| 0 <= k < queue.len() implies (#[trigger] queue[k]).0 < w && queue[k].1 < h by {
        if k < old_queue.len() {
            assert(queue[k] == old_queue[k]);
        }
    }
    ps
}

/// One step of the wand: takes the pixel at the head of the queue and, if it is unset and alike
/// to the seed, sets it and queues its neighbours.
fn wand_step(
    mask: &mut [bool],
    queue: &mut Vec<(usize, usize)>,
    head: usize,
    wand_source_image: &SourceImage,
    seed_pixel: [u8; 4],
    tolerance: u8,
    Ghost(old_mask): Ghost<Seq<bool>>,
    Ghost(s): Ghost<(int, int)>,
    Ghost(parents): Ghost<Seq<int>>,
) -> (new_parents: Ghost<Seq<int>>)
    requires
        wand_state(old_mask, old(mask)@, *wand_source_image, s, tolerance, old(queue)@, parents, head as int),
        head < old(queue).len(),
        seed_pixel == wand_source_image.pixel(s.0, s.1),
        wand_source_image.wf(),
        old(mask).len() == wand_source_image.width * wand_source_image.height,
        wand_source_image.width > 0,
        forall|k: int|
            0 <= k < old(queue).len() ==> (#[trigger] old(queue)@[k]).0 < wand_source_image.width
                && old(queue)@[k].1 < wand_source_image.height,
    ensures
        wand_state(
            old_mask,
            final(mask)@,
            *wand_source_image,
            s,
            tolerance,
            final(queue)@,
            new_parents@,
            head + 1,
        ),
        final(mask).len() == old(mask).len(),
        final(queue).len() >= old(queue).len(),
        forall|k: int|
            0 <= k < final(queue).len() ==> (#[trigger] final(queue)@[k]).0 < wand_source_image.width
                && final(queue)@[k].1 < wand_source_image.height,
        4 * count_unset(final(mask)@) + (final(queue).len() - head - 1) < 4 * count_unset(old(mask)@)
            + (old(queue).len() - head),
{
    let ghost image = *wand_source_image;
    let width = wand_source_image.width as usize;
    let height = wand_source_image.height as usize;
    let ghost w = width as int;
    let ghost h = height as int;
    let (x, y) = queue[head];
    let ghost cur = (x as int, y as int);
    let ghost old_queue = queue@;
    let ghost before = mask@;
    proof {
        lemma_pixel_index(w, h, cur);
        assert(0 <= y * width + x < width * height) by (nonlinear_arith)
            requires
                x < width,
                y < height,
        ;
    }
    let index = y * width + x;
    if mask[index] {
        proof {
            lemma_state_after_masked(old_mask, mask@, image, s, tolerance, queue@, parents, head as int, cur);
        }
        return Ghost(parents);
    }
    let current_pixel = wand_source_image.pixels[index];
    if !colors_within_tolerance(seed_pixel, current_pixel, tolerance) {
        proof {
            lemma_state_after_unlike(old_mask, mask@, image, s, tolerance, queue@, parents, head as int, cur);
        }
        return Ghost(parents);
    }
    mask[index] = true;
    proof {
        lemma_count_unset_set(before, index as int);
    }
    queue_neighbours(queue, x, y, width, height);
    let ghost ps = lemma_state_after_set(
        old_mask,
        before,
        mask@,
        image,
        s,
        tolerance,
        old_queue,
        queue@,
        parents,
        head as int,
        cur,
    );
    Ghost(ps)
}

/// Selects, from `seed` on, every pixel that is alike to the seed pixel within `tolerance` and
/// connected to the seed through such pixels, without crossing pixels that were set before.
/// Pixels that were set before stay set; if the seed itself was set, nothing changes.
pub fn magic_wand(
    mask: &mut [bool],
    seed: (usize, usize),
    wand_source_image: &SourceImage,
    tolerance: u8,
)
    requires
        wand_source_image.wf(),
        old(mask).len() == wand_source_image.width * wand_source_image.height,
        seed.0 < wand_source_image.width,
        seed.1 < wand_source_image.height,
    ensures
        final(mask).len() == old(mask).len(),
        forall|i: int|
            0 <= i < old(mask).len() ==> #[trigger] final(mask)@[i] == (old(mask)@[i] || wand_reaches(
                old(mask)@,
                *wand_source_image,
                (seed.0 as int, seed.1 as int),
                tolerance,
                pixel_pos(wand_source_image.width as int, i),
            )),
{
    let ghost old_mask = mask@;
    let ghost image = *wand_source_image;
    let ghost s = (seed.0 as int, seed.1 as int);
    let width = wand_source_image.width as usize;
    let ghost w = width as int;
    let ghost h = wand_source_image.height as int;
    proof {
        lemma_pixel_index(w, h, s);
    }
    let seed_pixel = wand_source_image.pixels[seed.1 * width + seed.0];
    let mut queue: Vec<(usize, usize)> = Vec::new();
    queue.push(seed);
    let ghost mut parents: Seq<int> = seq![-1int];
    let mut head: usize = 0;
    proof {
        reveal(wand_state);
        assert(queue@[0] == seed);
    }
    while head < queue.len()
        invariant
            head <= queue.len(),
            image == *wand_source_image,
            s == (seed.0 as int, seed.1 as int),
            w == image.width,
            h == image.height,
            seed_pixel == image.pixel(s.0, s.1),
            image.wf(),
            w > 0,
            mask.len() == old_mask.len() == w * h,
            forall|k: int|
                0 <= k < queue.len() ==> (#[trigger] queue@[k]).0 < w && queue@[k].1 < h,
            wand_state(old_mask, mask@, image, s, tolerance, queue@, parents, head as int),
        decreases 4 * count_unset(mask@) + queue.len() - head,
    {
        let ghost_parents = wand_step(
            mask,
            &mut queue,
            head,
            wand_source_image,
            seed_pixel,
            tolerance,
            Ghost(old_mask),
            Ghost(s),
            Ghost(parents),
        );
        proof {
            parents = ghost_parents@;
        }
        head += 1;
    }
    proof {
        reveal(wand_state);
        assert forall|i: int| 0 <= i < old_mask.len() implies #[trigger] mask@[i] == (old_mask[i]
            || wand_reaches(old_mask, image, s, tolerance, pixel_pos(w, i))) by {
            lemma_pixel_pos(w, h, i);
            if mask@[i] && !old_mask[i] {
                assert(newly_set(old_mask, mask@, i));
            }
            if wand_reaches(old_mask, image, s, tolerance, pixel_pos(w, i)) && !old_mask[i] {
                let path = choose|path: Seq<(int, int)>|
                    wand_path(old_mask, image, s, tolerance, path) && #[trigger] path.last()
                        == pixel_pos(w, i);
                assert(wand_open(old_mask, image, s, tolerance, path[0]));
                assert(!old_mask[pixel_index(w, s)]);
                assert(mask@[pixel_index(w, s)]);
                assert(path[path.len() - 1] == path.last());
                lemma_wand_complete(
                    old_mask,
                    mask@,
                    image,
                    s,
                    tolerance,
                    queue@,
                    path,
                    path.len() - 1,
                );
            }
        }
    }
}


/// Whether pixel `p` lies within `radius` of `(x, y)`.
pub open spec fn in_brush(x: int, y: int, radius: int, p: (int, int)) -> bool {
    (p.0 - x) * (p.0 - x) + (p.1 - y) * (p.1 - y) <= radius * radius
}

proof fn lemma_in_brush_bounds(x: int, y: int, r: int, p: (int, int))
    requires
        0 <= r,
        in_brush(x, y, r, p),
    ensures
        -r <= p.0 - x <= r,
        -r <= p.1 - y <= r,
{
    let a = p.0 - x;
    let b = p.1 - y;
    assert(a * a <= r * r && b * b <= r * r) by (nonlinear_arith)
        requires
            a * a + b * b <= r * r,
    ;
    assert(-r <= a <= r) by (nonlinear_arith)
        requires
            a * a <= r * r,
            0 <= r,
    ;
    assert(-r <= b <= r) by (nonlinear_arith)
        requires
            b * b <= r * r,
            0 <= r,
    ;
}

/// Paints a disc of `radius` pixels around `(x, y)` into a mask of `width` columns: every pixel
/// of the disc that lies in the image is set to `add` (add or subtract brush).
pub fn paint_brush(mask: &mut [bool], width: usize, height: usize, x: usize, y: usize, radius: u32, add: bool)
    requires
        old(mask).len() == width * height,
        x <= width,
        y <= height,
    ensures
        final(mask).len() == old(mask).len(),
        forall|i: int|
            0 <= i < old(mask).len() ==> #[trigger] final(mask)@[i] == if in_brush(
                x as int,
                y as int,
                radius as int,
                pixel_pos(width as int, i),
            ) {
                add
            } else {
                old(mask)@[i]
            },
{
    if width == 0 {
        return;
    }
    let ghost old_mask = mask@;
    let ghost w = width as int;
    let ghost h = height as int;
    let r = radius as i128;
    let cx = x as i128;
    let cy = y as i128;
    let iw = width as i128;
    let ih = height as i128;
    assert(0 <= r * r <= 0xffff_ffff * 0xffff_ffff) by (nonlinear_arith)
        requires
            0 <= r <= 0xffff_ffff,
    ;
    let mut dy: i128 = -r;
    assert forall|i: int| 0 <= i < mask.len() implies #[trigger] mask@[i] == if in_brush(
        x as int,
        y as int,
        r as int,
        pixel_pos(w, i),
    ) && pixel_pos(w, i).1 - y < dy {
        add
    } else {
        old_mask[i]
    } by {
        if in_brush(x as int, y as int, r as int, pixel_pos(w, i)) {
            lemma_in_brush_bounds(x as int, y as int, r as int, pixel_pos(w, i));
        }
    }
    while dy <= r
        invariant
            mask.len() == old_mask.len() == w * h,
            w == width,
            h == height,
            w > 0,
            iw == w,
            ih == h,
            cx == x,
            cy == y,
            x <= width,
            y <= height,
            r == radius,
            0 <= r <= 0xffff_ffff,
            -r <= dy <= r + 1,
            forall|i: int|
                0 <= i < mask.len() ==> #[trigger] mask@[i] == if in_brush(
                    x as int,
                    y as int,
                    r as int,
                    pixel_pos(w, i),
                ) && pixel_pos(w, i).1 - y < dy {
                    add
                } else {
                    old_mask[i]
                },
        decreases r + 1 - dy,
    {
        let mut dx: i128 = -r;
        assert forall|i: int| 0 <= i < mask.len() implies #[trigger] mask@[i] == if in_brush(
            x as int,
            y as int,
            r as int,
            pixel_pos(w, i),
        ) && (pixel_pos(w, i).1 - y < dy || (pixel_pos(w, i).1 - y == dy && pixel_pos(w, i).0 - x
            < dx)) {
            add
        } else {
            old_mask[i]
        } by {
            if in_brush(x as int, y as int, r as int, pixel_pos(w, i)) {
                lemma_in_brush_bounds(x as int, y as int, r as int, pixel_pos(w, i));
            }
        }
        while dx <= r
            invariant
                mask.len() == old_mask.len() == w * h,
                w == width,
                h == height,
                w > 0,
                iw == w,
                ih == h,
                cx == x,
                cy == y,
                x <= width,
                y <= height,
                r == radius,
                0 <= r <= 0xffff_ffff,
                -r <= dy <= r,
                -r <= dx <= r + 1,
                forall|i: int|
                    0 <= i < mask.len() ==> #[trigger] mask@[i] == if in_brush(
                        x as int,
                        y as int,
                        r as int,
                        pixel_pos(w, i),
                    ) && (pixel_pos(w, i).1 - y < dy || (pixel_pos(w, i).1 - y == dy && pixel_pos(
                        w,
                        i,
                    ).0 - x < dx)) {
                        add
                    } else {
                        old_mask[i]
                    },
            decreases r + 1 - dx,
        {
            let px = cx + dx;
            let py = cy + dy;
            let ghost before = mask@;
            if px >= 0 && px < iw && py >= 0 && py < ih {
                assert(r * r <= 0xffff_ffff * 0xffff_ffff) by (nonlinear_arith)
                    requires
                        0 <= r <= 0xffff_ffff,
                ;
                assert(0 <= dx * dx) by (nonlinear_arith);
                assert(0 <= dy * dy) by (nonlinear_arith);
                assert(dx * dx <= r * r) by (nonlinear_arith)
                    requires
                        -r <= dx <= r,
                        0 <= r,
                ;
                assert(dy * dy <= r * r) by (nonlinear_arith)
                    requires
                        -r <= dy <= r,
                        0 <= r,
                ;
                if dx * dx + dy * dy <= r * r {
                    proof {
                        lemma_pixel_index(w, h, (px as int, py as int));
                        assert(0 <= py * iw + px < iw * ih) by (nonlinear_arith)
                            requires
                                0 <= px < iw,
                                0 <= py < ih,
                        ;
                        assert(iw * ih <= usize::MAX);
                        assert(0 <= py * iw <= iw * ih) by (nonlinear_arith)
                            requires
                                0 <= py < ih,
                                0 <= iw,
                        ;
                    }
                    let idx = (py * iw + px) as usize;
                    mask[idx] = add;
                    assert forall|i: int| 0 <= i < mask.len() implies #[trigger] mask@[i] == if in_brush(
                        x as int,
                        y as int,
                        r as int,
                        pixel_pos(w, i),
                    ) && (pixel_pos(w, i).1 - y < dy || (pixel_pos(w, i).1 - y == dy && pixel_pos(
                        w,
                        i,
                    ).0 - x < dx + 1)) {
                        add
                    } else {
                        old_mask[i]
                    } by {
                        lemma_pixel_pos(w, h, i);
                        if i != idx {
                            assert(mask@[i] == before[i]);
                        }
                    }
                } else {
                    assert forall|i: int| 0 <= i < mask.len() implies #[trigger] mask@[i] == if in_brush(
                        x as int,
                        y as int,
                        r as int,
                        pixel_pos(w, i),
                    ) && (pixel_pos(w, i).1 - y < dy || (pixel_pos(w, i).1 - y == dy && pixel_pos(
                        w,
                        i,
                    ).0 - x < dx + 1)) {
                        add
                    } else {
                        old_mask[i]
                    } by {
                        lemma_pixel_pos(w, h, i);
                    }
                }
            } else {
                assert forall|i: int| 0 <= i < mask.len() implies #[trigger] mask@[i] == if in_brush(
                    x as int,
                    y as int,
                    r as int,
                    pixel_pos(w, i),
                ) && (pixel_pos(w, i).1 - y < dy || (pixel_pos(w, i).1 - y == dy && pixel_pos(
                    w,
                    i,
                ).0 - x < dx + 1)) {
                    add
                } else {
                    old_mask[i]
                } by {
                    lemma_pixel_pos(w, h, i);
                }
            }
            dx += 1;
        }
        assert forall|i: int| 0 <= i < mask.len() implies #[trigger] mask@[i] == if in_brush(
            x as int,
            y as int,
            r as int,
            pixel_pos(w, i),
        ) && pixel_pos(w, i).1 - y < dy + 1 {
            add
        } else {
            old_mask[i]
        } by {
            if in_brush(x as int, y as int, r as int, pixel_pos(w, i)) {
                lemma_in_brush_bounds(x as int, y as int, r as int, pixel_pos(w, i));
            }
        }
        dy += 1;
    }
    assert forall|i: int| 0 <= i < mask.len() implies #[trigger] mask@[i] == if in_brush(
        x as int,
        y as int,
        radius as int,
        pixel_pos(w, i),
    ) {
        add
    } else {
        old_mask[i]
    } by {
        lemma_pixel_pos(w, h, i);
        let p = pixel_pos(w, i);
        if in_brush(x as int, y as int, r as int, p) {
            let ddx = p.0 - x;
            let ddy = p.1 - y;
            assert(ddy * ddy <= r * r) by (nonlinear_arith)
                requires
                    ddx * ddx + ddy * ddy <= r * r,
            ;
            assert(ddy <= r) by (nonlinear_arith)
                requires
                    ddy * ddy <= r * r,
                    0 <= r,
            ;
        }
    }
}


/// Sets every pixel of a mask to `value` (the clear and fill buttons).
pub fn fill_mask(mask: &mut [bool], value: bool)
    ensures
        final(mask).len() == old(mask).len(),
        forall|i: int| 0 <= i < old(mask).len() ==> #[trigger] final(mask)@[i] == value,
{
    let mut i: usize = 0;
    while i < mask.len()
        invariant
            i <= mask.len(),
            mask.len() == old(mask).len(),
            forall|j: int| 0 <= j < i ==> #[trigger] mask@[j] == value,
        decreases mask.len() - i,
    {
        mask[i] = value;
        i += 1;
    }
}

/// Flips every pixel of a mask (the invert button).
pub fn invert_mask(mask: &mut [bool])
    ensures
        final(mask).len() == old(mask).len(),
        forall|i: int| 0 <= i < old(mask).len() ==> #[trigger] final(mask)@[i] == !old(mask)@[i],
{
    let mut i: usize = 0;
    while i < mask.len()
        invariant
            i <= mask.len(),
            mask.len() == old(mask).len(),
            forall|j: int| 0 <= j < i ==> #[trigger] mask@[j] == !old(mask)@[j],
            forall|j: int| i <= j < mask.len() ==> #[trigger] mask@[j] == old(mask)@[j],
        decreases mask.len() - i,
    {
        let v = mask[i];
        mask[i] = !v;
        i += 1;
    }
}

/// The RGBA texture that shows a mask: opaque white where set, transparent black elsewhere.
pub fn mask_texture_bytes(mask: &[bool]) -> (bytes: Vec<u8>)
    requires
        mask.len() * 4 <= usize::MAX,
    ensures
        bytes.len() == 4 * mask.len(),
        forall|i: int| 0 <= i < 4 * mask.len() ==> #[trigger] bytes@[i] == if mask@[i / 4] {
            255u8
        } else {
            0u8
        },
{
    let mut bytes: Vec<u8> = Vec::with_capacity(mask.len() * 4);
    let mut i: usize = 0;
    while i < mask.len()
        invariant
            i <= mask.len(),
            mask.len() * 4 <= usize::MAX,
            bytes.len() == 4 * i,
            forall|j: int| 0 <= j < 4 * i ==> #[trigger] bytes@[j] == if mask@[j / 4] {
                255u8
            } else {
                0u8
            },
        decreases mask.len() - i,
    {
        let c: u8 = if mask[i] {
            255
        } else {
            0
        };
        bytes.push(c);
        bytes.push(c);
        bytes.push(c);
        bytes.push(c);
        i += 1;
    }
    bytes
}

/// An RGB image held as plain values: `width * height` pixels of three bytes, row by row.
pub struct RgbBytesImage {
    pub width: u32,
    pub height: u32,
    pub bytes: Vec<u8>,
}

/// The black-and-white image of a mask of `size_x` columns and `size_y` rows: white where set.
pub fn mask_to_image(mask: &[bool], size_x: usize, size_y: usize) -> (image: RgbBytesImage)
    requires
        size_x * size_y <= mask.len(),
        size_x <= u32::MAX,
        size_y <= u32::MAX,
        3 * (size_x * size_y) <= usize::MAX,
    ensures
        image.width == size_x,
        image.height == size_y,
        image.bytes.len() == 3 * (size_x * size_y),
        forall|i: int| 0 <= i < 3 * (size_x * size_y) ==> #[trigger] image.bytes@[i] == if mask@[i / 3] {
            255u8
        } else {
            0u8
        },
{
    let n = size_x * size_y;
    let mut bytes: Vec<u8> = Vec::with_capacity(3 * n);
    let mut i: usize = 0;
    while i < n
        invariant
            n == size_x * size_y,
            n <= mask.len(),
            3 * n <= usize::MAX,
            i <= n,
            bytes.len() == 3 * i,
            forall|j: int| 0 <= j < 3 * i ==> #[trigger] bytes@[j] == if mask@[j / 3] {
                255u8
            } else {
                0u8
            },
        decreases n - i,
    {
        let c: u8 = if mask[i] {
            255
        } else {
            0
        };
        bytes.push(c);
        bytes.push(c);
        bytes.push(c);
        i += 1;
    }
    RgbBytesImage { width: size_x as u32, height: size_y as u32, bytes }
}

/// The mask of a captured mask render: a pixel is set when any of its red, green and blue bytes
/// is not zero.
pub fn mask_from_capture(rgba: &[u8]) -> (mask: Vec<bool>)
    requires
        rgba.len() % 4 == 0,
    ensures
        mask.len() == rgba.len() / 4,
        forall|i: int| 0 <= i < mask.len() ==> #[trigger] mask@[i] == (rgba@[4 * i] as int + rgba@[4 * i + 1] as int
            + rgba@[4 * i + 2] as int > 0),
{
    let n = rgba.len() / 4;
    let mut mask: Vec<bool> = Vec::with_capacity(n);
    let mut i: usize = 0;
    while i < n
        invariant
            n == rgba.len() / 4,
            rgba.len() % 4 == 0,
            i <= n,
            mask.len() == i,
            forall|j: int| 0 <= j < i ==> #[trigger] mask@[j] == (rgba@[4 * j] as int + rgba@[4 * j + 1] as int
                + rgba@[4 * j + 2] as int > 0),
        decreases n - i,
    {
        let sum = rgba[4 * i] as u32 + rgba[4 * i + 1] as u32 + rgba[4 * i + 2] as u32;
        mask.push(sum > 0);
        i += 1;
    }
    mask
}

/// The smallest radius of the mask brush.
pub const MASK_BRUSH_RADIUS_MIN: u32 = 1;

/// The largest radius of the mask brush.
pub const MASK_BRUSH_RADIUS_MAX: u32 = 250;

/// The brush radius after scrolling by `scroll` steps, kept within the editor's range.
pub fn scroll_radius(radius: u32, scroll: i32) -> (r: u32)
    requires
        radius <= i32::MAX,
    ensures
        r == (if radius + scroll < 1 {
            1
        } else if radius + scroll > 250 {
            250
        } else {
            radius + scroll
        }),
{
    let v = radius as i128 + scroll as i128;
    if v < 1 {
        1
    } else if v > 250 {
        250
    } else {
        v as u32
    }
}


/// The tools of the mask editor.
#[derive(Clone, Copy, Debug, PartialEq, Eq, Structural)]
pub enum MaskTool {
    /// Paint pixels into the mask with a round brush.
    Add,
    /// Paint pixels out of the mask with a round brush.
    Sub,
    /// Add the region of alike pixels around the clicked one.
    Wand,
}

/// The mask editor's settings: its tool, the brush radius and the wand's tolerance.
#[derive(Clone, Copy, Debug, PartialEq, Eq, Structural)]
pub struct MaskEditorState {
    pub tool: MaskTool,
    pub radius: u32,
    pub tolerance: u8,
}

impl Default for MaskEditorState {
    /// The wand, with a brush radius of 25 and a tolerance of 20.
    fn default() -> (s: MaskEditorState)
        ensures
            s == (MaskEditorState { tool: MaskTool::Wand, radius: 25, tolerance: 20 }),
    {
        MaskEditorState { tool: MaskTool::Wand, radius: 25, tolerance: 20 }
    }
}

/// Uses the editor's tool at pixel `(x, y)` of the image: the brush paints the disc of its
/// radius in (`Add`) or out (`Sub`); the wand adds the region it reaches from the pixel.
pub fn apply_mask_tool(
    state: &MaskEditorState,
    mask: &mut [bool],
    image: &SourceImage,
    x: usize,
    y: usize,
)
    requires
        image.wf(),
        old(mask).len() == image.width * image.height,
        x <= image.width,
        y <= image.height,
        state.tool == MaskTool::Wand ==> x < image.width && y < image.height,
    ensures
        final(mask).len() == old(mask).len(),
        forall|i: int|
            0 <= i < old(mask).len() ==> #[trigger] final(mask)@[i] == match state.tool {
                MaskTool::Add => in_brush(x as int, y as int, state.radius as int, pixel_pos(image.width as int, i))
                    || old(mask)@[i],
                MaskTool::Sub => !in_brush(x as int, y as int, state.radius as int, pixel_pos(image.width as int, i))
                    && old(mask)@[i],
                MaskTool::Wand => wand_result(
                    old(mask)@,
                    *image,
                    (x as int, y as int),
                    state.tolerance,
                )[i],
            },
{
    let w = image.width as usize;
    let h = image.height as usize;
    match state.tool {
        MaskTool::Add => paint_brush(mask, w, h, x, y, state.radius, true),
        MaskTool::Sub => paint_brush(mask, w, h, x, y, state.radius, false),
        MaskTool::Wand => magic_wand(mask, (x, y), image, state.tolerance),
    }
}

} // verus!
