//! Grouping splats (small coloured spheres) by the chunks they must be painted into.

use vstd::prelude::*;

use crate::math::IVec3;

use super::chunk::ChunkSphere;
use super::{ChunkCoords, Coords};

verus! {

/// The points whose chunks a sphere of radius `r` around `center` is queued to: the centre,
/// then the eight corners of its bounding cube (`z` slowest, `x` fastest).
pub open spec fn sphere_probe_points(center: Coords, r: int) -> Seq<(int, int, int)> {
    let (x, y, z) = (center.0.x as int, center.0.y as int, center.0.z as int);
    seq![
        (x, y, z),
        (x - r, y - r, z - r),
        (x + r, y - r, z - r),
        (x - r, y + r, z - r),
        (x + r, y + r, z - r),
        (x - r, y - r, z + r),
        (x + r, y - r, z + r),
        (x - r, y + r, z + r),
        (x + r, y + r, z + r),
    ]
}

/// The chunk that holds the point `p`.
pub open spec fn chunk_of_point(p: (int, int, int)) -> ChunkCoords {
    ChunkCoords(IVec3 { x: (p.0 / 25) as i32, y: (p.1 / 25) as i32, z: (p.2 / 25) as i32 })
}

/// The chunks of the points, in order, each once, leaving out chunks below the ground.
pub open spec fn distinct_chunks(points: Seq<(int, int, int)>) -> Seq<ChunkCoords>
    decreases points.len(),
{
    if points.len() == 0 {
        Seq::empty()
    } else {
        let before = distinct_chunks(points.drop_last());
        let c = chunk_of_point(points.last());
        if c.0.y < 0 || before.contains(c) {
            before
        } else {
            before.push(c)
        }
    }
}

/// The chunks a sphere is queued to.
pub open spec fn sphere_chunks(s: ChunkSphere) -> Seq<ChunkCoords> {
    distinct_chunks(sphere_probe_points(s.center, s.radius_voxels as int))
}

/// Whether the corners of a sphere's bounding cube have `i32` coordinates.
pub open spec fn sphere_corners_fit(s: ChunkSphere) -> bool {
    &&& i32::MIN <= s.center.0.x - s.radius_voxels
    &&& s.center.0.x + s.radius_voxels <= i32::MAX
    &&& i32::MIN <= s.center.0.y - s.radius_voxels
    &&& s.center.0.y + s.radius_voxels <= i32::MAX
    &&& i32::MIN <= s.center.0.z - s.radius_voxels
    &&& s.center.0.z + s.radius_voxels <= i32::MAX
}

/// The spheres, in order, that are queued to chunk `c`.
pub open spec fn spheres_for_chunk(spheres: Seq<ChunkSphere>, c: ChunkCoords) -> Seq<ChunkSphere>
    decreases spheres.len(),
{
    if spheres.len() == 0 {
        Seq::empty()
    } else {
        let before = spheres_for_chunk(spheres.drop_last(), c);
        if sphere_chunks(spheres.last()).contains(c) {
            before.push(spheres.last())
        } else {
            before
        }
    }
}

/// A sphere of `radius_voxels` around `center` in the given colour, ready to be painted.
pub fn splat_sphere(center: Coords, radius_voxels: u32, color: [u8; 3]) -> (s: ChunkSphere)
    requires
        radius_voxels * radius_voxels <= u32::MAX,
    ensures
        s.center == center,
        s.radius_voxels == radius_voxels,
        s.radius_voxels_sqr == radius_voxels * radius_voxels,
        s.color == color,
{
    ChunkSphere { center, radius_voxels, radius_voxels_sqr: radius_voxels * radius_voxels, color }
}

fn contains_chunk(v: &Vec<ChunkCoords>, c: ChunkCoords) -> (b: bool)
    ensures
        b == v@.contains(c),
{
    let mut i: usize = 0;
    while i < v.len()
        invariant
            i <= v.len(),
            forall|j: int| 0 <= j < i ==> v@[j] != c,
        decreases v.len() - i,
    {
        if v[i] == c {
            return true;
        }
        i += 1;
    }
    false
}

/// The chunks a sphere is queued to: the chunk of its centre and those of the corners of its
/// bounding cube, each once, in that order, leaving out chunks below the ground.
pub fn chunks_of_sphere(s: &ChunkSphere) -> (r: Vec<ChunkCoords>)
    requires
        sphere_corners_fit(*s),
    ensures
        r@ == sphere_chunks(*s),
{
    let ghost points = sphere_probe_points(s.center, s.radius_voxels as int);
    let rad = s.radius_voxels as i32;
    let neg = -rad;
    let c = s.center;
    let candidates: Vec<Coords> = vec![
        c,
        c.offset(IVec3::new(neg, neg, neg)),
        c.offset(IVec3::new(rad, neg, neg)),
        c.offset(IVec3::new(neg, rad, neg)),
        c.offset(IVec3::new(rad, rad, neg)),
        c.offset(IVec3::new(neg, neg, rad)),
        c.offset(IVec3::new(rad, neg, rad)),
        c.offset(IVec3::new(neg, rad, rad)),
        c.offset(IVec3::new(rad, rad, rad)),
    ];
    assert(candidates.len() == points.len());
    assert forall|k: int| 0 <= k < candidates.len() implies (#[trigger] candidates@[k]).0.x == points[k].0
        && candidates@[k].0.y == points[k].1 && candidates@[k].0.z == points[k].2 by {}
    let mut r: Vec<ChunkCoords> = Vec::new();
    let mut k: usize = 0;
    while k < candidates.len()
        invariant
            k <= candidates.len(),
            candidates.len() == points.len(),
            forall|j: int| 0 <= j < candidates.len() ==> (#[trigger] candidates@[j]).0.x == points[j].0
                && candidates@[j].0.y == points[j].1 && candidates@[j].0.z == points[j].2,
            r@ == distinct_chunks(points.subrange(0, k as int)),
        decreases candidates.len() - k,
    {
        let c = candidates[k].chunk();
        assert(points.subrange(0, k + 1).drop_last() =~= points.subrange(0, k as int));
        assert(c == chunk_of_point(points[k as int]));
        if c.0.y >= 0 && !contains_chunk(&r, c) {
            r.push(c);
        }
        k += 1;
    }
    assert(points.subrange(0, 9) =~= points);
    r
}

proof fn lemma_distinct_chunks_unique(points: Seq<(int, int, int)>)
    ensures
        distinct_chunks(points).no_duplicates(),
    decreases points.len(),
{
    if points.len() > 0 {
        lemma_distinct_chunks_unique(points.drop_last());
    }
}

/// Whether some group is keyed by chunk `c`.
pub open spec fn has_group(groups: Seq<(ChunkCoords, Vec<ChunkSphere>)>, c: ChunkCoords) -> bool {
    exists|i: int| 0 <= i < groups.len() && (#[trigger] groups[i]).0 == c
}

/// The spheres that chunk `c` receives after the first `k` spheres, with sphere `s` added when
/// `c` is among the chunks already handled for it.
spec fn partial_spheres(
    spheres: Seq<ChunkSphere>,
    k: int,
    handled: Seq<ChunkCoords>,
    c: ChunkCoords,
) -> Seq<ChunkSphere> {
    let before = spheres_for_chunk(spheres.subrange(0, k), c);
    if handled.contains(c) {
        before.push(spheres[k])
    } else {
        before
    }
}

fn find_group(groups: &Vec<(ChunkCoords, Vec<ChunkSphere>)>, c: ChunkCoords) -> (r: Option<usize>)
    ensures
        match r {
            Some(i) => i < groups.len() && groups@[i as int].0 == c,
            None => !has_group(groups@, c),
        },
{
    let mut i: usize = 0;
    while i < groups.len()
        invariant
            i <= groups.len(),
            forall|j: int| 0 <= j < i ==> groups@[j].0 != c,
        decreases groups.len() - i,
    {
        if groups[i].0 == c {
            return Some(i);
        }
        i += 1;
    }
    None
}

/// Groups spheres by the chunks they are queued to (see [`chunks_of_sphere`]): one group per
/// chunk that receives any sphere, each holding that chunk's spheres in their original order.
pub fn group_spheres_by_chunk(spheres: &Vec<ChunkSphere>) -> (groups: Vec<(ChunkCoords, Vec<ChunkSphere>)>)
    requires
        forall|k: int| 0 <= k < spheres.len() ==> sphere_corners_fit(#[trigger] spheres@[k]),
    ensures
        forall|i: int, j: int| 0 <= i < j < groups.len() ==> groups@[i].0 != groups@[j].0,
        forall|i: int|
            0 <= i < groups.len() ==> (#[trigger] groups@[i]).1@ == spheres_for_chunk(spheres@, groups@[i].0)
                && groups@[i].1.len() > 0,
        forall|c: ChunkCoords|
            #[trigger] spheres_for_chunk(spheres@, c).len() > 0 ==> has_group(groups@, c),
{
    let mut groups: Vec<(ChunkCoords, Vec<ChunkSphere>)> = Vec::new();
    let mut k: usize = 0;
    while k < spheres.len()
        invariant
            k <= spheres.len(),
            forall|k2: int| 0 <= k2 < spheres.len() ==> sphere_corners_fit(#[trigger] spheres@[k2]),
            forall|i: int, j: int| 0 <= i < j < groups.len() ==> groups@[i].0 != groups@[j].0,
            forall|i: int|
                0 <= i < groups.len() ==> (#[trigger] groups@[i]).1@ == spheres_for_chunk(
                    spheres@.subrange(0, k as int),
                    groups@[i].0,
                ) && groups@[i].1.len() > 0,
            forall|c: ChunkCoords|
                #[trigger] spheres_for_chunk(spheres@.subrange(0, k as int), c).len() > 0 ==> has_group(groups@, c),
        decreases spheres.len() - k,
    {
        let s = spheres[k];
        let targets = chunks_of_sphere(&s);
        proof {
            lemma_distinct_chunks_unique(sphere_probe_points(s.center, s.radius_voxels as int));
        }
        let mut m: usize = 0;
        while m < targets.len()
            invariant
                k < spheres.len(),
                s == spheres@[k as int],
                targets@ == sphere_chunks(s),
                targets@.no_duplicates(),
                m <= targets.len(),
                forall|i: int, j: int| 0 <= i < j < groups.len() ==> groups@[i].0 != groups@[j].0,
                forall|i: int|
                    0 <= i < groups.len() ==> (#[trigger] groups@[i]).1@ == partial_spheres(
                        spheres@,
                        k as int,
                        targets@.subrange(0, m as int),
                        groups@[i].0,
                    ) && groups@[i].1.len() > 0,
                forall|c: ChunkCoords|
                    #[trigger] partial_spheres(spheres@, k as int, targets@.subrange(0, m as int), c).len() > 0
                        ==> has_group(groups@, c),
            decreases targets.len() - m,
        {
            let t = targets[m];
            let ghost handled = targets@.subrange(0, m as int);
            let ghost handled_next = targets@.subrange(0, m + 1);
            let ghost old_groups = groups@;
            proof {
                assert(handled_next == handled.push(t));
                assert(!handled.contains(t)) by {
                    if handled.contains(t) {
                        let j = choose|j: int| 0 <= j < handled.len() && handled[j] == t;
                        assert(targets@[j] == targets@[m as int]);
                    }
                }
                assert forall|c: ChunkCoords| c != t implies partial_spheres(spheres@, k as int, handled_next, c)
                    == partial_spheres(spheres@, k as int, handled, c) by {
                    assert(handled_next.contains(c) == handled.contains(c)) by {
                        if handled_next.contains(c) {
                            let j = choose|j: int| 0 <= j < handled_next.len() && handled_next[j] == c;
                            assert(handled[j] == c);
                        }
                        if handled.contains(c) {
                            let j = choose|j: int| 0 <= j < handled.len() && handled[j] == c;
                            assert(handled_next[j] == c);
                        }
                    }
                }
                assert(handled_next[m as int] == t);
                assert(partial_spheres(spheres@, k as int, handled_next, t)
                    == partial_spheres(spheres@, k as int, handled, t).push(s));
            }
            match find_group(&groups, t) {
                Some(g) => {
                    let mut entry: (ChunkCoords, Vec<ChunkSphere>) = (t, Vec::new());
                    groups.set_and_swap(g, &mut entry);
                    entry.1.push(s);
                    groups.set_and_swap(g, &mut entry);
                    proof {
                        assert forall|c: ChunkCoords|
                            #[trigger] partial_spheres(spheres@, k as int, handled_next, c).len() > 0
                                implies has_group(groups@, c) by {
                            if c != t {
                                let i = choose|i: int| 0 <= i < old_groups.len() && (#[trigger] old_groups[i]).0 == c;
                                assert(groups@[i].0 == c);
                            } else {
                                assert(groups@[g as int].0 == c);
                            }
                        }
                    }
                },
                None => {
                    let mut list: Vec<ChunkSphere> = Vec::new();
                    list.push(s);
                    groups.push((t, list));
                    proof {
                        assert(partial_spheres(spheres@, k as int, handled, t).len() == 0);
                        assert(list@ =~= partial_spheres(spheres@, k as int, handled, t).push(s));
                        assert forall|c: ChunkCoords|
                            #[trigger] partial_spheres(spheres@, k as int, handled_next, c).len() > 0
                                implies has_group(groups@, c) by {
                            if c != t {
                                let i = choose|i: int| 0 <= i < old_groups.len() && (#[trigger] old_groups[i]).0 == c;
                                assert(groups@[i].0 == c);
                            } else {
                                assert(groups@[old_groups.len() as int].0 == c);
                            }
                        }
                    }
                },
            }
            m += 1;
        }
        proof {
            let prefix = spheres@.subrange(0, k + 1);
            assert(prefix.drop_last() =~= spheres@.subrange(0, k as int));
            assert(prefix.last() == s);
            assert(targets@.subrange(0, m as int) =~= targets@);
            assert forall|c: ChunkCoords| #[trigger] spheres_for_chunk(prefix, c)
                == partial_spheres(spheres@, k as int, targets@, c) by {}
        }
        k += 1;
    }
    assert(spheres@.subrange(0, spheres.len() as int) =~= spheres@);
    groups
}

} // verus!
