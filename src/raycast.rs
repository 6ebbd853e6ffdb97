//! Ray casting against the blocks by the slab method, with exact rational
//! hit parameters.

use vstd::prelude::*;

use crate::block::{in_world, Block, BLOCK_SIZE_FROM_CENTER, WORLD_LIMIT};
use crate::collision::point_in_world;

verus! {

/// Largest magnitude of a component of a ray's direction.
pub const DIRECTION_LIMIT: i64 = 1_048_576;

/// How far the player reaches to break and place blocks (micrometres).
pub const PLAYER_REACH: i64 = 5_000_000;

/// A ray from `origin` along `direction`; the point at parameter `t` is
/// `origin + t * direction`, so a hit at `t` lies `t * |direction|` away.
#[derive(Clone, Copy, Debug)]
pub struct Ray {
    pub origin: [i64; 3],
    pub direction: [i64; 3],
}

impl Ray {
    pub open spec fn wf(&self) -> bool {
        &&& point_in_world(self.origin)
        &&& -DIRECTION_LIMIT <= self.direction[0] <= DIRECTION_LIMIT
        &&& -DIRECTION_LIMIT <= self.direction[1] <= DIRECTION_LIMIT
        &&& -DIRECTION_LIMIT <= self.direction[2] <= DIRECTION_LIMIT
    }
}

/// `a.0 / a.1 < b.0 / b.1`, for positive denominators.
pub open spec fn frac_lt(a: (int, int), b: (int, int)) -> bool {
    a.0 * b.1 < b.0 * a.1
}

/// How a ray crosses the slab that a block occupies along one axis.
pub enum Slab {
    /// Parallel to the slab and strictly inside it: no bound on the parameter.
    Inside,
    /// Parallel to the slab and not strictly inside it: no point of the ray is in it.
    Outside,
    /// The ray is in the slab for parameters from `near / den` to `far / den`.
    Span { near: int, far: int, den: int },
}

/// The slab around centre `c` crossed by a ray with origin `o` and direction `d`
/// along one axis.
pub open spec fn slab(o: int, d: int, c: int) -> Slab {
    if d > 0 {
        Slab::Span { near: c - BLOCK_SIZE_FROM_CENTER - o, far: c + BLOCK_SIZE_FROM_CENTER - o, den: d }
    } else if d < 0 {
        Slab::Span { near: o - (c + BLOCK_SIZE_FROM_CENTER), far: o - (c - BLOCK_SIZE_FROM_CENTER), den: -d }
    } else if c - BLOCK_SIZE_FROM_CENTER < o < c + BLOCK_SIZE_FROM_CENTER {
        Slab::Inside
    } else {
        Slab::Outside
    }
}

/// The later of an entry parameter so far (`None`: unbounded below) and the
/// slab's; on a tie the earlier axis is kept.
pub open spec fn later_entry(e: Option<(int, int)>, s: Slab) -> Option<(int, int)> {
    match s {
        Slab::Span { near, far, den } => match e {
            None => Some((near, den)),
            Some(x) => if frac_lt(x, (near, den)) {
                Some((near, den))
            } else {
                Some(x)
            },
        },
        _ => e,
    }
}

/// The earlier of an exit parameter so far (`None`: unbounded above) and the
/// slab's; on a tie the earlier axis is kept.
pub open spec fn earlier_exit(e: Option<(int, int)>, s: Slab) -> Option<(int, int)> {
    match s {
        Slab::Span { near, far, den } => match e {
            None => Some((far, den)),
            Some(x) => if frac_lt((far, den), x) {
                Some((far, den))
            } else {
                Some(x)
            },
        },
        _ => e,
    }
}

pub open spec fn ray_slab(ray: Ray, axis: int, c: int) -> Slab {
    slab(ray.origin[axis] as int, ray.direction[axis] as int, c)
}

/// The parameter at which the ray first meets the block's cube, as a fraction
/// with a positive denominator, by the slab method: the entry is the latest
/// entry over the axes and the exit the earliest exit; a cube wholly behind the
/// origin or missed is no hit, and from inside the cube the exit counts.
#[verifier::opaque]
pub open spec fn block_hit(ray: Ray, b: Block) -> Option<(int, int)> {
    let sx = ray_slab(ray, 0, b.x as int);
    let sy = ray_slab(ray, 1, b.y as int);
    let sz = ray_slab(ray, 2, b.z as int);
    if sx is Outside || sy is Outside || sz is Outside {
        None
    } else {
        let enter = later_entry(later_entry(later_entry(None, sx), sy), sz);
        let exit = earlier_exit(earlier_exit(earlier_exit(None, sx), sy), sz);
        match (enter, exit) {
            (Some(en), Some(ex)) => if ex.0 < 0 {
                None
            } else if frac_lt(ex, en) {
                None
            } else if en.0 < 0 {
                Some(ex)
            } else {
                Some(en)
            },
            _ => None,
        }
    }
}

/// Squared length of a direction.
pub open spec fn norm2(d: [i64; 3]) -> int {
    d[0] * d[0] + d[1] * d[1] + d[2] * d[2]
}

/// The ray hits the block no further than `reach` from its origin.
#[verifier::opaque]
pub open spec fn hit_in_reach(ray: Ray, b: Block, reach: int) -> bool {
    match block_hit(ray, b) {
        Some(t) => t.0 * t.0 * norm2(ray.direction) <= reach * reach * (t.1 * t.1),
        None => false,
    }
}

/// The hit parameter of a block that is hit.
pub open spec fn hit_t(ray: Ray, b: Block) -> (int, int) {
    match block_hit(ray, b) {
        Some(t) => t,
        None => (0, 1),
    }
}

/// Block `k` is hit within reach, no block among the first `n` is hit nearer,
/// and every block before `k` that is hit within reach is hit further away.
pub open spec fn is_nearest_among(ray: Ray, s: Seq<Block>, reach: int, k: int, n: int) -> bool {
    &&& 0 <= k < n
    &&& hit_in_reach(ray, s[k], reach)
    &&& forall|j: int|
        0 <= j < n && hit_in_reach(ray, s[j], reach) ==> !frac_lt(
            hit_t(ray, s[j]),
            hit_t(ray, s[k]),
        )
    &&& forall|j: int|
        0 <= j < k && hit_in_reach(ray, s[j], reach) ==> frac_lt(
            hit_t(ray, s[k]),
            hit_t(ray, s[j]),
        )
}

/// Block `k` is the one that the caster selects: the nearest hit within reach,
/// the first one on a tie.
pub open spec fn is_nearest(ray: Ray, s: Seq<Block>, reach: int, k: int) -> bool {
    is_nearest_among(ray, s, reach, k, s.len() as int)
}

/// At most one block is the selected one.
pub proof fn lemma_nearest_unique(ray: Ray, s: Seq<Block>, reach: int, k1: int, k2: int)
    requires
        is_nearest(ray, s, reach, k1),
        is_nearest(ray, s, reach, k2),
    ensures
        k1 == k2,
{
    if k1 < k2 {
        assert(frac_lt(hit_t(ray, s[k2]), hit_t(ray, s[k1])));
    } else if k2 < k1 {
        assert(frac_lt(hit_t(ray, s[k1]), hit_t(ray, s[k2])));
    }
}

proof fn lemma_frac_lt_trans(a: (int, int), b: (int, int), c: (int, int))
    requires
        a.1 > 0,
        b.1 > 0,
        c.1 > 0,
        frac_lt(a, b),
        !frac_lt(c, b),
    ensures
        frac_lt(a, c),
{
    assert(a.0 * b.1 * c.1 < b.0 * a.1 * c.1) by (nonlinear_arith)
        requires
            a.0 * b.1 < b.0 * a.1,
            c.1 > 0,
    ;
    assert(b.0 * c.1 * a.1 <= c.0 * b.1 * a.1) by (nonlinear_arith)
        requires
            b.0 * c.1 <= c.0 * b.1,
            a.1 > 0,
    ;
    assert(a.0 * c.1 < c.0 * a.1) by (nonlinear_arith)
        requires
            a.0 * b.1 * c.1 < b.0 * a.1 * c.1,
            b.0 * c.1 * a.1 <= c.0 * b.1 * a.1,
            b.1 > 0,
    ;
}

/// A hit of the caster.
#[derive(Clone, Copy, Debug, PartialEq, Eq, Structural)]
pub struct RayHit {
    /// Position of the block in the sequence that was searched.
    pub index: usize,
    pub block: Block,
    /// The hit parameter is `t_num / t_den`, with `t_den > 0`.
    pub t_num: i128,
    pub t_den: i128,
}

enum SlabCut {
    Inside,
    Outside,
    Span { near: i128, far: i128, den: i128 },
}

impl SlabCut {
    spec fn view(&self) -> Slab {
        match *self {
            SlabCut::Inside => Slab::Inside,
            SlabCut::Outside => Slab::Outside,
            SlabCut::Span { near, far, den } => Slab::Span {
                near: near as int,
                far: far as int,
                den: den as int,
            },
        }
    }
}

/// Bound on the numerators of slab parameters.
spec fn num_bound() -> int {
    4 * WORLD_LIMIT
}

spec fn frac_ok(x: (int, int)) -> bool {
    -num_bound() <= x.0 <= num_bound() && 0 < x.1 <= DIRECTION_LIMIT
}

spec fn slab_ok(s: Slab) -> bool {
    match s {
        Slab::Span { near, far, den } => frac_ok((near, den)) && frac_ok((far, den)),
        _ => true,
    }
}

fn slab_exec(o: i64, d: i64, c: i64) -> (r: SlabCut)
    requires
        in_world(o as int),
        in_world(c as int),
        -DIRECTION_LIMIT <= d <= DIRECTION_LIMIT,
    ensures
        r.view() == slab(o as int, d as int, c as int),
        slab_ok(r.view()),
{
    let o = o as i128;
    let c = c as i128;
    let h = BLOCK_SIZE_FROM_CENTER as i128;
    if d > 0 {
        SlabCut::Span { near: c - h - o, far: c + h - o, den: d as i128 }
    } else if d < 0 {
        SlabCut::Span { near: o - (c + h), far: o - (c - h), den: -(d as i128) }
    } else if c - h < o && o < c + h {
        SlabCut::Inside
    } else {
        SlabCut::Outside
    }
}

fn frac_lt_exec(an: i128, ad: i128, bn: i128, bd: i128) -> (r: bool)
    requires
        frac_ok((an as int, ad as int)),
        frac_ok((bn as int, bd as int)),
    ensures
        r == frac_lt((an as int, ad as int), (bn as int, bd as int)),
{
    proof {
        lemma_frac_product_bound(an as int, bd as int);
        lemma_frac_product_bound(bn as int, ad as int);
    }
    an * bd < bn * ad
}

proof fn lemma_frac_product_bound(n: int, d: int)
    requires
        -num_bound() <= n <= num_bound(),
        0 < d <= DIRECTION_LIMIT,
    ensures
        -num_bound() * DIRECTION_LIMIT <= n * d <= num_bound() * DIRECTION_LIMIT,
{
    assert(-num_bound() * DIRECTION_LIMIT <= n * d <= num_bound() * DIRECTION_LIMIT)
        by (nonlinear_arith)
        requires
            -num_bound() <= n <= num_bound(),
            0 < d <= DIRECTION_LIMIT,
    ;
}

fn later_entry_exec(e: Option<(i128, i128)>, s: &SlabCut) -> (r: Option<(i128, i128)>)
    requires
        match e {
            Some(x) => frac_ok((x.0 as int, x.1 as int)),
            None => true,
        },
        slab_ok(s.view()),
    ensures
        opt_frac(r) == later_entry(opt_frac(e), s.view()),
        match r {
            Some(x) => frac_ok((x.0 as int, x.1 as int)),
            None => true,
        },
{
    match s {
        SlabCut::Span { near, far, den } => match e {
            None => Some((*near, *den)),
            Some(x) => if frac_lt_exec(x.0, x.1, *near, *den) {
                Some((*near, *den))
            } else {
                Some(x)
            },
        },
        _ => e,
    }
}

fn earlier_exit_exec(e: Option<(i128, i128)>, s: &SlabCut) -> (r: Option<(i128, i128)>)
    requires
        match e {
            Some(x) => frac_ok((x.0 as int, x.1 as int)),
            None => true,
        },
        slab_ok(s.view()),
    ensures
        opt_frac(r) == earlier_exit(opt_frac(e), s.view()),
        match r {
            Some(x) => frac_ok((x.0 as int, x.1 as int)),
            None => true,
        },
{
    match s {
        SlabCut::Span { near, far, den } => match e {
            None => Some((*far, *den)),
            Some(x) => if frac_lt_exec(*far, *den, x.0, x.1) {
                Some((*far, *den))
            } else {
                Some(x)
            },
        },
        _ => e,
    }
}

/// An optional fraction of machine integers as one of mathematical integers.
pub open spec fn opt_frac(e: Option<(i128, i128)>) -> Option<(int, int)> {
    match e {
        Some(x) => Some((x.0 as int, x.1 as int)),
        None => None,
    }
}

/// The hit parameter of one block, as `block_hit` gives it.
pub fn block_hit_exec(ray: &Ray, b: &Block) -> (r: Option<(i128, i128)>)
    requires
        ray.wf(),
        b.in_world(),
    ensures
        opt_frac(r) == block_hit(*ray, *b),
        match r {
            Some(x) => 0 <= x.0 <= 4 * WORLD_LIMIT && 0 < x.1 <= DIRECTION_LIMIT,
            None => true,
        },
{
    reveal(block_hit);
    let sx = slab_exec(ray.origin[0], ray.direction[0], b.x);
    let sy = slab_exec(ray.origin[1], ray.direction[1], b.y);
    let sz = slab_exec(ray.origin[2], ray.direction[2], b.z);
    if matches!(sx, SlabCut::Outside) || matches!(sy, SlabCut::Outside) || matches!(sz, SlabCut::Outside) {
        return None;
    }
    let enter = later_entry_exec(later_entry_exec(later_entry_exec(None, &sx), &sy), &sz);
    let exit = earlier_exit_exec(earlier_exit_exec(earlier_exit_exec(None, &sx), &sy), &sz);
    match (enter, exit) {
        (Some(en), Some(ex)) => {
            if ex.0 < 0 {
                None
            } else if frac_lt_exec(ex.0, ex.1, en.0, en.1) {
                None
            } else if en.0 < 0 {
                Some(ex)
            } else {
                Some(en)
            }
        },
        _ => None,
    }
}

proof fn lemma_mul_bound(a: int, b: int, ba: int, bb: int)
    requires
        0 <= a <= ba,
        0 <= b <= bb,
    ensures
        0 <= a * b <= ba * bb,
{
    assert(0 <= a * b <= ba * bb) by (nonlinear_arith)
        requires
            0 <= a <= ba,
            0 <= b <= bb,
    ;
}

fn in_reach_exec(t: (i128, i128), d: [i64; 3], reach: i64) -> (r: bool)
    requires
        0 <= t.0 <= 4 * WORLD_LIMIT,
        0 < t.1 <= DIRECTION_LIMIT,
        -DIRECTION_LIMIT <= d[0] <= DIRECTION_LIMIT,
        -DIRECTION_LIMIT <= d[1] <= DIRECTION_LIMIT,
        -DIRECTION_LIMIT <= d[2] <= DIRECTION_LIMIT,
        0 <= reach <= WORLD_LIMIT,
    ensures
        r == (t.0 * t.0 * norm2(d) <= reach * reach * (t.1 * t.1)),
{
    let d0 = d[0] as i128;
    let d1 = d[1] as i128;
    let d2 = d[2] as i128;
    let (n, q) = t;
    let rr = reach as i128;
    proof {
        assert(d0 * d0 == (-d0) * (-d0)) by (nonlinear_arith);
        assert(d1 * d1 == (-d1) * (-d1)) by (nonlinear_arith);
        assert(d2 * d2 == (-d2) * (-d2)) by (nonlinear_arith);
        let a0: int = if d0 >= 0 { d0 as int } else { -d0 };
        let a1: int = if d1 >= 0 { d1 as int } else { -d1 };
        let a2: int = if d2 >= 0 { d2 as int } else { -d2 };
        lemma_mul_bound(a0, a0, DIRECTION_LIMIT as int, DIRECTION_LIMIT as int);
        lemma_mul_bound(a1, a1, DIRECTION_LIMIT as int, DIRECTION_LIMIT as int);
        lemma_mul_bound(a2, a2, DIRECTION_LIMIT as int, DIRECTION_LIMIT as int);
        lemma_mul_bound(n as int, n as int, 4_398_046_511_104, 4_398_046_511_104);
        lemma_mul_bound(rr as int, rr as int, WORLD_LIMIT as int, WORLD_LIMIT as int);
        lemma_mul_bound(q as int, q as int, DIRECTION_LIMIT as int, DIRECTION_LIMIT as int);
    }
    let n2 = d0 * d0 + d1 * d1 + d2 * d2;
    let nn = n * n;
    let qq = q * q;
    let reach2 = rr * rr;
    proof {
        assert(nn <= 4_398_046_511_104 * 4_398_046_511_104);
        lemma_mul_bound(nn as int, n2 as int, 4_398_046_511_104int * 4_398_046_511_104int, 3 * DIRECTION_LIMIT * DIRECTION_LIMIT);
        lemma_mul_bound(reach2 as int, qq as int, WORLD_LIMIT * WORLD_LIMIT, DIRECTION_LIMIT * DIRECTION_LIMIT);
    }
    nn * n2 <= reach2 * qq
}

proof fn lemma_nearest_first(ray: Ray, s: Seq<Block>, reach: int, i: int)
    requires
        0 <= i < s.len(),
        forall|j: int| 0 <= j < i ==> !hit_in_reach(ray, #[trigger] s[j], reach),
        hit_in_reach(ray, s[i], reach),
    ensures
        is_nearest_among(ray, s, reach, i, i + 1),
{
    let ti = hit_t(ray, s[i]);
    assert(!frac_lt(ti, ti));
}

proof fn lemma_nearest_replace(ray: Ray, s: Seq<Block>, reach: int, k: int, i: int)
    requires
        0 <= i < s.len(),
        is_nearest_among(ray, s, reach, k, i),
        hit_t(ray, s[k]).1 > 0,
        hit_t(ray, s[i]).1 > 0,
        hit_in_reach(ray, s[i], reach),
        frac_lt(hit_t(ray, s[i]), hit_t(ray, s[k])),
        forall|j: int| 0 <= j < s.len() ==> (#[trigger] hit_t(ray, s[j])).1 > 0,
    ensures
        is_nearest_among(ray, s, reach, i, i + 1),
{
    let ti = hit_t(ray, s[i]);
    let tk = hit_t(ray, s[k]);
    assert forall|j: int| 0 <= j < i + 1 && hit_in_reach(ray, s[j], reach) implies !frac_lt(
        hit_t(ray, s[j]),
        ti,
    ) by {
        let tj = hit_t(ray, s[j]);
        if j < i && frac_lt(tj, ti) {
            lemma_frac_lt_trans(tj, ti, tk);
        }
    }
    assert forall|j: int| 0 <= j < i && hit_in_reach(ray, s[j], reach) implies frac_lt(
        ti,
        hit_t(ray, s[j]),
    ) by {
        lemma_frac_lt_trans(ti, tk, hit_t(ray, s[j]));
    }
}

proof fn lemma_nearest_keep(ray: Ray, s: Seq<Block>, reach: int, k: int, i: int)
    requires
        0 <= i < s.len(),
        is_nearest_among(ray, s, reach, k, i),
        hit_in_reach(ray, s[i], reach) ==> !frac_lt(hit_t(ray, s[i]), hit_t(ray, s[k])),
    ensures
        is_nearest_among(ray, s, reach, k, i + 1),
{
}

/// Every hit parameter has a positive denominator.
pub proof fn lemma_hit_den_positive(ray: Ray, b: Block)
    requires
        ray.wf(),
    ensures
        hit_t(ray, b).1 > 0,
{
    reveal(block_hit);
    let sx = ray_slab(ray, 0, b.x as int);
    let sy = ray_slab(ray, 1, b.y as int);
    let sz = ray_slab(ray, 2, b.z as int);
    lemma_entry_exit_den(sx, sy, sz);
}

proof fn lemma_entry_exit_den(sx: Slab, sy: Slab, sz: Slab)
    requires
        den_positive(sx),
        den_positive(sy),
        den_positive(sz),
    ensures
        opt_den_positive(later_entry(later_entry(later_entry(None, sx), sy), sz)),
        opt_den_positive(earlier_exit(earlier_exit(earlier_exit(None, sx), sy), sz)),
{
}

spec fn den_positive(s: Slab) -> bool {
    match s {
        Slab::Span { near, far, den } => den > 0,
        _ => true,
    }
}

spec fn opt_den_positive(e: Option<(int, int)>) -> bool {
    match e {
        Some(x) => x.1 > 0,
        None => true,
    }
}

/// Finds the block that a ray from the crosshair selects: the nearest one
/// that the ray hits no further than `max_reach` from its origin, the first
/// one in the sequence on an exact tie.
pub fn cast(ray: &Ray, blocks: &Vec<Block>, max_reach: i64) -> (r: Option<RayHit>)
    requires
        ray.wf(),
        forall|i: int| 0 <= i < blocks@.len() ==> (#[trigger] blocks@[i]).in_world(),
        0 <= max_reach <= WORLD_LIMIT,
    ensures
        match r {
            Some(h) => {
                &&& is_nearest(*ray, blocks@, max_reach as int, h.index as int)
                &&& h.block == blocks@[h.index as int]
                &&& block_hit(*ray, h.block) == Some((h.t_num as int, h.t_den as int))
            },
            None => forall|j: int|
                0 <= j < blocks@.len() ==> !hit_in_reach(*ray, #[trigger] blocks@[j], max_reach as int),
        },
{
    let ghost s = blocks@;
    let ghost reach = max_reach as int;
    proof {
        assert forall|j: int| 0 <= j < s.len() implies (#[trigger] hit_t(*ray, s[j])).1 > 0 by {
            lemma_hit_den_positive(*ray, s[j]);
        }
    }
    let mut best: Option<RayHit> = None;
    let mut i: usize = 0;
    while i < blocks.len()
        invariant
            0 <= i <= blocks@.len(),
            s == blocks@,
            reach == max_reach as int,
            ray.wf(),
            forall|k: int| 0 <= k < blocks@.len() ==> (#[trigger] blocks@[k]).in_world(),
            forall|j: int| 0 <= j < s.len() ==> (#[trigger] hit_t(*ray, s[j])).1 > 0,
            0 <= max_reach <= WORLD_LIMIT,
            match best {
                Some(h) => {
                    &&& is_nearest_among(*ray, s, reach, h.index as int, i as int)
                    &&& h.block == s[h.index as int]
                    &&& block_hit(*ray, h.block) == Some((h.t_num as int, h.t_den as int))
                    &&& 0 <= h.t_num <= 4 * WORLD_LIMIT
                    &&& 0 < h.t_den <= DIRECTION_LIMIT
                },
                None => forall|j: int| 0 <= j < i ==> !hit_in_reach(*ray, #[trigger] s[j], reach),
            },
        decreases blocks@.len() - i,
    {
        let b = &blocks[i];
        let hit = block_hit_exec(ray, b);
        let in_reach = match hit {
            Some(t) => in_reach_exec(t, ray.direction, max_reach),
            None => false,
        };
        proof {
            reveal(hit_in_reach);
            assert(in_reach == hit_in_reach(*ray, s[i as int], reach));
        }
        if in_reach {
            let t = hit.unwrap();
            let closer = match best {
                None => true,
                Some(h) => frac_lt_exec(t.0, t.1, h.t_num, h.t_den),
            };
            proof {
                match best {
                    Some(h) => {
                        if closer {
                            lemma_nearest_replace(*ray, s, reach, h.index as int, i as int);
                        } else {
                            lemma_nearest_keep(*ray, s, reach, h.index as int, i as int);
                        }
                    },
                    None => {
                        lemma_nearest_first(*ray, s, reach, i as int);
                    },
                }
            }
            if closer {
                best = Some(RayHit { index: i, block: *b, t_num: t.0, t_den: t.1 });
            }
        } else {
            proof {
                match best {
                    Some(h) => {
                        lemma_nearest_keep(*ray, s, reach, h.index as int, i as int);
                    },
                    None => {},
                }
            }
        }
        i = i + 1;
    }
    best
}

proof fn lemma_frac_le_trans(a: (int, int), b: (int, int), c: (int, int))
    requires
        a.1 > 0,
        b.1 > 0,
        c.1 > 0,
        !frac_lt(b, a),
        !frac_lt(c, b),
    ensures
        !frac_lt(c, a),
{
    assert(a.0 * b.1 * c.1 <= b.0 * a.1 * c.1) by (nonlinear_arith)
        requires
            a.0 * b.1 <= b.0 * a.1,
            c.1 > 0,
    ;
    assert(b.0 * c.1 * a.1 <= c.0 * b.1 * a.1) by (nonlinear_arith)
        requires
            b.0 * c.1 <= c.0 * b.1,
            a.1 > 0,
    ;
    assert(a.0 * c.1 <= c.0 * a.1) by (nonlinear_arith)
        requires
            a.0 * b.1 * c.1 <= b.0 * a.1 * c.1,
            b.0 * c.1 * a.1 <= c.0 * b.1 * a.1,
            b.1 > 0,
    ;
}

/// Of two blocks on one ray, the one hit nearer is the one selected, in
/// whichever order the two stand in the registry.
pub proof fn lemma_nearer_block_selected(ray: Ray, near: Block, far: Block, reach: int)
    requires
        ray.wf(),
        hit_in_reach(ray, near, reach),
        hit_in_reach(ray, far, reach) ==> frac_lt(hit_t(ray, near), hit_t(ray, far)),
    ensures
        forall|k: int| is_nearest(ray, seq![near, far], reach, k) <==> k == 0,
        forall|k: int| is_nearest(ray, seq![far, near], reach, k) <==> k == 1,
{
    let s1 = seq![near, far];
    let s2 = seq![far, near];
    let tn = hit_t(ray, near);
    let tf = hit_t(ray, far);
    assert(!frac_lt(tn, tn));
    assert(frac_lt(tn, tf) ==> !frac_lt(tf, tn));
    assert(s1[0] == near && s1[1] == far);
    assert(s2[0] == far && s2[1] == near);
    assert(is_nearest(ray, s1, reach, 0));
    assert(is_nearest(ray, s2, reach, 1));
    assert forall|k: int| is_nearest(ray, s1, reach, k) implies k == 0 by {
        lemma_nearest_unique(ray, s1, reach, k, 0);
    }
    assert forall|k: int| is_nearest(ray, s2, reach, k) implies k == 1 by {
        lemma_nearest_unique(ray, s2, reach, k, 1);
    }
}

/// Distance from the coordinate `o` to the extent of a block centred at `c`
/// along one axis.
pub open spec fn gap(o: int, c: int) -> int {
    if o < c - BLOCK_SIZE_FROM_CENTER {
        c - BLOCK_SIZE_FROM_CENTER - o
    } else if o > c + BLOCK_SIZE_FROM_CENTER {
        o - (c + BLOCK_SIZE_FROM_CENTER)
    } else {
        0
    }
}

/// Squared distance from the point `o` to the nearest point of a block's cube.
pub open spec fn cube_dist2(o: [i64; 3], b: Block) -> int {
    let gx = gap(o[0] as int, b.x as int);
    let gy = gap(o[1] as int, b.y as int);
    let gz = gap(o[2] as int, b.z as int);
    gx * gx + gy * gy + gz * gz
}

/// The hit parameter lies within the slab of this axis.
spec fn within_slab(s: Slab, t: (int, int)) -> bool {
    match s {
        Slab::Inside => true,
        Slab::Outside => false,
        Slab::Span { near, far, den } => !frac_lt(t, (near, den)) && !frac_lt((far, den), t),
    }
}

proof fn lemma_entry_bounds(e: Option<(int, int)>, s: Slab, t: (int, int))
    requires
        den_positive(s),
        opt_den_positive(e),
        t.1 > 0,
        !(s is Outside),
        !frac_lt(t, later_entry(e, s).unwrap()),
        later_entry(e, s) is Some,
    ensures
        e is Some ==> !frac_lt(t, e.unwrap()),
        match s {
            Slab::Span { near, far, den } => !frac_lt(t, (near, den)),
            _ => true,
        },
{
    match s {
        Slab::Span { near, far, den } => {
            match e {
                Some(x) => {
                    if frac_lt(x, (near, den)) {
                        assert(!frac_lt((near, den), x)) by (nonlinear_arith)
                            requires
                                x.0 * den < near * x.1,
                        ;
                        lemma_frac_le_trans(x, (near, den), t);
                    } else {
                        lemma_frac_le_trans((near, den), x, t);
                    }
                },
                None => {},
            }
        },
        _ => {},
    }
}

proof fn lemma_exit_bounds(e: Option<(int, int)>, s: Slab, t: (int, int))
    requires
        den_positive(s),
        opt_den_positive(e),
        t.1 > 0,
        !(s is Outside),
        !frac_lt(earlier_exit(e, s).unwrap(), t),
        earlier_exit(e, s) is Some,
    ensures
        e is Some ==> !frac_lt(e.unwrap(), t),
        match s {
            Slab::Span { near, far, den } => !frac_lt((far, den), t),
            _ => true,
        },
{
    match s {
        Slab::Span { near, far, den } => {
            match e {
                Some(x) => {
                    if frac_lt((far, den), x) {
                        assert(!frac_lt(x, (far, den))) by (nonlinear_arith)
                            requires
                                far * x.1 < x.0 * den,
                        ;
                        lemma_frac_le_trans(t, (far, den), x);
                    } else {
                        lemma_frac_le_trans(t, x, (far, den));
                    }
                },
                None => {},
            }
        },
        _ => {},
    }
}

/// A hit parameter lies within the slab of every axis, and is not negative.
proof fn lemma_hit_within_slabs(ray: Ray, b: Block)
    requires
        ray.wf(),
        block_hit(ray, b) is Some,
    ensures
        hit_t(ray, b).0 >= 0,
        hit_t(ray, b).1 > 0,
        within_slab(ray_slab(ray, 0, b.x as int), hit_t(ray, b)),
        within_slab(ray_slab(ray, 1, b.y as int), hit_t(ray, b)),
        within_slab(ray_slab(ray, 2, b.z as int), hit_t(ray, b)),
{
    reveal(block_hit);
    lemma_hit_den_positive(ray, b);
    let sx = ray_slab(ray, 0, b.x as int);
    let sy = ray_slab(ray, 1, b.y as int);
    let sz = ray_slab(ray, 2, b.z as int);
    let e1 = later_entry(None, sx);
    let e2 = later_entry(e1, sy);
    let e3 = later_entry(e2, sz);
    let x1 = earlier_exit(None, sx);
    let x2 = earlier_exit(x1, sy);
    let x3 = earlier_exit(x2, sz);
    lemma_entry_exit_den(sx, sy, sz);
    assert(opt_den_positive(e1) && opt_den_positive(e2));
    assert(opt_den_positive(x1) && opt_den_positive(x2));
    let en = e3.unwrap();
    let ex = x3.unwrap();
    let t = hit_t(ray, b);
    assert(!frac_lt(en, en));
    assert(!frac_lt(ex, ex));
    if en.0 < 0 {
        assert(t == ex);
        lemma_frac_le_trans(en, ex, t);
    } else {
        assert(t == en);
        lemma_frac_le_trans(t, en, ex);
    }
    // entry side: t is not before the entry of any slab
    lemma_entry_bounds(e2, sz, t);
    if e2 is Some {
        lemma_entry_bounds(e1, sy, t);
        if e1 is Some {
            lemma_entry_bounds(None, sx, t);
        }
    }
    lemma_exit_bounds(x2, sz, t);
    if x2 is Some {
        lemma_exit_bounds(x1, sy, t);
        if x1 is Some {
            lemma_exit_bounds(None, sx, t);
        }
    }
}

/// Along one axis, the part of the distance travelled to parameter `t` is at
/// least the gap from the origin to the slab.
proof fn lemma_axis_gap(o: int, d: int, c: int, t: (int, int))
    requires
        t.0 >= 0,
        t.1 > 0,
        within_slab(slab(o, d, c), t),
    ensures
        (t.1 * gap(o, c)) * (t.1 * gap(o, c)) <= (t.0 * d) * (t.0 * d),
{
    let g = gap(o, c);
    let lo = c - BLOCK_SIZE_FROM_CENTER;
    let hi = c + BLOCK_SIZE_FROM_CENTER;
    if d > 0 {
        assert((lo - o) * t.1 <= t.0 * d);
        assert(t.0 * d <= (hi - o) * t.1);
        if o < lo {
            assert((t.1 * g) * (t.1 * g) <= (t.0 * d) * (t.0 * d)) by (nonlinear_arith)
                requires
                    g == lo - o,
                    g > 0,
                    t.1 > 0,
                    g * t.1 <= t.0 * d,
            ;
        } else if o > hi {
            assert(false) by (nonlinear_arith)
                requires
                    t.0 >= 0,
                    d > 0,
                    t.1 > 0,
                    hi - o < 0,
                    t.0 * d <= (hi - o) * t.1,
            ;
        } else {
            lemma_zero_gap(g, t, d);
        }
    } else if d < 0 {
        assert((o - hi) * t.1 <= t.0 * (-d));
        assert(t.0 * (-d) <= (o - lo) * t.1);
        if o > hi {
            assert((t.1 * g) * (t.1 * g) <= (t.0 * d) * (t.0 * d)) by (nonlinear_arith)
                requires
                    g == o - hi,
                    g > 0,
                    t.1 > 0,
                    g * t.1 <= t.0 * (-d),
            ;
        } else if o < lo {
            assert(false) by (nonlinear_arith)
                requires
                    t.0 >= 0,
                    d < 0,
                    t.1 > 0,
                    o - lo < 0,
                    t.0 * (-d) <= (o - lo) * t.1,
            ;
        } else {
            lemma_zero_gap(g, t, d);
        }
    } else {
        lemma_zero_gap(g, t, d);
    }
}

proof fn lemma_zero_gap(g: int, t: (int, int), d: int)
    requires
        g == 0,
    ensures
        (t.1 * g) * (t.1 * g) <= (t.0 * d) * (t.0 * d),
{
    assert((t.1 * g) * (t.1 * g) <= (t.0 * d) * (t.0 * d)) by (nonlinear_arith)
        requires
            g == 0,
    ;
}

/// A ray whose origin lies further than `reach` from every point of every
/// block's cube hits no block within reach, so no block is selected.
pub proof fn lemma_out_of_reach_selects_nothing(ray: Ray, s: Seq<Block>, reach: int)
    requires
        ray.wf(),
        reach >= 0,
        forall|j: int| 0 <= j < s.len() ==> cube_dist2(ray.origin, #[trigger] s[j]) > reach * reach,
    ensures
        forall|j: int| 0 <= j < s.len() ==> !hit_in_reach(ray, #[trigger] s[j], reach),
        forall|k: int| !is_nearest(ray, s, reach, k),
{
    assert forall|j: int| 0 <= j < s.len() implies !hit_in_reach(ray, #[trigger] s[j], reach) by {
        lemma_far_block_not_hit(ray, s[j], reach);
    }
}

proof fn lemma_scaled_sum_of_squares(k: int, a: int, b: int, c: int)
    ensures
        k * k * (a * a + b * b + c * c) == (k * a) * (k * a) + (k * b) * (k * b) + (k * c) * (k * c),
{
    assert(k * k * (a * a) == (k * a) * (k * a)) by (nonlinear_arith);
    assert(k * k * (b * b) == (k * b) * (k * b)) by (nonlinear_arith);
    assert(k * k * (c * c) == (k * c) * (k * c)) by (nonlinear_arith);
    assert(k * k * (a * a + b * b + c * c) == k * k * (a * a) + k * k * (b * b) + k * k * (c * c))
        by (nonlinear_arith);
}

proof fn lemma_far_block_not_hit(ray: Ray, b: Block, reach: int)
    requires
        ray.wf(),
        reach >= 0,
        cube_dist2(ray.origin, b) > reach * reach,
    ensures
        !hit_in_reach(ray, b, reach),
{
    reveal(hit_in_reach);
    if block_hit(ray, b) is Some {
        lemma_hit_within_slabs(ray, b);
        let t = hit_t(ray, b);
        let d = ray.direction;
        lemma_axis_gap(ray.origin[0] as int, d[0] as int, b.x as int, t);
        lemma_axis_gap(ray.origin[1] as int, d[1] as int, b.y as int, t);
        lemma_axis_gap(ray.origin[2] as int, d[2] as int, b.z as int, t);
        let gx = gap(ray.origin[0] as int, b.x as int);
        let gy = gap(ray.origin[1] as int, b.y as int);
        let gz = gap(ray.origin[2] as int, b.z as int);
        let g2 = cube_dist2(ray.origin, b);
        let n2 = norm2(d);
        let q = t.1;
        let n = t.0;
        lemma_scaled_sum_of_squares(q, gx, gy, gz);
        lemma_scaled_sum_of_squares(n, d[0] as int, d[1] as int, d[2] as int);
        assert(q * q * g2 > reach * reach * (q * q)) by (nonlinear_arith)
            requires
                q > 0,
                g2 > reach * reach,
        ;
    }
}

/// The centre of a block along `axis`.
pub open spec fn coord(b: Block, axis: int) -> int {
    if axis == 0 {
        b.x as int
    } else if axis == 1 {
        b.y as int
    } else {
        b.z as int
    }
}

pub open spec fn abs(x: int) -> int {
    if x < 0 {
        -x
    } else {
        x
    }
}

proof fn lemma_span_hit(near: int, far: int, den: int, reach: int)
    requires
        0 < near < far,
        den > 0,
        near <= reach,
    ensures
        !frac_lt((far, den), (near, den)),
        near * near * (den * den) <= reach * reach * (den * den),
{
    assert(!(far * den < near * den)) by (nonlinear_arith)
        requires
            near < far,
            den > 0,
    ;
    assert(near * near * (den * den) <= reach * reach * (den * den)) by (nonlinear_arith)
        requires
            0 < near <= reach,
            den > 0,
    ;
}

/// A ray along one coordinate axis, aimed at the centre of a block from
/// outside its cube at distance `dist` from that centre, meets the cube's near
/// face at parameter `(dist - BLOCK_SIZE_FROM_CENTER) / |direction|`, that is
/// at distance `dist - BLOCK_SIZE_FROM_CENTER` from its origin; with that face
/// within reach, a caster over that block selects it.
pub proof fn lemma_aimed_ray_hits_near_face(ray: Ray, b: Block, axis: int, reach: int)
    requires
        ray.wf(),
        b.in_world(),
        0 <= axis < 3,
        axis == 0 || (ray.direction[0] == 0 && ray.origin[0] == b.x),
        axis == 1 || (ray.direction[1] == 0 && ray.origin[1] == b.y),
        axis == 2 || (ray.direction[2] == 0 && ray.origin[2] == b.z),
        ray.direction[axis] != 0,
        (ray.direction[axis] > 0) == (coord(b, axis) > ray.origin[axis]),
        abs(coord(b, axis) - ray.origin[axis]) > BLOCK_SIZE_FROM_CENTER,
        abs(coord(b, axis) - ray.origin[axis]) - BLOCK_SIZE_FROM_CENTER <= reach,
    ensures
        block_hit(ray, b) == Some(
            (
                abs(coord(b, axis) - ray.origin[axis]) - BLOCK_SIZE_FROM_CENTER,
                abs(ray.direction[axis] as int),
            ),
        ),
        norm2(ray.direction) == ray.direction[axis] * ray.direction[axis],
        is_nearest(ray, seq![b], reach, 0),
{
    reveal(block_hit);
    reveal(hit_in_reach);
    let da = ray.direction[axis] as int;
    let dist = abs(coord(b, axis) - ray.origin[axis]);
    let near = dist - BLOCK_SIZE_FROM_CENTER;
    let far = dist + BLOCK_SIZE_FROM_CENTER;
    let den = abs(da);
    lemma_span_hit(near, far, den, reach);
    assert(den * den == da * da) by (nonlinear_arith)
        requires
            den == abs(da),
    ;
    assert(ray_slab(ray, axis, coord(b, axis)) == Slab::Span { near, far, den });
    let s = seq![b];
    assert(s[0] == b);
    assert(!frac_lt(hit_t(ray, b), hit_t(ray, b)));
}

/// The largest magnitude of a direction's components.
pub open spec fn max_abs(d: [i64; 3]) -> int {
    let a = abs(d[0] as int);
    let b = abs(d[1] as int);
    let c = abs(d[2] as int);
    if a >= b && a >= c {
        a
    } else if b >= c {
        b
    } else {
        c
    }
}

/// The slab crossed, along an axis where the direction has magnitude `a`, by
/// a ray that reaches the block's centre at parameter `s`.
spec fn aimed_slab(s: int, a: int) -> Slab {
    if a == 0 {
        Slab::Inside
    } else {
        Slab::Span { near: s * a - BLOCK_SIZE_FROM_CENTER, far: s * a + BLOCK_SIZE_FROM_CENTER, den: a }
    }
}

spec fn aimed_entry(s: int, m: int) -> Option<(int, int)> {
    if m == 0 {
        None
    } else {
        Some((s * m - BLOCK_SIZE_FROM_CENTER, m))
    }
}

spec fn aimed_exit(s: int, m: int) -> Option<(int, int)> {
    if m == 0 {
        None
    } else {
        Some((s * m + BLOCK_SIZE_FROM_CENTER, m))
    }
}

spec fn max2(a: int, b: int) -> int {
    if a >= b {
        a
    } else {
        b
    }
}

proof fn lemma_aimed_compare(s: int, a: int, b: int)
    requires
        a > 0,
        b > 0,
    ensures
        frac_lt((s * a - BLOCK_SIZE_FROM_CENTER, a), (s * b - BLOCK_SIZE_FROM_CENTER, b)) <==> a < b,
        frac_lt((s * b + BLOCK_SIZE_FROM_CENTER, b), (s * a + BLOCK_SIZE_FROM_CENTER, a)) <==> a < b,
{
    assert((s * a - 500_000) * b == s * a * b - 500_000 * b) by (nonlinear_arith);
    assert((s * b - 500_000) * a == s * a * b - 500_000 * a) by (nonlinear_arith);
    assert((s * b + 500_000) * a == s * a * b + 500_000 * a) by (nonlinear_arith);
    assert((s * a + 500_000) * b == s * a * b + 500_000 * b) by (nonlinear_arith);
}

proof fn lemma_aimed_step(s: int, m: int, a: int)
    requires
        m >= 0,
        a >= 0,
    ensures
        later_entry(aimed_entry(s, m), aimed_slab(s, a)) == aimed_entry(s, max2(m, a)),
        earlier_exit(aimed_exit(s, m), aimed_slab(s, a)) == aimed_exit(s, max2(m, a)),
{
    if m > 0 && a > 0 {
        lemma_aimed_compare(s, m, a);
    }
}

proof fn lemma_aimed_axis(o: int, d: int, c: int, s: int)
    requires
        c == o + s * d,
    ensures
        slab(o, d, c) == aimed_slab(s, abs(d)),
{
    if d < 0 {
        assert(s * (-d) == -(s * d)) by (nonlinear_arith);
    } else if d == 0 {
        assert(s * d == 0) by (nonlinear_arith)
            requires
                d == 0,
        ;
    }
}

/// A ray whose direction, taken `s` times from its origin, reaches the centre
/// of a block whose cube does not contain the origin, meets the cube at
/// parameter `(s * m - BLOCK_SIZE_FROM_CENTER) / m`, where `m` is the largest
/// magnitude of the direction's components; its distance from the origin lies
/// between `dist - BLOCK_SIZE_FROM_CENTER * sqrt(3)` and
/// `dist - BLOCK_SIZE_FROM_CENTER` for the distance `dist` to the centre
/// (exactly the latter along an axis). With the centre within reach, the block
/// is hit within reach, and a caster selects it whenever no other block is hit
/// as near.
pub proof fn lemma_ray_aimed_at_centre(ray: Ray, b: Block, s: int, reach: int, blocks: Seq<Block>, k: int)
    requires
        ray.wf(),
        s > 0,
        b.x == ray.origin[0] + s * ray.direction[0],
        b.y == ray.origin[1] + s * ray.direction[1],
        b.z == ray.origin[2] + s * ray.direction[2],
        abs(b.x - ray.origin[0]) > BLOCK_SIZE_FROM_CENTER || abs(b.y - ray.origin[1])
            > BLOCK_SIZE_FROM_CENTER || abs(b.z - ray.origin[2]) > BLOCK_SIZE_FROM_CENTER,
        reach >= 0,
        s * s * norm2(ray.direction) <= reach * reach,
        0 <= k < blocks.len(),
        blocks[k] == b,
        forall|j: int|
            0 <= j < blocks.len() && j != k && hit_in_reach(ray, #[trigger] blocks[j], reach) ==> frac_lt(
                hit_t(ray, b),
                hit_t(ray, blocks[j]),
            ),
    ensures
        block_hit(ray, b) == Some((s * max_abs(ray.direction) - BLOCK_SIZE_FROM_CENTER, max_abs(ray.direction))),
        hit_in_reach(ray, b, reach),
        is_nearest(ray, blocks, reach, k),
{
    reveal(block_hit);
    reveal(hit_in_reach);
    let d = ray.direction;
    let o = ray.origin;
    let a0 = abs(d[0] as int);
    let a1 = abs(d[1] as int);
    let a2 = abs(d[2] as int);
    let m = max_abs(d);
    lemma_aimed_axis(o[0] as int, d[0] as int, b.x as int, s);
    lemma_aimed_axis(o[1] as int, d[1] as int, b.y as int, s);
    lemma_aimed_axis(o[2] as int, d[2] as int, b.z as int, s);
    lemma_aimed_step(s, 0, a0);
    lemma_aimed_step(s, a0, a1);
    lemma_aimed_step(s, max2(a0, a1), a2);
    assert(max2(max2(a0, a1), a2) == m);
    // the origin is outside the cube, so the direction is not zero and s * m > BLOCK_SIZE_FROM_CENTER
    assert(s * a0 <= s * m && s * a1 <= s * m && s * a2 <= s * m) by (nonlinear_arith)
        requires
            s > 0,
            a0 <= m,
            a1 <= m,
            a2 <= m,
    ;
    assert(abs(b.x - o[0]) == s * a0 && abs(b.y - o[1]) == s * a1 && abs(b.z - o[2]) == s * a2) by (nonlinear_arith)
        requires
            s > 0,
            b.x - o[0] == s * d[0],
            b.y - o[1] == s * d[1],
            b.z - o[2] == s * d[2],
            a0 == abs(d[0] as int),
            a1 == abs(d[1] as int),
            a2 == abs(d[2] as int),
    ;
    let near = s * m - BLOCK_SIZE_FROM_CENTER;
    let far = s * m + BLOCK_SIZE_FROM_CENTER;
    assert(m > 0);
    assert(!(far * m < near * m)) by (nonlinear_arith)
        requires
            near < far,
            m > 0,
    ;
    assert(block_hit(ray, b) == Some((near, m)));
    // within reach: (s m - h)^2 |d|^2 <= (s m)^2 |d|^2 = m^2 s^2 |d|^2 <= m^2 reach^2
    let n2 = norm2(d);
    assert(0 <= n2) by (nonlinear_arith)
        requires
            n2 == d[0] * d[0] + d[1] * d[1] + d[2] * d[2],
    ;
    assert(near * near * n2 <= reach * reach * (m * m)) by (nonlinear_arith)
        requires
            0 < near <= s * m,
            m > 0,
            n2 >= 0,
            s * s * n2 <= reach * reach,
    ;
    assert(hit_in_reach(ray, b, reach));
    let t = hit_t(ray, b);
    assert(!frac_lt(t, t));
    assert forall|j: int| 0 <= j < blocks.len() && hit_in_reach(ray, blocks[j], reach) implies !frac_lt(
        hit_t(ray, blocks[j]),
        t,
    ) by {
        if j != k {
            let tj = hit_t(ray, blocks[j]);
            assert(frac_lt(t, tj));
            assert(!frac_lt(tj, t));
        }
    }
}

} // verus!
