use vstd::prelude::*;
use crate::block::{Visibility, visibility_of};
use crate::chunk::{Block, Chunk, UNIT, WorldPos, round_div, round_div_i128};
use crate::shape::GridPos;

verus! {

/// How far the ray advances between two samples, in thousandths of a unit.
pub const STEP: i64 = 100;

/// One component of sample `k` of a ray, in millionths of a unit: the origin
/// component `o` (thousandths) plus `k` steps along the direction component
/// `d` (thousandths of a unit vector).
pub open spec fn sample_scaled(o: i64, d: i64, k: int) -> int {
    o * UNIT + k * STEP * d
}

/// The cell nearest to sample `k` of the ray.
pub open spec fn sample_cell(origin: WorldPos, direction: WorldPos, k: int) -> (int, int, int) {
    let m = UNIT * UNIT;
    (
        round_div(sample_scaled(origin.x, direction.x, k), m as int),
        round_div(sample_scaled(origin.y, direction.y, k), m as int),
        round_div(sample_scaled(origin.z, direction.z, k), m as int),
    )
}

/// The number of samples whose travelled distance stays within `max_distance`.
pub open spec fn steps_within(max_distance: i64) -> int {
    if max_distance <= 0 {
        0
    } else {
        max_distance / STEP
    }
}

impl Chunk {
    /// Sample `k` of the ray lands in an opaque cell of the grid.
    pub open spec fn ray_hits(&self, origin: WorldPos, direction: WorldPos, k: int) -> bool {
        &&& self.shape.contains(sample_cell(origin, direction, k))
        &&& visibility_of(self.kind_at(sample_cell(origin, direction, k))) == Visibility::Opaque
    }
}

fn sample_component(o: i64, d: i64, k: i64) -> (r: i128)
    requires
        1 <= k <= i64::MAX / STEP,
    ensures
        r == round_div(sample_scaled(o, d, k as int), (UNIT * UNIT) as int),
{
    let scaled_step = k as i128 * STEP as i128;
    assert(-0x8000_0000_0000_0000 * 0x8000_0000_0000_0000 <= scaled_step * d <= 0x8000_0000_0000_0000 * 0x8000_0000_0000_0000) by (nonlinear_arith)
        requires 0 <= scaled_step <= 0x7fff_ffff_ffff_ffff, -0x8000_0000_0000_0000 <= d <= 0x7fff_ffff_ffff_ffff;
    let v = o as i128 * UNIT as i128 + scaled_step * d as i128;
    assert(k * STEP * d == scaled_step * d);
    round_div_i128(v, (UNIT * UNIT) as i128)
}

/// Marches a ray from `origin` along `direction` (a unit vector, in
/// thousandths) in steps of `STEP`, and returns the first cell of the grid
/// that a sample lands in and that is opaque. Samples are taken after each
/// step while the distance travelled stays within `max_distance`; the origin
/// itself is not sampled. Empty cells do not stop the ray.
pub fn raycast(chunk: &Chunk, origin: WorldPos, direction: WorldPos, max_distance: i64) -> (r: Option<Block>)
    requires
        chunk.wf(),
    ensures
        max_distance <= 0 ==> r is None,
        r is None ==> forall|k: int| 1 <= k <= steps_within(max_distance) ==> !#[trigger] chunk.ray_hits(origin, direction, k),
        r matches Some(b) ==> exists|k: int| {
            &&& 1 <= k <= steps_within(max_distance)
            &&& #[trigger] chunk.ray_hits(origin, direction, k)
            &&& forall|j: int| 1 <= j < k ==> !#[trigger] chunk.ray_hits(origin, direction, j)
            &&& b == chunk.block_at(chunk.shape.index_of(sample_cell(origin, direction, k)))
        },
{
    let n: i64 = if max_distance <= 0 { 0 } else { max_distance / STEP };
    let mut k: i64 = 1;
    while k <= n
        invariant
            chunk.wf(),
            n == steps_within(max_distance),
            0 <= n <= i64::MAX / STEP,
            1 <= k <= n + 1,
            forall|j: int| 1 <= j < k ==> !#[trigger] chunk.ray_hits(origin, direction, j),
        decreases n + 1 - k,
    {
        let x = sample_component(origin.x, direction.x, k);
        let y = sample_component(origin.y, direction.y, k);
        let z = sample_component(origin.z, direction.z, k);
        if 0 <= x && x < chunk.shape.width as i128 && 0 <= y && y < chunk.shape.height as i128
            && 0 <= z && z < chunk.shape.depth as i128 {
            let p = GridPos { x: x as u32, y: y as u32, z: z as u32 };
            let b = chunk.block_at_pos(p);
            if b.kind.get_visibility() == Visibility::Opaque {
                assert(chunk.ray_hits(origin, direction, k as int));
                return Some(b);
            }
        }
        k += 1;
    }
    None
}

} // verus!
