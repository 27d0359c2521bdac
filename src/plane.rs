use crate::chunk_mesh::BlockMesh;
use crate::direction::{Direction, outward};
use crate::positions::WorldPos;
use crate::vec::component;
use vstd::prelude::*;

verus! {

/// One face of the unit cube at `world_pos`: the unit square on the side that
/// `direction` points to.
#[derive(Clone, Copy, Debug, PartialEq, Eq, Structural)]
pub struct WorldPlane {
    pub world_pos: WorldPos,
    pub direction: Direction,
}

/// The offset of a face along its normal axis: the cube's coordinate on that
/// axis, plus one for the outward faces (East, North, Up).
pub open spec fn relative_offset(p: WorldPlane) -> int {
    component(p.world_pos, p.direction) + if outward(p.direction) {
        1int
    } else {
        0int
    }
}

impl WorldPlane {
    pub fn new(world_pos: WorldPos, direction: Direction) -> (r: WorldPlane)
        ensures
            r.world_pos == world_pos,
            r.direction == direction,
    {
        WorldPlane { world_pos, direction }
    }

    /// The face's offset along its normal axis.
    pub fn get_relative_y(&self) -> (r: i32)
        requires
            component(self.world_pos, self.direction) < i32::MAX,
        ensures
            r == relative_offset(*self),
    {
        let base = self.world_pos.get_component_from_direction(self.direction);
        if self.direction.is_outward() {
            base + 1
        } else {
            base
        }
    }
}

impl BlockMesh {
    /// The planes of the visible faces, in canonical direction order.
    pub fn planes(&self) -> (r: Vec<WorldPlane>)
        ensures
            r@ == self.directions.listed().map_values(
                |d: Direction| WorldPlane { world_pos: self.world_pos, direction: d },
            ),
    {
        let directions = self.directions.to_vec();
        let mut r: Vec<WorldPlane> = Vec::new();
        let mut i: usize = 0;
        while i < directions.len()
            invariant
                0 <= i <= directions@.len(),
                directions@ == self.directions.listed(),
                r@ == directions@.take(i as int).map_values(
                    |d: Direction| WorldPlane { world_pos: self.world_pos, direction: d },
                ),
            decreases directions@.len() - i,
        {
            r.push(WorldPlane::new(self.world_pos, directions[i]));
            proof {
                assert(directions@.take(i as int + 1) == directions@.take(i as int).push(
                    directions@[i as int],
                ));
            }
            i = i + 1;
        }
        proof {
            assert(directions@.take(directions@.len() as int) == directions@);
        }
        r
    }
}

} // verus!
