use crate::direction::{Direction, FlatDirection};
use crate::text::{comma_joined, join_decimal};
use vstd::prelude::*;

verus! {

/// A pair of values; as a horizontal position its `y` is the world's z axis.
#[derive(Clone, Copy, Debug, PartialEq, Eq, Hash, Structural)]
pub struct Vec2<T> {
    pub x: T,
    pub y: T,
}

/// A triple of values on the x, y (height) and z axes.
#[derive(Clone, Copy, Debug, PartialEq, Eq, Hash, Structural)]
pub struct Vec3<T> {
    pub x: T,
    pub y: T,
    pub z: T,
}

/// The unit offset of a direction along x.
pub open spec fn dx(d: Direction) -> int {
    match d {
        Direction::East => 1,
        Direction::West => -1,
        _ => 0,
    }
}

/// The unit offset of a direction along y.
pub open spec fn dy(d: Direction) -> int {
    match d {
        Direction::Up => 1,
        Direction::Down => -1,
        _ => 0,
    }
}

/// The unit offset of a direction along z.
pub open spec fn dz(d: Direction) -> int {
    match d {
        Direction::North => 1,
        Direction::South => -1,
        _ => 0,
    }
}

/// The point one step from `p` in direction `d`.
pub open spec fn step(p: Vec3<i32>, d: Direction) -> Vec3<i32> {
    Vec3 { x: (p.x + dx(d)) as i32, y: (p.y + dy(d)) as i32, z: (p.z + dz(d)) as i32 }
}

/// Whether one step in any direction from `p` stays within `i32`.
pub open spec fn steps_fit(p: Vec3<i32>) -> bool {
    i32::MIN < p.x < i32::MAX && i32::MIN < p.y < i32::MAX && i32::MIN < p.z < i32::MAX
}

/// The offsets -1, 1 and 0, in the order in which the cube around a point is
/// walked.
pub open spec fn cube_offset(k: int) -> int {
    if k == 0 {
        -1
    } else if k == 1 {
        1
    } else {
        0
    }
}

/// The point of the 3 x 3 x 3 cube around `p` with walk index `i` in [0, 27):
/// the x offset changes slowest, the z offset fastest.
pub open spec fn cube_point(p: Vec3<i32>, i: int) -> Vec3<i32> {
    Vec3 {
        x: (p.x + cube_offset(i / 9)) as i32,
        y: (p.y + cube_offset((i / 3) % 3)) as i32,
        z: (p.z + cube_offset(i % 3)) as i32,
    }
}

/// The horizontal unit offset of a flat direction, as (x, y).
pub open spec fn flat_offset(d: FlatDirection) -> (int, int) {
    match d {
        FlatDirection::North => (0, 1),
        FlatDirection::South => (0, -1),
        FlatDirection::East => (1, 0),
        FlatDirection::West => (-1, 0),
    }
}

/// The canonical order of the flat directions: North, South, East, West.
pub open spec fn flat_direction_at(i: int) -> FlatDirection {
    if i == 0 {
        FlatDirection::North
    } else if i == 1 {
        FlatDirection::South
    } else if i == 2 {
        FlatDirection::East
    } else {
        FlatDirection::West
    }
}

impl<T: Copy> Vec2<T> {
    pub fn new(x: T, y: T) -> (r: Vec2<T>)
        ensures
            r.x == x,
            r.y == y,
    {
        Vec2 { x, y }
    }

    /// Lifts a horizontal pair into 3D: `x` stays, `y` becomes z, and the
    /// height is `y_val`.
    pub fn move_to_3d(&self, y_val: T) -> (r: Vec3<T>)
        ensures
            r.x == self.x,
            r.y == y_val,
            r.z == self.y,
    {
        Vec3 { x: self.x, y: y_val, z: self.y }
    }
}

impl Vec2<i16> {
    /// The pair written as "x,y" in decimal.
    pub fn to_index(&self) -> (r: String)
        ensures
            r@ == comma_joined(seq![self.x as int, self.y as int]),
    {
        let values: Vec<i32> = vec![self.x as i32, self.y as i32];
        proof {
            assert(values@.map_values(|v: i32| v as int) == seq![self.x as int, self.y as int]);
        }
        join_decimal(&values)
    }

    pub fn scalar_mul(&self, val: i16) -> (r: Vec2<i16>)
        requires
            i16::MIN <= self.x * val <= i16::MAX,
            i16::MIN <= self.y * val <= i16::MAX,
        ensures
            r.x == self.x * val,
            r.y == self.y * val,
    {
        Vec2 { x: self.x * val, y: self.y * val }
    }

    pub fn add_vec(&self, vec: Vec2<i16>) -> (r: Vec2<i16>)
        requires
            i16::MIN <= self.x + vec.x <= i16::MAX,
            i16::MIN <= self.y + vec.y <= i16::MAX,
        ensures
            r.x == self.x + vec.x,
            r.y == self.y + vec.y,
    {
        Vec2 { x: self.x + vec.x, y: self.y + vec.y }
    }

    /// The pair one step away in a horizontal direction.
    pub fn move_in_flat_direction(&self, direction: &FlatDirection) -> (r: Vec2<i16>)
        requires
            i16::MIN < self.x < i16::MAX,
            i16::MIN < self.y < i16::MAX,
        ensures
            r.x == self.x + flat_offset(*direction).0,
            r.y == self.y + flat_offset(*direction).1,
    {
        match direction {
            FlatDirection::North => Vec2 { x: self.x, y: self.y + 1 },
            FlatDirection::South => Vec2 { x: self.x, y: self.y - 1 },
            FlatDirection::East => Vec2 { x: self.x + 1, y: self.y },
            FlatDirection::West => Vec2 { x: self.x - 1, y: self.y },
        }
    }

    /// The four horizontal neighbours, in the order North, South, East, West.
    pub fn get_adjacent_vecs(&self) -> (r: Vec<Vec2<i16>>)
        requires
            i16::MIN < self.x < i16::MAX,
            i16::MIN < self.y < i16::MAX,
        ensures
            r@.len() == 4,
            forall|i: int|
                0 <= i < 4 ==> #[trigger] r@[i].x == self.x + flat_offset(flat_direction_at(i)).0
                    && r@[i].y == self.y + flat_offset(flat_direction_at(i)).1,
    {
        let mut r: Vec<Vec2<i16>> = Vec::new();
        r.push(self.move_in_flat_direction(&FlatDirection::North));
        r.push(self.move_in_flat_direction(&FlatDirection::South));
        r.push(self.move_in_flat_direction(&FlatDirection::East));
        r.push(self.move_in_flat_direction(&FlatDirection::West));
        r
    }
}

impl<T: Copy> Vec3<T> {
    pub fn new(x: T, y: T, z: T) -> (r: Vec3<T>)
        ensures
            r.x == x,
            r.y == y,
            r.z == z,
    {
        Vec3 { x, y, z }
    }

    /// The component on the axis of `direction`.
    pub fn get_component_from_direction(&self, direction: Direction) -> (r: T)
        ensures
            r == component(*self, direction),
    {
        match direction {
            Direction::North => self.z,
            Direction::South => self.z,
            Direction::East => self.x,
            Direction::West => self.x,
            Direction::Up => self.y,
            Direction::Down => self.y,
        }
    }

    /// The two components across the axis of `direction`.
    pub fn get_opposite_components_from_direction(&self, direction: Direction) -> (r: (T, T))
        ensures
            r == cross_components(*self, direction),
    {
        match direction {
            Direction::North => (self.x, self.y),
            Direction::South => (self.x, self.y),
            Direction::East => (self.y, self.z),
            Direction::West => (self.y, self.z),
            Direction::Up => (self.x, self.z),
            Direction::Down => (self.x, self.z),
        }
    }

    /// Applies `f` to each component.
    pub fn map<B, F: Fn(T) -> B>(&self, f: F) -> (r: Vec3<B>)
        requires
            f.requires((self.x,)),
            f.requires((self.y,)),
            f.requires((self.z,)),
        ensures
            f.ensures((self.x,), r.x),
            f.ensures((self.y,), r.y),
            f.ensures((self.z,), r.z),
    {
        Vec3 { x: f(self.x), y: f(self.y), z: f(self.z) }
    }
}

/// The component of `v` on the axis of `d`.
pub open spec fn component<T>(v: Vec3<T>, d: Direction) -> T {
    match d {
        Direction::North | Direction::South => v.z,
        Direction::East | Direction::West => v.x,
        Direction::Up | Direction::Down => v.y,
    }
}

/// The two components of `v` across the axis of `d`.
pub open spec fn cross_components<T>(v: Vec3<T>, d: Direction) -> (T, T) {
    match d {
        Direction::North | Direction::South => (v.x, v.y),
        Direction::East | Direction::West => (v.y, v.z),
        Direction::Up | Direction::Down => (v.x, v.z),
    }
}

impl Vec3<i32> {
    /// The triple written as "x,y,z" in decimal.
    pub fn to_index(&self) -> (r: String)
        ensures
            r@ == comma_joined(seq![self.x as int, self.y as int, self.z as int]),
    {
        let values: Vec<i32> = vec![self.x, self.y, self.z];
        proof {
            assert(values@.map_values(|v: i32| v as int) == seq![
                self.x as int,
                self.y as int,
                self.z as int,
            ]);
        }
        join_decimal(&values)
    }

    /// The unit vector of a direction.
    pub fn from_direction(direction: Direction) -> (r: Vec3<i32>)
        ensures
            r.x == dx(direction),
            r.y == dy(direction),
            r.z == dz(direction),
    {
        match direction {
            Direction::North => Vec3 { x: 0, y: 0, z: 1 },
            Direction::South => Vec3 { x: 0, y: 0, z: -1 },
            Direction::East => Vec3 { x: 1, y: 0, z: 0 },
            Direction::West => Vec3 { x: -1, y: 0, z: 0 },
            Direction::Up => Vec3 { x: 0, y: 1, z: 0 },
            Direction::Down => Vec3 { x: 0, y: -1, z: 0 },
        }
    }

    /// The point one step away in `direction`.
    pub fn move_direction(&self, direction: &Direction) -> (r: Vec3<i32>)
        requires
            steps_fit(*self),
        ensures
            r == step(*self, *direction),
            r.x == self.x + dx(*direction),
            r.y == self.y + dy(*direction),
            r.z == self.z + dz(*direction),
    {
        match direction {
            Direction::North => Vec3 { x: self.x, y: self.y, z: self.z + 1 },
            Direction::South => Vec3 { x: self.x, y: self.y, z: self.z - 1 },
            Direction::East => Vec3 { x: self.x + 1, y: self.y, z: self.z },
            Direction::West => Vec3 { x: self.x - 1, y: self.y, z: self.z },
            Direction::Up => Vec3 { x: self.x, y: self.y + 1, z: self.z },
            Direction::Down => Vec3 { x: self.x, y: self.y - 1, z: self.z },
        }
    }

    pub fn sum(&self) -> (r: i32)
        requires
            i32::MIN <= self.x + self.y <= i32::MAX,
            i32::MIN <= self.x + self.y + self.z <= i32::MAX,
        ensures
            r == self.x + self.y + self.z,
    {
        self.x + self.y + self.z
    }

    pub fn scalar_mult(&self, val: i32) -> (r: Vec3<i32>)
        requires
            i32::MIN <= self.x * val <= i32::MAX,
            i32::MIN <= self.y * val <= i32::MAX,
            i32::MIN <= self.z * val <= i32::MAX,
        ensures
            r.x == self.x * val,
            r.y == self.y * val,
            r.z == self.z * val,
    {
        Vec3 { x: self.x * val, y: self.y * val, z: self.z * val }
    }

    pub fn add_vec(&self, vec: Vec3<i32>) -> (r: Vec3<i32>)
        requires
            i32::MIN <= self.x + vec.x <= i32::MAX,
            i32::MIN <= self.y + vec.y <= i32::MAX,
            i32::MIN <= self.z + vec.z <= i32::MAX,
        ensures
            r.x == self.x + vec.x,
            r.y == self.y + vec.y,
            r.z == self.z + vec.z,
    {
        Vec3 { x: self.x + vec.x, y: self.y + vec.y, z: self.z + vec.z }
    }

    /// The six face-adjacent points, in the canonical direction order.
    pub fn get_adjacent_vecs(&self) -> (r: Vec<Vec3<i32>>)
        requires
            steps_fit(*self),
        ensures
            r@ == Seq::new(6, |i: int| step(*self, crate::direction::direction_at(i))),
    {
        let mut r: Vec<Vec3<i32>> = Vec::new();
        let mut i: usize = 0;
        while i < 6
            invariant
                0 <= i <= 6,
                steps_fit(*self),
                r@ == Seq::new(i as nat, |j: int| step(*self, crate::direction::direction_at(j))),
            decreases 6 - i,
        {
            let d = Direction::from_index(i);
            r.push(self.move_direction(&d));
            i = i + 1;
        }
        r
    }

    /// The point itself followed by the 27 points of the 3 x 3 x 3 cube
    /// around it (which holds the point once more).
    pub fn get_cube_vecs(&self) -> (r: Vec<Vec3<i32>>)
        requires
            steps_fit(*self),
        ensures
            r@ == seq![*self] + Seq::new(27, |i: int| cube_point(*self, i)),
    {
        let offsets: [i32; 3] = [-1, 1, 0];
        let mut r: Vec<Vec3<i32>> = Vec::new();
        r.push(*self);
        let mut i: usize = 0;
        while i < 27
            invariant
                0 <= i <= 27,
                steps_fit(*self),
                offsets@ == seq![-1i32, 1i32, 0i32],
                r@ == seq![*self] + Seq::new(i as nat, |j: int| cube_point(*self, j)),
            decreases 27 - i,
        {
            let a = offsets[i / 9];
            let b = offsets[(i / 3) % 3];
            let c = offsets[i % 3];
            let point = Vec3 { x: self.x + a, y: self.y + b, z: self.z + c };
            proof {
                assert(point == cube_point(*self, i as int));
                assert(seq![*self] + Seq::new(i as nat + 1, |j: int| cube_point(*self, j)) == (
                seq![*self] + Seq::new(i as nat, |j: int| cube_point(*self, j))).push(point));
            }
            r.push(point);
            i = i + 1;
        }
        r
    }

    /// The point itself followed by its six face-adjacent points.
    pub fn get_cross_vecs(&self) -> (r: Vec<Vec3<i32>>)
        requires
            steps_fit(*self),
        ensures
            r@ == seq![*self] + Seq::new(
                6,
                |i: int| step(*self, crate::direction::direction_at(i)),
            ),
    {
        let mut r: Vec<Vec3<i32>> = Vec::new();
        r.push(*self);
        let mut adjacent = self.get_adjacent_vecs();
        r.append(&mut adjacent);
        r
    }
}

} // verus!
