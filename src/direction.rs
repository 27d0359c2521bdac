use vstd::prelude::*;

verus! {

/// One of the six axis-aligned faces of a block.
///
/// North points towards +z, East towards +x and Up towards +y; the three of
/// them are the "outward" directions.
#[derive(Clone, Copy, Debug, PartialEq, Eq, Hash, Structural)]
pub enum Direction {
    North,
    South,
    Up,
    Down,
    East,
    West,
}

/// A direction in the horizontal plane.
#[derive(Clone, Copy, Debug, PartialEq, Eq, Hash, Structural)]
pub enum FlatDirection {
    North,
    South,
    East,
    West,
}

/// Number of faces of a block.
pub const DIRECTION_COUNT: usize = 6;

/// The position of a direction in the canonical order
/// North, South, Up, Down, East, West.
pub open spec fn index_of_direction(d: Direction) -> int {
    match d {
        Direction::North => 0,
        Direction::South => 1,
        Direction::Up => 2,
        Direction::Down => 3,
        Direction::East => 4,
        Direction::West => 5,
    }
}

/// The direction at a position of the canonical order.
pub open spec fn direction_at(i: int) -> Direction
    recommends
        0 <= i < 6,
{
    if i == 0 {
        Direction::North
    } else if i == 1 {
        Direction::South
    } else if i == 2 {
        Direction::Up
    } else if i == 3 {
        Direction::Down
    } else if i == 4 {
        Direction::East
    } else {
        Direction::West
    }
}

/// Outward directions point towards the positive end of their axis.
pub open spec fn outward(d: Direction) -> bool {
    d == Direction::North || d == Direction::East || d == Direction::Up
}

/// The direction on the same axis pointing the other way.
pub open spec fn opposite(d: Direction) -> Direction {
    match d {
        Direction::North => Direction::South,
        Direction::South => Direction::North,
        Direction::Up => Direction::Down,
        Direction::Down => Direction::Up,
        Direction::East => Direction::West,
        Direction::West => Direction::East,
    }
}

/// A set of block faces, one flag per direction.
#[derive(Clone, Copy, Debug, PartialEq, Eq, Structural)]
pub struct Directions {
    pub north: bool,
    pub south: bool,
    pub up: bool,
    pub down: bool,
    pub east: bool,
    pub west: bool,
}

impl Directions {
    /// Whether face `d` is in the set.
    pub open spec fn has(self, d: Direction) -> bool {
        match d {
            Direction::North => self.north,
            Direction::South => self.south,
            Direction::Up => self.up,
            Direction::Down => self.down,
            Direction::East => self.east,
            Direction::West => self.west,
        }
    }

    /// The set of the faces that satisfy `f`.
    pub open spec fn from_pred(f: spec_fn(Direction) -> bool) -> Directions {
        Directions {
            north: f(Direction::North),
            south: f(Direction::South),
            up: f(Direction::Up),
            down: f(Direction::Down),
            east: f(Direction::East),
            west: f(Direction::West),
        }
    }

    /// The faces of the set, in canonical order.
    pub open spec fn listed(self) -> Seq<Direction> {
        Seq::new(6, |i: int| direction_at(i)).filter(|d: Direction| self.has(d))
    }

    /// The set of all six faces.
    pub fn all() -> (r: Directions)
        ensures
            forall|d: Direction| r.has(d),
    {
        Directions { north: true, south: true, up: true, down: true, east: true, west: true }
    }

    /// The empty set.
    pub fn empty() -> (r: Directions)
        ensures
            forall|d: Direction| !r.has(d),
    {
        Directions {
            north: false,
            south: false,
            up: false,
            down: false,
            east: false,
            west: false,
        }
    }

    /// Takes face `direction` out of the set.
    pub fn remove_direction(&mut self, direction: Direction)
        ensures
            forall|d: Direction| final(self).has(d) == (old(self).has(d) && d != direction),
    {
        match direction {
            Direction::North => self.north = false,
            Direction::South => self.south = false,
            Direction::Up => self.up = false,
            Direction::Down => self.down = false,
            Direction::East => self.east = false,
            Direction::West => self.west = false,
        }
    }

    /// Puts face `direction` into the set.
    pub fn insert_direction(&mut self, direction: Direction)
        ensures
            forall|d: Direction| final(self).has(d) == (old(self).has(d) || d == direction),
    {
        match direction {
            Direction::North => self.north = true,
            Direction::South => self.south = true,
            Direction::Up => self.up = true,
            Direction::Down => self.down = true,
            Direction::East => self.east = true,
            Direction::West => self.west = true,
        }
    }

    /// The set that holds `direction` alone.
    pub fn create_for_direction(direction: Direction) -> (r: Directions)
        ensures
            forall|d: Direction| r.has(d) == (d == direction),
    {
        let mut r = Directions::empty();
        r.insert_direction(direction);
        r
    }

    /// Whether face `direction` is in the set.
    pub fn has_direction(&self, direction: Direction) -> (r: bool)
        ensures
            r == self.has(direction),
    {
        match direction {
            Direction::North => self.north,
            Direction::South => self.south,
            Direction::Up => self.up,
            Direction::Down => self.down,
            Direction::East => self.east,
            Direction::West => self.west,
        }
    }

    /// The set of the directions that `directions` lists.
    pub fn from_directions(directions: &Vec<Direction>) -> (r: Directions)
        ensures
            forall|d: Direction| r.has(d) == directions@.contains(d),
    {
        let mut r = Directions::empty();
        let mut i: usize = 0;
        while i < directions.len()
            invariant
                0 <= i <= directions@.len(),
                forall|d: Direction| r.has(d) == directions@.take(i as int).contains(d),
            decreases directions@.len() - i,
        {
            let ghost before = directions@.take(i as int);
            r.insert_direction(directions[i]);
            proof {
                assert(directions@.take(i as int + 1) == before.push(directions@[i as int]));
                assert forall|d: Direction| r.has(d) == directions@.take(i as int + 1).contains(
                    d,
                ) by {
                    let after = before.push(directions@[i as int]);
                    if after.contains(d) && d != directions@[i as int] {
                        let k = choose|k: int| 0 <= k < after.len() && after[k] == d;
                        assert(before[k] == d);
                    }
                    if before.contains(d) {
                        let k = choose|k: int| 0 <= k < before.len() && before[k] == d;
                        assert(after[k] == d);
                    }
                    if d == directions@[i as int] {
                        assert(after[i as int] == d);
                    }
                }
            }
            i = i + 1;
        }
        proof {
            assert(directions@.take(directions@.len() as int) == directions@);
        }
        r
    }

    /// The faces of the set in canonical order.
    pub fn to_vec(&self) -> (r: Vec<Direction>)
        ensures
            r@ == self.listed(),
    {
        let mut r: Vec<Direction> = Vec::new();
        let mut i: usize = 0;
        while i < DIRECTION_COUNT
            invariant
                0 <= i <= 6,
                r@ == Seq::new(6, |j: int| direction_at(j)).take(i as int).filter(
                    |d: Direction| self.has(d),
                ),
            decreases 6 - i,
        {
            let d = Direction::from_index(i);
            proof {
                let all = Seq::new(6, |j: int| direction_at(j));
                assert(all.take(i as int + 1) == all.take(i as int).push(d));
                all.take(i as int).lemma_filter_push(d, |d: Direction| self.has(d));
            }
            if self.has_direction(d) {
                r.push(d);
            }
            i = i + 1;
        }
        proof {
            let all = Seq::new(6, |j: int| direction_at(j));
            assert(all.take(6) == all);
        }
        r
    }

    /// Number of faces in the set.
    pub fn len(&self) -> (r: usize)
        ensures
            r == self.listed().len(),
    {
        self.to_vec().len()
    }
}

impl Direction {
    /// The direction at position `index` of the canonical order
    /// North, South, Up, Down, East, West.
    pub fn from_index(index: usize) -> (r: Direction)
        requires
            index < 6,
        ensures
            r == direction_at(index as int),
            index_of_direction(r) == index,
    {
        match index {
            0 => Direction::North,
            1 => Direction::South,
            2 => Direction::Up,
            3 => Direction::Down,
            4 => Direction::East,
            _ => Direction::West,
        }
    }

    /// The position of this direction in the canonical order.
    pub fn to_index(&self) -> (r: usize)
        ensures
            r == index_of_direction(*self),
            direction_at(r as int) == *self,
    {
        match self {
            Direction::North => 0,
            Direction::South => 1,
            Direction::Up => 2,
            Direction::Down => 3,
            Direction::East => 4,
            Direction::West => 5,
        }
    }

    /// The set holding this direction alone.
    pub fn to_directions(&self) -> (r: Directions)
        ensures
            forall|d: Direction| r.has(d) == (d == *self),
    {
        Directions::create_for_direction(*self)
    }

    /// The horizontal direction of this one; Up maps to North and Down to South.
    pub fn flatten(&self) -> (r: FlatDirection)
        ensures
            r == match *self {
                Direction::North | Direction::Up => FlatDirection::North,
                Direction::South | Direction::Down => FlatDirection::South,
                Direction::East => FlatDirection::East,
                Direction::West => FlatDirection::West,
            },
    {
        match self {
            Direction::North => FlatDirection::North,
            Direction::South => FlatDirection::South,
            Direction::East => FlatDirection::East,
            Direction::West => FlatDirection::West,
            Direction::Up => FlatDirection::North,
            Direction::Down => FlatDirection::South,
        }
    }

    /// Whether this direction points towards the positive end of its axis.
    pub fn is_outward(&self) -> (r: bool)
        ensures
            r == outward(*self),
    {
        match self {
            Direction::North => true,
            Direction::South => false,
            Direction::East => true,
            Direction::West => false,
            Direction::Up => true,
            Direction::Down => false,
        }
    }
}

/// Two face sets that agree on every direction are equal.
pub proof fn lemma_directions_ext(a: Directions, b: Directions)
    requires
        forall|d: Direction| a.has(d) == b.has(d),
    ensures
        a == b,
{
    assert(a.has(Direction::North) == b.has(Direction::North));
    assert(a.has(Direction::South) == b.has(Direction::South));
    assert(a.has(Direction::Up) == b.has(Direction::Up));
    assert(a.has(Direction::Down) == b.has(Direction::Down));
    assert(a.has(Direction::East) == b.has(Direction::East));
    assert(a.has(Direction::West) == b.has(Direction::West));
}

} // verus!
