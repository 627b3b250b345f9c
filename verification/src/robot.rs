use vstd::prelude::*;
use crate::text::chars_of;

verus! {

/// The four compass points, clockwise from north.
#[derive(PartialEq, Eq, Debug, Clone, Copy, Structural)]
pub enum Direction {
    North,
    East,
    South,
    West,
}

/// The compass point that lies `d` quarter turns clockwise from north.
pub open spec fn direction_at(d: int) -> Direction {
    if d % 4 == 0 {
        Direction::North
    } else if d % 4 == 1 {
        Direction::East
    } else if d % 4 == 2 {
        Direction::South
    } else {
        Direction::West
    }
}

/// How many quarter turns clockwise from north a compass point lies.
pub open spec fn turns_of(d: Direction) -> int {
    match d {
        Direction::North => 0,
        Direction::East => 1,
        Direction::South => 2,
        Direction::West => 3,
    }
}

impl Direction {
    fn index(&self) -> (i: usize)
        ensures
            i == turns_of(*self),
    {
        match self {
            Direction::North => 0,
            Direction::East => 1,
            Direction::South => 2,
            Direction::West => 3,
        }
    }
}

impl vstd::std_specs::convert::FromSpecImpl<usize> for Direction {
    open spec fn obeys_from_spec() -> bool {
        true
    }

    open spec fn from_spec(d: usize) -> Direction {
        direction_at(d as int)
    }
}

impl From<usize> for Direction {
    fn from(d: usize) -> (r: Direction) {
        let q: usize = d % 4;
        if q == 0 {
            Direction::North
        } else if q == 1 {
            Direction::East
        } else if q == 2 {
            Direction::South
        } else {
            Direction::West
        }
    }
}

/// A robot on an unbounded grid: where it stands and where it faces.
pub struct Robot {
    x: i32,
    y: i32,
    d: Direction,
}

impl Robot {
    pub closed spec fn spec_x(&self) -> int {
        self.x as int
    }

    pub closed spec fn spec_y(&self) -> int {
        self.y as int
    }

    pub closed spec fn facing(&self) -> Direction {
        self.d
    }

    pub fn new(x: i32, y: i32, d: Direction) -> (r: Self)
        ensures
            r.spec_x() == x,
            r.spec_y() == y,
            r.facing() == d,
    {
        Self { x, y, d }
    }

    /// The robot after a quarter turn clockwise, on the same square.
    #[must_use]
    pub fn turn_right(self) -> (r: Self)
        ensures
            r.spec_x() == self.spec_x(),
            r.spec_y() == self.spec_y(),
            r.facing() == direction_at(turns_of(self.facing()) + 1),
    {
        let i: usize = self.d.index();
        Self { d: Direction::from(i + 1), x: self.x, y: self.y }
    }

    /// The robot after a quarter turn counterclockwise, on the same square.
    #[must_use]
    pub fn turn_left(self) -> (r: Self)
        ensures
            r.spec_x() == self.spec_x(),
            r.spec_y() == self.spec_y(),
            r.facing() == direction_at(turns_of(self.facing()) + 3),
    {
        let i: usize = self.d.index();
        Self { d: Direction::from(i + 3), x: self.x, y: self.y }
    }

    /// The robot one square further in the direction it faces: north is up
    /// the y axis, east is up the x axis.
    #[must_use]
    pub fn advance(self) -> (r: Self)
        requires
            self.facing() == Direction::North ==> self.spec_y() < i32::MAX,
            self.facing() == Direction::East ==> self.spec_x() < i32::MAX,
            self.facing() == Direction::South ==> self.spec_y() > i32::MIN,
            self.facing() == Direction::West ==> self.spec_x() > i32::MIN,
        ensures
            r.facing() == self.facing(),
            r.spec_x() == self.spec_x() + match self.facing() {
                Direction::East => 1int,
                Direction::West => -1int,
                _ => 0int,
            },
            r.spec_y() == self.spec_y() + match self.facing() {
                Direction::North => 1int,
                Direction::South => -1int,
                _ => 0int,
            },
    {
        match self.d {
            Direction::North => Self { y: self.y + 1, x: self.x, d: self.d },
            Direction::East => Self { x: self.x + 1, y: self.y, d: self.d },
            Direction::South => Self { y: self.y - 1, x: self.x, d: self.d },
            Direction::West => Self { x: self.x - 1, y: self.y, d: self.d },
        }
    }

    pub fn position(&self) -> (p: (i32, i32))
        ensures
            p.0 == self.spec_x(),
            p.1 == self.spec_y(),
    {
        (self.x, self.y)
    }

    pub fn direction(&self) -> (d: &Direction)
        ensures
            *d == self.facing(),
    {
        &self.d
    }
}

/// Four quarter turns to the right bring a robot back to where it faced, as
/// do a turn to the right and one to the left.
pub proof fn law_turns_cancel(d: Direction)
    ensures
        direction_at(turns_of(direction_at(turns_of(d) + 1)) + 3) == d,
        direction_at(turns_of(direction_at(turns_of(d) + 3)) + 1) == d,
        direction_at(turns_of(d)) == d,
{
}

/// Where a robot stands and where it faces, on a grid without bounds.
pub type Place = (int, int, Direction);

/// The place after one instruction: `A` advances, `L` and `R` turn; any
/// other character is no instruction.
pub open spec fn obey(p: Place, c: char) -> Option<Place> {
    if c == 'A' {
        Some(
            match p.2 {
                Direction::North => (p.0, p.1 + 1, p.2),
                Direction::East => (p.0 + 1, p.1, p.2),
                Direction::South => (p.0, p.1 - 1, p.2),
                Direction::West => (p.0 - 1, p.1, p.2),
            },
        )
    } else if c == 'L' {
        Some((p.0, p.1, direction_at(turns_of(p.2) + 3)))
    } else if c == 'R' {
        Some((p.0, p.1, direction_at(turns_of(p.2) + 1)))
    } else {
        None
    }
}

/// The place after a row of instructions; none if one of the characters
/// is no instruction.
pub open spec fn follow(p: Place, instructions: Seq<char>) -> Option<Place>
    decreases instructions.len(),
{
    if instructions.len() == 0 {
        Some(p)
    } else {
        match follow(p, instructions.drop_last()) {
            Some(q) => obey(q, instructions.last()),
            None => None,
        }
    }
}

/// Whether a place lies on the part of the grid that a robot can stand on.
pub open spec fn on_grid(p: Place) -> bool {
    i32::MIN <= p.0 <= i32::MAX && i32::MIN <= p.1 <= i32::MAX
}

proof fn lemma_follow_stays_none(p: Place, instructions: Seq<char>, k: int)
    requires
        0 <= k <= instructions.len(),
        follow(p, instructions.take(k)) is None,
    ensures
        follow(p, instructions) is None,
    decreases instructions.len() - k,
{
    if k == instructions.len() {
        assert(instructions.take(k) =~= instructions);
    } else {
        assert(instructions.take(k + 1).drop_last() =~= instructions.take(k));
        lemma_follow_stays_none(p, instructions, k + 1);
    }
}

impl Robot {
    /// The robot's place.
    pub open spec fn place(&self) -> Place {
        (self.spec_x(), self.spec_y(), self.facing())
    }

    /// The robot after a row of instructions; `None` if one of them is no
    /// instruction.
    #[must_use]
    pub fn instructions(self, instructions: &str) -> (r: Option<Self>)
        requires
            forall|k: int|
                0 <= k <= instructions@.len() ==> match #[trigger] follow(
                    self.place(),
                    instructions@.take(k),
                ) {
                    Some(p) => on_grid(p),
                    None => true,
                },
        ensures
            match follow(self.place(), instructions@) {
                Some(p) => r is Some && r->Some_0.place() == p,
                None => r is None,
            },
    {
        let chars = chars_of(instructions);
        let ghost start = self.place();
        let mut r: Robot = self;
        let mut i: usize = 0;
        assert(chars@.take(0) =~= Seq::<char>::empty());
        while i < chars.len()
            invariant
                i <= chars.len(),
                chars@ == instructions@,
                start == self.place(),
                follow(start, chars@.take(i as int)) == Some(r.place()),
                forall|k: int|
                    0 <= k <= chars@.len() ==> match #[trigger] follow(start, chars@.take(k)) {
                        Some(p) => on_grid(p),
                        None => true,
                    },
            decreases chars.len() - i,
        {
            let c: char = chars[i];
            let ghost upto = chars@.take(i + 1);
            assert(upto.drop_last() =~= chars@.take(i as int));
            assert(upto.last() == c);
            assert(follow(start, upto) == obey(r.place(), c));
            if c == 'A' {
                assert(on_grid(obey(r.place(), c)->Some_0));
                r = r.advance();
            } else if c == 'L' {
                r = r.turn_left();
            } else if c == 'R' {
                r = r.turn_right();
            } else {
                proof {
                    lemma_follow_stays_none(start, chars@, i + 1);
                }
                return None;
            }
            i += 1;
        }
        assert(chars@.take(i as int) =~= chars@);
        Some(r)
    }
}

} // verus!
