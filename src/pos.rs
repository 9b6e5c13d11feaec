//! Screen directions with their arrow characters and quarter turns.
use vstd::prelude::*;

verus! {

/// A screen direction, or staying put; `Down` is towards growing rows.
#[derive(Debug, Clone, Copy, Hash, Eq, PartialEq, Structural)]
pub enum Direction {
    Right,
    Down,
    Left,
    Up,
    Wait,
}

impl Direction {
    /// The number of a direction: quarter turns clockwise from `Right`; `Wait` counts as 0.
    pub open spec fn spec_number(self) -> nat {
        match self {
            Direction::Right => 0,
            Direction::Down => 1,
            Direction::Left => 2,
            Direction::Up => 3,
            Direction::Wait => 0,
        }
    }

    pub open spec fn spec_from_number(n: usize) -> Direction {
        if n == 0 {
            Direction::Right
        } else if n == 1 {
            Direction::Down
        } else if n == 2 {
            Direction::Left
        } else if n == 3 {
            Direction::Up
        } else {
            Direction::Wait
        }
    }

    /// The direction `n` quarter turns clockwise from `Right`, for `n` below 4; `Wait` for
    /// any other number.
    pub fn from_number(n: usize) -> (r: Direction)
        ensures
            r == Direction::spec_from_number(n),
    {
        match n {
            0 => Direction::Right,
            1 => Direction::Down,
            2 => Direction::Left,
            3 => Direction::Up,
            _ => Direction::Wait,
        }
    }

    /// The name of the direction.
    pub fn as_str(&self) -> (r: &'static str)
        ensures
            *self == Direction::Right ==> r@ == "Right"@,
            *self == Direction::Down ==> r@ == "Down"@,
            *self == Direction::Left ==> r@ == "Left"@,
            *self == Direction::Up ==> r@ == "Up"@,
            *self == Direction::Wait ==> r@ == "Wait"@,
    {
        match self {
            Direction::Right => "Right",
            Direction::Down => "Down",
            Direction::Left => "Left",
            Direction::Up => "Up",
            Direction::Wait => "Wait",
        }
    }

    /// The number of the direction.
    pub fn as_number(&self) -> (r: usize)
        ensures
            r == self.spec_number(),
    {
        match self {
            Direction::Right => 0,
            Direction::Down => 1,
            Direction::Left => 2,
            Direction::Up => 3,
            Direction::Wait => 0,
        }
    }

    /// The direction an arrow character points in: `>`, `v`, `<` or `^`.
    pub fn from_char(c: char) -> (r: Option<Direction>)
        ensures
            r == (if c == '>' {
                Some(Direction::Right)
            } else if c == 'v' {
                Some(Direction::Down)
            } else if c == '<' {
                Some(Direction::Left)
            } else if c == '^' {
                Some(Direction::Up)
            } else {
                None
            }),
    {
        match c {
            '>' => Some(Direction::Right),
            'v' => Some(Direction::Down),
            '<' => Some(Direction::Left),
            '^' => Some(Direction::Up),
            _ => None,
        }
    }

    pub fn is_horizontal(&self) -> (r: bool)
        ensures
            r == (*self == Direction::Right || *self == Direction::Left),
    {
        match self {
            Direction::Right | Direction::Left => true,
            _ => false,
        }
    }

    /// A quarter turn anticlockwise; `Wait` stays.
    pub fn turn_left(&self) -> (r: Direction)
        ensures
            *self != Direction::Wait ==> r == Direction::spec_from_number(((self.spec_number() + 3) % 4) as usize),
            *self == Direction::Wait ==> r == Direction::Wait,
    {
        match self {
            Direction::Right => Direction::Up,
            Direction::Down => Direction::Right,
            Direction::Left => Direction::Down,
            Direction::Up => Direction::Left,
            Direction::Wait => Direction::Wait,
        }
    }

    /// A quarter turn clockwise; `Wait` stays.
    pub fn turn_right(&self) -> (r: Direction)
        ensures
            *self != Direction::Wait ==> r == Direction::spec_from_number(((self.spec_number() + 1) % 4) as usize),
            *self == Direction::Wait ==> r == Direction::Wait,
    {
        match self {
            Direction::Right => Direction::Down,
            Direction::Down => Direction::Left,
            Direction::Left => Direction::Up,
            Direction::Up => Direction::Right,
            Direction::Wait => Direction::Wait,
        }
    }

    /// Turning by `self` then by `rhs`: numbers add modulo 4, and `Wait` turns nothing.
    pub open spec fn spec_add(self, rhs: Direction) -> Direction {
        if self == Direction::Wait {
            rhs
        } else if rhs == Direction::Wait {
            self
        } else {
            Direction::spec_from_number(((self.spec_number() + rhs.spec_number()) % 4) as usize)
        }
    }
}

impl core::ops::Add for Direction {
    type Output = Direction;

    fn add(self, rhs: Direction) -> (r: Direction) {
        if self == Direction::Wait {
            return rhs;
        }
        if rhs == Direction::Wait {
            return self;
        }
        let result: usize = (self.as_number() + rhs.as_number()) % 4;
        Direction::from_number(result)
    }
}

impl vstd::std_specs::ops::AddSpecImpl for Direction {
    open spec fn obeys_add_spec() -> bool {
        true
    }

    open spec fn add_req(self, rhs: Direction) -> bool {
        true
    }

    open spec fn add_spec(self, rhs: Direction) -> Direction {
        self.spec_add(rhs)
    }
}

} // verus!
