//! A rectangular grid of cells addressed by points, with directions and offset vectors.
use vstd::prelude::*;
use vstd::std_specs::cmp::PartialEqSpec;

verus! {

/// An offset between two points.
#[derive(Debug, Clone, Copy, PartialEq, Eq, Structural, Hash)]
pub struct Vector {
    pub x: isize,
    pub y: isize,
}

/// A cell position: column `x`, row `y`.
#[derive(Debug, Default, Clone, Copy, PartialEq, Eq, Structural, Hash)]
pub struct Point {
    pub x: usize,
    pub y: usize,
}

/// A compass direction, or staying put.
#[derive(Debug, Clone, Copy, PartialEq, Eq, Structural, PartialOrd, Ord, Hash)]
pub enum Direction {
    North,
    East,
    South,
    West,
    Wait,
}

/// The unit offset of a direction; `y` grows southwards.
pub open spec fn direction_offset(d: Direction) -> (int, int) {
    match d {
        Direction::East => (1, 0),
        Direction::South => (0, 1),
        Direction::West => (-1, 0),
        Direction::North => (0, -1),
        Direction::Wait => (0, 0),
    }
}

pub open spec fn abs_int(v: int) -> int {
    if v < 0 {
        -v
    } else {
        v
    }
}

impl Vector {
    pub fn new(x: isize, y: isize) -> (r: Vector)
        ensures
            r.x == x && r.y == y,
    {
        Vector { x, y }
    }

    /// The unit offset of `dir`.
    pub fn from_direction(dir: Direction) -> (r: Vector)
        ensures
            r.x == direction_offset(dir).0,
            r.y == direction_offset(dir).1,
    {
        match dir {
            Direction::East => Vector::new(1, 0),
            Direction::South => Vector::new(0, 1),
            Direction::West => Vector::new(-1, 0),
            Direction::North => Vector::new(0, -1),
            Direction::Wait => Vector::new(0, 0),
        }
    }

    /// Both components made non-negative.
    pub fn abs(&self) -> (r: Vector)
        requires
            self.x != isize::MIN,
            self.y != isize::MIN,
        ensures
            r.x == abs_int(self.x as int),
            r.y == abs_int(self.y as int),
    {
        Vector {
            x: if self.x < 0 { -self.x } else { self.x },
            y: if self.y < 0 { -self.y } else { self.y },
        }
    }

    pub fn as_tuple(self) -> (r: (isize, isize))
        ensures
            r == (self.x, self.y),
    {
        (self.x, self.y)
    }

    /// The Manhattan length `|x| + |y|`.
    pub fn manhattan(self) -> (r: isize)
        requires
            abs_int(self.x as int) + abs_int(self.y as int) <= isize::MAX,
        ensures
            r == abs_int(self.x as int) + abs_int(self.y as int),
    {
        let ax = if self.x < 0 { -self.x } else { self.x };
        let ay = if self.y < 0 { -self.y } else { self.y };
        ax + ay
    }
}

impl core::ops::Add for Vector {
    type Output = Vector;

    fn add(self, rhs: Vector) -> (r: Vector) {
        Vector::new(self.x + rhs.x, self.y + rhs.y)
    }
}

impl vstd::std_specs::ops::AddSpecImpl for Vector {
    open spec fn obeys_add_spec() -> bool {
        true
    }

    open spec fn add_req(self, rhs: Vector) -> bool {
        isize::MIN <= self.x + rhs.x <= isize::MAX && isize::MIN <= self.y + rhs.y <= isize::MAX
    }

    open spec fn add_spec(self, rhs: Vector) -> Vector {
        vec_of(self.x + rhs.x, self.y + rhs.y)
    }
}

impl core::ops::Sub for Vector {
    type Output = Vector;

    fn sub(self, rhs: Vector) -> (r: Vector) {
        Vector { x: self.x - rhs.x, y: self.y - rhs.y }
    }
}

impl vstd::std_specs::ops::SubSpecImpl for Vector {
    open spec fn obeys_sub_spec() -> bool {
        true
    }

    open spec fn sub_req(self, rhs: Vector) -> bool {
        isize::MIN <= self.x - rhs.x <= isize::MAX && isize::MIN <= self.y - rhs.y <= isize::MAX
    }

    open spec fn sub_spec(self, rhs: Vector) -> Vector {
        vec_of(self.x - rhs.x, self.y - rhs.y)
    }
}

impl core::ops::Neg for Vector {
    type Output = Vector;

    fn neg(self) -> (r: Vector) {
        Vector { x: -self.x, y: -self.y }
    }
}

impl vstd::std_specs::ops::NegSpecImpl for Vector {
    open spec fn obeys_neg_spec() -> bool {
        true
    }

    open spec fn neg_req(self) -> bool {
        self.x != isize::MIN && self.y != isize::MIN
    }

    open spec fn neg_spec(self) -> Vector {
        vec_of(-self.x, -self.y)
    }
}

impl core::ops::Mul<isize> for Vector {
    type Output = Vector;

    fn mul(self, rhs: isize) -> (r: Vector) {
        Vector::new(self.x * rhs, self.y * rhs)
    }
}

impl vstd::std_specs::ops::MulSpecImpl<isize> for Vector {
    open spec fn obeys_mul_spec() -> bool {
        true
    }

    open spec fn mul_req(self, rhs: isize) -> bool {
        isize::MIN <= self.x * rhs <= isize::MAX && isize::MIN <= self.y * rhs <= isize::MAX
    }

    open spec fn mul_spec(self, rhs: isize) -> Vector {
        vec_of(self.x * rhs, self.y * rhs)
    }
}

impl core::ops::Mul<Vector> for isize {
    type Output = Vector;

    fn mul(self, rhs: Vector) -> (r: Vector) {
        Vector::new(self * rhs.x, self * rhs.y)
    }
}

impl vstd::std_specs::ops::MulSpecImpl<Vector> for isize {
    open spec fn obeys_mul_spec() -> bool {
        true
    }

    open spec fn mul_req(self, rhs: Vector) -> bool {
        isize::MIN <= self * rhs.x <= isize::MAX && isize::MIN <= self * rhs.y <= isize::MAX
    }

    open spec fn mul_spec(self, rhs: Vector) -> Vector {
        vec_of(self * rhs.x, self * rhs.y)
    }
}

impl core::ops::AddAssign for Vector {
    fn add_assign(&mut self, rhs: Vector)
        requires
            isize::MIN <= old(self).x + rhs.x <= isize::MAX,
            isize::MIN <= old(self).y + rhs.y <= isize::MAX,
        ensures
            final(self).x == old(self).x + rhs.x,
            final(self).y == old(self).y + rhs.y,
    {
        self.x = self.x + rhs.x;
        self.y = self.y + rhs.y;
    }
}

impl core::ops::SubAssign for Vector {
    fn sub_assign(&mut self, rhs: Vector)
        requires
            isize::MIN <= old(self).x - rhs.x <= isize::MAX,
            isize::MIN <= old(self).y - rhs.y <= isize::MAX,
        ensures
            final(self).x == old(self).x - rhs.x,
            final(self).y == old(self).y - rhs.y,
    {
        self.x = self.x - rhs.x;
        self.y = self.y - rhs.y;
    }
}

impl From<Direction> for Vector {
    fn from(value: Direction) -> (r: Vector) {
        Vector::from_direction(value)
    }
}

impl vstd::std_specs::convert::FromSpecImpl<Direction> for Vector {
    open spec fn obeys_from_spec() -> bool {
        true
    }

    open spec fn from_spec(d: Direction) -> Vector {
        vec_of(direction_offset(d).0, direction_offset(d).1)
    }
}

impl From<(isize, isize)> for Vector {
    fn from(value: (isize, isize)) -> (r: Vector) {
        Vector::new(value.0, value.1)
    }
}

impl vstd::std_specs::convert::FromSpecImpl<(isize, isize)> for Vector {
    open spec fn obeys_from_spec() -> bool {
        true
    }

    open spec fn from_spec(v: (isize, isize)) -> Vector {
        Vector { x: v.0, y: v.1 }
    }
}

/// `p + v`, when neither coordinate is negative.
pub open spec fn point_plus(p: Point, v: Vector) -> Option<Point> {
    if p.x + v.x >= 0 && p.y + v.y >= 0 {
        Some(Point { x: (p.x + v.x) as usize, y: (p.y + v.y) as usize })
    } else {
        None
    }
}

impl core::ops::Add<Vector> for Point {
    type Output = Option<Point>;

    fn add(self, rhs: Vector) -> (r: Option<Point>) {
        let x = self.x as i128 + rhs.x as i128;
        let y = self.y as i128 + rhs.y as i128;
        if x >= 0 && y >= 0 {
            Some(Point { x: x as usize, y: y as usize })
        } else {
            None
        }
    }
}

impl vstd::std_specs::ops::AddSpecImpl<Vector> for Point {
    open spec fn obeys_add_spec() -> bool {
        true
    }

    open spec fn add_req(self, rhs: Vector) -> bool {
        self.x + rhs.x <= usize::MAX && self.y + rhs.y <= usize::MAX
    }

    open spec fn add_spec(self, rhs: Vector) -> Option<Point> {
        point_plus(self, rhs)
    }
}

impl core::ops::Add<Direction> for Point {
    type Output = Option<Point>;

    fn add(self, rhs: Direction) -> (r: Option<Point>) {
        self + Vector::from_direction(rhs)
    }
}

impl vstd::std_specs::ops::AddSpecImpl<Direction> for Point {
    open spec fn obeys_add_spec() -> bool {
        true
    }

    open spec fn add_req(self, rhs: Direction) -> bool {
        self.x + direction_offset(rhs).0 <= usize::MAX && self.y + direction_offset(rhs).1
            <= usize::MAX
    }

    open spec fn add_spec(self, rhs: Direction) -> Option<Point> {
        point_plus(self, vec_of(direction_offset(rhs).0, direction_offset(rhs).1))
    }
}

impl core::ops::Sub<Vector> for Point {
    type Output = Option<Point>;

    fn sub(self, rhs: Vector) -> (r: Option<Point>) {
        self + Vector { x: -rhs.x, y: -rhs.y }
    }
}

impl vstd::std_specs::ops::SubSpecImpl<Vector> for Point {
    open spec fn obeys_sub_spec() -> bool {
        true
    }

    open spec fn sub_req(self, rhs: Vector) -> bool {
        &&& rhs.x != isize::MIN && rhs.y != isize::MIN
        &&& self.x - rhs.x <= usize::MAX && self.y - rhs.y <= usize::MAX
    }

    open spec fn sub_spec(self, rhs: Vector) -> Option<Point> {
        point_plus(self, vec_of(-rhs.x, -rhs.y))
    }
}

impl core::ops::Sub for Point {
    type Output = Vector;

    fn sub(self, rhs: Point) -> (r: Vector) {
        let x = self.x as i128 - rhs.x as i128;
        let y = self.y as i128 - rhs.y as i128;
        Vector::new(x as isize, y as isize)
    }
}

impl vstd::std_specs::ops::SubSpecImpl for Point {
    open spec fn obeys_sub_spec() -> bool {
        true
    }

    open spec fn sub_req(self, rhs: Point) -> bool {
        isize::MIN <= self.x - rhs.x <= isize::MAX && isize::MIN <= self.y - rhs.y <= isize::MAX
    }

    open spec fn sub_spec(self, rhs: Point) -> Vector {
        vec_of(self.x - rhs.x, self.y - rhs.y)
    }
}

impl core::ops::AddAssign<Vector> for Point {
    /// Moves the point by `rhs`, which must keep both coordinates from going negative.
    fn add_assign(&mut self, rhs: Vector)
        requires
            0 <= old(self).x + rhs.x <= usize::MAX,
            0 <= old(self).y + rhs.y <= usize::MAX,
        ensures
            Some(*final(self)) == point_plus(*old(self), rhs),
    {
        let x = self.x as i128 + rhs.x as i128;
        let y = self.y as i128 + rhs.y as i128;
        self.x = x as usize;
        self.y = y as usize;
    }
}

impl From<(usize, usize)> for Point {
    fn from(value: (usize, usize)) -> (r: Point) {
        Point { x: value.0, y: value.1 }
    }
}

impl vstd::std_specs::convert::FromSpecImpl<(usize, usize)> for Point {
    open spec fn obeys_from_spec() -> bool {
        true
    }

    open spec fn from_spec(v: (usize, usize)) -> Point {
        Point { x: v.0, y: v.1 }
    }
}

impl Point {
    pub fn new(x: usize, y: usize) -> (r: Point)
        ensures
            r.x == x && r.y == y,
    {
        Point { x, y }
    }

    /// `self + other` when that point lies inside `grid`.
    pub fn checked_add<T: Copy + Default + PartialEq>(self, other: Point, grid: &Grid<T>) -> (r:
        Option<Point>)
        ensures
            r == grid.spec_add_points(self, other),
    {
        grid.add_points(self, other)
    }

    /// The Manhattan distance `|x1 - x2| + |y1 - y2|`.
    pub fn manhattan(&self, other: &Point) -> (r: usize)
        requires
            abs_int(self.x - other.x) + abs_int(self.y - other.y) <= usize::MAX,
        ensures
            r == abs_int(self.x - other.x) + abs_int(self.y - other.y),
    {
        let dx = if self.x <= other.x { other.x - self.x } else { self.x - other.x };
        let dy = if self.y <= other.y { other.y - self.y } else { self.y - other.y };
        dx + dy
    }
}

/// A `width` by `height` grid of cells, stored row after row.
#[derive(Debug, Clone, PartialEq)]
pub struct Grid<T> {
    /// The cells, row after row.
    pub data: Vec<T>,
    pub width: usize,
    pub height: usize,
}

impl<T> View for Grid<T> {
    type V = Seq<T>;

    /// The cells, row after row.
    open spec fn view(&self) -> Seq<T> {
        self.data@
    }
}

impl<T: Copy + Default + PartialEq> Grid<T> {
    /// Every cell of the `width` by `height` rectangle is stored.
    pub open spec fn wf(&self) -> bool {
        self@.len() == self.width * self.height
    }

    /// Where the cell at `p` is stored.
    pub open spec fn offset(&self, p: Point) -> int {
        p.y * self.width + p.x
    }

    pub open spec fn spec_in_bounds(&self, p: Point) -> bool {
        p.x < self.width && p.y < self.height
    }

    /// The cell at `p` is stored: its place lies within the cells, as it does for any point
    /// inside a well-formed grid.
    pub open spec fn holds_cell(&self, p: Point) -> bool {
        self.offset(p) < self@.len() || (self.wf() && self.spec_in_bounds(p))
    }

    /// `point + vector`, when its coordinates are not negative and it lies inside the grid.
    pub open spec fn spec_add_vector(&self, point: Point, vector: Vector) -> Option<Point> {
        let x = point.x + vector.x;
        let y = point.y + vector.y;
        if 0 <= x < self.width && 0 <= y < self.height {
            Some(Point { x: x as usize, y: y as usize })
        } else {
            None
        }
    }

    /// `first + second`, when it lies inside the grid.
    pub open spec fn spec_add_points(&self, first: Point, second: Point) -> Option<Point> {
        if first.x + second.x < self.width && first.y + second.y < self.height {
            Some(Point { x: (first.x + second.x) as usize, y: (first.y + second.y) as usize })
        } else {
            None
        }
    }

    /// A grid whose cells are not stored yet, with room for all of them.
    pub fn empty_with_capacity(width: usize, height: usize) -> (r: Grid<T>)
        requires
            width * height <= usize::MAX,
        ensures
            r.width == width,
            r.height == height,
            r@.len() == 0,
    {
        Grid { data: Vec::with_capacity(width * height), width, height }
    }

    /// A grid whose cells all hold `T::default()`.
    pub fn new_default(width: usize, height: usize) -> (r: Grid<T>)
        requires
            width * height <= usize::MAX,
        ensures
            r.wf(),
            r.width == width,
            r.height == height,
            forall|i: int| 0 <= i < r@.len() ==> call_ensures(T::default, (), #[trigger] r@[i]),
    {
        let value = T::default();
        let r = Grid::new(width, height, value);
        r
    }

    /// A grid whose cells all hold `default`.
    pub fn new(width: usize, height: usize, default: T) -> (r: Grid<T>)
        requires
            width * height <= usize::MAX,
        ensures
            r.wf(),
            r.width == width,
            r.height == height,
            forall|i: int| 0 <= i < r@.len() ==> r@[i] == default,
    {
        let n = width * height;
        let mut data: Vec<T> = Vec::with_capacity(n);
        let mut i: usize = 0;
        while i < n
            invariant
                i <= n,
                data@.len() == i,
                forall|k: int| 0 <= k < i ==> data@[k] == default,
            decreases n - i,
        {
            data.push(default);
            i = i + 1;
        }
        Grid { data, width, height }
    }

    /// The cell at `point`.
    pub fn get(&self, point: Point) -> (r: &T)
        requires
            self.holds_cell(point),
        ensures
            0 <= self.offset(point) < self@.len(),
            *r == self@[self.offset(point)],
    {
        let i = self.index_of(point);
        &self.data[i]
    }

    fn index_of(&self, point: Point) -> (r: usize)
        requires
            self.holds_cell(point),
        ensures
            r == self.offset(point),
            r < self@.len(),
    {
        proof {
            if !(self.offset(point) < self@.len()) {
                self.lemma_in_bounds_stored(point);
            }
        }
        let n = self.data.len();
        assert(point.y * self.width <= point.y * self.width + point.x < n) by (nonlinear_arith)
            requires
                point.y * self.width + point.x < n,
        ;
        point.y * self.width + point.x
    }

    /// The cell at `point`, to change it.
    pub fn get_mut(&mut self, point: Point) -> (r: &mut T)
        requires
            old(self).holds_cell(point),
        ensures
            *r == old(self)@[old(self).offset(point)],
            final(self)@ == old(self)@.update(old(self).offset(point), *final(r)),
            final(self).width == old(self).width,
            final(self).height == old(self).height,
    {
        let i = self.index_of(point);
        &mut self.data[i]
    }

    /// Stores `value` in the cell at `point`.
    pub fn set(&mut self, point: Point, value: T)
        requires
            old(self).holds_cell(point),
        ensures
            0 <= old(self).offset(point) < old(self)@.len(),
            final(self)@ == old(self)@.update(old(self).offset(point), value),
            final(self).width == old(self).width,
            final(self).height == old(self).height,
    {
        let i = self.index_of(point);
        self.data.set(i, value);
    }

    pub fn in_bounds(&self, point: Point) -> (r: bool)
        ensures
            r == self.spec_in_bounds(point),
    {
        point.x < self.width && point.y < self.height
    }

    /// `point + vector`, when that lies inside the grid.
    pub fn add_vector(&self, point: Point, vector: Vector) -> (r: Option<Point>)
        ensures
            r == self.spec_add_vector(point, vector),
    {
        let x = point.x as i128 + vector.x as i128;
        let y = point.y as i128 + vector.y as i128;
        if 0 <= x && x < self.width as i128 && 0 <= y && y < self.height as i128 {
            Some(Point { x: x as usize, y: y as usize })
        } else {
            None
        }
    }

    /// One step from `point` in `direction`, when that lies inside the grid.
    pub fn add_direction(&self, point: Point, direction: Direction) -> (r: Option<Point>)
        ensures
            r == self.spec_add_vector(
                point,
                Vector { x: direction_offset(direction).0 as isize, y: direction_offset(direction).1 as isize },
            ),
    {
        self.add_vector(point, Vector::from_direction(direction))
    }

    /// `first + second`, when the sum does not overflow and lies inside the grid.
    pub fn add_points(&self, first: Point, second: Point) -> (r: Option<Point>)
        ensures
            r == self.spec_add_points(first, second),
    {
        let x = first.x.checked_add(second.x)?;
        let y = first.y.checked_add(second.y)?;
        let point = Point::new(x, y);
        if self.in_bounds(point) {
            Some(point)
        } else {
            None
        }
    }

    /// Whether a step from `point` in `direction` stays inside the grid, for a point inside it.
    pub fn test_bound_direction(&self, point: Point, direction: Direction) -> (r: bool)
        requires
            direction == Direction::East ==> self.width > 0,
            direction == Direction::South ==> self.height > 0,
        ensures
            r == match direction {
                Direction::East => point.x < self.width - 1,
                Direction::South => point.y < self.height - 1,
                Direction::West => point.x > 0,
                Direction::North => point.y > 0,
                Direction::Wait => true,
            },
    {
        match direction {
            Direction::East => point.x < self.width - 1,
            Direction::South => point.y < self.height - 1,
            Direction::West => point.x > 0,
            Direction::North => point.y > 0,
            Direction::Wait => true,
        }
    }

    /// The cells, row after row.
    pub fn as_slice(&self) -> (r: &[T])
        ensures
            r@ == self@,
    {
        self.data.as_slice()
    }

    /// A point inside the grid has its cell stored.
    pub proof fn lemma_in_bounds_stored(&self, p: Point)
        requires
            self.wf(),
            self.spec_in_bounds(p),
        ensures
            0 <= self.offset(p) < self@.len(),
    {
        let w = self.width as int;
        let h = self.height as int;
        let x = p.x as int;
        let y = p.y as int;
        assert(0 <= y * w + x < h * w) by (nonlinear_arith)
            requires
                0 <= x < w,
                0 <= y < h,
        ;
        assert(h * w == w * h) by (nonlinear_arith);
    }

    /// The first point, row by row, whose cell equals `value`.
    pub fn find(&self, value: T) -> (r: Option<Point>)
        requires
            self.wf(),
        ensures
            T::obeys_eq_spec() ==> match r {
                Some(p) => self.spec_in_bounds(p) && self@[self.offset(p)].eq_spec(&value) && forall|
                    k: int,
                | 0 <= k < self.offset(p) ==> !(#[trigger] self@[k]).eq_spec(&value),
                None => forall|k: int| 0 <= k < self@.len() ==> !(#[trigger] self@[k]).eq_spec(&value),
            },
    {
        let w = self.width;
        let h = self.height;
        let n = self.data.len();
        let mut y: usize = 0;
        let mut idx: usize = 0;
        while y < h
            invariant
                self.wf(),
                n == self@.len(),
                w == self.width,
                h == self.height,
                y <= h,
                idx == y * w,
                idx <= n,
                T::obeys_eq_spec() ==> forall|k: int| 0 <= k < idx ==> !(#[trigger] self@[k]).eq_spec(&value),
            decreases h - y,
        {
            assert(idx + w <= w * h) by (nonlinear_arith)
                requires
                    idx == y * w,
                    y < h,
            ;
            let mut x: usize = 0;
            while x < w
                invariant
                    self.wf(),
                    w == self.width,
                    h == self.height,
                    n == self@.len(),
                    y < h,
                    x <= w,
                    idx == y * w + x,
                    idx + (w - x) <= w * h,
                    T::obeys_eq_spec() ==> forall|k: int| 0 <= k < idx ==> !(#[trigger] self@[k]).eq_spec(&value),
                decreases w - x,
            {
                if self.data[idx] == value {
                    return Some(Point::new(x, y));
                }
                idx = idx + 1;
                x = x + 1;
            }
            assert(idx == (y + 1) * w) by (nonlinear_arith)
                requires
                    idx == y * w + w,
            ;
            assert(w * h == h * w) by (nonlinear_arith);
            y = y + 1;
        }
        assert(idx == w * h) by (nonlinear_arith)
            requires
                idx == h * w,
        ;
        None
    }

    /// A walk over the points and cells, row by row, that reads this grid.
    pub fn iter(&self) -> (r: GridIterRef<'_, T>)
        requires
            self.wf(),
            self.height > 0 ==> self.width > 0,
        ensures
            r.wf(),
            *r.grid() == *self,
            r.position() == (Point { x: 0, y: 0 }),
    {
        GridIterRef { grid: self, current: Point::new(0, 0) }
    }

    /// A walk over the points and cells, row by row, that owns this grid.
    pub fn into_iter(self) -> (r: GridIter<T>)
        requires
            self.wf(),
            self.height > 0 ==> self.width > 0,
        ensures
            r.wf(),
            r.grid() == self,
            r.position() == (Point { x: 0, y: 0 }),
    {
        GridIter { grid: self, current: Point::new(0, 0) }
    }

    /// A walk over the neighbours of `center` north, east, south and west of it, in that
    /// order, that lie inside the grid.
    pub fn orthogonal_neighbors(&self, center: Point) -> (r: OrthogonalNeighbors<'_, T>)
        requires
            self.wf(),
        ensures
            r.wf(),
            *r.grid() == *self,
            r.center() == center,
            r.next_direction() == 0,
    {
        OrthogonalNeighbors { grid: self, center, current_direction: 0 }
    }

    /// A walk over the eight neighbours of `center` that lie inside the grid, clockwise from
    /// north.
    pub fn all_neighbors(&self, center: Point) -> (r: AllNeighbors<'_, T>)
        requires
            self.wf(),
        ensures
            r.wf(),
            *r.grid() == *self,
            r.center() == center,
            r.next_direction() == 0,
    {
        AllNeighbors { grid: self, center, current_direction: 0 }
    }

    /// The points among the eight neighbours of `center` that lie inside the grid, clockwise
    /// from north.
    pub fn all_neighbor_points(&self, center: Point) -> (r: AllNeighborPoints)
        ensures
            r.center() == center,
            r.bounds() == (self.width, self.height),
            r.next_direction() == 0,
    {
        AllNeighborPoints {
            center,
            height: self.height,
            width: self.width,
            current_direction: 0,
        }
    }
}

/// The rows laid end to end.
pub open spec fn flatten<T>(rows: Seq<Seq<T>>) -> Seq<T>
    decreases rows.len(),
{
    if rows.len() == 0 {
        Seq::empty()
    } else {
        flatten(rows.drop_last()) + rows.last()
    }
}

/// Rows that all have the same length have `width * height` values laid end to end.
pub proof fn lemma_flatten_len<T>(rows: Seq<Seq<T>>, width: int)
    requires
        forall|k: int| 0 <= k < rows.len() ==> (#[trigger] rows[k]).len() == width,
    ensures
        flatten(rows).len() == width * rows.len(),
    decreases rows.len(),
{
    if rows.len() > 0 {
        let p = rows.drop_last();
        assert forall|k: int| 0 <= k < p.len() implies (#[trigger] p[k]).len() == width by {
            assert(p[k] == rows[k]);
        }
        lemma_flatten_len(p, width);
        assert(rows[rows.len() - 1].len() == width);
        assert(width * (rows.len() - 1) + width == width * rows.len()) by (nonlinear_arith);
    }
}

impl<T: Copy + Default + PartialEq> Grid<T> {
    /// A grid made of `rows`, the first of them on top; every row must be as long as the first.
    pub fn from_rows(v: Vec<Vec<T>>) -> (r: Grid<T>)
        requires
            v@.len() > 0,
            forall|k: int| 0 <= k < v@.len() ==> (#[trigger] v@[k])@.len() == v@[0]@.len(),
        ensures
            r.wf(),
            r.width == v@[0]@.len(),
            r.height == v@.len(),
            r@ == flatten(v@.map_values(|row: Vec<T>| row@)),
    {
        let height = v.len();
        let width = v[0].len();
        let ghost rows = v@.map_values(|row: Vec<T>| row@);
        let mut data: Vec<T> = Vec::new();
        let mut i: usize = 0;
        while i < height
            invariant
                height == v@.len(),
                width == v@[0]@.len(),
                rows == v@.map_values(|row: Vec<T>| row@),
                i <= height,
                forall|k: int| 0 <= k < v@.len() ==> (#[trigger] v@[k])@.len() == v@[0]@.len(),
                data@ == flatten(rows.subrange(0, i as int)),
            decreases height - i,
        {
            let row = &v[i];
            let mut j: usize = 0;
            let ghost start = data@;
            while j < row.len()
                invariant
                    j <= row@.len(),
                    data@ == start + row@.subrange(0, j as int),
                decreases row@.len() - j,
            {
                data.push(row[j]);
                j = j + 1;
                assert(data@ =~= start + row@.subrange(0, j as int));
            }
            assert(row@.subrange(0, j as int) =~= row@);
            assert(rows.subrange(0, i + 1).drop_last() =~= rows.subrange(0, i as int));
            i = i + 1;
        }
        assert(rows.subrange(0, i as int) =~= rows);
        proof {
            lemma_flatten_len(rows, width as int);
            assert(width * height == height * width) by (nonlinear_arith);
        }
        Grid { data, width, height }
    }

    /// A grid made of the row slices `rows`, the first of them on top; every row must be as
    /// long as the first.
    pub fn from_slices(v: &[&[T]]) -> (r: Grid<T>)
        requires
            v@.len() > 0,
            forall|k: int| 0 <= k < v@.len() ==> (#[trigger] v@[k])@.len() == v@[0]@.len(),
        ensures
            r.wf(),
            r.width == v@[0]@.len(),
            r.height == v@.len(),
            r@ == flatten(v@.map_values(|row: &[T]| row@)),
    {
        let height = v.len();
        let width = v[0].len();
        let ghost rows = v@.map_values(|row: &[T]| row@);
        let mut data: Vec<T> = Vec::new();
        let mut i: usize = 0;
        while i < height
            invariant
                height == v@.len(),
                width == v@[0]@.len(),
                rows == v@.map_values(|row: &[T]| row@),
                i <= height,
                forall|k: int| 0 <= k < v@.len() ==> (#[trigger] v@[k])@.len() == v@[0]@.len(),
                data@ == flatten(rows.subrange(0, i as int)),
            decreases height - i,
        {
            let row: &[T] = v[i];
            let mut j: usize = 0;
            let ghost start = data@;
            while j < row.len()
                invariant
                    j <= row@.len(),
                    data@ == start + row@.subrange(0, j as int),
                decreases row@.len() - j,
            {
                data.push(row[j]);
                j = j + 1;
                assert(data@ =~= start + row@.subrange(0, j as int));
            }
            assert(row@.subrange(0, j as int) =~= row@);
            assert(rows.subrange(0, i + 1).drop_last() =~= rows.subrange(0, i as int));
            i = i + 1;
        }
        assert(rows.subrange(0, i as int) =~= rows);
        proof {
            lemma_flatten_len(rows, width as int);
            assert(width * height == height * width) by (nonlinear_arith);
        }
        Grid { data, width, height }
    }
}

/// Rows of `width` bytes, each followed by a newline but the last.
pub open spec fn is_grid_text(s: Seq<u8>, width: nat) -> bool {
    &&& (s.len() + 1) % (width + 1) == 0
    &&& forall|i: int| 0 <= i < s.len() ==> (#[trigger] s[i] == 10u8) == (i % (width as int + 1) == width as int)
}

/// The bytes of `s` that are not newlines, in order.
pub open spec fn text_cells(s: Seq<u8>) -> Seq<u8>
    decreases s.len(),
{
    if s.len() == 0 {
        Seq::empty()
    } else if s.last() == 10u8 {
        text_cells(s.drop_last())
    } else {
        text_cells(s.drop_last()).push(s.last())
    }
}

/// Moving one place on either adds one to the quotient by `d`, at the end of a block of `d`,
/// or leaves it.
proof fn lemma_div_step(i: int, d: int)
    requires
        i >= 0,
        d > 0,
    ensures
        i % d == d - 1 ==> (i + 1) / d == i / d + 1,
        i % d != d - 1 ==> (i + 1) / d == i / d,
{
    vstd::arithmetic::div_mod::lemma_fundamental_div_mod(i, d);
    vstd::arithmetic::div_mod::lemma_mod_pos_bound(i, d);
    let q = i / d;
    let r = i % d;
    assert(0 <= r < d);
    if r == d - 1 {
        assert(i + 1 == (q + 1) * d) by (nonlinear_arith)
            requires
                i == d * q + r,
                r == d - 1,
        ;
        vstd::arithmetic::div_mod::lemma_fundamental_div_mod_converse(i + 1, d, q + 1, 0);
    } else {
        assert(i + 1 == q * d + (r + 1)) by (nonlinear_arith)
            requires
                i == d * q + r,
        ;
        vstd::arithmetic::div_mod::lemma_fundamental_div_mod_converse(i + 1, d, q, r + 1);
    }
}

impl Grid<u8> {
    /// A grid read from text: rows of bytes separated by newlines, every row as long as the
    /// first.
    pub fn from_bytes(data: &[u8]) -> (r: Grid<u8>)
        requires
            exists|w: nat| is_grid_text(data@, w),
            data@.len() < usize::MAX,
        ensures
            r.wf(),
            is_grid_text(data@, r.width as nat),
            r.height == (data@.len() + 1) as int / (r.width + 1) as int,
            r@ == text_cells(data@),
    {
        let ghost s = data@;
        let ghost big_w: nat = choose|w: nat| is_grid_text(data@, w);
        let ghost d: int = (big_w + 1) as int;
        let n = data.len();
        let mut width: usize = 0;
        while width < n && data[width] != 10u8
            invariant
                s == data@,
                n == s.len(),
                d == big_w + 1,
                is_grid_text(s, big_w),
                width <= n,
                width <= big_w,
            decreases n - width,
        {
            proof {
                if width == big_w {
                    vstd::arithmetic::div_mod::lemma_small_mod(width as nat, d as nat);
                    assert(s[width as int] == 10u8);
                }
            }
            width = width + 1;
        }
        proof {
            if width < n {
                vstd::arithmetic::div_mod::lemma_small_mod(width as nat, d as nat);
                assert(s[width as int] == 10u8);
                if width < big_w {
                    assert(false);
                }
            } else {
                vstd::arithmetic::div_mod::lemma_fundamental_div_mod(n + 1, d);
                let q = (n + 1) / d;
                assert(n + 1 == d * q);
                assert(q >= 1) by (nonlinear_arith)
                    requires
                        n + 1 == d * q,
                        d > 0,
                ;
                assert(d * q >= d) by (nonlinear_arith)
                    requires
                        q >= 1,
                        d > 0,
                ;
            }
            assert(width == big_w);
        }
        let mut cells: Vec<u8> = Vec::new();
        let mut rows: usize = 1;
        let mut i: usize = 0;
        proof {
            assert(s.subrange(0, 0) =~= Seq::<u8>::empty());
            vstd::arithmetic::div_mod::lemma_small_mod(0, d as nat);
            vstd::arithmetic::div_mod::lemma_fundamental_div_mod(0, d);
        }
        while i < n
            invariant
                s == data@,
                n == s.len(),
                n < usize::MAX,
                is_grid_text(s, big_w),
                width == big_w,
                d == big_w + 1,
                i <= n,
                rows == 1 + i as int / d,
                cells@.len() + (rows - 1) == i,
                cells@ == text_cells(s.subrange(0, i as int)),
            decreases n - i,
        {
            let b = data[i];
            proof {
                lemma_div_step(i as int, d);
                assert(s.subrange(0, i + 1).drop_last() =~= s.subrange(0, i as int));
                assert(s.subrange(0, i + 1).last() == b);
                assert(i as int / d <= i) by {
                    vstd::arithmetic::div_mod::lemma_div_is_ordered_by_denominator(i as int, 1, d);
                }
            }
            if b == 10u8 {
                rows = rows + 1;
            } else {
                cells.push(b);
            }
            i = i + 1;
        }
        proof {
            assert(s.subrange(0, n as int) =~= s);
            vstd::arithmetic::div_mod::lemma_fundamental_div_mod(n + 1, d);
            let h = (n + 1) / d;
            assert(n + 1 == d * h);
            assert(n == d * (h - 1) + big_w) by (nonlinear_arith)
                requires
                    n + 1 == d * h,
                    d == big_w + 1,
            ;
            vstd::arithmetic::div_mod::lemma_fundamental_div_mod_converse(n as int, d, h - 1, big_w as int);
            assert(rows == h);
            assert(cells@.len() == width * rows) by (nonlinear_arith)
                requires
                    cells@.len() + (rows - 1) == n,
                    n + 1 == d * h,
                    d == width + 1,
                    rows == h,
            ;
        }
        Grid { data: cells, width, height: rows }
    }
}

/// The point after `p` in row-by-row order in a grid `width` wide.
pub open spec fn row_major_next(p: Point, width: usize) -> Point {
    if p.x + 1 >= width {
        Point { x: 0, y: (p.y + 1) as usize }
    } else {
        Point { x: (p.x + 1) as usize, y: p.y }
    }
}

/// Walks a grid that it owns, row by row.
pub struct GridIter<T> {
    grid: Grid<T>,
    current: Point,
}

impl<T: Copy + Default + PartialEq> GridIter<T> {
    pub closed spec fn grid(&self) -> Grid<T> {
        self.grid
    }

    pub closed spec fn position(&self) -> Point {
        self.current
    }

    pub closed spec fn wf(&self) -> bool {
        &&& self.grid.wf()
        &&& self.current.y < self.grid.height ==> self.current.x < self.grid.width
    }

    /// The point the walk is at and a copy of its cell, then one step on; `None` once the walk
    /// has passed the last row.
    pub fn next(&mut self) -> (r: Option<(Point, T)>)
        requires
            old(self).wf(),
        ensures
            final(self).wf(),
            final(self).grid() == old(self).grid(),
            !old(self).grid().spec_in_bounds(old(self).position()) ==> r is None && final(self).position()
                == old(self).position(),
            old(self).grid().spec_in_bounds(old(self).position()) ==> r == Some(
                (old(self).position(), old(self).grid()@[old(self).grid().offset(old(self).position())]),
            ) && final(self).position() == row_major_next(
                old(self).position(),
                old(self).grid().width,
            ),
    {
        if self.current.y >= self.grid.height {
            return None;
        }
        proof {
            self.grid.lemma_in_bounds_stored(self.current);
        }
        let result = (self.current, *self.grid.get(self.current));
        if self.current.x + 1 >= self.grid.width {
            self.current.x = 0;
            self.current.y = self.current.y + 1;
        } else {
            self.current.x = self.current.x + 1;
        }
        Some(result)
    }
}

/// Walks a grid that it reads, row by row.
pub struct GridIterRef<'a, T> {
    grid: &'a Grid<T>,
    current: Point,
}

impl<'a, T: Copy + Default + PartialEq> GridIterRef<'a, T> {
    pub closed spec fn grid(&self) -> &'a Grid<T> {
        self.grid
    }

    pub closed spec fn position(&self) -> Point {
        self.current
    }

    pub closed spec fn wf(&self) -> bool {
        &&& self.grid.wf()
        &&& self.current.y < self.grid.height ==> self.current.x < self.grid.width
    }

    /// The point the walk is at and its cell, then one step on; `None` once the walk has
    /// passed the last row.
    pub fn next(&mut self) -> (r: Option<(Point, &'a T)>)
        requires
            old(self).wf(),
        ensures
            final(self).wf(),
            final(self).grid() == old(self).grid(),
            !old(self).grid().spec_in_bounds(old(self).position()) ==> r is None && final(self).position()
                == old(self).position(),
            old(self).grid().spec_in_bounds(old(self).position()) ==> r is Some && r.unwrap().0
                == old(self).position() && *r.unwrap().1 == old(self).grid()@[old(self).grid().offset(
                old(self).position(),
            )] && final(self).position() == row_major_next(
                old(self).position(),
                old(self).grid().width,
            ),
    {
        if self.current.y >= self.grid.height {
            return None;
        }
        proof {
            self.grid.lemma_in_bounds_stored(self.current);
        }
        let g: &'a Grid<T> = self.grid;
        let result = (self.current, g.get(self.current));
        if self.current.x + 1 >= self.grid.width {
            self.current.x = 0;
            self.current.y = self.current.y + 1;
        } else {
            self.current.x = self.current.x + 1;
        }
        Some(result)
    }
}

pub open spec fn vec_of(x: int, y: int) -> Vector {
    Vector { x: x as isize, y: y as isize }
}

/// The offset towards the `d`-th orthogonal neighbour: north, east, south, west.
pub open spec fn orthogonal_offset(d: int) -> Vector {
    if d == 0 {
        vec_of(0, -1)
    } else if d == 1 {
        vec_of(1, 0)
    } else if d == 2 {
        vec_of(0, 1)
    } else {
        vec_of(-1, 0)
    }
}

/// The offset towards the `d`-th of the eight neighbours, clockwise from north.
pub open spec fn neighbor_offset(d: int) -> Vector {
    if d == 0 {
        vec_of(0, -1)
    } else if d == 1 {
        vec_of(1, -1)
    } else if d == 2 {
        vec_of(1, 0)
    } else if d == 3 {
        vec_of(1, 1)
    } else if d == 4 {
        vec_of(0, 1)
    } else if d == 5 {
        vec_of(-1, 1)
    } else if d == 6 {
        vec_of(-1, 0)
    } else {
        vec_of(-1, -1)
    }
}

fn orthogonal_step(d: usize) -> (r: Vector)
    requires
        d < 4,
    ensures
        r == orthogonal_offset(d as int),
{
    if d == 0 {
        Vector::new(0, -1)
    } else if d == 1 {
        Vector::new(1, 0)
    } else if d == 2 {
        Vector::new(0, 1)
    } else {
        Vector::new(-1, 0)
    }
}

fn neighbor_step(d: usize) -> (r: Vector)
    requires
        d < 8,
    ensures
        r == neighbor_offset(d as int),
{
    if d == 0 {
        Vector::new(0, -1)
    } else if d == 1 {
        Vector::new(1, -1)
    } else if d == 2 {
        Vector::new(1, 0)
    } else if d == 3 {
        Vector::new(1, 1)
    } else if d == 4 {
        Vector::new(0, 1)
    } else if d == 5 {
        Vector::new(-1, 1)
    } else if d == 6 {
        Vector::new(-1, 0)
    } else {
        Vector::new(-1, -1)
    }
}

/// Walks the orthogonal neighbours of a point that lie inside a grid.
pub struct OrthogonalNeighbors<'a, T> {
    grid: &'a Grid<T>,
    center: Point,
    current_direction: usize,
}

impl<'a, T: Copy + Default + PartialEq> OrthogonalNeighbors<'a, T> {
    pub closed spec fn grid(&self) -> &'a Grid<T> {
        self.grid
    }

    pub closed spec fn center(&self) -> Point {
        self.center
    }

    /// How many of the four directions the walk has tried.
    pub closed spec fn next_direction(&self) -> int {
        self.current_direction as int
    }

    pub closed spec fn wf(&self) -> bool {
        self.grid.wf() && self.current_direction <= 4
    }

    /// The next neighbour inside the grid and its cell; `None` when no direction is left.
    pub fn next(&mut self) -> (r: Option<(Point, &'a T)>)
        requires
            old(self).wf(),
        ensures
            final(self).wf(),
            final(self).grid() == old(self).grid(),
            final(self).center() == old(self).center(),
            old(self).next_direction() <= final(self).next_direction(),
            r is Some ==> old(self).next_direction() < final(self).next_direction() <= 4,
            forall|e: int| old(self).next_direction() <= e < final(self).next_direction() - (if r is Some { 1int } else { 0 })
                ==> old(self).grid().spec_add_vector(old(self).center(), #[trigger] orthogonal_offset(e)) is None,
            r is None ==> final(self).next_direction() == 4,
            r is Some ==> Some(r.unwrap().0) == old(self).grid().spec_add_vector(
                old(self).center(),
                orthogonal_offset(final(self).next_direction() - 1),
            ) && *r.unwrap().1 == old(self).grid()@[old(self).grid().offset(r.unwrap().0)],
    {
        let start = self.current_direction;
        let g: &'a Grid<T> = self.grid;
        let center = self.center;
        let mut d = start;
        while d < 4
            invariant
                *self == *old(self),
                g == self.grid,
                center == self.center,
                start == self.current_direction,
                g.wf(),
                start <= d <= 4,
                forall|e: int| start <= e < d ==> g.spec_add_vector(center, #[trigger] orthogonal_offset(e)) is None,
            decreases 4 - d,
        {
            let step = orthogonal_step(d);
            d = d + 1;
            if let Some(p) = g.add_vector(center, step) {
                proof {
                    g.lemma_in_bounds_stored(p);
                }
                self.current_direction = d;
                return Some((p, g.get(p)));
            }
        }
        self.current_direction = d;
        None
    }
}

/// Walks the eight neighbours of a point that lie inside a grid.
pub struct AllNeighbors<'a, T> {
    grid: &'a Grid<T>,
    center: Point,
    current_direction: usize,
}

impl<'a, T: Copy + Default + PartialEq> AllNeighbors<'a, T> {
    pub closed spec fn grid(&self) -> &'a Grid<T> {
        self.grid
    }

    pub closed spec fn center(&self) -> Point {
        self.center
    }

    /// How many of the eight directions the walk has tried.
    pub closed spec fn next_direction(&self) -> int {
        self.current_direction as int
    }

    pub closed spec fn wf(&self) -> bool {
        self.grid.wf() && self.current_direction <= 8
    }

    /// The next neighbour inside the grid and its cell; `None` when no direction is left.
    pub fn next(&mut self) -> (r: Option<(Point, &'a T)>)
        requires
            old(self).wf(),
        ensures
            final(self).wf(),
            final(self).grid() == old(self).grid(),
            final(self).center() == old(self).center(),
            old(self).next_direction() <= final(self).next_direction(),
            r is Some ==> old(self).next_direction() < final(self).next_direction() <= 8,
            forall|e: int| old(self).next_direction() <= e < final(self).next_direction() - (if r is Some { 1int } else { 0 })
                ==> old(self).grid().spec_add_vector(old(self).center(), #[trigger] neighbor_offset(e)) is None,
            r is None ==> final(self).next_direction() == 8,
            r is Some ==> Some(r.unwrap().0) == old(self).grid().spec_add_vector(
                old(self).center(),
                neighbor_offset(final(self).next_direction() - 1),
            ) && *r.unwrap().1 == old(self).grid()@[old(self).grid().offset(r.unwrap().0)],
    {
        let start = self.current_direction;
        let g: &'a Grid<T> = self.grid;
        let center = self.center;
        let mut d = start;
        while d < 8
            invariant
                *self == *old(self),
                g == self.grid,
                center == self.center,
                start == self.current_direction,
                g.wf(),
                start <= d <= 8,
                forall|e: int| start <= e < d ==> g.spec_add_vector(center, #[trigger] neighbor_offset(e)) is None,
            decreases 8 - d,
        {
            let step = neighbor_step(d);
            d = d + 1;
            if let Some(p) = g.add_vector(center, step) {
                proof {
                    g.lemma_in_bounds_stored(p);
                }
                self.current_direction = d;
                return Some((p, g.get(p)));
            }
        }
        self.current_direction = d;
        None
    }
}

/// Walks the points among the eight neighbours of a point that lie inside a `width` by
/// `height` rectangle.
pub struct AllNeighborPoints {
    center: Point,
    height: usize,
    width: usize,
    current_direction: usize,
}

/// `center + offset`, when it lies inside a `width` by `height` rectangle.
pub open spec fn neighbor_in(center: Point, offset: Vector, width: usize, height: usize) -> Option<Point> {
    let x = center.x + offset.x;
    let y = center.y + offset.y;
    if 0 <= x < width && 0 <= y < height {
        Some(Point { x: x as usize, y: y as usize })
    } else {
        None
    }
}

impl AllNeighborPoints {
    pub closed spec fn center(&self) -> Point {
        self.center
    }

    /// The width and height of the rectangle.
    pub closed spec fn bounds(&self) -> (usize, usize) {
        (self.width, self.height)
    }

    /// How many of the eight directions the walk has tried.
    pub closed spec fn next_direction(&self) -> int {
        self.current_direction as int
    }

    /// The next neighbour inside the rectangle; `None` when no direction is left.
    pub fn next(&mut self) -> (r: Option<Point>)
        ensures
            final(self).center() == old(self).center(),
            final(self).bounds() == old(self).bounds(),
            old(self).next_direction() <= final(self).next_direction(),
            r is Some ==> old(self).next_direction() < final(self).next_direction() <= 8,
            forall|e: int| old(self).next_direction() <= e < final(self).next_direction() - (if r is Some { 1int } else { 0 })
                ==> neighbor_in(old(self).center(), #[trigger] neighbor_offset(e), old(self).bounds().0, old(self).bounds().1) is None,
            r is None ==> final(self).next_direction() == (if old(self).next_direction() < 8 {
                8
            } else {
                old(self).next_direction()
            }),
            r is Some ==> r == neighbor_in(
                old(self).center(),
                neighbor_offset(final(self).next_direction() - 1),
                old(self).bounds().0,
                old(self).bounds().1,
            ),
    {
        let start = self.current_direction;
        let mut d = start;
        while d < 8
            invariant
                *self == *old(self),
                start == self.current_direction,
                start <= d,
                start < 8 ==> d <= 8,
                start >= 8 ==> d == start,
                forall|e: int| start <= e < d ==> neighbor_in(
                    self.center,
                    #[trigger] neighbor_offset(e),
                    self.width,
                    self.height,
                ) is None,
            decreases 8 - d,
        {
            let step = neighbor_step(d);
            let ghost dir = d as int;
            d = d + 1;
            let x = self.center.x as i128 + step.x as i128;
            let y = self.center.y as i128 + step.y as i128;
            if 0 <= x && x < self.width as i128 && 0 <= y && y < self.height as i128 {
                let found = Point { x: x as usize, y: y as usize };
                assert(Some(found) == neighbor_in(self.center, neighbor_offset(dir), self.width, self.height));
                self.current_direction = d;
                return Some(found);
            }
        }
        self.current_direction = d;
        None
    }
}

impl Direction {
    /// A quarter turn anticlockwise.
    pub fn left(&self) -> (r: Direction)
        ensures
            r == match *self {
                Direction::North => Direction::West,
                Direction::East => Direction::North,
                Direction::South => Direction::East,
                Direction::West => Direction::South,
                Direction::Wait => Direction::Wait,
            },
    {
        match self {
            Direction::North => Direction::West,
            Direction::East => Direction::North,
            Direction::South => Direction::East,
            Direction::West => Direction::South,
            Direction::Wait => Direction::Wait,
        }
    }

    /// A quarter turn clockwise.
    pub fn right(&self) -> (r: Direction)
        ensures
            r == match *self {
                Direction::North => Direction::East,
                Direction::East => Direction::South,
                Direction::South => Direction::West,
                Direction::West => Direction::North,
                Direction::Wait => Direction::Wait,
            },
    {
        match self {
            Direction::North => Direction::East,
            Direction::East => Direction::South,
            Direction::South => Direction::West,
            Direction::West => Direction::North,
            Direction::Wait => Direction::Wait,
        }
    }

    /// The opposite direction.
    pub fn reverse(&self) -> (r: Direction)
        ensures
            direction_offset(r).0 == -direction_offset(*self).0,
            direction_offset(r).1 == -direction_offset(*self).1,
    {
        match self {
            Direction::North => Direction::South,
            Direction::East => Direction::West,
            Direction::South => Direction::North,
            Direction::West => Direction::East,
            Direction::Wait => Direction::Wait,
        }
    }

    /// The direction an arrow character points in: `>`, `v`, `<` or `^`.
    pub fn try_from_char(c: char) -> (r: Option<Direction>)
        ensures
            r == (if c == '>' {
                Some(Direction::East)
            } else if c == 'v' {
                Some(Direction::South)
            } else if c == '<' {
                Some(Direction::West)
            } else if c == '^' {
                Some(Direction::North)
            } else {
                None
            }),
    {
        match c {
            '>' => Some(Direction::East),
            'v' => Some(Direction::South),
            '<' => Some(Direction::West),
            '^' => Some(Direction::North),
            _ => None,
        }
    }
}

impl From<char> for Direction {
    /// The direction an arrow character points in; `Wait` for any other character.
    fn from(c: char) -> (r: Direction) {
        match c {
            '>' => Direction::East,
            'v' => Direction::South,
            '<' => Direction::West,
            '^' => Direction::North,
            _ => Direction::Wait,
        }
    }
}

impl vstd::std_specs::convert::FromSpecImpl<char> for Direction {
    open spec fn obeys_from_spec() -> bool {
        true
    }

    open spec fn from_spec(c: char) -> Direction {
        if c == '>' {
            Direction::East
        } else if c == 'v' {
            Direction::South
        } else if c == '<' {
            Direction::West
        } else if c == '^' {
            Direction::North
        } else {
            Direction::Wait
        }
    }
}

impl From<Direction> for char {
    /// The arrow character of a direction; `.` for `Wait`.
    fn from(d: Direction) -> (r: char) {
        match d {
            Direction::East => '>',
            Direction::South => 'v',
            Direction::West => '<',
            Direction::North => '^',
            Direction::Wait => '.',
        }
    }
}

impl vstd::std_specs::convert::FromSpecImpl<Direction> for char {
    open spec fn obeys_from_spec() -> bool {
        true
    }

    open spec fn from_spec(d: Direction) -> char {
        match d {
            Direction::East => '>',
            Direction::South => 'v',
            Direction::West => '<',
            Direction::North => '^',
            Direction::Wait => '.',
        }
    }
}

impl<T: Copy + Default + PartialEq> core::ops::Index<Point> for Grid<T> {
    type Output = T;

    /// The cell at `point`.
    fn index(&self, point: Point) -> (r: &T)
        ensures
            *r == self@[self.offset(point)],
    {
        self.get(point)
    }
}

impl<T: Copy + Default + PartialEq> vstd::std_specs::core::IndexSpecImpl<Point> for Grid<T> {
    open spec fn index_req(&self, point: &Point) -> bool {
        self.holds_cell(*point)
    }
}

impl<T: Copy + Default + PartialEq> core::ops::Index<(usize, usize)> for Grid<T> {
    type Output = T;

    /// The cell in column `x` and row `y`.
    fn index(&self, xy: (usize, usize)) -> (r: &T)
        ensures
            *r == self@[self.offset(Point { x: xy.0, y: xy.1 })],
    {
        self.get(Point::new(xy.0, xy.1))
    }
}

impl<T: Copy + Default + PartialEq> vstd::std_specs::core::IndexSpecImpl<(usize, usize)> for Grid<T> {
    open spec fn index_req(&self, xy: &(usize, usize)) -> bool {
        self.holds_cell(Point { x: xy.0, y: xy.1 })
    }
}

} // verus!
