use utils::grid::{AllNeighbors, Direction, Grid, GridIter, GridIterRef, OrthogonalNeighbors, Point, Vector};

fn count_owned(mut it: GridIter<u8>) -> usize {
    let mut n = 0;
    while it.next().is_some() {
        n += 1;
    }
    n
}

fn count_ref(mut it: GridIterRef<'_, u8>) -> usize {
    let mut n = 0;
    while it.next().is_some() {
        n += 1;
    }
    n
}

fn count_orthogonal(mut it: OrthogonalNeighbors<'_, u8>) -> usize {
    let mut n = 0;
    while it.next().is_some() {
        n += 1;
    }
    n
}

fn count_all(mut it: AllNeighbors<'_, u8>) -> usize {
    let mut n = 0;
    while it.next().is_some() {
        n += 1;
    }
    n
}

#[test]
fn test_grid_creation() {
    let grid = Grid::<u8>::new(3, 3, b'.');
    assert_eq!(grid.width, 3);
    assert_eq!(grid.height, 3);
    assert_eq!(*grid.get(Point::new(0, 0)), b'.');
}

#[test]
fn test_empty_grid() {
    let grid = Grid::<u8>::empty_with_capacity(0, 0);
    assert_eq!(grid.width, 0);
    assert_eq!(grid.height, 0);
}

#[test]
fn test_single_element_grid() {
    let mut grid = Grid::new(1, 1, 42u8);
    assert_eq!(*grid.get(Point::new(0, 0)), 42);
    grid.set(Point::new(0, 0), 24);
    assert_eq!(*grid.get(Point::new(0, 0)), 24);
}

#[test]
fn test_irregular_grid() {
    let grid = Grid::new(1, 3, 0u8);
    assert_eq!(grid.width, 1);
    assert_eq!(grid.height, 3);
}

#[test]
#[should_panic]
fn test_get_out_of_bounds() {
    let grid = Grid::new(2, 2, 0u8);
    grid.get(Point::new(2, 1));
}

#[test]
fn test_find_empty() {
    let grid = Grid::<u8>::empty_with_capacity(0, 0);
    assert_eq!(grid.find(42), None);
}

#[test]
fn test_find_value() {
    let mut grid = Grid::new(2, 2, 0u8);
    grid.set(Point::new(1, 1), 42);
    assert_eq!(grid.find(42), Some(Point::new(1, 1)));
    assert_eq!(grid.find(99), None);
}

#[test]
fn test_from_vec() {
    let v = vec![vec![1, 2], vec![3, 4]];
    let grid = Grid::from_rows(v);
    assert_eq!(*grid.get(Point::new(1, 1)), 4);
}

#[test]
fn test_from_slice() {
    let data = [[1, 2], [3, 4]];
    let slices: Vec<&[i32]> = data.iter().map(|row| row.as_slice()).collect();
    let grid = Grid::from_slices(slices.as_slice());
    assert_eq!(*grid.get(Point::new(1, 1)), 4);
}

#[test]
fn test_point_vector_boundaries() {
    let grid = Grid::new(3, 3, 0u8);

    assert_eq!(grid.add_vector(Point::new(0, 0), Vector::new(-1, 0)), None);
    assert_eq!(grid.add_vector(Point::new(2, 2), Vector::new(1, 0)), None);
    assert_eq!(
        grid.add_vector(Point::new(0, 0), Vector::new(0, 0)),
        Some(Point::new(0, 0))
    );
}

#[test]
fn test_vector_boundaries() {
    let v1 = Vector::new(0, 0);

    assert_eq!(v1 + v1, Vector::new(0, 0));
    assert_eq!(Vector::from_direction(Direction::Wait), v1);
}

#[test]
fn test_all_directions() {
    let directions = [
        (Direction::East, (1, 0)),
        (Direction::South, (0, 1)),
        (Direction::West, (-1, 0)),
        (Direction::North, (0, -1)),
        (Direction::Wait, (0, 0)),
    ];

    for (dir, (x, y)) in directions {
        let v = Vector::from_direction(dir);
        assert_eq!(v.x, x);
        assert_eq!(v.y, y);
    }
}

#[test]
fn test_empty_grid_iteration() {
    let grid = Grid::<u8>::empty_with_capacity(0, 0);
    assert_eq!(count_owned(grid.into_iter()), 0);
}

#[test]
fn test_single_row_iteration() {
    let grid = Grid::new(3, 1, 0u8);
    assert_eq!(count_ref(grid.iter()), 3);
}

#[test]
fn test_single_column_iteration() {
    let grid = Grid::new(1, 3, 0u8);
    assert_eq!(count_ref(grid.iter()), 3);
}

#[test]
fn test_neighbor_traversal() {
    let mut grid = Grid::new(3, 3, 0u8);
    let center = Point::new(1, 1);
    let directions = [
        Direction::North,
        Direction::East,
        Direction::South,
        Direction::West,
    ];

    grid.set(center, 1);
    for dir in directions {
        if let Some(neighbor) = grid.add_vector(center, Vector::from_direction(dir)) {
            grid.set(neighbor, 2);
        }
    }

    assert_eq!(*grid.get(center), 1);
    assert_eq!(*grid.get(Point::new(1, 0)), 2);
    assert_eq!(*grid.get(Point::new(2, 1)), 2);
    assert_eq!(*grid.get(Point::new(1, 2)), 2);
    assert_eq!(*grid.get(Point::new(0, 1)), 2);
}

#[test]
fn test_boundary_walk() {
    let grid = Grid::new(3, 3, 0u8);
    let mut pos = Point::new(0, 0);
    let mut boundary_points = Vec::new();

    while let Some(next) = grid.add_vector(pos, Vector::new(1, 0)) {
        boundary_points.push(next);
        pos = next;
    }
    while let Some(next) = grid.add_vector(pos, Vector::new(0, 1)) {
        boundary_points.push(next);
        pos = next;
    }

    assert_eq!(boundary_points.len(), 4);
}

#[test]
fn test_find_and_transform() {
    let mut grid = Grid::new(3, 3, 0u8);
    grid.set(Point::new(1, 1), 5);

    if let Some(center) = grid.find(5) {
        let directions = [
            Direction::North,
            Direction::East,
            Direction::South,
            Direction::West,
        ];
        for dir in directions {
            if let Some(neighbor) = grid.add_vector(center, Vector::from_direction(dir)) {
                grid.set(neighbor, 1);
            }
        }
    }

    assert_eq!(*grid.get(Point::new(1, 0)), 1);
    assert_eq!(*grid.get(Point::new(1, 1)), 5);
}

#[test]
fn test_area_calculation() {
    let mut grid = Grid::new(4, 4, 0u8);
    for y in 1..3 {
        for x in 1..3 {
            grid.set(Point::new(x, y), 1);
        }
    }

    let mut area = 0;
    let mut it = grid.iter();
    while let Some((_, value)) = it.next() {
        if *value == 1 {
            area += 1;
        }
    }
    assert_eq!(area, 4);
}

#[test]
fn test_move_sequence() {
    let mut grid = Grid::new(3, 3, 0u8);
    let mut pos = Point::new(0, 0);
    grid.set(pos, 1);

    let moves = [Vector::new(1, 0), Vector::new(1, 1), Vector::new(0, 1)];

    let mut path = Vec::new();
    for mv in moves {
        if let Some(new_pos) = grid.add_vector(pos, mv) {
            grid.set(pos, 0);
            grid.set(new_pos, 1);
            path.push(new_pos);
            pos = new_pos;
        }
    }

    assert_eq!(path.len(), 3);
    assert_eq!(*grid.get(Point::new(2, 2)), 1);
}

#[test]
fn test_error_recovery() {
    let grid = Grid::new(2, 2, 0u8);
    let mut pos = Point::new(0, 0);

    let moves = [Vector::new(1, 0), Vector::new(1, 0), Vector::new(0, 1)];

    let mut successful_moves = Vec::new();
    for mv in moves {
        if let Some(new_pos) = grid.add_vector(pos, mv) {
            successful_moves.push(new_pos);
            pos = new_pos;
        }
    }

    assert_eq!(successful_moves.len(), 2);
}

#[test]
fn test_neighbors() {
    let mut grid = Grid::new(3, 3, 0u8);
    let center = Point::new(1, 1);
    grid.set(center, 1);

    let orthogonal_count = count_orthogonal(grid.orthogonal_neighbors(center));
    assert_eq!(orthogonal_count, 4);

    let all_count = count_all(grid.all_neighbors(center));
    assert_eq!(all_count, 8);

    let corner = Point::new(0, 0);
    assert_eq!(count_orthogonal(grid.orthogonal_neighbors(corner)), 2);
    assert_eq!(count_all(grid.all_neighbors(corner)), 3);
}

#[test]
fn test_grid_indexing() {
    let mut grid = Grid::new(2, 2, 0u8);
    let p = Point::new(1, 1);

    *grid.get_mut(p) = 42;
    assert_eq!(grid[p], 42);
}

#[test]
#[should_panic]
fn test_grid_index_out_of_bounds() {
    let grid = Grid::new(2, 2, 0u8);
    let _ = grid[Point::new(2, 1)];
}

#[test]
fn test_basic_neighbors() {
    let mut grid = Grid::new(3, 3, 0u8);
    let center = Point::new(1, 1);
    *grid.get_mut(center) = 1;

    let orthogonal_count = count_orthogonal(grid.orthogonal_neighbors(center));
    assert_eq!(orthogonal_count, 4);

    let all_count = count_all(grid.all_neighbors(center));
    assert_eq!(all_count, 8);

    let corner = Point::new(0, 0);
    assert_eq!(count_orthogonal(grid.orthogonal_neighbors(corner)), 2);
    assert_eq!(count_all(grid.all_neighbors(corner)), 3);
}

#[test]
fn test_neighbor_borrow() {
    let mut grid = Grid::new(3, 3, 0u8);
    let center = Point::new(1, 1);
    *grid.get_mut(center) = 5;

    let mut neighbor_values: Vec<u8> = Vec::new();
    let mut it = grid.orthogonal_neighbors(center);
    while let Some((_, &v)) = it.next() {
        neighbor_values.push(v);
    }

    *grid.get_mut(Point::new(0, 0)) = 1;

    assert_eq!(neighbor_values.len(), 4);
}

#[test]
fn test_multiple_iterators() {
    let grid = Grid::new(3, 3, 0u8);
    let center = Point::new(1, 1);

    let ortho = grid.orthogonal_neighbors(center);
    let diag = grid.all_neighbors(center);
    assert_eq!(count_orthogonal(ortho), 4);
    assert_eq!(count_all(diag), 8);

    let iter1 = grid.orthogonal_neighbors(Point::new(0, 0));
    let iter2 = grid.orthogonal_neighbors(Point::new(2, 2));
    assert_eq!(count_orthogonal(iter1), 2);
    assert_eq!(count_orthogonal(iter2), 2);
}

#[test]
fn test_nested_iteration() {
    let grid = Grid::new(3, 3, 0u8);

    let mut cells = grid.iter();
    while let Some((point, _)) = cells.next() {
        let mut neighbors = Vec::new();
        let mut it = grid.orthogonal_neighbors(point);
        while let Some(n) = it.next() {
            neighbors.push(n);
        }

        let diagonal_count = count_all(grid.all_neighbors(point));

        assert!(diagonal_count >= neighbors.len());
    }
}

#[test]
fn test_iterator_independence() {
    let grid = Grid::new(3, 3, 0u8);
    let center = Point::new(1, 1);

    let mut iter1 = grid.orthogonal_neighbors(center);
    let mut iter2 = grid.orthogonal_neighbors(center);

    let first1 = iter1.next();
    let first2 = iter2.next();

    assert_eq!(first1.map(|(p, _)| p), first2.map(|(p, _)| p));

    iter1.next();

    assert_eq!(count_orthogonal(iter2), 3);
}

#[test]
fn test_modification_during_iteration() {
    let mut grid = Grid::new(3, 3, 0u8);
    let center = Point::new(1, 1);

    let mut points = Vec::new();
    let mut it = grid.orthogonal_neighbors(center);
    while let Some((p, _)) = it.next() {
        points.push(p);
    }

    for point in points {
        grid.set(point, 1);
        let _neighbors = grid.orthogonal_neighbors(point);
    }

    let mut ones = 0;
    let mut it = grid.orthogonal_neighbors(center);
    while let Some((_, v)) = it.next() {
        if *v == 1 {
            ones += 1;
        }
    }
    assert_eq!(ones, 4);
}

#[test]
fn test_direction_arithmatic() {
    println!("Up as integer {}", Direction::North as u8);
    println!("Right as integer {}", Direction::East as u8);
    println!("Down as integer {}", Direction::South as u8);
    println!("Left as integer {}", Direction::West as u8);
    println!("Wait as integer {}", Direction::Wait as u8);
    println!("Up + 1 as integer {}", (Direction::North as u8) + 1);
    assert_eq!(Direction::North as u8, 0);
    assert_eq!(Direction::Wait as u8, 4);
}

#[test]
fn grid_iteration_is_row_major() {
    let grid = Grid::from_rows(vec![vec![1u8, 2, 3], vec![4, 5, 6]]);
    let mut seen = Vec::new();
    let mut it = grid.into_iter();
    while let Some((p, v)) = it.next() {
        seen.push((p.x, p.y, v));
    }
    assert_eq!(
        seen,
        vec![(0, 0, 1), (1, 0, 2), (2, 0, 3), (0, 1, 4), (1, 1, 5), (2, 1, 6)]
    );
}

#[test]
fn grid_neighbors_come_clockwise_from_north() {
    let grid = Grid::new(3, 3, 0u8);
    let mut it = grid.all_neighbors(Point::new(1, 1));
    let mut pts = Vec::new();
    while let Some((p, _)) = it.next() {
        pts.push((p.x, p.y));
    }
    assert_eq!(pts, vec![(1, 0), (2, 0), (2, 1), (2, 2), (1, 2), (0, 2), (0, 1), (0, 0)]);
    let mut points = grid.all_neighbor_points(Point::new(2, 0));
    let mut corner = Vec::new();
    while let Some(p) = points.next() {
        corner.push((p.x, p.y));
    }
    assert_eq!(corner, vec![(2, 1), (1, 1), (1, 0)]);
}

#[test]
fn grid_find_returns_first_in_row_order() {
    let grid = Grid::from_rows(vec![vec![0u8, 7], vec![7, 0]]);
    assert_eq!(grid.find(7), Some(Point::new(1, 0)));
}

#[test]
fn grid_add_points_and_directions() {
    let grid = Grid::new(3, 2, 0u8);
    assert_eq!(grid.add_points(Point::new(1, 0), Point::new(1, 1)), Some(Point::new(2, 1)));
    assert_eq!(grid.add_points(Point::new(2, 0), Point::new(1, 0)), None);
    assert_eq!(grid.add_points(Point::new(usize::MAX, 0), Point::new(1, 0)), None);
    assert_eq!(Point::new(0, 0).checked_add(Point::new(0, 1), &grid), Some(Point::new(0, 1)));
    assert_eq!(grid.add_direction(Point::new(0, 0), Direction::North), None);
    assert_eq!(grid.add_direction(Point::new(0, 0), Direction::South), Some(Point::new(0, 1)));
    assert!(grid.test_bound_direction(Point::new(1, 1), Direction::East));
    assert!(!grid.test_bound_direction(Point::new(2, 1), Direction::East));
    assert!(!grid.test_bound_direction(Point::new(0, 1), Direction::South));
    assert!(grid.test_bound_direction(Point::new(0, 1), Direction::North));
    assert!(grid.in_bounds(Point::new(2, 1)));
    assert!(!grid.in_bounds(Point::new(3, 1)));
    assert_eq!(grid.as_slice().len(), 6);
}

#[test]
fn vectors_points_and_directions() {
    let v = Vector::new(-3, 4);
    assert_eq!(v.abs(), Vector::new(3, 4));
    assert_eq!(v.manhattan(), 7);
    assert_eq!(v.as_tuple(), (-3, 4));
    assert_eq!(Point::new(1, 5).manhattan(&Point::new(4, 1)), 7);
    assert_eq!(Direction::North.left(), Direction::West);
    assert_eq!(Direction::North.right(), Direction::East);
    assert_eq!(Direction::East.reverse(), Direction::West);
    assert_eq!(Direction::Wait.reverse(), Direction::Wait);
    assert_eq!(Direction::try_from_char('^'), Some(Direction::North));
    assert_eq!(Direction::try_from_char('x'), None);
    let d: Grid<u8> = Grid::new_default(2, 2);
    assert_eq!(*d.get(Point::new(1, 1)), 0);
}

#[test]
fn vector_and_point_operators() {
    let v = Vector::new(2, -3);
    assert_eq!(-v, Vector::new(-2, 3));
    assert_eq!(v - Vector::new(1, 1), Vector::new(1, -4));
    assert_eq!(v * 3, Vector::new(6, -9));
    assert_eq!(3 * v, Vector::new(6, -9));
    let mut w = v;
    w += Vector::new(1, 1);
    assert_eq!(w, Vector::new(3, -2));
    w -= Vector::new(3, -2);
    assert_eq!(w, Vector::new(0, 0));
    assert_eq!(Vector::from(Direction::South), Vector::new(0, 1));
    assert_eq!(Vector::from((4, 5)), Vector::new(4, 5));
    let p = Point::new(1, 1);
    assert_eq!(p + Vector::new(-1, 2), Some(Point::new(0, 3)));
    assert_eq!(p + Vector::new(-2, 0), None);
    assert_eq!(p + Direction::North, Some(Point::new(1, 0)));
    assert_eq!(p - Vector::new(1, 1), Some(Point::new(0, 0)));
    assert_eq!(Point::new(0, 5) - Point::new(2, 1), Vector::new(-2, 4));
    let mut q = p;
    q += Vector::new(2, 0);
    assert_eq!(q, Point::new(3, 1));
    assert_eq!(Point::from((7, 8)), Point::new(7, 8));
    assert_eq!(Direction::from('<'), Direction::West);
    assert_eq!(Direction::from('x'), Direction::Wait);
    assert_eq!(char::from(Direction::North), '^');
    assert_eq!(char::from(Direction::Wait), '.');
    let grid = Grid::from_rows(vec![vec![1u8, 2], vec![3, 4]]);
    assert_eq!(grid[(0, 1)], 3);
}

#[test]
fn grid_from_text_bytes() {
    let grid = Grid::from_bytes(b"ab.\n#cd\nefg");
    assert_eq!(grid.width, 3);
    assert_eq!(grid.height, 3);
    assert_eq!(*grid.get(Point::new(1, 2)), b'f');
    assert_eq!(grid.find(b'#'), Some(Point::new(0, 1)));
    let single = Grid::from_bytes(b"xyz");
    assert_eq!((single.width, single.height), (3, 1));
}
