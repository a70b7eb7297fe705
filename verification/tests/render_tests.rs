use silver::render::assemble;
use silver::render::pixel_coords;
use silver::render::pixel_seed;

#[test]
fn pixel_coords_walks_rows_first() {
    let coords = pixel_coords(3, 2);
    assert_eq!(
        coords,
        vec![(0, 0), (0, 1), (0, 2), (1, 0), (1, 1), (1, 2)]
    );
}

#[test]
fn pixel_coords_covers_the_plane_once() {
    let coords = pixel_coords(7, 5);
    assert_eq!(coords.len(), 35);
    for y in 0..5 {
        for x in 0..7 {
            assert_eq!(coords.iter().filter(|c| **c == (y, x)).count(), 1);
        }
    }
}

#[test]
fn pixel_seed_mixes_the_coordinates() {
    assert_eq!(pixel_seed(0, 0), 0);
    assert_eq!(pixel_seed(5, 3), 6);
    assert_eq!(pixel_seed(640, 480), 640 ^ 480);
    assert_eq!(pixel_seed(7, 7), 0);
}

#[test]
fn assemble_places_every_result() {
    let samples = vec![(0usize, 1usize, 10u32), (1, 0, 20), (1, 2, 30)];
    let grid = assemble(3, 2, 0u32, &samples);
    assert_eq!(grid, vec![vec![0, 10, 0], vec![20, 0, 30]]);
}

#[test]
fn assemble_does_not_depend_on_completion_order() {
    let in_order: Vec<(usize, usize, u64)> = vec![
        (0, 0, 1),
        (0, 1, 2),
        (1, 0, 3),
        (1, 1, 4),
        (2, 0, 5),
        (2, 1, 6),
    ];
    let scrambled: Vec<(usize, usize, u64)> = vec![
        (2, 1, 6),
        (0, 1, 2),
        (1, 1, 4),
        (2, 0, 5),
        (0, 0, 1),
        (1, 0, 3),
    ];
    assert_eq!(
        assemble(2, 3, 0u64, &in_order),
        assemble(2, 3, 0u64, &scrambled)
    );
}

#[test]
fn assemble_keeps_the_last_write() {
    let samples = vec![(0usize, 0usize, 7u8), (0, 0, 9)];
    let grid = assemble(1, 1, 0u8, &samples);
    assert_eq!(grid, vec![vec![9]]);
}

#[test]
fn driver_skeleton_round_trip() {
    // The driver's bookkeeping end to end: enumerate the pixels, tag
    // each with its per-pixel seed, hand the results back scrambled,
    // and read the assembled grid.
    let width = 4;
    let height = 3;
    let mut results: Vec<(usize, usize, u64)> = pixel_coords(width, height)
        .into_iter()
        .map(|(y, x)| (y, x, pixel_seed(x as u64, y as u64)))
        .collect();
    results.reverse();
    let grid = assemble(width, height, u64::MAX, &results);
    for y in 0..height {
        for x in 0..width {
            assert_eq!(grid[y][x], (x as u64) ^ (y as u64));
        }
    }
}
