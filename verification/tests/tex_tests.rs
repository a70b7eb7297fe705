use silver::tex::checker_even;
use silver::tex::Image;

#[test]
fn image_reports_its_dimensions() {
    let img = Image::new(3, 2, vec![[0, 0, 0]; 6]);
    assert_eq!(img.width(), 3);
    assert_eq!(img.height(), 2);
}

#[test]
fn texel_reads_row_major() {
    let data = vec![
        [1, 0, 0],
        [2, 0, 0],
        [3, 0, 0],
        [4, 0, 0],
        [5, 0, 0],
        [6, 0, 0],
    ];
    let img = Image::new(3, 2, data);
    assert_eq!(img.texel(0, 0), [1, 0, 0]);
    assert_eq!(img.texel(2, 0), [3, 0, 0]);
    assert_eq!(img.texel(0, 1), [4, 0, 0]);
    assert_eq!(img.texel(2, 1), [6, 0, 0]);
}

#[test]
fn texel_wraps_at_the_edges() {
    let data = vec![
        [1, 0, 0],
        [2, 0, 0],
        [3, 0, 0],
        [4, 0, 0],
        [5, 0, 0],
        [6, 0, 0],
    ];
    let img = Image::new(3, 2, data);
    assert_eq!(img.texel(3, 0), img.texel(0, 0));
    assert_eq!(img.texel(7, 5), img.texel(1, 1));
    assert_eq!(img.texel(300, 200), img.texel(0, 0));
}

#[test]
fn checker_alternates_by_coordinate_parity() {
    assert!(checker_even(0, 0));
    assert!(!checker_even(0, 1));
    assert!(!checker_even(1, 0));
    assert!(checker_even(1, 1));
    assert!(checker_even(4, 6));
    assert!(!checker_even(4, 7));
}

#[test]
fn checker_handles_negative_cells() {
    // Rust's remainder keeps the dividend's sign, so a sum of -1 is odd.
    assert!(!checker_even(-1, 0));
    assert!(checker_even(-1, 1));
    assert!(checker_even(-2, 0));
    assert!(!checker_even(-3, 0));
}
