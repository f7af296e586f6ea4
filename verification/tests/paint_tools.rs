use tuna::image::{Color, Image};
use tuna::paint::{bresenham_points, flood_fill};

fn pixels_of(img: &Image) -> Vec<Vec<Color>> {
    (0..img.height()).map(|r| (0..img.width()).map(|c| img.get(c, r)).collect()).collect()
}

#[test]
fn a_shallow_line_steps_along_x() {
    assert_eq!(bresenham_points(0, 0, 3, 1), vec![(0, 0), (1, 0), (2, 1), (3, 1)]);
}

#[test]
fn a_reversed_line_lists_the_same_points_backwards() {
    assert_eq!(bresenham_points(3, 1, 0, 0), vec![(3, 1), (2, 1), (1, 0), (0, 0)]);
}

#[test]
fn a_steep_line_steps_along_y() {
    assert_eq!(bresenham_points(0, 0, 1, 3), vec![(0, 0), (0, 1), (1, 2), (1, 3)]);
}

#[test]
fn a_line_runs_from_its_first_end_to_its_last_one_point_per_step() {
    for &(x1, y1, x2, y2) in &[(2u32, 7u32, 9u32, 1u32), (5, 5, 5, 5), (0, 4, 4, 0), (1, 1, 1, 6)] {
        let points = bresenham_points(x1, y1, x2, y2);
        assert_eq!(points.first(), Some(&(x1, y1)));
        assert_eq!(points.last(), Some(&(x2, y2)));
        let steps = (x1 as i64 - x2 as i64).abs().max((y1 as i64 - y2 as i64).abs()) as usize;
        assert_eq!(points.len(), steps + 1);
        for pair in points.windows(2) {
            assert!((pair[0].0 as i64 - pair[1].0 as i64).abs() <= 1);
            assert!((pair[0].1 as i64 - pair[1].1 as i64).abs() <= 1);
        }
    }
}

#[test]
fn flood_fill_stops_at_other_colors() {
    let mut img = Image::new(3, 3);
    img.set(1, 0, Color::C1);
    img.set(1, 1, Color::C1);
    img.set(1, 2, Color::C1);
    flood_fill(&mut img, 0, 0, Color::C2);
    assert_eq!(
        pixels_of(&img),
        vec![
            vec![Color::C2, Color::C1, Color::C0],
            vec![Color::C2, Color::C1, Color::C0],
            vec![Color::C2, Color::C1, Color::C0],
        ]
    );
}

#[test]
fn flood_fill_goes_around_corners_but_not_diagonally() {
    let mut img = Image::new(3, 3);
    img.set(1, 0, Color::C1);
    img.set(1, 1, Color::C1);
    flood_fill(&mut img, 0, 0, Color::C2);
    assert_eq!(
        pixels_of(&img),
        vec![
            vec![Color::C2, Color::C1, Color::C2],
            vec![Color::C2, Color::C1, Color::C2],
            vec![Color::C2, Color::C2, Color::C2],
        ]
    );
    let mut diag = Image::new(2, 2);
    diag.set(1, 0, Color::C1);
    diag.set(0, 1, Color::C1);
    flood_fill(&mut diag, 0, 0, Color::C3);
    assert_eq!(pixels_of(&diag), vec![vec![Color::C3, Color::C1], vec![Color::C1, Color::C0]]);
}

#[test]
fn lines_far_from_the_origin() {
    let big = i32::MAX as u32 - 1;
    assert_eq!(bresenham_points(big - 3, big, big, big - 1), vec![(big - 3, big), (big - 2, big), (big - 1, big - 1), (big, big - 1)]);
    assert_eq!(bresenham_points(big, big - 1, big - 3, big), vec![(big, big - 1), (big - 1, big - 1), (big - 2, big), (big - 3, big)]);
}

#[test]
fn lines_reaching_the_largest_coordinate() {
    let max = i32::MAX as u32;
    assert_eq!(bresenham_points(0, max, 1, max), vec![(0, max), (1, max)]);
    assert_eq!(bresenham_points(max - 1, max - 1, max, max), vec![(max - 1, max - 1), (max, max)]);
    assert_eq!(bresenham_points(max, max, max - 1, max - 1), vec![(max, max), (max - 1, max - 1)]);
    assert_eq!(bresenham_points(max, 0, max, 2), vec![(max, 0), (max, 1), (max, 2)]);
}
