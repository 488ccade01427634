use approx::RelativeEq;
use raster_algebra::{Raster, ShapeMismatch};

fn grid(rows: usize, cols: usize, cells: &[f32]) -> Raster<f32> {
    Raster::from_elements(rows, cols, cells.to_vec()).unwrap()
}

fn overlay(layers: &Vec<(Raster<f32>, f32)>) -> Result<Raster<f32>, ShapeMismatch> {
    Raster::overlay(layers, |w: f32, x: f32| w * x, |a: f32, b: f32| a + b)
}

fn close(a: &Raster<f32>, b: &Raster<f32>, epsilon: f32) -> bool {
    a.rows() == b.rows()
        && a.cols() == b.cols()
        && a.all_pairs(b, |x: f32, y: f32| x.relative_eq(&y, epsilon, f32::default_max_relative()))
}

fn fixtures() -> Vec<(Raster<f32>, f32)> {
    vec![
        (grid(3, 4, &[1.0, 2.0, 3.0, 4.0, 5.0, 6.0, 7.0, 8.0, 9.0, 10.0, 11.0, 12.0]), 0.4),
        (grid(3, 4, &[0.5, 0.5, 0.5, 0.5, 1.0, 1.0, 1.0, 1.0, 2.0, 2.0, 2.0, 2.0]), 0.2),
        (grid(3, 4, &[-1.0, 0.0, 1.0, 2.0, -1.0, 0.0, 1.0, 2.0, -1.0, 0.0, 1.0, 2.0]), 0.2),
        (grid(3, 4, &[10.0, 20.0, 30.0, 40.0, 50.0, 60.0, 70.0, 80.0, 90.0, 100.0, 110.0, 120.0]), 0.2),
    ]
}

#[test]
fn test_new_algebra_zero() {
    let maps: Vec<(Raster<f32>, f32)> = Vec::new();
    let result = Raster::<f32>::empty();
    let combination = overlay(&maps).unwrap();
    assert_eq!(combination, result);
}

#[test]
fn overlay_of_no_layers_is_empty_for_any_arithmetic() {
    let maps: Vec<(Raster<i64>, i64)> = Vec::new();
    let combination = Raster::overlay(&maps, |_w: i64, _x: i64| 7, |_a: i64, _b: i64| 9).unwrap();
    assert_eq!(combination.rows(), 0);
    assert_eq!(combination.cols(), 0);
    assert_eq!(combination.len(), 0);
}

#[test]
fn overlay_equals_weighted_sum() {
    let result = grid(3, 4, &[
        2.3, 4.9, 7.5, 10.1, 12.0, 14.6, 17.2, 19.8, 21.8, 24.4, 27.0, 29.6,
    ]);
    let combination = overlay(&fixtures()).unwrap();
    assert_eq!(combination.rows(), 3);
    assert_eq!(combination.cols(), 4);
    assert!(close(&combination, &result, 1e-5));
}

#[test]
fn overlay_is_exact_on_integers() {
    let layers: Vec<(Raster<i64>, i64)> = vec![
        (Raster::from_elements(2, 2, vec![1, 2, 3, 4]).unwrap(), 3),
        (Raster::from_elements(2, 2, vec![10, 20, 30, 40]).unwrap(), -1),
        (Raster::from_elements(2, 2, vec![5, 5, 5, 5]).unwrap(), 2),
    ];
    let combination = Raster::overlay(&layers, |w: i64, x: i64| w * x, |a: i64, b: i64| a + b).unwrap();
    assert_eq!(combination, Raster::from_elements(2, 2, vec![3, -4, -11, -18]).unwrap());
}

#[test]
fn overlay_of_one_layer_scales_it() {
    let layers = vec![(grid(1, 3, &[1.0, -2.0, 4.0]), 0.5)];
    let combination = overlay(&layers).unwrap();
    assert_eq!(combination, grid(1, 3, &[0.5, -1.0, 2.0]));
}

#[test]
fn overlay_does_not_depend_on_the_seed() {
    let layers = fixtures();
    let mut reversed = fixtures();
    reversed.reverse();
    let forward = overlay(&layers).unwrap();
    let backward = overlay(&reversed).unwrap();
    assert!(close(&forward, &backward, 1e-5));
}

#[test]
fn overlay_rejects_mismatched_shapes() {
    let layers = vec![
        (grid(2, 2, &[1.0, 2.0, 3.0, 4.0]), 0.5),
        (grid(2, 3, &[1.0, 2.0, 3.0, 4.0, 5.0, 6.0]), 0.5),
    ];
    assert_eq!(overlay(&layers), Err(ShapeMismatch));
    let transposed = vec![
        (grid(2, 3, &[1.0, 2.0, 3.0, 4.0, 5.0, 6.0]), 1.0),
        (grid(3, 2, &[1.0, 2.0, 3.0, 4.0, 5.0, 6.0]), 1.0),
    ];
    assert_eq!(overlay(&transposed), Err(ShapeMismatch));
}

#[test]
fn overlay_rejects_a_late_mismatch() {
    let mut layers = fixtures();
    layers.push((grid(4, 3, &[0.0; 12]), 1.0));
    assert_eq!(overlay(&layers), Err(ShapeMismatch));
}

#[test]
fn scaled_and_add_scaled_work_cell_by_cell() {
    let a = grid(1, 2, &[1.0, 2.0]);
    let b = grid(1, 2, &[10.0, 20.0]);
    let times = |w: f32, x: f32| w * x;
    let plus = |p: f32, q: f32| p + q;
    assert_eq!(a.scaled(3.0, &times), grid(1, 2, &[3.0, 6.0]));
    assert_eq!(a.add_scaled(&b, 0.5, &times, &plus), Ok(grid(1, 2, &[6.0, 12.0])));
    assert_eq!(a.add_scaled(&grid(2, 1, &[1.0, 1.0]), 0.5, &times, &plus), Err(ShapeMismatch));
}

#[test]
fn overlay_seed_order_is_exact_on_integers() {
    let mut layers: Vec<(Raster<i64>, i64)> = vec![
        (Raster::from_elements(1, 3, vec![1, 2, 3]).unwrap(), 4),
        (Raster::from_elements(1, 3, vec![-7, 0, 7]).unwrap(), 3),
        (Raster::from_elements(1, 3, vec![2, 2, 2]).unwrap(), -5),
    ];
    let times = |w: i64, x: i64| w * x;
    let plus = |a: i64, b: i64| a + b;
    let forward = Raster::overlay(&layers, times, plus).unwrap();
    layers.reverse();
    let backward = Raster::overlay(&layers, times, plus).unwrap();
    assert_eq!(forward, Raster::from_elements(1, 3, vec![-27, -2, 23]).unwrap());
    assert_eq!(forward, backward);
}
