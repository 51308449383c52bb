use kmeans_quant::assign::{assign_to_centroids, empty_cluster};
use kmeans_quant::control::{has_settled, run_clustering, Controller, Phase};
use kmeans_quant::error::KMeansError;
use kmeans_quant::matrix::{can_hold, from_rows, Matrix, ONE};
use kmeans_quant::pixels::{
    channel_to_fixed, features_of, fixed_to_channel, palette, pixel_of_row, row_of_pixel, Rgb,
};
use kmeans_quant::random::initialize_centroids;
use kmeans_quant::update::{compute_centroids_from_cluster, indices_valid, place_column};
use ndarray_rand::rand::rngs::StdRng;
use ndarray_rand::rand::SeedableRng;

fn fixed(rows: &[&[i32]]) -> Matrix {
    let scaled: Vec<Vec<i32>> = rows.iter().map(|r| r.iter().map(|v| v * ONE).collect()).collect();
    from_rows(&scaled).unwrap()
}

fn cells(m: &Matrix) -> Vec<Vec<i32>> {
    (0..m.nrows()).map(|r| (0..m.ncols()).map(|c| m.get(r, c).unwrap()).collect()).collect()
}

fn four_points() -> Matrix {
    fixed(&[&[0, 0, 0], &[0, 0, 1], &[10, 10, 10], &[10, 10, 9]])
}

#[test]
fn tie_goes_to_lowest_index() {
    let centroids = fixed(&[&[0, 2], &[0, 0], &[0, 0]]);
    let features = fixed(&[&[1, 0, 0]]);
    let (cluster, error) = assign_to_centroids(&centroids, &features).unwrap();
    assert_eq!(cluster, vec![vec![0usize], vec![]]);
    assert_eq!(error, (ONE as u128) * (ONE as u128));
}

#[test]
fn tie_among_three_goes_to_first() {
    let centroids = fixed(&[&[5, 3, 1, 3]]);
    let features = fixed(&[&[2]]);
    let (cluster, error) = assign_to_centroids(&centroids, &features).unwrap();
    assert_eq!(cluster, vec![vec![], vec![0usize], vec![], vec![]]);
    assert_eq!(error, (ONE as u128) * (ONE as u128));
}

#[test]
fn assignment_is_a_partition_in_row_order() {
    let centroids = fixed(&[&[0, 10], &[0, 10], &[0, 10]]);
    let (cluster, error) = assign_to_centroids(&centroids, &four_points()).unwrap();
    assert_eq!(cluster, vec![vec![0usize, 1], vec![2, 3]]);
    let one = (ONE as u128) * (ONE as u128);
    assert_eq!(error, 2 * one);
    let mut seen: Vec<usize> = cluster.iter().flatten().copied().collect();
    seen.sort();
    assert_eq!(seen, vec![0, 1, 2, 3]);
}

#[test]
fn total_error_adds_squared_distances() {
    let centroids = from_rows(&vec![vec![1, 100], vec![-2, 100]]).unwrap();
    let features = from_rows(&vec![vec![4, 2], vec![101, 98], vec![0, 0]]).unwrap();
    let (cluster, error) = assign_to_centroids(&centroids, &features).unwrap();
    assert_eq!(cluster, vec![vec![0usize, 2], vec![1]]);
    assert_eq!(error, (9 + 16) + (1 + 4) + (1 + 4));
}

#[test]
fn extreme_cells_do_not_overflow() {
    let centroids = from_rows(&vec![vec![i32::MIN], vec![i32::MIN]]).unwrap();
    let features = from_rows(&vec![vec![i32::MAX, i32::MAX]]).unwrap();
    let (_, error) = assign_to_centroids(&centroids, &features).unwrap();
    let gap = u32::MAX as u128;
    assert_eq!(error, 2 * gap * gap);
}

#[test]
fn assignment_refuses_bad_shapes() {
    let features = four_points();
    let no_centroids = Matrix::zeros(3, 0).unwrap();
    assert_eq!(assign_to_centroids(&no_centroids, &features).unwrap_err(), KMeansError::InvalidArgument);
    let narrow = Matrix::zeros(2, 2).unwrap();
    assert_eq!(assign_to_centroids(&narrow, &features).unwrap_err(), KMeansError::InvalidArgument);
    let no_rows = Matrix::zeros(0, 3).unwrap();
    let centroids = Matrix::zeros(3, 2).unwrap();
    assert_eq!(assign_to_centroids(&centroids, &no_rows).unwrap_err(), KMeansError::InvalidArgument);
    let flat = Matrix::zeros(0, 2).unwrap();
    let empty = Matrix::zeros(1, 0).unwrap();
    assert_eq!(assign_to_centroids(&flat, &empty).unwrap_err(), KMeansError::InvalidArgument);
}

#[test]
fn update_takes_the_mean_of_each_group() {
    let mut rng = StdRng::seed_from_u64(1);
    let cluster = vec![vec![0usize, 1], vec![2, 3]];
    let centroids = compute_centroids_from_cluster(&cluster, &four_points(), &mut rng).unwrap();
    assert_eq!(
        cells(&centroids),
        vec![vec![0, 10 * ONE], vec![0, 10 * ONE], vec![ONE / 2, 9 * ONE + ONE / 2]]
    );
}

#[test]
fn mean_rounds_down() {
    let mut rng = StdRng::seed_from_u64(1);
    let features = from_rows(&vec![vec![-1, 1], vec![0, 2], vec![0, 4]]).unwrap();
    let centroids = compute_centroids_from_cluster(&vec![vec![0usize, 1], vec![0, 1, 2]], &features, &mut rng).unwrap();
    assert_eq!(cells(&centroids), vec![vec![-1, -1], vec![1, 2]]);
}

#[test]
fn mean_of_extreme_cells() {
    let mut rng = StdRng::seed_from_u64(1);
    let features = from_rows(&vec![vec![i32::MIN, i32::MAX], vec![i32::MIN, i32::MAX]]).unwrap();
    let centroids = compute_centroids_from_cluster(&vec![vec![0usize, 1, 0]], &features, &mut rng).unwrap();
    assert_eq!(cells(&centroids), vec![vec![i32::MIN], vec![i32::MAX]]);
}

#[test]
fn empty_group_is_reseeded_in_unit_interval() {
    for seed in 0..20u64 {
        let mut rng = StdRng::seed_from_u64(seed);
        let cluster = vec![vec![0usize, 1, 2, 3], vec![]];
        let centroids = compute_centroids_from_cluster(&cluster, &four_points(), &mut rng).unwrap();
        let column: Vec<i32> = (0..3).map(|j| centroids.get(j, 1).unwrap()).collect();
        assert!(column.iter().all(|v| 0 <= *v && *v < ONE));
        assert_ne!(column, vec![0, 0, 0]);
        assert_eq!(centroids.get(0, 0), Some(5 * ONE));
        assert_eq!(centroids.get(2, 0), Some(5 * ONE));
    }
}

#[test]
fn update_refuses_bad_input() {
    let mut rng = StdRng::seed_from_u64(1);
    let features = four_points();
    let none: Vec<Vec<usize>> = vec![];
    assert_eq!(compute_centroids_from_cluster(&none, &features, &mut rng).unwrap_err(), KMeansError::InvalidArgument);
    let stray = vec![vec![0usize], vec![4]];
    assert_eq!(compute_centroids_from_cluster(&stray, &features, &mut rng).unwrap_err(), KMeansError::InvalidArgument);
    let no_rows = Matrix::zeros(0, 3).unwrap();
    assert_eq!(compute_centroids_from_cluster(&vec![vec![]], &no_rows, &mut rng).unwrap_err(), KMeansError::InvalidArgument);
    assert!(indices_valid(&vec![vec![3usize], vec![]], 4));
    assert!(!indices_valid(&vec![vec![], vec![1usize, 4]], 4));
}

#[test]
fn place_column_copies_first_column() {
    let mut target = from_rows(&vec![vec![1, 2], vec![3, 4]]).unwrap();
    let column = from_rows(&vec![vec![7, 9], vec![8, 9]]).unwrap();
    assert!(place_column(&mut target, 1, &column));
    assert_eq!(cells(&target), vec![vec![1, 7], vec![3, 8]]);
    assert!(!place_column(&mut target, 2, &column));
    let short = from_rows(&vec![vec![5]]).unwrap();
    assert!(!place_column(&mut target, 0, &short));
    assert_eq!(cells(&target), vec![vec![1, 7], vec![3, 8]]);
}

#[test]
fn initial_centroids_lie_in_unit_interval() {
    let mut rng = StdRng::seed_from_u64(42);
    let centroids = initialize_centroids(3, 5, &mut rng).unwrap();
    assert_eq!((centroids.nrows(), centroids.ncols()), (3, 5));
    let all = cells(&centroids);
    assert!(all.iter().flatten().all(|v| 0 <= *v && *v < ONE));
    assert!(all.iter().flatten().any(|v| *v != all[0][0]));
}

#[test]
fn initializer_refuses_zero_and_huge_shapes() {
    let mut rng = StdRng::seed_from_u64(42);
    assert_eq!(initialize_centroids(0, 2, &mut rng).unwrap_err(), KMeansError::InvalidArgument);
    assert_eq!(initialize_centroids(3, 0, &mut rng).unwrap_err(), KMeansError::InvalidArgument);
    assert_eq!(initialize_centroids(usize::MAX / 8, 2, &mut rng).unwrap_err(), KMeansError::TooLarge);
    assert_eq!(initialize_centroids(usize::MAX, 1, &mut rng).unwrap_err(), KMeansError::TooLarge);
}

#[test]
fn same_seed_same_result() {
    let features = four_points();
    let mut first = StdRng::seed_from_u64(7);
    let mut second = StdRng::seed_from_u64(7);
    let a = initialize_centroids(3, 4, &mut first).unwrap();
    let b = initialize_centroids(3, 4, &mut second).unwrap();
    assert_eq!(cells(&a), cells(&b));
    let (ca, ga) = run_clustering(3, 100, &features, &mut first).unwrap();
    let (cb, gb) = run_clustering(3, 100, &features, &mut second).unwrap();
    assert_eq!(cells(&ca), cells(&cb));
    assert_eq!(ga, gb);
}

#[test]
fn four_points_fall_into_two_clusters() {
    for seed in 0..50u64 {
        let mut rng = StdRng::seed_from_u64(seed);
        let (centroids, cluster) = run_clustering(2, 100, &four_points(), &mut rng).unwrap();
        let low = vec![0, 0, ONE / 2];
        let high = vec![10 * ONE, 10 * ONE, 9 * ONE + ONE / 2];
        let columns: Vec<Vec<i32>> =
            (0..2).map(|k| (0..3).map(|j| centroids.get(j, k).unwrap()).collect()).collect();
        let near_origin = if cluster[0] == vec![0usize, 1] { 0 } else { 1 };
        let as_real = |j: usize, k: usize| f64::from(centroids.get(j, k).unwrap()) / f64::from(ONE);
        assert!((as_real(2, near_origin) - 0.5).abs() < 1e-4);
        assert!((as_real(0, 1 - near_origin) - 10.0).abs() < 1e-4);
        assert!((as_real(2, 1 - near_origin) - 9.5).abs() < 1e-4);
        if cluster[0] == vec![0usize, 1] {
            assert_eq!(cluster[1], vec![2usize, 3]);
            assert_eq!(columns, vec![low, high]);
        } else {
            assert_eq!(cluster, vec![vec![2usize, 3], vec![0, 1]]);
            assert_eq!(columns, vec![high, low]);
        }
    }
}

#[test]
fn run_refuses_bad_input() {
    let mut rng = StdRng::seed_from_u64(3);
    assert_eq!(run_clustering(0, 100, &four_points(), &mut rng).unwrap_err(), KMeansError::InvalidArgument);
    let no_rows = Matrix::zeros(0, 3).unwrap();
    assert_eq!(run_clustering(2, 100, &no_rows, &mut rng).unwrap_err(), KMeansError::InvalidArgument);
    let no_columns = Matrix::zeros(3, 0).unwrap();
    assert_eq!(run_clustering(2, 100, &no_columns, &mut rng).unwrap_err(), KMeansError::InvalidArgument);
    assert_eq!(run_clustering(usize::MAX / 8, 100, &four_points(), &mut rng).unwrap_err(), KMeansError::TooLarge);
}

#[test]
fn zero_iterations_leave_seed_and_empty_groups() {
    let mut rng = StdRng::seed_from_u64(3);
    let mut same = StdRng::seed_from_u64(3);
    let (centroids, cluster) = run_clustering(2, 0, &four_points(), &mut rng).unwrap();
    assert_eq!(cluster, empty_cluster(2));
    assert_eq!(cluster, vec![Vec::<usize>::new(), vec![]]);
    assert_eq!(cells(&centroids), cells(&initialize_centroids(3, 2, &mut same).unwrap()));
}

#[test]
fn one_iteration_assigns_to_the_seed() {
    let mut rng = StdRng::seed_from_u64(11);
    let mut same = StdRng::seed_from_u64(11);
    let features = four_points();
    let (centroids, cluster) = run_clustering(2, 1, &features, &mut rng).unwrap();
    let seed = initialize_centroids(3, 2, &mut same).unwrap();
    let (expected, _) = assign_to_centroids(&seed, &features).unwrap();
    assert_eq!(cluster, expected);
    let updated = compute_centroids_from_cluster(&expected, &features, &mut same).unwrap();
    assert_eq!(cells(&centroids), cells(&updated));
}

fn iterations_until_done(clusters: usize, cap: usize, features: &Matrix, seed: u64) -> Controller {
    let mut rng = StdRng::seed_from_u64(seed);
    let mut centroids = initialize_centroids(features.ncols(), clusters, &mut rng).unwrap();
    let mut controller = Controller::new(cap);
    assert_eq!(controller.phase, Phase::Initializing);
    controller.begin();
    while controller.phase == Phase::Iterating {
        let (cluster, error) = assign_to_centroids(&centroids, features).unwrap();
        centroids = compute_centroids_from_cluster(&cluster, features, &mut rng).unwrap();
        controller.record(error);
    }
    controller
}

#[test]
fn single_cluster_stops_after_three_iterations() {
    let features = fixed(&[&[0], &[10]]);
    for seed in 0..10u64 {
        let done = iterations_until_done(1, 100, &features, seed);
        assert_eq!(done.phase, Phase::Converged);
        assert_eq!(done.iterations, 3);
        let half = 5 * (ONE as u128);
        assert_eq!(done.last_error, Some(2 * half * half));
    }
}

#[test]
fn single_cluster_with_zero_error_stops_after_two() {
    let features = fixed(&[&[3, 4], &[3, 4]]);
    let done = iterations_until_done(1, 100, &features, 5);
    assert_eq!(done.phase, Phase::Converged);
    assert_eq!(done.iterations, 2);
    assert_eq!(done.last_error, Some(0));
}

#[test]
fn cap_ends_the_run() {
    let features = fixed(&[&[0], &[10]]);
    let done = iterations_until_done(1, 2, &features, 0);
    assert_eq!(done.phase, Phase::MaxIterReached);
    assert_eq!(done.iterations, 2);
    let none = iterations_until_done(1, 0, &features, 0);
    assert_eq!(none.phase, Phase::MaxIterReached);
    assert_eq!(none.iterations, 0);
    assert_eq!(none.last_error, None);
}

#[test]
fn controller_follows_the_error() {
    let mut controller = Controller::new(10);
    controller.record(5);
    assert_eq!(controller.phase, Phase::Initializing);
    controller.begin();
    assert_eq!(controller.phase, Phase::Iterating);
    controller.record(0);
    assert_eq!((controller.phase, controller.iterations), (Phase::Iterating, 1));
    controller.record(1000);
    assert_eq!((controller.phase, controller.iterations), (Phase::Converged, 2));
    controller.record(1);
    assert_eq!((controller.phase, controller.iterations, controller.last_error), (Phase::Converged, 2, Some(1000)));

    let mut slow = Controller::new(3);
    slow.begin();
    slow.record(1000);
    slow.record(500);
    assert_eq!(slow.phase, Phase::Iterating);
    slow.record(400);
    assert_eq!((slow.phase, slow.iterations), (Phase::MaxIterReached, 3));
}

#[test]
fn one_percent_is_the_threshold() {
    assert!(has_settled(101, 100));
    assert!(!has_settled(102, 100));
    assert!(has_settled(100, 100));
    assert!(has_settled(50, 100));
    assert!(has_settled(7, 0));
    assert!(has_settled(0, 0));
    assert!(!has_settled(2, 1));
    assert!(has_settled(u128::MAX, u128::MAX));
    assert!(!has_settled(u128::MAX, 1));
    assert!(has_settled(20_200, 20_000));
    assert!(!has_settled(20_201, 20_000));
}

#[test]
fn matrix_cells_read_and_write() {
    let mut m = Matrix::zeros(2, 3).unwrap();
    assert_eq!(m.shape(), (2, 3));
    assert_eq!(m.get(1, 2), Some(0));
    assert_eq!(m.get(2, 0), None);
    assert_eq!(m.get(0, 3), None);
    assert!(m.set(1, 2, -9));
    assert!(!m.set(2, 2, 4));
    assert_eq!(cells(&m), vec![vec![0, 0, 0], vec![0, 0, -9]]);
    assert_eq!(from_rows(&vec![vec![1, 2], vec![3]]).unwrap_err(), KMeansError::InvalidArgument);
    assert_eq!(from_rows(&vec![]).unwrap().shape(), (0, 0));
    assert_eq!(Matrix::zeros(usize::MAX, 2).unwrap_err(), KMeansError::TooLarge);
    assert_eq!(Matrix::zeros(0, usize::MAX).unwrap_err(), KMeansError::TooLarge);
    assert!(can_hold(0, usize::MAX / 8));
    assert!(!can_hold(2, usize::MAX / 8));
}

#[test]
fn channels_convert_both_ways() {
    assert_eq!(channel_to_fixed(0), 0);
    assert_eq!(channel_to_fixed(255), 255 * ONE);
    for c in 0..=255u8 {
        assert_eq!(fixed_to_channel(channel_to_fixed(c)), c);
    }
    assert_eq!(fixed_to_channel(ONE - 1), 0);
    assert_eq!(fixed_to_channel(ONE), 1);
    assert_eq!(fixed_to_channel(9 * ONE + ONE / 2), 9);
    assert_eq!(fixed_to_channel(-1), 0);
    assert_eq!(fixed_to_channel(i32::MIN), 0);
    assert_eq!(fixed_to_channel(256 * ONE - 1), 255);
    assert_eq!(fixed_to_channel(256 * ONE), 255);
    assert_eq!(fixed_to_channel(i32::MAX), 255);
}

#[test]
fn rows_run_down_the_columns() {
    assert_eq!(row_of_pixel(0, 0, 4), Some(0));
    assert_eq!(row_of_pixel(2, 3, 4), Some(11));
    assert_eq!(row_of_pixel(2, 4, 4), None);
    assert_eq!(row_of_pixel(1, 0, 0), None);
    assert_eq!(pixel_of_row(11, 4), Some((2, 3)));
    assert_eq!(pixel_of_row(12, 4), Some((3, 0)));
    assert_eq!(pixel_of_row(5, 0), None);
    assert_eq!(pixel_of_row(usize::MAX, 1), None);
    for x in 0..5u32 {
        for y in 0..3u32 {
            assert_eq!(pixel_of_row(row_of_pixel(x, y, 3).unwrap(), 3), Some((x, y)));
        }
    }
}

#[test]
fn colours_become_features_and_back() {
    let colours = vec![Rgb { red: 1, green: 2, blue: 3 }, Rgb { red: 255, green: 0, blue: 128 }];
    let features = features_of(&colours).unwrap();
    assert_eq!(cells(&features), vec![vec![ONE, 2 * ONE, 3 * ONE], vec![255 * ONE, 0, 128 * ONE]]);
    let centroids = from_rows(&vec![vec![ONE / 2, 300 * ONE], vec![7 * ONE + 5, -ONE], vec![255 * ONE, ONE]]).unwrap();
    assert_eq!(
        palette(&centroids).unwrap(),
        vec![Rgb { red: 0, green: 7, blue: 255 }, Rgb { red: 255, green: 0, blue: 1 }]
    );
    let thin = from_rows(&vec![vec![1], vec![2]]).unwrap();
    assert_eq!(palette(&thin).unwrap_err(), KMeansError::InvalidArgument);
    assert_eq!(features_of(&vec![]).unwrap().shape(), (0, 3));
}

#[test]
fn image_colours_are_quantised() {
    let dark = Rgb { red: 10, green: 10, blue: 10 };
    let darker = Rgb { red: 12, green: 10, blue: 10 };
    let bright = Rgb { red: 200, green: 220, blue: 240 };
    let features = features_of(&vec![dark, bright, darker, bright]).unwrap();
    let mut rng = StdRng::seed_from_u64(9);
    let (centroids, cluster) = run_clustering(2, 100, &features, &mut rng).unwrap();
    let colours = palette(&centroids).unwrap();
    let of_dark = if cluster[0].contains(&0) { 0 } else { 1 };
    assert_eq!(cluster[of_dark], vec![0usize, 2]);
    assert_eq!(cluster[1 - of_dark], vec![1usize, 3]);
    assert_eq!(colours[of_dark], Rgb { red: 11, green: 10, blue: 10 });
    assert_eq!(colours[1 - of_dark], bright);
}

#[test]
fn error_does_not_rise_beyond_rounding() {
    let features = from_rows(&vec![vec![3, 9], vec![4, 1], vec![-7, 2], vec![8, 8], vec![0, -5]]).unwrap();
    for seed in 0..20u64 {
        let mut rng = StdRng::seed_from_u64(seed);
        let mut centroids = initialize_centroids(2, 3, &mut rng).unwrap();
        let mut last: Option<u128> = None;
        for _ in 0..6 {
            let (cluster, error) = assign_to_centroids(&centroids, &features).unwrap();
            if let Some(previous) = last {
                assert!(error <= previous + 5 * 2);
            }
            last = Some(error);
            centroids = compute_centroids_from_cluster(&cluster, &features, &mut rng).unwrap();
        }
    }
}
