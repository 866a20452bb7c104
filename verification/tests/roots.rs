use guess_the_number::roots::is_cube;
use guess_the_number::roots::is_square;
use guess_the_number::roots::truncated_cbrt;
use guess_the_number::roots::truncated_sqrt;

#[test]
fn truncated_sqrt_rounds_down() {
    assert_eq!(truncated_sqrt(0), 0);
    assert_eq!(truncated_sqrt(1), 1);
    assert_eq!(truncated_sqrt(3), 1);
    assert_eq!(truncated_sqrt(4), 2);
    assert_eq!(truncated_sqrt(143), 11);
    assert_eq!(truncated_sqrt(144), 12);
    assert_eq!(truncated_sqrt(145), 12);
    assert_eq!(truncated_sqrt(2_147_483_647), 46_340);
    assert_eq!(truncated_sqrt(4_294_836_225), 65_535);
    assert_eq!(truncated_sqrt(u32::MAX), 65_535);
}

#[test]
fn truncated_cbrt_rounds_down() {
    assert_eq!(truncated_cbrt(0), 0);
    assert_eq!(truncated_cbrt(1), 1);
    assert_eq!(truncated_cbrt(7), 1);
    assert_eq!(truncated_cbrt(8), 2);
    assert_eq!(truncated_cbrt(26), 2);
    assert_eq!(truncated_cbrt(27), 3);
    assert_eq!(truncated_cbrt(1_000_000), 100);
    assert_eq!(truncated_cbrt(2_147_483_647), 1290);
    assert_eq!(truncated_cbrt(4_291_015_625), 1625);
    assert_eq!(truncated_cbrt(u32::MAX), 1625);
}

#[test]
fn is_square_knows_the_small_squares() {
    assert!(is_square(0));
    assert!(is_square(1));
    assert!(is_square(4));
    assert!(is_square(144));
    assert!(is_square(9801));
    assert!(is_square(2_147_395_600));
    assert!(!is_square(2));
    assert!(!is_square(143));
    assert!(!is_square(145));
    assert!(!is_square(i32::MAX));
}

#[test]
fn is_square_is_false_of_negative_numbers() {
    assert!(!is_square(-1));
    assert!(!is_square(-4));
    assert!(!is_square(-144));
    assert!(!is_square(i32::MIN));
}

#[test]
fn is_square_agrees_with_the_floating_point_root() {
    let mut n: i32 = -50;
    while n < 120_000 {
        let root = (n as f64).sqrt() as i32;
        assert_eq!(is_square(n), root * root == n, "square test of {}", n);
        n += 1;
    }
}

#[test]
fn is_cube_knows_the_small_cubes() {
    assert!(is_cube(0));
    assert!(is_cube(1));
    assert!(is_cube(8));
    assert!(is_cube(27));
    assert!(is_cube(1000));
    assert!(is_cube(2_146_689_000));
    assert!(!is_cube(2));
    assert!(!is_cube(9));
    assert!(!is_cube(144));
    assert!(!is_cube(i32::MAX));
}

#[test]
fn is_cube_counts_negative_cubes() {
    assert!(is_cube(-1));
    assert!(is_cube(-8));
    assert!(is_cube(-1000));
    assert!(is_cube(-2_146_689_000));
    assert!(!is_cube(-9));
    assert!(!is_cube(i32::MIN));
}

#[test]
fn is_cube_agrees_with_the_floating_point_root() {
    let mut n: i32 = -60_000;
    while n < 60_000 {
        let root = (n as f64).cbrt().round() as i32;
        assert_eq!(is_cube(n), root * root * root == n, "cube test of {}", n);
        n += 1;
    }
}
