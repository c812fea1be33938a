use bf_evolve::rand::Wyhash64RNG;

#[test]
pub fn rand_test() {
    let attempts = 10;

    for seed in 1..attempts {
        let mut rng = Wyhash64RNG::new_fixed(seed);
        let iterations = 10000000;
        let mut sum = 0;
        let max = 1000;
        let err = 1.;

        for _ in 1..iterations {
            sum += 1 + rng.gen() % max;
        }

        let avg = (sum as f64) / (iterations as f64);
        let mexp = (max as f64) / 2.;

        assert!((avg - mexp).abs() < err);
    }
}

#[test]
pub fn rand_test_range() {
    let attempts = 10;

    for seed in 1..attempts {
        let mut rng = Wyhash64RNG::new_fixed(seed);
        let iterations = 10000000;
        let mut sum = 0;
        let min = 500;
        let max = 1500;
        let err = 1.;

        for _ in 1..iterations {
            sum += rng.gen_in_range(min, max)
        }

        let avg = (sum as f64) / (iterations as f64);
        let mexp = ((max as f64) + (min as f64)) / 2.;

        assert!((avg - mexp).abs() < err);
    }
}

#[test]
fn gen_known_values() {
    // the exact first draws of the generator for a fixed seed
    let mut rng = Wyhash64RNG::new_fixed(1);
    assert_eq!(rng.gen(), 963824419065665235);
    assert_eq!(rng.gen(), 4034768012662931624);
    assert_eq!(rng.gen(), 9562599283931438968);
    assert_eq!(rng.gen(), 2805409020211734813);
    assert_eq!(rng.gen(), 14424621842686933051);
    let mut other = Wyhash64RNG::new_fixed(42);
    assert_eq!(other.gen(), 11671763292633819986);
}

#[test]
fn gen_in_range_is_reduction_of_gen() {
    // the ranged draw is exactly min + raw % width for the same state
    let mut a = Wyhash64RNG::new_fixed(7);
    let mut b = Wyhash64RNG::new_fixed(7);
    for _ in 0..100 {
        let raw = a.gen();
        let ranged = b.gen_in_range(10, 19);
        assert_eq!(ranged, 10 + raw % 10);
    }
}

#[test]
fn gen_percent_known_values() {
    let mut rng = Wyhash64RNG::new_fixed(7);
    let first: Vec<u64> = (0..5).map(|_| rng.gen_percent()).collect();
    assert_eq!(first, vec![3, 17, 99, 42, 89]);
}

#[test]
fn gen_in_size_stays_below_bound() {
    let mut rng = Wyhash64RNG::new_fixed(99);
    for _ in 0..1000 {
        assert!(rng.gen_in_size(7) < 7);
    }
}

#[test]
fn same_seed_same_stream() {
    let mut a = Wyhash64RNG::new_fixed(123456789);
    let mut b = Wyhash64RNG::new_fixed(123456789);
    for _ in 0..1000 {
        assert_eq!(a.gen(), b.gen());
    }
}
