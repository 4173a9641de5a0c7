use ratingupdate::rating::{decay_deviation, rate, Chance, Skill, DEFAULT_DEVIATION, DEFAULT_VALUE};

fn skill(value: i64, deviation: i64) -> Skill {
    Skill { value, deviation }
}

#[test]
fn rate_is_symmetric_under_side_swap() {
    let a = skill(1_500_000, 200_000);
    let b = skill(1_600_000, 150_000);
    let forward = rate(a, b, true);
    let swapped = rate(b, a, false);
    assert_eq!(forward.new_a, swapped.new_b);
    assert_eq!(forward.new_b, swapped.new_a);
    assert_eq!(swapped.chance_a.den, forward.chance_a.den);
    assert_eq!(swapped.chance_a.num, forward.chance_a.den - forward.chance_a.num);
}

#[test]
fn rate_never_increases_deviation() {
    let a = skill(1_500_000, 200_000);
    let b = skill(1_600_000, 150_000);
    for a_wins in [true, false] {
        let r = rate(a, b, a_wins);
        assert!(r.new_a.deviation <= a.deviation);
        assert!(r.new_b.deviation <= b.deviation);
        assert!(r.new_a.deviation > 0);
        assert!(r.new_b.deviation > 0);
    }
}

#[test]
fn equal_ratings_give_even_chance_and_exact_update() {
    let a = Skill::default_skill();
    let b = Skill::default_skill();
    let r = rate(a, b, true);
    // spread = 400_000 + 2 * 250_000; chance = 900_000 / 1_800_000
    assert_eq!(r.chance_a, Chance { num: 900_000, den: 1_800_000 });
    assert_eq!(r.chance_a.ppm(), 500_000);
    // shift = 250_000 * 900_000 / (4 * 1_800_000)
    assert_eq!(r.new_a.value, DEFAULT_VALUE + 31_250);
    assert_eq!(r.new_b.value, DEFAULT_VALUE - 31_250);
    // reduction = 250_000^2 / (4 * 900_000)
    assert_eq!(r.new_a.deviation, DEFAULT_DEVIATION - 17_361);
    assert_eq!(r.new_b.deviation, DEFAULT_DEVIATION - 17_361);
}

#[test]
fn win_chance_rises_with_mean_difference() {
    let b = skill(1_500_000, 100_000);
    let low = rate(skill(1_400_000, 100_000), b, true).chance_a;
    let mid = rate(skill(1_500_000, 100_000), b, true).chance_a;
    let high = rate(skill(1_700_000, 100_000), b, true).chance_a;
    assert!((low.num as i128) * (mid.den as i128) < (mid.num as i128) * (low.den as i128));
    assert!((mid.num as i128) * (high.den as i128) < (high.num as i128) * (mid.den as i128));
    for c in [low, mid, high] {
        assert!(0 < c.num && c.num < c.den);
    }
}

#[test]
fn upset_moves_the_mean_further() {
    let low = skill(1_400_000, 100_000);
    let high = skill(1_600_000, 100_000);
    let upset = rate(low, high, true);
    let expected = rate(low, high, false);
    let upset_shift = upset.new_a.value - low.value;
    let expected_shift = expected.new_b.value - high.value;
    assert!(upset_shift > expected_shift);
    assert!(expected_shift > 0);
}

#[test]
fn upset_is_strict_with_small_deviations() {
    let low = skill(1_500_000, 4);
    let high = skill(1_600_000, 4);
    let low_wins = rate(low, high, true);
    let high_wins = rate(low, high, false);
    let low_up = low_wins.new_a.value - low.value;
    let high_up = high_wins.new_b.value - high.value;
    assert!(low_up > high_up);
    assert!(low.value - high_wins.new_a.value < low_up);
    assert!(high.value - low_wins.new_b.value > high_up);
    assert_eq!(low_up, 1);
    assert_eq!(high_up, 0);
}

#[test]
fn decay_widens_by_rate_and_step() {
    assert_eq!(decay_deviation(100_000), 100_310);
    assert_eq!(decay_deviation(1), 11);
    assert_eq!(decay_deviation(249_999), 249_999 + 749 + 10);
}
