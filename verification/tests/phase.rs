use wavetable_synth::phase::advance;

#[test]
fn advance_adds_the_step_inside_the_period() {
    assert_eq!(advance(0, 0, 10), 0);
    assert_eq!(advance(3, 4, 10), 7);
    assert_eq!(advance(0, 9, 10), 9);
}

#[test]
fn advance_wraps_at_the_period() {
    assert_eq!(advance(3, 7, 10), 0);
    assert_eq!(advance(9, 9, 10), 8);
    assert_eq!(advance(3500, 1000, 4000), 500);
}

#[test]
fn advance_drops_whole_turns() {
    assert_eq!(advance(3, 10, 10), 3);
    assert_eq!(advance(3, 1000, 10), 3);
    assert_eq!(advance(3, 1004, 10), 7);
    assert_eq!(advance(3, -1000, 10), 3);
}

#[test]
fn advance_runs_backwards_on_a_negative_step() {
    assert_eq!(advance(3, -1, 10), 2);
    assert_eq!(advance(3, -3, 10), 0);
    assert_eq!(advance(3, -5, 4), 2);
    assert_eq!(advance(0, -1, 10), 9);
    assert_eq!(advance(0, -19, 10), 1);
}

#[test]
fn advance_takes_the_extremes() {
    let largest = i128::MAX as u128;
    assert_eq!(advance(largest - 1, i128::MAX, largest), largest - 1);
    assert_eq!(advance(largest - 1, 1, largest), 0);
    assert_eq!(advance(largest - 1, i128::MAX - 1, largest), largest - 2);
    assert_eq!(advance(0, i128::MIN, 7), 5);
    assert_eq!(advance(0, i128::MIN, largest), largest - 1);
    assert_eq!(advance(0, i128::MAX, 1), 0);
    assert_eq!(advance(0, i128::MIN, 1), 0);
}
