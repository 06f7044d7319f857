use snake_game::speed::{on_growth, INITIAL_INTERVAL_MS, SPEED_FLOOR_MS, SPEED_STEP_MS};

#[test]
fn standard_speeds() {
    assert_eq!(INITIAL_INTERVAL_MS, 500);
    assert_eq!(SPEED_STEP_MS, 100);
    assert_eq!(SPEED_FLOOR_MS, 100);
}

#[test]
fn on_growth_takes_one_step_off() {
    assert_eq!(on_growth(500, 100, 100), 400);
    assert_eq!(on_growth(400, 100, 100), 300);
    assert_eq!(on_growth(300, 100, 100), 200);
    assert_eq!(on_growth(200, 100, 100), 100);
}

#[test]
fn on_growth_stops_at_the_floor() {
    assert_eq!(on_growth(100, 100, 100), 100);
    assert_eq!(on_growth(150, 100, 100), 100);
    assert_eq!(on_growth(250, 100, 200), 200);
    assert_eq!(on_growth(300, 100, 200), 200);
    assert_eq!(on_growth(301, 100, 200), 201);
}

#[test]
fn on_growth_never_goes_below_zero() {
    assert_eq!(on_growth(50, 100, 0), 0);
    assert_eq!(on_growth(0, 100, 0), 0);
    assert_eq!(on_growth(100, 100, 0), 0);
    assert_eq!(on_growth(u32::MAX, u32::MAX, 0), 0);
}

#[test]
fn on_growth_with_no_step_keeps_the_interval() {
    assert_eq!(on_growth(500, 0, 100), 500);
}

#[test]
fn on_growth_returns_the_floor_from_below_it() {
    assert_eq!(on_growth(50, 100, 100), 100);
    assert_eq!(on_growth(150, 10, 200), 200);
}

#[test]
fn repeated_growth_only_shrinks_the_interval_down_to_the_floor() {
    let mut interval = INITIAL_INTERVAL_MS;
    let mut seen = vec![interval];
    for _ in 0..8 {
        let next = on_growth(interval, SPEED_STEP_MS, SPEED_FLOOR_MS);
        assert!(next <= interval);
        assert!(next >= SPEED_FLOOR_MS);
        interval = next;
        seen.push(interval);
    }
    assert_eq!(seen, vec![500, 400, 300, 200, 100, 100, 100, 100, 100]);
}
