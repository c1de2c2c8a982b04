use wheel_of_fortune::wheel::{is_on_wheel, spin_wheel, wheel};

#[test]
fn wheel_has_its_eighteen_panels() {
    assert_eq!(
        wheel(),
        [2500, 600, 700, 600, 650, 500, 700, 600, 550, 500, 600, 650, 700, 800, 500, 650, 500, 900]
    );
}

#[test]
fn values_on_the_wheel_are_recognised() {
    for value in [500, 550, 600, 650, 700, 800, 900, 2500] {
        assert!(is_on_wheel(value));
    }
    for value in [0, -500, 1, 499, 501, 1000, 2499, 2501, i32::MAX, i32::MIN] {
        assert!(!is_on_wheel(value));
    }
}

#[test]
fn spin_lands_on_a_panel() {
    let mut seen = Vec::new();
    for _ in 0..500 {
        let value = spin_wheel();
        assert!(is_on_wheel(value));
        assert!(wheel().contains(&value));
        if !seen.contains(&value) {
            seen.push(value);
        }
    }
    assert!(seen.len() > 1);
}
