use auto_fuel_price::price::Price;
use auto_fuel_price::snapshot::{compute_changes, FuelEntry, PriceChange, PriceSnapshot};

fn price(baht: f64) -> Price {
    Price::from_bits(baht.to_bits()).unwrap()
}

fn baht(price: Price) -> f64 {
    f64::from_bits(price.to_bits())
}

fn entry(name: &str, yesterday: f64, today: f64, tomorrow: f64) -> FuelEntry {
    FuelEntry {
        name: name.to_string(),
        price_yesterday: price(yesterday),
        price_today: price(today),
        price_tomorrow: price(tomorrow),
    }
}

fn snapshot(entries: Vec<FuelEntry>) -> PriceSnapshot {
    PriceSnapshot {
        captured_at: "2026-06-21T18:00:00+07:00".to_string(),
        source_date: "21/06/2026".to_string(),
        effective_date: "19 มิถุนายน 2026".to_string(),
        effective_time: "05:00".to_string(),
        entries,
    }
}

#[test]
fn compute_changes_detects_decrease() {
    let snap = snapshot(vec![entry("Gasohol 95", 31.00, 30.50, 30.50)]);
    let changes = compute_changes(&snap);
    assert_eq!(changes.len(), 1);
    assert_eq!(changes[0].name, "Gasohol 95");
    assert!(!changes[0].is_increase());
    assert!((baht(changes[0].difference().unwrap()) - 0.50).abs() < f64::EPSILON);
}

#[test]
fn compute_changes_detects_increase() {
    let snap = snapshot(vec![entry("Diesel B20", 32.50, 33.00, 33.00)]);
    let changes = compute_changes(&snap);
    assert_eq!(changes.len(), 1);
    assert!(changes[0].is_increase());
}

#[test]
fn compute_changes_returns_empty_when_no_change() {
    let snap = snapshot(vec![entry("Diesel B20", 33.00, 33.00, 33.00)]);
    assert!(compute_changes(&snap).is_empty());
}

#[test]
fn compute_changes_ignores_subthreshold_noise() {
    let snap = snapshot(vec![entry("Diesel B20", 33.0001, 33.0005, 33.0005)]);
    assert!(compute_changes(&snap).is_empty());
}

#[test]
fn changes_keep_the_order_of_the_list() {
    let snap = snapshot(vec![
        entry("Gasohol E85", 28.00, 28.50, 28.50),
        entry("Diesel", 33.00, 33.00, 32.00),
        entry("Gasohol 95", 31.00, 30.50, 30.50),
        entry("Gasohol 91", 30.75, 30.25, 30.25),
    ]);
    let changes = compute_changes(&snap);
    let names: Vec<&str> = changes.iter().map(|c| c.name.as_str()).collect();
    assert_eq!(names, vec!["Gasohol E85", "Gasohol 95", "Gasohol 91"]);
    assert_eq!(baht(changes[0].old_price), 28.00);
    assert_eq!(baht(changes[0].new_price), 28.50);
    assert_eq!(baht(changes[2].old_price), 30.75);
    assert_eq!(baht(changes[2].new_price), 30.25);
}

#[test]
fn tomorrow_has_no_say() {
    let snap = snapshot(vec![entry("Diesel", 33.00, 33.00, 99.00)]);
    assert!(compute_changes(&snap).is_empty());
}

#[test]
fn nothing_listed_nothing_changed() {
    assert!(compute_changes(&snapshot(vec![])).is_empty());
}

#[test]
fn the_threshold_itself_is_no_change() {
    assert!(compute_changes(&snapshot(vec![entry("a", 0.0, 0.01, 0.0)])).is_empty());
    assert!(compute_changes(&snapshot(vec![entry("a", 0.01, 0.0, 0.0)])).is_empty());
    let above = f64::from_bits(0.01f64.to_bits() + 1);
    assert_eq!(compute_changes(&snapshot(vec![entry("a", 0.0, above, 0.0)])).len(), 1);
}

#[test]
fn one_satang_is_at_the_mercy_of_the_last_bit() {
    assert_eq!(compute_changes(&snapshot(vec![entry("a", 31.00, 31.01, 0.0)])).len(), 1);
    assert_eq!(compute_changes(&snapshot(vec![entry("a", 33.00, 33.01, 0.0)])).len(), 0);
}

#[test]
fn quotes_two_satang_apart_have_moved_and_equal_ones_have_not() {
    for satang in 0..6000i32 {
        let here = satang as f64 / 100.0;
        let there = (satang + 2) as f64 / 100.0;
        let noisy = here + 0.0004;
        assert_eq!(compute_changes(&snapshot(vec![entry("a", here, there, 0.0)])).len(), 1);
        assert_eq!(compute_changes(&snapshot(vec![entry("a", there, here, 0.0)])).len(), 1);
        assert_eq!(compute_changes(&snapshot(vec![entry("a", here, noisy, 0.0)])).len(), 0);
    }
}

#[test]
fn moves_agree_with_machine_arithmetic() {
    for satang in 0..12_000i32 {
        for step in 0..4i32 {
            let old = satang as f64 / 100.0;
            let new = (satang + step) as f64 / 100.0;
            let moved = (new - old).abs() > 0.01;
            let found = compute_changes(&snapshot(vec![entry("a", old, new, 0.0)]));
            assert_eq!(found.len() == 1, moved, "{} {}", old, new);
        }
    }
}

#[test]
fn a_move_beyond_range_is_a_change_without_a_difference() {
    let snap = snapshot(vec![entry("a", -1e308, 1e308, 0.0)]);
    let changes = compute_changes(&snap);
    assert_eq!(changes.len(), 1);
    assert!(changes[0].is_increase());
    assert!(changes[0].difference().is_none());
}

#[test]
fn the_zeros_are_equal() {
    let change = PriceChange {
        name: "a".to_string(),
        old_price: price(-0.0),
        new_price: price(0.0),
    };
    assert!(!change.is_increase());
    assert_eq!(change.difference().unwrap().to_bits(), 0.0f64.to_bits());
}
