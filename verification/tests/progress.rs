use fractal_tiles::progress::hours_minutes_seconds;
use fractal_tiles::progress::progress_bar;
use fractal_tiles::progress::BAR_CELLS;

fn bar_with(filled: usize) -> String {
    format!("[{}{}]", "=".repeat(filled), " ".repeat(50 - filled))
}

#[test]
fn progress_bar_fills_one_cell_per_two_percent() {
    assert_eq!(BAR_CELLS, 50);
    assert_eq!(progress_bar(0), bar_with(0));
    assert_eq!(progress_bar(1), bar_with(0));
    assert_eq!(progress_bar(2), bar_with(1));
    assert_eq!(progress_bar(33), bar_with(16));
    assert_eq!(progress_bar(99), bar_with(49));
    assert_eq!(progress_bar(100), bar_with(50));
}

#[test]
fn progress_bar_above_hundred_is_full() {
    assert_eq!(progress_bar(101), bar_with(50));
    assert_eq!(progress_bar(u32::MAX), bar_with(50));
    assert_eq!(progress_bar(250).chars().count(), 52);
}

#[test]
fn duration_is_split() {
    assert_eq!(hours_minutes_seconds(0), (0, 0, 0));
    assert_eq!(hours_minutes_seconds(59), (0, 0, 59));
    assert_eq!(hours_minutes_seconds(60), (0, 1, 0));
    assert_eq!(hours_minutes_seconds(3725), (1, 2, 5));
    assert_eq!(hours_minutes_seconds(86399), (23, 59, 59));
    let (h, m, s) = hours_minutes_seconds(u64::MAX);
    assert_eq!(h as u128 * 3600 + m as u128 * 60 + s as u128, u64::MAX as u128);
}
