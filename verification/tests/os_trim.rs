use petal_browser::memory::os_trim::{
    rss_action, OsTrimmer, TrimAction, TrimPlan, EMERGENCY_RSS_CEILING_MB, MEASURE_COOLDOWN_MS,
    TRIM_COOLDOWN_MS,
};

#[test]
fn first_cycle_measures_and_trims() {
    let mut t = OsTrimmer::new();
    assert_eq!(t.begin_cycle(1_000), TrimPlan { measure: true, trim: true });
}

#[test]
fn cooldowns_space_out_steps() {
    let mut t = OsTrimmer::new();
    t.begin_cycle(0);
    assert_eq!(t.begin_cycle(4_999), TrimPlan { measure: false, trim: false });
    assert_eq!(t.begin_cycle(5_000), TrimPlan { measure: true, trim: false });
    assert_eq!(t.begin_cycle(9_999), TrimPlan { measure: false, trim: false });
    assert_eq!(t.begin_cycle(44_999), TrimPlan { measure: true, trim: false });
    assert_eq!(t.begin_cycle(45_000), TrimPlan { measure: false, trim: true });
    assert_eq!(t.begin_cycle(90_000), TrimPlan { measure: true, trim: true });
}

#[test]
fn clock_going_back_counts_as_no_time() {
    let mut t = OsTrimmer::new();
    t.begin_cycle(100_000);
    assert_eq!(t.begin_cycle(10), TrimPlan { measure: false, trim: false });
}

#[test]
fn cooldown_constants() {
    assert_eq!(MEASURE_COOLDOWN_MS, 5_000);
    assert_eq!(TRIM_COOLDOWN_MS, 45_000);
    assert_eq!(EMERGENCY_RSS_CEILING_MB, 500);
}

#[test]
fn rss_above_ceiling_asks_for_reload() {
    assert_eq!(rss_action(0), TrimAction::NoAction);
    assert_eq!(rss_action(500 * 1024 * 1024), TrimAction::NoAction);
    assert_eq!(rss_action(500 * 1024 * 1024 + 1), TrimAction::EmergencyCrash);
}
