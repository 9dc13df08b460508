use lunisolar::phase::{Date, Phase, PhaseCalendar};

fn date(year: i32, month: u8, day: u8) -> Date {
    Date { year, month, day }
}

/// A calendar with 2020-01-02 and 2020-01-10 as consecutive primary-phase
/// entries, the first of them a last-quarter moon.
fn small_calendar() -> PhaseCalendar {
    PhaseCalendar::new(vec![date(2020, 1, 2), date(2020, 1, 10)], Phase::LastQuarter).unwrap()
}

#[test]
fn day_before_first_entry_is_one_step_early() {
    let cal = small_calendar();
    assert_eq!(cal.resolve_phase(date(2020, 1, 1)), Phase::WaningGibbous);
}

#[test]
fn first_entry_day_is_its_exact_phase() {
    let cal = small_calendar();
    assert_eq!(cal.resolve_phase(date(2020, 1, 2)), Phase::LastQuarter);
}

#[test]
fn day_before_second_entry_is_one_step_early() {
    let cal = small_calendar();
    assert_eq!(cal.resolve_phase(date(2020, 1, 9)), Phase::WaningCrescent);
}

#[test]
fn second_entry_day_is_two_steps_ahead_of_first() {
    let cal = small_calendar();
    let first = cal.resolve_phase(date(2020, 1, 2));
    let second = cal.resolve_phase(date(2020, 1, 10));
    assert_eq!(second, Phase::NewMoon);
    assert_eq!(
        (Phase::LastQuarter.cycle_index() + 2) % 8,
        second.cycle_index()
    );
    assert_eq!((first.cycle_index() + 2) % 8, second.cycle_index());
}

#[test]
fn resolving_twice_gives_the_same_symbol() {
    let cal = small_calendar();
    for day in 1..=31 {
        let d = date(2020, 1, day);
        assert_eq!(cal.resolve_phase(d), cal.resolve_phase(d));
    }
}

#[test]
fn days_between_entries_share_the_interval_symbol() {
    let cal = small_calendar();
    for day in 3..=9 {
        assert_eq!(cal.resolve_phase(date(2020, 1, day)), Phase::WaningCrescent);
    }
}

#[test]
fn symbols_are_distinct_and_ascend_in_cycle_order() {
    let mut seen = Vec::new();
    for i in 0..8u8 {
        let c = Phase::from_cycle_index(i).as_emoji();
        assert!(!seen.contains(&c));
        if let Some(prev) = seen.last() {
            assert!((*prev as u32) < (c as u32));
        }
        seen.push(c);
    }
    assert_eq!(seen.len(), 8);
}

#[test]
fn emoji_glyphs_match_their_phases() {
    assert_eq!(Phase::NewMoon.as_emoji(), '\u{1f311}');
    assert_eq!(Phase::FullMoon.as_emoji(), '\u{1f315}');
    assert_eq!(Phase::LastQuarter.as_emoji(), '\u{1f317}');
    assert_eq!(Phase::WaningCrescent.as_emoji(), '\u{1f318}');
}

#[test]
fn cycle_index_round_trips() {
    for i in 0..8u8 {
        assert_eq!(Phase::from_cycle_index(i).cycle_index(), i);
    }
}

#[test]
fn unsorted_entries_are_rejected() {
    assert!(PhaseCalendar::new(
        vec![date(2020, 1, 10), date(2020, 1, 2)],
        Phase::NewMoon
    )
    .is_none());
}

#[test]
fn duplicate_entries_are_rejected() {
    assert!(PhaseCalendar::new(
        vec![date(2020, 1, 2), date(2020, 1, 2)],
        Phase::NewMoon
    )
    .is_none());
}

#[test]
fn ascending_entries_are_accepted() {
    let cal = PhaseCalendar::new(
        vec![
            date(2019, 12, 26),
            date(2020, 1, 2),
            date(2020, 1, 10),
            date(2020, 1, 17),
        ],
        Phase::NewMoon,
    );
    assert!(cal.is_some());
    assert_eq!(cal.unwrap().len(), 4);
}

#[test]
fn date_order_is_lexicographic() {
    let a = date(2019, 12, 31);
    let b = date(2020, 1, 1);
    let c = date(2020, 1, 2);
    let d = date(2020, 2, 1);
    assert!(a.before(&b));
    assert!(b.before(&c));
    assert!(c.before(&d));
    assert!(!d.before(&a));
    assert!(!b.before(&b));
}

#[test]
fn empty_calendar_still_resolves() {
    let cal = PhaseCalendar::new(Vec::new(), Phase::NewMoon).unwrap();
    // no entry is before the date, so the position is start + 7
    assert_eq!(cal.resolve_phase(date(2020, 6, 15)), Phase::WaningCrescent);
}

#[test]
fn longer_calendar_walks_the_cycle() {
    // four consecutive primary phases, two symbol steps apart
    let cal = PhaseCalendar::new(
        vec![
            date(2020, 1, 2),
            date(2020, 1, 10),
            date(2020, 1, 17),
            date(2020, 1, 24),
        ],
        Phase::LastQuarter,
    )
    .unwrap();
    assert_eq!(cal.resolve_phase(date(2020, 1, 10)), Phase::NewMoon);
    assert_eq!(cal.resolve_phase(date(2020, 1, 17)), Phase::FirstQuarter);
    assert_eq!(cal.resolve_phase(date(2020, 1, 24)), Phase::FullMoon);
    assert_eq!(cal.resolve_phase(date(2020, 1, 20)), Phase::WaxingGibbous);
    assert_eq!(cal.resolve_phase(date(2020, 1, 30)), Phase::WaningGibbous);
}
