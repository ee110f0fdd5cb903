use chrono::NaiveDate;
use take_ur_meds::source::{next_probe, plan_probe, topics_url, Probe, FALLBACK_URL, PROBE_DAYS};

fn asked(probe: Probe) -> Option<String> {
    match probe {
        Probe::Ask(url) => Some(url),
        Probe::Settle(_) => None,
    }
}

fn settled(probe: Probe) -> Option<String> {
    match probe {
        Probe::Ask(_) => None,
        Probe::Settle(url) => Some(url),
    }
}

#[test]
fn address_holds_the_day() {
    assert_eq!(topics_url("2026-02-25"), "https://medlineplus.gov/xml/mplus_topics_2026-02-25.xml");
    assert_eq!(topics_url(""), "https://medlineplus.gov/xml/mplus_topics_.xml");
    assert_eq!(topics_url("2026-02-25"), FALLBACK_URL);
}

#[test]
fn seven_days_are_asked_for() {
    let today = NaiveDate::from_ymd_opt(2024, 3, 2).unwrap();
    let days = ["2024-03-02", "2024-03-01", "2024-02-29", "2024-02-28", "2024-02-27", "2024-02-26", "2024-02-25"];
    assert_eq!(PROBE_DAYS, 7);
    for (failed, day) in days.iter().enumerate() {
        assert_eq!(
            asked(next_probe(&today, failed as u64)),
            Some(format!("https://medlineplus.gov/xml/mplus_topics_{}.xml", day))
        );
    }
    assert_eq!(settled(next_probe(&today, 7)), Some(FALLBACK_URL.to_string()));
    assert_eq!(settled(next_probe(&today, 8)), Some(FALLBACK_URL.to_string()));
    assert_eq!(settled(next_probe(&today, u64::MAX)), Some(FALLBACK_URL.to_string()));
}

#[test]
fn the_first_day_of_the_calendar_has_no_day_before() {
    assert_eq!(settled(next_probe(&NaiveDate::MIN, 1)), Some(FALLBACK_URL.to_string()));
    assert!(asked(next_probe(&NaiveDate::MIN, 0)).is_some());
}

#[test]
fn probe_is_planned_from_the_day() {
    assert_eq!(asked(plan_probe(0, Some("d"))), Some(topics_url("d")));
    assert_eq!(asked(plan_probe(6, Some("d"))), Some(topics_url("d")));
    assert_eq!(settled(plan_probe(7, Some("d"))), Some(FALLBACK_URL.to_string()));
    assert_eq!(settled(plan_probe(0, None)), Some(FALLBACK_URL.to_string()));
}
