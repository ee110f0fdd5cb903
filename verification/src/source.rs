use chrono::{Days, NaiveDate};
use vstd::prelude::*;
use vstd::string::StringExecFns;

verus! {

#[verifier::external_type_specification]
#[verifier::external_body]
pub struct ExNaiveDate(NaiveDate);

/// What the address of a day's topics begins with.
pub const TOPICS_URL_START: &'static str = "https://medlineplus.gov/xml/mplus_topics_";

/// What the address of a day's topics ends with.
pub const TOPICS_URL_END: &'static str = ".xml";

/// The address that is taken where the topics of no day are found.
pub const FALLBACK_URL: &'static str = "https://medlineplus.gov/xml/mplus_topics_2026-02-25.xml";

/// How many days are tried, from today backwards.
pub const PROBE_DAYS: u64 = 7;

/// The address of the topics of the day that `day` names.
pub open spec fn topics_url_of(day: Seq<char>) -> Seq<char> {
    TOPICS_URL_START@ + day + TOPICS_URL_END@
}

/// `NaiveDate::checked_sub_days`: the date `days` days before `date`, if there is one.
/// Nothing is claimed of the result.
#[verifier::external_body]
fn days_before(date: &NaiveDate, days: u64) -> Option<NaiveDate> {
    date.checked_sub_days(Days::new(days))
}

/// `NaiveDate::format` with year, month and day, each in digits and with hyphens between
/// them. Nothing is claimed of the result.
#[verifier::external_body]
fn day_text(date: &NaiveDate) -> String {
    date.format("%Y-%m-%d").to_string()
}

/// The address of the topics of the day that `day` names.
pub fn topics_url(day: &str) -> (url: String)
    ensures
        url@ == topics_url_of(day@),
{
    let mut url = String::from_str(TOPICS_URL_START);
    url.append(day);
    url.append(TOPICS_URL_END);
    url
}

/// What to do next in the search for the latest topics.
#[derive(Debug, Clone)]
pub enum Probe {
    /// Ask whether this address answers; take it if it does.
    Ask(String),
    /// Take this address without asking.
    Settle(String),
}

/// What a `Probe` says.
pub enum ProbeView {
    Ask(Seq<char>),
    Settle(Seq<char>),
}

impl View for Probe {
    type V = ProbeView;

    open spec fn view(&self) -> ProbeView {
        match self {
            Probe::Ask(url) => ProbeView::Ask(url@),
            Probe::Settle(url) => ProbeView::Settle(url@),
        }
    }
}

/// What to do after `failed` days gave no answer, where `day` names the next day back or the
/// calendar does not reach that far: ask for the topics of that day while fewer than
/// `PROBE_DAYS` were tried, and settle for `FALLBACK_URL` after that or without a day.
pub open spec fn probe_of(failed: int, day: Option<Seq<char>>) -> ProbeView {
    match day {
        Some(text) => if failed < PROBE_DAYS {
            ProbeView::Ask(topics_url_of(text))
        } else {
            ProbeView::Settle(FALLBACK_URL@)
        },
        None => ProbeView::Settle(FALLBACK_URL@),
    }
}

/// Says what to do after `failed` days gave no answer, where `day` names the next day back.
pub fn plan_probe(failed: u64, day: Option<&str>) -> (r: Probe)
    ensures
        r@ == probe_of(
            failed as int,
            match day {
                Some(text) => Some(text@),
                None => None,
            },
        ),
{
    match day {
        Some(text) => {
            if failed < PROBE_DAYS {
                Probe::Ask(topics_url(text))
            } else {
                Probe::Settle(String::from_str(FALLBACK_URL))
            }
        },
        None => Probe::Settle(String::from_str(FALLBACK_URL)),
    }
}

/// Says what to do next after `failed` days, from `today` backwards, gave no answer. The
/// calendar says which day is next and how it is written.
pub fn next_probe(today: &NaiveDate, failed: u64) -> (r: Probe)
    ensures
        exists|day: Option<Seq<char>>| r@ == probe_of(failed as int, day),
        failed >= PROBE_DAYS ==> r@ == ProbeView::Settle(FALLBACK_URL@),
{
    match days_before(today, failed) {
        Some(date) => {
            let day = day_text(&date);
            let r = plan_probe(failed, Some(day.as_str()));
            assert(r@ == probe_of(failed as int, Some(day@)));
            r
        },
        None => {
            let r = plan_probe(failed, None);
            assert(r@ == probe_of(failed as int, None));
            r
        },
    }
}

} // verus!
