//! Snapshots of absolute counts: what the collector asks for, and what one
//! collection run brings back.

use crate::rolling::MS_PER_DAY;
use crate::text::{
    decimal_text, parse_i64, parsed_i64, strip_colons, without_colons, write_decimal,
};
use vstd::prelude::*;
use vstd::string::StringExecFns;

pub mod process;

verus! {

/// The most days that one collection run may look back.
pub const MAX_DAYS: i64 = 30;

/// The fewest days that one collection run may look back.
pub const MIN_DAYS: i64 = 1;

/// Why a number of days is refused.
#[derive(Debug, Clone, Copy, PartialEq, Eq, Structural)]
pub enum DaysError {
    /// The text is no whole number.
    NotANumber,
    /// The number is above `MAX_DAYS`.
    TooMany,
    /// The number is below `MIN_DAYS`.
    TooFew,
}

/// Whether a number of days is within the limits, and if not, on which side.
pub fn check_days(days: i64) -> (outcome: Result<i64, DaysError>)
    ensures
        outcome == (if days > MAX_DAYS {
            Err::<i64, DaysError>(DaysError::TooMany)
        } else if days < MIN_DAYS {
            Err::<i64, DaysError>(DaysError::TooFew)
        } else {
            Ok::<i64, DaysError>(days)
        }),
{
    if days > MAX_DAYS {
        return Err(DaysError::TooMany);
    }
    if days < MIN_DAYS {
        return Err(DaysError::TooFew);
    }
    Ok(days)
}

/// The number of days that `src` writes, if it is a whole number from
/// `MIN_DAYS` to `MAX_DAYS`.
pub fn parse_days(src: &str) -> (outcome: Result<i64, DaysError>)
    ensures
        outcome == (match parsed_i64(src@) {
            None => Err::<i64, DaysError>(DaysError::NotANumber),
            Some(days) => if days > MAX_DAYS {
                Err::<i64, DaysError>(DaysError::TooMany)
            } else if days < MIN_DAYS {
                Err::<i64, DaysError>(DaysError::TooFew)
            } else {
                Ok::<i64, DaysError>(days)
            },
        }),
{
    match parse_i64(src) {
        None => Err(DaysError::NotANumber),
        Some(days) => check_days(days),
    }
}

/// What the collector can ask the source for.
#[derive(Debug, Clone, Copy, PartialEq, Eq, Structural)]
pub enum Metric {
    Pageviews,
    Visitors,
    Pages,
    Bandwidth,
    NotFound,
    Sources,
}

impl Metric {
    /// The name of the metric in the source's addresses.
    pub open spec fn spec_name(self) -> Seq<char> {
        match self {
            Metric::Pageviews => "pageviews"@,
            Metric::Visitors => "visitors"@,
            Metric::Pages => "pages"@,
            Metric::Bandwidth => "bandwidth"@,
            Metric::NotFound => "not_found"@,
            Metric::Sources => "sources"@,
        }
    }

    /// The name of the metric in the source's addresses.
    pub fn name(self) -> (name: &'static str)
        ensures
            name@ == self.spec_name(),
    {
        match self {
            Metric::Pageviews => "pageviews",
            Metric::Visitors => "visitors",
            Metric::Pages => "pages",
            Metric::Bandwidth => "bandwidth",
            Metric::NotFound => "not_found",
            Metric::Sources => "sources",
        }
    }
}

/// The span of time that one collection run asks for, in milliseconds since the
/// Unix epoch, and the offset of the local time zone without its colon.
#[derive(Debug, Clone, PartialEq, Eq)]
pub struct MetricRange {
    pub start: i64,
    pub end: i64,
    pub timezone: String,
}

impl MetricRange {
    /// The range that ends with today and starts `days` days before today's
    /// first millisecond. `today_start` and `today_end` are the first and the
    /// last millisecond of today in local time, `offset` the offset of the
    /// local time zone, such as `+02:00`. There is no range where its start is
    /// beyond `i64`.
    pub fn new(days: i64, today_start: i64, today_end: i64, offset: &str) -> (range: Option<
        MetricRange,
    >)
        ensures
            match range {
                Some(r) => {
                    &&& r.start == today_start - days * MS_PER_DAY
                    &&& r.end == today_end
                    &&& r.timezone@ == without_colons(offset@)
                },
                None => !(i64::MIN <= today_start - days * MS_PER_DAY <= i64::MAX),
            },
    {
        assert(-0x8000_0000_0000_0000 * 86_400_000 <= days * 86_400_000
            <= 0x8000_0000_0000_0000 * 86_400_000) by (nonlinear_arith)
            requires
                -0x8000_0000_0000_0000 <= days <= 0x8000_0000_0000_0000,
        ;
        let span: i128 = (days as i128) * (MS_PER_DAY as i128);
        let wide: i128 = today_start as i128 - span;
        if wide < i64::MIN as i128 || wide > i64::MAX as i128 {
            return None;
        }
        let start = wide as i64;
        Some(MetricRange { start, end: today_end, timezone: strip_colons(offset) })
    }
}

/// The address of one metric of one site over a range, as plain text.
pub open spec fn metrics_url(site_id: Seq<char>, range: MetricRange, metric: Metric) -> Seq<char> {
    "https://analytics.services.netlify.com/v2/"@ + site_id + "/"@ + metric.spec_name()
        + "?from="@ + decimal_text(range.start as int) + "&to="@ + decimal_text(range.end as int)
        + "&timezone="@ + range.timezone@ + "&resolution=day"@
}

/// The address to ask for `metric` of the site `site_id` over `range`, day by day.
pub fn get_metrics_url_for(site_id: &str, range: &MetricRange, metric: Metric) -> (url: String)
    ensures
        url@ == metrics_url(site_id@, *range, metric),
{
    let mut url = String::from_str("https://analytics.services.netlify.com/v2/");
    url.append(site_id);
    url.append("/");
    url.append(metric.name());
    url.append("?from=");
    url.append(write_decimal(range.start).as_str());
    url.append("&to=");
    url.append(write_decimal(range.end).as_str());
    url.append("&timezone=");
    url.append(range.timezone.as_str());
    url.append("&resolution=day");
    url
}

/// A metric that comes as one value for each day.
#[derive(Debug, Clone, PartialEq, Eq)]
pub struct TupleResult {
    pub data: Vec<(u64, u64)>,
}

/// One path with its count.
#[derive(Debug, Clone, PartialEq, Eq)]
pub struct PathItemResult {
    pub path: String,
    pub count: u64,
}

/// A metric that comes as one count for each path.
#[derive(Debug, Clone, PartialEq, Eq)]
pub struct PathResult {
    pub data: Vec<PathItemResult>,
}

/// The bandwidth of one span of time.
#[derive(Debug, Clone, Copy, PartialEq, Eq, Structural)]
pub struct BandwidthDataItemResult {
    pub start: u64,
    pub end: u64,
    pub site_bandwidth: u64,
    pub account_bandwidth: u64,
}

/// The bandwidth metric.
#[derive(Debug, Clone, PartialEq, Eq)]
pub struct BandwidthResult {
    pub data: Vec<BandwidthDataItemResult>,
}

/// What one collection run brought back: a section for each metric that could
/// be fetched and read.
#[derive(Debug, Clone, PartialEq, Eq)]
pub struct MetricsResult {
    pub pageviews: Option<TupleResult>,
    pub visitors: Option<TupleResult>,
    pub pages: Option<PathResult>,
    pub bandwidth: Option<BandwidthResult>,
    pub not_found: Option<PathResult>,
    pub sources: Option<PathResult>,
}

/// What the source answered for one metric, once it is read.
#[derive(Debug, Clone, PartialEq, Eq)]
pub enum Payload {
    Tuples(TupleResult),
    Paths(PathResult),
    Bandwidth(BandwidthResult),
}

impl MetricsResult {
    /// A result without any section.
    pub fn new() -> (result: MetricsResult)
        ensures
            result.pageviews is None,
            result.visitors is None,
            result.pages is None,
            result.bandwidth is None,
            result.not_found is None,
            result.sources is None,
    {
        MetricsResult {
            pageviews: None,
            visitors: None,
            pages: None,
            bandwidth: None,
            not_found: None,
            sources: None,
        }
    }

    /// Sets the section of `metric` to what the source answered. The section is
    /// left empty where there is no answer or the answer has the shape of
    /// another metric. No other section changes.
    pub fn update(&mut self, metric: Metric, payload: Option<Payload>)
        ensures
            final(self).pageviews == (if metric == Metric::Pageviews {
                tuples_of(payload)
            } else {
                old(self).pageviews
            }),
            final(self).visitors == (if metric == Metric::Visitors {
                tuples_of(payload)
            } else {
                old(self).visitors
            }),
            final(self).pages == (if metric == Metric::Pages {
                paths_of(payload)
            } else {
                old(self).pages
            }),
            final(self).bandwidth == (if metric == Metric::Bandwidth {
                bandwidth_of(payload)
            } else {
                old(self).bandwidth
            }),
            final(self).not_found == (if metric == Metric::NotFound {
                paths_of(payload)
            } else {
                old(self).not_found
            }),
            final(self).sources == (if metric == Metric::Sources {
                paths_of(payload)
            } else {
                old(self).sources
            }),
    {
        match metric {
            Metric::Pageviews => {
                self.pageviews = take_tuples(payload);
            },
            Metric::Visitors => {
                self.visitors = take_tuples(payload);
            },
            Metric::Pages => {
                self.pages = take_paths(payload);
            },
            Metric::Bandwidth => {
                self.bandwidth = take_bandwidth(payload);
            },
            Metric::NotFound => {
                self.not_found = take_paths(payload);
            },
            Metric::Sources => {
                self.sources = take_paths(payload);
            },
        }
    }
}

/// The daily values of an answer, if it holds daily values.
pub open spec fn tuples_of(payload: Option<Payload>) -> Option<TupleResult> {
    match payload {
        Some(Payload::Tuples(tuples)) => Some(tuples),
        _ => None,
    }
}

/// The counts by path of an answer, if it holds counts by path.
pub open spec fn paths_of(payload: Option<Payload>) -> Option<PathResult> {
    match payload {
        Some(Payload::Paths(paths)) => Some(paths),
        _ => None,
    }
}

/// The bandwidth of an answer, if it holds bandwidth.
pub open spec fn bandwidth_of(payload: Option<Payload>) -> Option<BandwidthResult> {
    match payload {
        Some(Payload::Bandwidth(bandwidth)) => Some(bandwidth),
        _ => None,
    }
}

fn take_tuples(payload: Option<Payload>) -> (section: Option<TupleResult>)
    ensures
        section == tuples_of(payload),
{
    match payload {
        Some(Payload::Tuples(tuples)) => Some(tuples),
        _ => None,
    }
}

fn take_paths(payload: Option<Payload>) -> (section: Option<PathResult>)
    ensures
        section == paths_of(payload),
{
    match payload {
        Some(Payload::Paths(paths)) => Some(paths),
        _ => None,
    }
}

fn take_bandwidth(payload: Option<Payload>) -> (section: Option<BandwidthResult>)
    ensures
        section == bandwidth_of(payload),
{
    match payload {
        Some(Payload::Bandwidth(bandwidth)) => Some(bandwidth),
        _ => None,
    }
}

} // verus!
