//! Turns a billing query response into typed cost records.

use vstd::prelude::*;

use crate::amount::{amount_of_text, Amount};
use crate::calendar::{date_of_iso_text, is_iso_date_shape, parse_iso_date, CalendarDate};
use crate::error::ReportError;
use crate::response::{
    cost_metric_name, find_cost_metric, metric_named, CostAndUsageResponse, DateInterval, Group,
    MetricValue, ResultByTime,
};
use crate::text::is_digit;

verus! {

/// An amount of money in a currency.
#[derive(Clone, Debug, PartialEq)]
pub struct Cost {
    pub amount: Amount,
    /// A currency code, such as `USD`.
    pub unit: String,
}

/// The period that a response's costs cover.
#[derive(Clone, Copy, Debug, PartialEq, Eq, Structural)]
pub struct ReportedDateRange {
    pub start_date: CalendarDate,
    pub end_date: CalendarDate,
}

/// The cost of all charges over a period.
#[derive(Clone, Debug, PartialEq)]
pub struct TotalCost {
    pub date_range: ReportedDateRange,
    pub cost: Cost,
}

/// The cost of one billed service.
#[derive(Clone, Debug, PartialEq)]
pub struct ServiceCost {
    pub service_name: String,
    pub cost: Cost,
}

/// The cost that a metric value gives: its amount must be present and decimal text,
/// and its unit present.
pub open spec fn cost_of_metric(m: MetricValue) -> Result<Cost, ReportError> {
    match m.amount {
        None => Err(ReportError::MissingField),
        Some(text) => match amount_of_text(text@) {
            None => Err(ReportError::MalformedCost),
            Some(v) => match m.unit {
                None => Err(ReportError::MissingField),
                Some(unit) => Ok(Cost { amount: Amount { scaled: v as i128 }, unit }),
            },
        },
    }
}

/// The date that a period bound names: strictly `YYYY-MM-DD`, and a day of the calendar.
pub open spec fn date_of_timestamp(s: Seq<char>) -> Result<CalendarDate, ReportError> {
    if is_iso_date_shape(s) {
        match date_of_iso_text(s) {
            Some(d) => Ok(d),
            None => Err(ReportError::InvalidTimestamp),
        }
    } else {
        Err(ReportError::InvalidTimestamp)
    }
}

/// The dates that a period names, its start read first.
pub open spec fn range_of_interval(p: DateInterval) -> Result<ReportedDateRange, ReportError> {
    match date_of_timestamp(p.start@) {
        Err(e) => Err(e),
        Ok(start_date) => match date_of_timestamp(p.end@) {
            Err(e) => Err(e),
            Ok(end_date) => Ok(ReportedDateRange { start_date, end_date }),
        },
    }
}

/// The first time bucket of a response, where it has one.
pub open spec fn first_result(res: CostAndUsageResponse) -> Option<ResultByTime> {
    match res.results_by_time {
        Some(results) => if results@.len() > 0 {
            Some(results@[0])
        } else {
            None
        },
        None => None,
    }
}

/// The total cost that a response gives: the period and the aggregate cost metric of
/// its first time bucket.
pub open spec fn total_cost_of(res: CostAndUsageResponse) -> Result<TotalCost, ReportError> {
    match first_result(res) {
        None => Err(ReportError::MissingField),
        Some(bucket) => match bucket.time_period {
            None => Err(ReportError::MissingField),
            Some(period) => match range_of_interval(period) {
                Err(e) => Err(e),
                Ok(date_range) => match bucket.total {
                    None => Err(ReportError::MissingField),
                    Some(total) => match metric_named(total@, cost_metric_name()) {
                        None => Err(ReportError::MissingField),
                        Some(m) => match cost_of_metric(m) {
                            Err(e) => Err(e),
                            Ok(cost) => Ok(TotalCost { date_range, cost }),
                        },
                    },
                },
            },
        },
    }
}

/// The service cost that a group gives: its first key names the service, and its cost
/// metric gives the cost.
pub open spec fn service_cost_of_group(g: Group) -> Result<ServiceCost, ReportError> {
    match g.keys {
        None => Err(ReportError::MissingField),
        Some(keys) => if keys@.len() == 0 {
            Err(ReportError::MissingField)
        } else {
            match g.metrics {
                None => Err(ReportError::MissingField),
                Some(metrics) => match metric_named(metrics@, cost_metric_name()) {
                    None => Err(ReportError::MissingField),
                    Some(m) => match cost_of_metric(m) {
                        Err(e) => Err(e),
                        Ok(cost) => Ok(ServiceCost { service_name: keys@[0], cost }),
                    },
                },
            }
        },
    }
}

/// The service costs of groups, in their order; the first group that gives an error
/// decides the result.
pub open spec fn service_costs_of_groups(groups: Seq<Group>) -> Result<
    Seq<ServiceCost>,
    ReportError,
>
    decreases groups.len(),
{
    if groups.len() == 0 {
        Ok(Seq::empty())
    } else {
        match service_costs_of_groups(groups.drop_last()) {
            Err(e) => Err(e),
            Ok(costs) => match service_cost_of_group(groups.last()) {
                Err(e) => Err(e),
                Ok(c) => Ok(costs.push(c)),
            },
        }
    }
}

/// An error of the first groups is the error of all of them.
proof fn lemma_error_of_prefix(groups: Seq<Group>, k: int)
    requires
        0 <= k <= groups.len(),
        service_costs_of_groups(groups.take(k)) is Err,
    ensures
        service_costs_of_groups(groups) == service_costs_of_groups(groups.take(k)),
    decreases groups.len() - k,
{
    if k < groups.len() {
        assert(groups.take(k + 1).drop_last() =~= groups.take(k));
        lemma_error_of_prefix(groups, k + 1);
    } else {
        assert(groups.take(k) =~= groups);
    }
}

/// The service costs that a response gives: one per group of its first time bucket.
pub open spec fn service_costs_of(res: CostAndUsageResponse) -> Result<
    Seq<ServiceCost>,
    ReportError,
> {
    match first_result(res) {
        None => Err(ReportError::MissingField),
        Some(bucket) => match bucket.groups {
            None => Err(ReportError::MissingField),
            Some(groups) => service_costs_of_groups(groups@),
        },
    }
}

/// Whether an executable result of `Vec`s matches a result of sequences.
pub open spec fn matches_costs(
    r: Result<Vec<ServiceCost>, ReportError>,
    spec: Result<Seq<ServiceCost>, ReportError>,
) -> bool {
    match spec {
        Ok(costs) => r is Ok && r->Ok_0@ == costs,
        Err(e) => r == Err::<Vec<ServiceCost>, ReportError>(e),
    }
}

impl Cost {
    /// Reads the cost of a metric value.
    pub fn from_metric_value(metric_value: &MetricValue) -> (r: Result<Cost, ReportError>)
        ensures
            r == cost_of_metric(*metric_value),
    {
        let text = match &metric_value.amount {
            Some(text) => text,
            None => {
                return Err(ReportError::MissingField);
            },
        };
        let amount = match Amount::parse(text.as_str()) {
            Some(a) => a,
            None => {
                return Err(ReportError::MalformedCost);
            },
        };
        match &metric_value.unit {
            Some(unit) => Ok(Cost { amount, unit: unit.clone() }),
            None => Err(ReportError::MissingField),
        }
    }
}

fn is_digit_char(c: char) -> (r: bool)
    ensures
        r == is_digit(c),
{
    '0' <= c && c <= '9'
}

/// Whether `s` has the shape `YYYY-MM-DD`.
fn has_iso_date_shape(s: &str) -> (r: bool)
    ensures
        r == is_iso_date_shape(s@),
{
    if s.unicode_len() != 10 {
        return false;
    }
    let mut i: usize = 0;
    while i < 10
        invariant
            s@.len() == 10,
            i <= 10,
            forall|j: int|
                0 <= j < i ==> if j == 4 || j == 7 {
                    s@[j] == '-'
                } else {
                    is_digit(s@[j])
                },
        decreases 10 - i,
    {
        let c = s.get_char(i);
        let ok = if i == 4 || i == 7 {
            c == '-'
        } else {
            is_digit_char(c)
        };
        if !ok {
            proof {
                if i < 4 {
                    assert(s@.subrange(0, 4)[i as int] == c);
                } else if 4 < i < 7 {
                    assert(s@.subrange(5, 7)[i - 5] == c);
                } else if i > 7 {
                    assert(s@.subrange(8, 10)[i - 8] == c);
                }
            }
            return false;
        }
        i = i + 1;
    }
    proof {
        assert forall|j: int| 0 <= j < 4 implies is_digit(#[trigger] s@.subrange(0, 4)[j]) by {
            assert(s@.subrange(0, 4)[j] == s@[j]);
        }
        assert forall|j: int| 0 <= j < 2 implies is_digit(#[trigger] s@.subrange(5, 7)[j]) by {
            assert(s@.subrange(5, 7)[j] == s@[5 + j]);
        }
        assert forall|j: int| 0 <= j < 2 implies is_digit(#[trigger] s@.subrange(8, 10)[j]) by {
            assert(s@.subrange(8, 10)[j] == s@[8 + j]);
        }
    }
    true
}

/// Reads a period bound of a response: strictly `YYYY-MM-DD`, and a day of the calendar.
pub fn parse_timestamp_into_local_date(timestamp: &str) -> (r: Result<CalendarDate, ReportError>)
    ensures
        r == date_of_timestamp(timestamp@),
{
    if !has_iso_date_shape(timestamp) {
        return Err(ReportError::InvalidTimestamp);
    }
    match parse_iso_date(timestamp) {
        Some(d) => Ok(d),
        None => Err(ReportError::InvalidTimestamp),
    }
}

impl ReportedDateRange {
    /// Reads the period of a response.
    pub fn from_interval(interval: &DateInterval) -> (r: Result<ReportedDateRange, ReportError>)
        ensures
            r == range_of_interval(*interval),
    {
        let start_date = match parse_timestamp_into_local_date(interval.start.as_str()) {
            Ok(d) => d,
            Err(e) => {
                return Err(e);
            },
        };
        let end_date = match parse_timestamp_into_local_date(interval.end.as_str()) {
            Ok(d) => d,
            Err(e) => {
                return Err(e);
            },
        };
        Ok(ReportedDateRange { start_date, end_date })
    }
}

/// The first time bucket of a response.
fn first_bucket(res: &CostAndUsageResponse) -> (r: Option<&ResultByTime>)
    ensures
        r is Some <==> first_result(*res) is Some,
        r is Some ==> r->0 == first_result(*res)->0,
{
    match &res.results_by_time {
        Some(results) => if results.len() > 0 {
            Some(&results[0])
        } else {
            None
        },
        None => None,
    }
}

impl TotalCost {
    /// Reads the total cost of a response: the period and the aggregate cost metric of its
    /// first time bucket.
    pub fn from_response(res: &CostAndUsageResponse) -> (r: Result<TotalCost, ReportError>)
        ensures
            r == total_cost_of(*res),
    {
        let bucket = match first_bucket(res) {
            Some(b) => b,
            None => {
                return Err(ReportError::MissingField);
            },
        };
        let period = match &bucket.time_period {
            Some(p) => p,
            None => {
                return Err(ReportError::MissingField);
            },
        };
        let date_range = match ReportedDateRange::from_interval(period) {
            Ok(range) => range,
            Err(e) => {
                return Err(e);
            },
        };
        let total = match &bucket.total {
            Some(t) => t,
            None => {
                return Err(ReportError::MissingField);
            },
        };
        let metric = match find_cost_metric(total) {
            Some(m) => m,
            None => {
                return Err(ReportError::MissingField);
            },
        };
        match Cost::from_metric_value(metric) {
            Ok(cost) => Ok(TotalCost { date_range, cost }),
            Err(e) => Err(e),
        }
    }
}

impl ServiceCost {
    /// Reads the cost of one group: its first key names the service.
    pub fn from_group(group: &Group) -> (r: Result<ServiceCost, ReportError>)
        ensures
            r == service_cost_of_group(*group),
    {
        let keys = match &group.keys {
            Some(keys) => keys,
            None => {
                return Err(ReportError::MissingField);
            },
        };
        if keys.len() == 0 {
            return Err(ReportError::MissingField);
        }
        let metrics = match &group.metrics {
            Some(m) => m,
            None => {
                return Err(ReportError::MissingField);
            },
        };
        let metric = match find_cost_metric(metrics) {
            Some(m) => m,
            None => {
                return Err(ReportError::MissingField);
            },
        };
        match Cost::from_metric_value(metric) {
            Ok(cost) => Ok(ServiceCost { service_name: keys[0].clone(), cost }),
            Err(e) => Err(e),
        }
    }

    /// Reads the service costs of a response: one per group of its first time bucket,
    /// in the order of the groups.
    pub fn from_response(res: &CostAndUsageResponse) -> (r: Result<Vec<ServiceCost>, ReportError>)
        ensures
            matches_costs(r, service_costs_of(*res)),
    {
        let bucket = match first_bucket(res) {
            Some(b) => b,
            None => {
                return Err(ReportError::MissingField);
            },
        };
        let groups = match &bucket.groups {
            Some(g) => g,
            None => {
                return Err(ReportError::MissingField);
            },
        };
        let mut costs: Vec<ServiceCost> = Vec::new();
        let mut i: usize = 0;
        assert(groups@.take(0) =~= Seq::<Group>::empty());
        while i < groups.len()
            invariant
                service_costs_of(*res) == service_costs_of_groups(groups@),
                i <= groups@.len(),
                service_costs_of_groups(groups@.take(i as int)) == Ok::<
                    Seq<ServiceCost>,
                    ReportError,
                >(costs@),
            decreases groups@.len() - i,
        {
            assert(groups@.take(i + 1).drop_last() =~= groups@.take(i as int));
            assert(groups@.take(i + 1).last() == groups@[i as int]);
            match ServiceCost::from_group(&groups[i]) {
                Ok(c) => {
                    costs.push(c);
                },
                Err(e) => {
                    proof {
                        assert(groups@.take(i + 1).last() == groups@[i as int]);
                        assert(service_costs_of_groups(groups@.take(i + 1)) == Err::<
                            Seq<ServiceCost>,
                            ReportError,
                        >(e));
                        lemma_error_of_prefix(groups@, i + 1);
                    }
                    return Err(e);
                },
            }
            i = i + 1;
        }
        assert(groups@.take(i as int) =~= groups@);
        Ok(costs)
    }
}

/// Reading the same response twice gives structurally equal results: the total cost and
/// the service costs that a response gives depend on the response alone.
pub proof fn lemma_parse_idempotent(first: CostAndUsageResponse, second: CostAndUsageResponse)
    requires
        first == second,
    ensures
        total_cost_of(first) == total_cost_of(second),
        service_costs_of(first) == service_costs_of(second),
{
}

} // verus!
