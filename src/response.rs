//! The billing query service's request and response, as plain values: what the report
//! sends and what it reads back.

use vstd::prelude::*;

verus! {

/// One metric of a response: an amount as decimal text and its currency unit.
#[derive(Clone, Debug, PartialEq)]
pub struct MetricValue {
    pub amount: Option<String>,
    pub unit: Option<String>,
}

/// A period of days, each bound written `YYYY-MM-DD`.
#[derive(Clone, Debug, PartialEq)]
pub struct DateInterval {
    pub start: String,
    pub end: String,
}

/// The costs that share one value of the grouping dimension.
#[derive(Clone, Debug, PartialEq)]
pub struct Group {
    /// The dimension values of the group; the first is the service name.
    pub keys: Option<Vec<String>>,
    /// Each metric name with its value.
    pub metrics: Option<Vec<(String, MetricValue)>>,
}

/// The costs of one time bucket.
#[derive(Clone, Debug, PartialEq)]
pub struct ResultByTime {
    pub time_period: Option<DateInterval>,
    /// Each metric name with its value, over all charges of the bucket.
    pub total: Option<Vec<(String, MetricValue)>>,
    /// The costs per group, where the request asked for a grouping.
    pub groups: Option<Vec<Group>>,
}

/// A response of the billing query service.
#[derive(Clone, Debug, PartialEq)]
pub struct CostAndUsageResponse {
    pub results_by_time: Option<Vec<ResultByTime>>,
}

/// A dimension to group costs by.
#[derive(Clone, Debug, PartialEq)]
pub struct GroupDefinition {
    pub type_: Option<String>,
    pub key: Option<String>,
}

/// A query of the billing service. It carries no filter and no page token: the report
/// asks for all charges and reads a single page.
#[derive(Clone, Debug, PartialEq)]
pub struct CostAndUsageRequest {
    pub granularity: String,
    pub metrics: Vec<String>,
    pub group_by: Option<Vec<GroupDefinition>>,
    pub time_period: DateInterval,
}

/// The metric that the report reads.
pub open spec fn cost_metric_name() -> Seq<char> {
    "AmortizedCost"@
}

/// The value of the first entry named `name`.
pub open spec fn metric_named(entries: Seq<(String, MetricValue)>, name: Seq<char>) -> Option<
    MetricValue,
>
    decreases entries.len(),
{
    if entries.len() == 0 {
        None
    } else if entries[0].0@ == name {
        Some(entries[0].1)
    } else {
        metric_named(entries.skip(1), name)
    }
}

/// The value of the first entry named after the metric that the report reads.
pub fn find_cost_metric(entries: &Vec<(String, MetricValue)>) -> (r: Option<&MetricValue>)
    ensures
        r is Some <==> metric_named(entries@, cost_metric_name()) is Some,
        r is Some ==> r->0 == metric_named(entries@, cost_metric_name())->0,
{
    let name = String::from_str("AmortizedCost");
    let mut i: usize = 0;
    assert(entries@.skip(0) =~= entries@);
    while i < entries.len()
        invariant
            name@ == cost_metric_name(),
            i <= entries@.len(),
            metric_named(entries@, cost_metric_name()) == metric_named(
                entries@.skip(i as int),
                cost_metric_name(),
            ),
        decreases entries@.len() - i,
    {
        let ghost rest = entries@.skip(i as int);
        assert(rest[0] == entries@[i as int]);
        assert(rest.skip(1) =~= entries@.skip(i + 1));
        if entries[i].0 == name {
            return Some(&entries[i].1);
        }
        i = i + 1;
    }
    assert(entries@.skip(i as int).len() == 0);
    None
}

} // verus!
