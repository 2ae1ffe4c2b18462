//! Sample responses of the billing query service, and a client that answers with them,
//! for exercising the report without the service.

use vstd::prelude::*;

use crate::response::{
    cost_metric_name, CostAndUsageRequest, CostAndUsageResponse, DateInterval, Group,
    MetricValue, ResultByTime,
};

verus! {

/// A service and its cost as decimal text, to build sample responses from.
#[derive(Clone, Debug)]
pub struct InputServiceCost {
    pub service_name: String,
    pub cost: String,
}

/// A metric of `amount` in `USD`.
pub open spec fn is_usd_metric(m: MetricValue, amount: Option<String>) -> bool {
    &&& m.amount == amount
    &&& m.unit matches Some(u) && u@ == "USD"@
}

/// Metrics of one entry: the cost metric, of `amount` in `USD`.
pub open spec fn is_sample_metrics(entries: Seq<(String, MetricValue)>, amount: Option<String>) -> bool {
    &&& entries.len() == 1
    &&& entries[0].0@ == cost_metric_name()
    &&& is_usd_metric(entries[0].1, amount)
}

/// The group of a sample service cost: keyed by the service alone, with its cost in `USD`.
pub open spec fn is_sample_group(g: Group, input: InputServiceCost) -> bool {
    &&& g.keys matches Some(k) && k@.len() == 1 && k@[0] == input.service_name
    &&& g.metrics matches Some(m) && is_sample_metrics(m@, Some(input.cost))
}

pub open spec fn inputs_view(o: Option<Vec<InputServiceCost>>) -> Option<Seq<InputServiceCost>> {
    match o {
        Some(v) => Some(v@),
        None => None,
    }
}

/// A response of one time bucket: over `period`, with a total cost metric of
/// `total_cost` in `USD`, and, where `services` is given, a group per service in order.
pub open spec fn is_sample_response(
    r: CostAndUsageResponse,
    period: Option<DateInterval>,
    total_cost: Option<String>,
    services: Option<Seq<InputServiceCost>>,
) -> bool {
    &&& r.results_by_time matches Some(results) && results@.len() == 1
    &&& {
        let bucket = r.results_by_time->0@[0];
        &&& bucket.time_period == period
        &&& bucket.total matches Some(t) && is_sample_metrics(t@, total_cost)
        &&& match services {
            None => bucket.groups is None,
            Some(inputs) => bucket.groups matches Some(g) && g@.len() == inputs.len() && forall|
                i: int,
            |
                0 <= i < inputs.len() ==> is_sample_group(#[trigger] g@[i], inputs[i]),
        }
    }
}

impl InputServiceCost {
    pub fn new(service_name: &str, cost: &str) -> (r: Self)
        ensures
            r.service_name@ == service_name@,
            r.cost@ == cost@,
    {
        InputServiceCost { service_name: String::from_str(service_name), cost: String::from_str(cost) }
    }

    fn duplicate(&self) -> (r: Self)
        ensures
            r == *self,
    {
        InputServiceCost { service_name: self.service_name.clone(), cost: self.cost.clone() }
    }

    /// The group of a response that gives this service its cost.
    pub fn into_group(self) -> (r: Group)
        ensures
            is_sample_group(r, self),
    {
        let mut keys: Vec<String> = Vec::new();
        keys.push(self.service_name);
        Group { keys: Some(keys), metrics: Some(usd_metrics(Some(self.cost))) }
    }
}

/// The metrics of a sample: the cost metric alone, of `amount` in `USD`.
fn usd_metrics(amount: Option<String>) -> (r: Vec<(String, MetricValue)>)
    ensures
        is_sample_metrics(r@, amount),
{
    let mut metrics: Vec<(String, MetricValue)> = Vec::new();
    metrics.push(
        (String::from_str("AmortizedCost"), MetricValue { amount, unit: Some(String::from_str("USD")) }),
    );
    metrics
}

fn duplicate_inputs(inputs: &Vec<InputServiceCost>) -> (r: Vec<InputServiceCost>)
    ensures
        r@ == inputs@,
{
    let mut out: Vec<InputServiceCost> = Vec::new();
    let mut i: usize = 0;
    while i < inputs.len()
        invariant
            i <= inputs@.len(),
            out@ == inputs@.take(i as int),
        decreases inputs@.len() - i,
    {
        out.push(inputs[i].duplicate());
        i = i + 1;
        assert(out@ =~= inputs@.take(i as int));
    }
    assert(inputs@.take(i as int) =~= inputs@);
    out
}

/// Builds a response of one time bucket: over `date_interval`, with a total cost of
/// `total_cost` in `USD`, and, where `service_costs` is given, a group per service.
pub fn prepare_sample_response(
    date_interval: Option<DateInterval>,
    total_cost: Option<String>,
    service_costs: Option<Vec<InputServiceCost>>,
) -> (r: CostAndUsageResponse)
    ensures
        is_sample_response(r, date_interval, total_cost, inputs_view(service_costs)),
{
    let groups = match service_costs {
        Some(inputs) => {
            let ghost all = inputs@;
            let mut rest = inputs;
            let mut groups: Vec<Group> = Vec::new();
            let total = rest.len();
            let mut k: usize = 0;
            assert(all.skip(0) =~= all);
            while rest.len() > 0
                invariant
                    all.len() == total,
                    k <= all.len(),
                    rest@ == all.skip(k as int),
                    groups@.len() == k,
                    forall|i: int| 0 <= i < k ==> is_sample_group(#[trigger] groups@[i], all[i]),
                decreases rest@.len(),
            {
                assert(rest@.len() == all.len() - k);
                let input = rest.remove(0);
                assert(input == all[k as int]);
                groups.push(input.into_group());
                k = k + 1;
                assert(rest@ =~= all.skip(k as int));
            }
            Some(groups)
        },
        None => None,
    };
    let mut results: Vec<ResultByTime> = Vec::new();
    results.push(
        ResultByTime {
            time_period: date_interval,
            total: Some(usd_metrics(total_cost)),
            groups,
        },
    );
    CostAndUsageResponse { results_by_time: Some(results) }
}

/// A billing client that answers every query with a sample response.
pub struct CostAndUsageClientStub {
    /// The services of the answer to a query grouped by service.
    pub service_costs: Option<Vec<InputServiceCost>>,
    /// The total cost of the answer to a query that is not grouped.
    pub total_cost: Option<String>,
}

impl CostAndUsageClientStub {
    /// The sample answer to a query: over its period, with the service costs and no total
    /// where the query groups, else with the total cost and no groups.
    pub fn get_cost_and_usage(&self, input: CostAndUsageRequest) -> (r: CostAndUsageResponse)
        ensures
            input.group_by is Some ==> is_sample_response(
                r,
                Some(input.time_period),
                None,
                inputs_view(self.service_costs),
            ),
            input.group_by is None ==> is_sample_response(
                r,
                Some(input.time_period),
                self.total_cost,
                None,
            ),
    {
        match input.group_by {
            Some(_) => {
                let services = match &self.service_costs {
                    Some(v) => Some(duplicate_inputs(v)),
                    None => None,
                };
                prepare_sample_response(Some(input.time_period), None, services)
            },
            None => {
                let total = match &self.total_cost {
                    Some(t) => Some(t.clone()),
                    None => None,
                };
                prepare_sample_response(Some(input.time_period), total, None)
            },
        }
    }
}

} // verus!
