//! The two queries of the report: the total cost of the period, and its cost per service.

use vstd::prelude::*;

use crate::calendar::iso_date_text;
use crate::date_range::ReportDateRange;
use crate::response::{cost_metric_name, CostAndUsageRequest, GroupDefinition};

verus! {

/// Whether `g` is the one grouping by the `SERVICE` dimension.
pub open spec fn is_service_grouping(g: Seq<GroupDefinition>) -> bool {
    &&& g.len() == 1
    &&& g[0].type_ matches Some(t) && t@ == "DIMENSION"@
    &&& g[0].key matches Some(k) && k@ == "SERVICE"@
}

/// The query for a reporting period: monthly, of the amortized cost metric alone, over
/// the period; grouped by service unless it asks for the total.
pub open spec fn is_cost_request(
    r: CostAndUsageRequest,
    range: ReportDateRange,
    is_total: bool,
) -> bool {
    &&& r.granularity@ == "MONTHLY"@
    &&& r.metrics@.len() == 1
    &&& r.metrics@[0]@ == cost_metric_name()
    &&& r.time_period.start@ == iso_date_text(range.start_date)
    &&& r.time_period.end@ == iso_date_text(range.end_date)
    &&& is_total ==> r.group_by is None
    &&& !is_total ==> (r.group_by matches Some(g) && is_service_grouping(g@))
}

/// Builds the query for the total cost of the period (`is_total`), or for its cost per
/// service.
pub fn build_cost_and_usage_request(report_date_range: &ReportDateRange, is_total: bool) -> (r:
    CostAndUsageRequest)
    requires
        report_date_range.start_date.wf(),
        report_date_range.end_date.wf(),
        report_date_range.start_date.has_four_digit_year(),
        report_date_range.end_date.has_four_digit_year(),
    ensures
        is_cost_request(r, *report_date_range, is_total),
{
    let group_by = if is_total {
        None
    } else {
        let mut groups: Vec<GroupDefinition> = Vec::new();
        groups.push(
            GroupDefinition {
                type_: Some(String::from_str("DIMENSION")),
                key: Some(String::from_str("SERVICE")),
            },
        );
        Some(groups)
    };
    let mut metrics: Vec<String> = Vec::new();
    metrics.push(String::from_str("AmortizedCost"));
    CostAndUsageRequest {
        granularity: String::from_str("MONTHLY"),
        metrics,
        group_by,
        time_period: report_date_range.as_date_interval(),
    }
}

} // verus!
