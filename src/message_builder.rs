//! Builds the notification message: a header with the total cost of the period, and a
//! body with one line per service, the most expensive first.

use vstd::prelude::*;

use crate::amount::{amount_text, rounded_hundredths};
use crate::cost_response_parser::{Cost, ReportedDateRange, ServiceCost, TotalCost};
use crate::text::{pad2_text, push_pad2};

verus! {

/// `{amount} {unit}`, the amount rounded to two decimal places.
pub open spec fn cost_text(c: Cost) -> Seq<char> {
    amount_text(c.amount@) + seq![' '] + c.unit@
}

/// `MM/DD~MM/DD`, months and days zero-padded to two digits.
pub open spec fn date_range_text(r: ReportedDateRange) -> Seq<char> {
    pad2_text(r.start_date.month as nat) + seq!['/'] + pad2_text(r.start_date.day as nat) + seq![
        '~',
    ] + pad2_text(r.end_date.month as nat) + seq!['/'] + pad2_text(r.end_date.day as nat)
}

/// `{period}の請求額は、{cost}です。`
pub open spec fn header_text(t: TotalCost) -> Seq<char> {
    date_range_text(t.date_range) + "の請求額は、"@ + cost_text(t.cost) + "です。"@
}

/// `・{service}: {cost}`
pub open spec fn line_text(s: ServiceCost) -> Seq<char> {
    "・"@ + s.service_name@ + seq![':', ' '] + cost_text(s.cost)
}

/// The amount of a service cost, in 10^-18 units.
pub open spec fn amount_of(s: ServiceCost) -> int {
    s.cost.amount@
}

/// The index of the first cost of `s` below `a`, or the length of `s`.
pub open spec fn first_below(s: Seq<ServiceCost>, a: int) -> int
    decreases s.len(),
{
    if s.len() == 0 {
        0
    } else if amount_of(s[0]) < a {
        0
    } else {
        1 + first_below(s.skip(1), a)
    }
}

/// `c` put into `s` after every cost that is not below it.
pub open spec fn insert_by_cost(s: Seq<ServiceCost>, c: ServiceCost) -> Seq<ServiceCost> {
    s.insert(first_below(s, amount_of(c)), c)
}

/// The costs in descending order of amount; equal amounts keep their order.
pub open spec fn sort_by_cost_desc(s: Seq<ServiceCost>) -> Seq<ServiceCost>
    decreases s.len(),
{
    if s.len() == 0 {
        s
    } else {
        insert_by_cost(sort_by_cost_desc(s.drop_last()), s.last())
    }
}

/// The costs that are not written `0.00` at two decimal places, in their order.
pub open spec fn listed_costs(s: Seq<ServiceCost>) -> Seq<ServiceCost>
    decreases s.len(),
{
    if s.len() == 0 {
        Seq::empty()
    } else if rounded_hundredths(amount_of(s.last())) == 0 {
        listed_costs(s.drop_last())
    } else {
        listed_costs(s.drop_last()).push(s.last())
    }
}

/// The lines joined by line breaks.
pub open spec fn join_lines(lines: Seq<Seq<char>>) -> Seq<char>
    decreases lines.len(),
{
    if lines.len() == 0 {
        Seq::empty()
    } else if lines.len() == 1 {
        lines[0]
    } else {
        join_lines(lines.drop_last()) + seq!['\n'] + lines.last()
    }
}

/// The lines of the listed costs.
pub open spec fn lines_of(s: Seq<ServiceCost>) -> Seq<Seq<char>> {
    s.map_values(|c: ServiceCost| line_text(c))
}

/// The body of the message: a line per service, most expensive first, without the
/// services written `0.00`.
pub open spec fn body_text(services: Seq<ServiceCost>) -> Seq<char> {
    join_lines(lines_of(listed_costs(sort_by_cost_desc(services))))
}

impl Cost {
    /// Appends `{amount} {unit}` to `out`.
    pub fn push_text(&self, out: &mut String)
        ensures
            final(out)@ == old(out)@ + cost_text(*self),
    {
        let ghost before = out@;
        self.amount.push_text(out);
        out.append(" ");
        out.append(self.unit.as_str());
        proof {
            reveal_strlit(" ");
            assert(final(out)@ =~= before + cost_text(*self));
        }
    }

    /// The cost as `{amount} {unit}`, the amount rounded to two decimal places.
    pub fn to_string(&self) -> (r: String)
        ensures
            r@ == cost_text(*self),
    {
        let mut out = String::new();
        self.push_text(&mut out);
        proof {
            assert(out@ =~= cost_text(*self));
        }
        out
    }
}

impl ReportedDateRange {
    /// The period as `MM/DD~MM/DD`.
    pub fn to_string(&self) -> (r: String)
        ensures
            r@ == date_range_text(*self),
    {
        let mut out = String::new();
        push_pad2(&mut out, self.start_date.month);
        out.append("/");
        push_pad2(&mut out, self.start_date.day);
        out.append("~");
        push_pad2(&mut out, self.end_date.month);
        out.append("/");
        push_pad2(&mut out, self.end_date.day);
        proof {
            reveal_strlit("/");
            reveal_strlit("~");
            assert(out@ =~= date_range_text(*self));
        }
        out
    }
}

impl ServiceCost {
    /// Appends `・{service}: {cost}` to `out`.
    fn push_message_line(&self, out: &mut String)
        ensures
            final(out)@ == old(out)@ + line_text(*self),
    {
        let ghost before = out@;
        out.append("・");
        out.append(self.service_name.as_str());
        out.append(": ");
        self.cost.push_text(out);
        proof {
            reveal_strlit(": ");
            assert(final(out)@ =~= before + line_text(*self));
        }
    }

    /// The message line of the service: `・{service}: {cost}`.
    pub fn to_message_line(&self) -> (r: String)
        ensures
            r@ == line_text(*self),
    {
        let mut out = String::new();
        self.push_message_line(&mut out);
        proof {
            assert(out@ =~= line_text(*self));
        }
        out
    }
}

impl TotalCost {
    /// The message header: `{period}の請求額は、{cost}です。`
    pub fn to_message_header(&self) -> (r: String)
        ensures
            r@ == header_text(*self),
    {
        let mut out = self.date_range.to_string();
        out.append("の請求額は、");
        self.cost.push_text(&mut out);
        out.append("です。");
        proof {
            assert(out@ =~= header_text(*self));
        }
        out
    }
}

/// Where every cost before `p` is at least `a` and the one at `p`, if any, is below it,
/// `p` is the first index below `a`.
proof fn lemma_first_below_at(s: Seq<ServiceCost>, a: int, p: int)
    requires
        0 <= p <= s.len(),
        forall|j: int| 0 <= j < p ==> amount_of(#[trigger] s[j]) >= a,
        p < s.len() ==> amount_of(s[p]) < a,
    ensures
        first_below(s, a) == p,
    decreases p,
{
    if p > 0 {
        let t = s.skip(1);
        assert forall|j: int| 0 <= j < p - 1 implies amount_of(#[trigger] t[j]) >= a by {
            assert(t[j] == s[j + 1]);
        }
        if p < s.len() {
            assert(t[p - 1] == s[p]);
        }
        lemma_first_below_at(t, a, p - 1);
    }
}

/// The costs in descending order of amount, equal amounts in their order.
fn sort_costs(costs: Vec<ServiceCost>) -> (r: Vec<ServiceCost>)
    ensures
        r@ == sort_by_cost_desc(costs@),
{
    let ghost all = costs@;
    let mut rest = costs;
    let total = rest.len();
    let mut sorted: Vec<ServiceCost> = Vec::new();
    let mut k: usize = 0;
    assert(all.take(0) =~= Seq::<ServiceCost>::empty());
    assert(all.skip(0) =~= all);
    while rest.len() > 0
        invariant
            all.len() == total,
            k <= all.len(),
            rest@ == all.skip(k as int),
            sorted@ == sort_by_cost_desc(all.take(k as int)),
        decreases rest@.len(),
    {
        assert(rest@.len() == all.len() - k);
        let c = rest.remove(0);
        let a = c.cost.amount.scaled;
        let mut p: usize = 0;
        while p < sorted.len() && sorted[p].cost.amount.scaled >= a
            invariant
                p <= sorted@.len(),
                forall|j: int| 0 <= j < p ==> amount_of(#[trigger] sorted@[j]) >= a,
            decreases sorted@.len() - p,
        {
            p = p + 1;
        }
        proof {
            lemma_first_below_at(sorted@, a as int, p as int);
            assert(all.take(k + 1).drop_last() =~= all.take(k as int));
            assert(all.take(k + 1).last() == c);
        }
        sorted.insert(p, c);
        k = k + 1;
        assert(rest@ =~= all.skip(k as int));
    }
    assert(all.take(k as int) =~= all);
    sorted
}

/// A cost message to send: a header and a body.
pub struct NotificationMessage {
    /// The total cost of the period.
    pub header: String,
    /// One line per service.
    pub body: String,
}

impl NotificationMessage {
    /// Builds the message from the total cost and the service costs. The services are
    /// listed in descending order of amount, equal amounts in their given order, and a
    /// service whose amount is written `0.00` is left out.
    pub fn new(total_cost: TotalCost, service_costs: Vec<ServiceCost>) -> (r: Self)
        ensures
            r.header@ == header_text(total_cost),
            r.body@ == body_text(service_costs@),
    {
        let sorted = sort_costs(service_costs);
        let mut body = String::new();
        let mut any = false;
        let mut i: usize = 0;
        assert(sorted@.take(0) =~= Seq::<ServiceCost>::empty());
        while i < sorted.len()
            invariant
                i <= sorted@.len(),
                body@ == join_lines(lines_of(listed_costs(sorted@.take(i as int)))),
                any == (listed_costs(sorted@.take(i as int)).len() > 0),
            decreases sorted@.len() - i,
        {
            let ghost prev = listed_costs(sorted@.take(i as int));
            let ghost c = sorted@[i as int];
            proof {
                assert(sorted@.take(i + 1).drop_last() =~= sorted@.take(i as int));
                assert(sorted@.take(i + 1).last() == c);
            }
            if !sorted[i].cost.amount.rounds_to_zero() {
                let ghost before = body@;
                if any {
                    body.append("\n");
                }
                sorted[i].push_message_line(&mut body);
                proof {
                    reveal_strlit("\n");
                    let lines = lines_of(prev.push(c));
                    assert(lines =~= lines_of(prev).push(line_text(c)));
                    assert(lines.drop_last() =~= lines_of(prev));
                    assert(body@ =~= join_lines(lines));
                }
                any = true;
            }
            i = i + 1;
        }
        assert(sorted@.take(i as int) =~= sorted@);
        NotificationMessage { header: total_cost.to_message_header(), body }
    }
}

/// Whether the costs are in descending order of amount.
pub open spec fn is_sorted_by_cost_desc(s: Seq<ServiceCost>) -> bool {
    forall|i: int, j: int| 0 <= i < j < s.len() ==> amount_of(s[i]) >= amount_of(s[j])
}

/// The costs of `s` whose amount is `a`, in their order.
pub open spec fn costs_of_amount(s: Seq<ServiceCost>, a: int) -> Seq<ServiceCost>
    decreases s.len(),
{
    if s.len() == 0 {
        Seq::empty()
    } else if amount_of(s.last()) == a {
        costs_of_amount(s.drop_last(), a).push(s.last())
    } else {
        costs_of_amount(s.drop_last(), a)
    }
}

proof fn lemma_first_below(s: Seq<ServiceCost>, a: int)
    ensures
        0 <= first_below(s, a) <= s.len(),
        forall|j: int| 0 <= j < first_below(s, a) ==> amount_of(#[trigger] s[j]) >= a,
        first_below(s, a) < s.len() ==> amount_of(s[first_below(s, a)]) < a,
    decreases s.len(),
{
    if s.len() > 0 && amount_of(s[0]) >= a {
        let t = s.skip(1);
        lemma_first_below(t, a);
        assert forall|j: int| 0 <= j < first_below(s, a) implies amount_of(#[trigger] s[j]) >= a by {
            if j > 0 {
                assert(s[j] == t[j - 1]);
            }
        }
        if first_below(s, a) < s.len() {
            assert(s[first_below(s, a)] == t[first_below(t, a)]);
        }
    }
}

proof fn lemma_costs_of_amount_concat(x: Seq<ServiceCost>, y: Seq<ServiceCost>, a: int)
    ensures
        costs_of_amount(x + y, a) == costs_of_amount(x, a) + costs_of_amount(y, a),
    decreases y.len(),
{
    if y.len() == 0 {
        assert(x + y =~= x);
        assert(costs_of_amount(x, a) + costs_of_amount(y, a) =~= costs_of_amount(x, a));
    } else {
        assert((x + y).drop_last() =~= x + y.drop_last());
        assert((x + y).last() == y.last());
        lemma_costs_of_amount_concat(x, y.drop_last(), a);
        if amount_of(y.last()) == a {
            assert(costs_of_amount(x + y, a) =~= costs_of_amount(x, a) + costs_of_amount(y, a));
        } else {
            assert(costs_of_amount(x + y, a) =~= costs_of_amount(x, a) + costs_of_amount(y, a));
        }
    }
}

proof fn lemma_costs_of_amount_none(s: Seq<ServiceCost>, a: int)
    requires
        forall|j: int| 0 <= j < s.len() ==> amount_of(#[trigger] s[j]) != a,
    ensures
        costs_of_amount(s, a) == Seq::<ServiceCost>::empty(),
    decreases s.len(),
{
    if s.len() > 0 {
        let t = s.drop_last();
        assert forall|j: int| 0 <= j < t.len() implies amount_of(#[trigger] t[j]) != a by {
            assert(t[j] == s[j]);
        }
        lemma_costs_of_amount_none(t, a);
    }
}

proof fn lemma_insert_by_cost(s: Seq<ServiceCost>, c: ServiceCost)
    requires
        is_sorted_by_cost_desc(s),
    ensures
        is_sorted_by_cost_desc(insert_by_cost(s, c)),
        forall|a: int|
            #![trigger costs_of_amount(insert_by_cost(s, c), a)]
            costs_of_amount(insert_by_cost(s, c), a) == if amount_of(c) == a {
                costs_of_amount(s, a).push(c)
            } else {
                costs_of_amount(s, a)
            },
{
    let p = first_below(s, amount_of(c));
    lemma_first_below(s, amount_of(c));
    let front = s.take(p);
    let back = s.skip(p);
    let r = insert_by_cost(s, c);
    assert(r =~= front + seq![c] + back);
    assert(s =~= front + back);
    assert forall|j: int| 0 <= j < back.len() implies amount_of(#[trigger] back[j]) < amount_of(c) by {
        assert(back[j] == s[p + j]);
        if j > 0 {
            assert(amount_of(s[p]) >= amount_of(s[p + j]));
        }
    }
    assert forall|i: int, j: int| 0 <= i < j < r.len() implies amount_of(r[i]) >= amount_of(
        r[j],
    ) by {
        if j < p {
            assert(r[i] == s[i] && r[j] == s[j]);
        } else if j == p {
            assert(r[i] == s[i]);
        } else if i < p {
            assert(r[i] == s[i] && r[j] == s[j - 1]);
        } else if i == p {
            assert(r[j] == back[j - p - 1]);
        } else {
            assert(r[i] == s[i - 1] && r[j] == s[j - 1]);
        }
    }
    assert forall|a: int|
        #![trigger costs_of_amount(insert_by_cost(s, c), a)]
        costs_of_amount(insert_by_cost(s, c), a) == if amount_of(c) == a {
            costs_of_amount(s, a).push(c)
        } else {
            costs_of_amount(s, a)
        } by {
        lemma_costs_of_amount_concat(front + seq![c], back, a);
        lemma_costs_of_amount_concat(front, seq![c], a);
        lemma_costs_of_amount_concat(front, back, a);
        let one = seq![c];
        assert(one.drop_last() =~= Seq::<ServiceCost>::empty());
        assert(one.last() == c);
        assert(costs_of_amount(one.drop_last(), a) == Seq::<ServiceCost>::empty());
        if amount_of(c) == a {
            lemma_costs_of_amount_none(back, a);
            assert(costs_of_amount(one, a) =~= seq![c]);
            assert(costs_of_amount(r, a) =~= costs_of_amount(s, a).push(c));
        } else {
            assert(costs_of_amount(one, a) =~= Seq::<ServiceCost>::empty());
            assert(costs_of_amount(r, a) =~= costs_of_amount(s, a));
        }
    }
}

/// The services of the body come most expensive first, and sorting neither loses, adds
/// nor reorders services of equal amount: for every amount, the services of that amount
/// keep their order.
pub proof fn lemma_sorted_by_cost(services: Seq<ServiceCost>)
    ensures
        is_sorted_by_cost_desc(sort_by_cost_desc(services)),
        forall|a: int|
            #![trigger costs_of_amount(sort_by_cost_desc(services), a)]
            costs_of_amount(sort_by_cost_desc(services), a) == costs_of_amount(services, a),
    decreases services.len(),
{
    if services.len() > 0 {
        let rest = services.drop_last();
        lemma_sorted_by_cost(rest);
        lemma_insert_by_cost(sort_by_cost_desc(rest), services.last());
        assert forall|a: int|
            #![trigger costs_of_amount(sort_by_cost_desc(services), a)]
            costs_of_amount(sort_by_cost_desc(services), a) == costs_of_amount(services, a) by {
            assert(costs_of_amount(sort_by_cost_desc(rest), a) == costs_of_amount(rest, a));
        }
    }
}

proof fn lemma_listed_not_zero(s: Seq<ServiceCost>)
    ensures
        forall|i: int|
            0 <= i < listed_costs(s).len() ==> rounded_hundredths(
                amount_of(#[trigger] listed_costs(s)[i]),
            ) != 0,
    decreases s.len(),
{
    if s.len() > 0 {
        let prev = listed_costs(s.drop_last());
        lemma_listed_not_zero(s.drop_last());
        assert forall|i: int|
            0 <= i < listed_costs(s).len() implies rounded_hundredths(
            amount_of(#[trigger] listed_costs(s)[i]),
        ) != 0 by {
            if i < prev.len() {
                assert(listed_costs(s)[i] == prev[i]);
            }
        }
    }
}

/// No service whose amount is written `0.00` has a line in the body: the body is made of
/// the lines of the listed services, and none of them rounds to zero hundredths.
pub proof fn lemma_zero_costs_omitted(services: Seq<ServiceCost>)
    ensures
        body_text(services) == join_lines(lines_of(listed_costs(sort_by_cost_desc(services)))),
        forall|c: ServiceCost|
            #[trigger] listed_costs(sort_by_cost_desc(services)).contains(c) ==> rounded_hundredths(
                amount_of(c),
            ) != 0,
{
    lemma_listed_not_zero(sort_by_cost_desc(services));
}

} // verus!
