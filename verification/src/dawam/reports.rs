//! Reports: labour cost against sales (only with POS on), and advances.

use vstd::prelude::*;

use crate::calendar::{whole_units, Day};
use crate::decimal::{
    as_i64, at_scale, ceiling, difference, half_even, has_room, is_above, lemma_ceiling,
    lemma_ceilings_fit, minus, multiplied, one, plus, power10, product, rounded_even, shared_scale,
    total, zero, Dec, MAX_MANTISSA,
};
use crate::errors::{bad_request, either, forbidden, given, refusal, AppError, ErrorView};
use crate::ordered::{in_order, law_sorted_once, put_item, sorted_once, BranchDay};
use crate::text::same_text;

verus! {

pub const MAX_DAYS: i64 = 400;

/// What a report over the range is refused for, if anything.
pub open spec fn report_refused(from: Day, to: Day) -> Option<ErrorView> {
    given(
        to < from || to - from > MAX_DAYS,
        ErrorView::BadRequest("The range must be 0–400 days"@),
    )
}

/// A report's range in order and no wider than a request may ask for.
pub fn check(from: Day, to: Day) -> (r: Result<(), AppError>)
    ensures
        refusal(r) == report_refused(from, to),
{
    if to < from || to as i64 - from as i64 > MAX_DAYS {
        Err(bad_request("The range must be 0–400 days"))
    } else {
        Ok(())
    }
}

/// Labour cost against sales is for callers who read pay there, and only with
/// POS on.
pub fn labour_vs_sales(
    from: Day,
    to: Day,
    scope: Result<(), AppError>,
    pos_on: bool,
) -> (r: Result<(), AppError>)
    ensures
        refusal(r) == either(
            report_refused(from, to),
            either(
                refusal(scope),
                given(
                    !pos_on,
                    ErrorView::Forbidden("Labour cost vs sales needs POS switched on."@),
                ),
            ),
        ),
{
    check(from, to)?;
    scope?;
    if !pos_on {
        return Err(forbidden("Labour cost vs sales needs POS switched on."));
    }
    Ok(())
}

/// A sale's day at its branch, in its own zone, and what it came to.
#[derive(Debug, Clone, Copy, PartialEq, Eq, Structural)]
pub struct DaySales {
    pub day: BranchDay,
    pub amount: i64,
}

/// The sales whose day is in the range.
pub open spec fn sales_within(sales: Seq<DaySales>, from: Day, to: Day) -> Seq<DaySales> {
    sales.filter(|s: DaySales| from <= s.day.date <= to)
}

/// The days of the sales.
pub open spec fn sale_days(sales: Seq<DaySales>) -> Seq<BranchDay> {
    Seq::new(sales.len(), |i: int| sales[i].day)
}

/// What the sales of the day come to.
pub open spec fn sold_on(sales: Seq<DaySales>, d: BranchDay) -> int
    decreases sales.len(),
{
    if sales.len() == 0 {
        0
    } else {
        sold_on(sales.drop_last(), d) + if sales.last().day == d {
            sales.last().amount as int
        } else {
            0
        }
    }
}

/// Where the records of the day stand in the list.
pub open spec fn worked_on_day(records: Seq<BranchDay>, d: BranchDay) -> Seq<int>
    decreases records.len(),
{
    if records.len() == 0 {
        Seq::empty()
    } else {
        let before = worked_on_day(records.drop_last(), d);
        if records.last() == d {
            before.push(records.len() - 1)
        } else {
            before
        }
    }
}

/// One row of the report before its labour is priced.
#[derive(Debug, Clone, PartialEq, Eq)]
pub struct LabourGroup {
    pub day: BranchDay,
    /// Where the records of the day stand, to be priced and added up.
    pub records: Vec<usize>,
    pub sales_piastres: i128,
}

/// The places of a group's records.
pub open spec fn places(list: Seq<usize>) -> Seq<int> {
    Seq::new(list.len(), |i: int| list[i] as int)
}

fn keep_sales(sales: &Vec<DaySales>, from: Day, to: Day) -> (r: Vec<DaySales>)
    ensures
        r@ == sales_within(sales@, from, to),
{
    let mut out: Vec<DaySales> = Vec::new();
    let mut i: usize = 0;
    while i < sales.len()
        invariant
            i <= sales@.len(),
            out@ == sales_within(sales@.take(i as int), from, to),
        decreases sales@.len() - i,
    {
        let s: DaySales = sales[i];
        let keep: bool = from <= s.day.date && s.day.date <= to;
        proof {
            let f = |s: DaySales| from <= s.day.date <= to;
            reveal(Seq::filter);
            assert(sales@.take(i + 1).drop_last() =~= sales@.take(i as int));
            assert(keep == f(s));
        }
        if keep {
            out.push(s);
        }
        i += 1;
    }
    assert(sales@.take(sales@.len() as int) =~= sales@);
    out
}

fn group_of(records: &Vec<BranchDay>, kept: &Vec<DaySales>, d: BranchDay) -> (r: LabourGroup)
    ensures
        r.day == d,
        places(r.records@) == worked_on_day(records@, d),
        r.sales_piastres == sold_on(kept@, d),
{
    let mut at: Vec<usize> = Vec::new();
    assert(places(at@) =~= Seq::empty());
    let mut i: usize = 0;
    while i < records.len()
        invariant
            i <= records@.len(),
            places(at@) == worked_on_day(records@.take(i as int), d),
        decreases records@.len() - i,
    {
        let ghost had = at@;
        assert(records@.take(i + 1).drop_last() =~= records@.take(i as int));
        if records[i].date == d.date && records[i].branch_id == d.branch_id {
            at.push(i);
            assert(places(at@) =~= places(had).push(i as int));
        }
        i += 1;
    }
    assert(records@.take(records@.len() as int) =~= records@);
    let mut sold: i128 = 0;
    let mut j: usize = 0;
    while j < kept.len()
        invariant
            j <= kept@.len(),
            sold == sold_on(kept@.take(j as int), d),
            -(j * 9_223_372_036_854_775_808) <= sold <= j * 9_223_372_036_854_775_808,
        decreases kept@.len() - j,
    {
        assert(kept@.take(j + 1).drop_last() =~= kept@.take(j as int));
        if kept[j].day.date == d.date && kept[j].day.branch_id == d.branch_id {
            sold = sold + kept[j].amount as i128;
        }
        j += 1;
    }
    assert(kept@.take(kept@.len() as int) =~= kept@);
    LabourGroup { day: d, records: at, sales_piastres: sold }
}

/// The days a report has a row for.
pub open spec fn report_days(
    records: Seq<BranchDay>,
    sales: Seq<DaySales>,
    from: Day,
    to: Day,
) -> Seq<BranchDay> {
    sorted_once(records + sale_days(sales_within(sales, from, to)))
}

/// The rows of the report, one for each branch and day with work or sales: in
/// order, each with its records to price and its sales. A sale whose day in its
/// own zone is out of the range does not count.
pub fn labour_groups(
    records: &Vec<BranchDay>,
    sales: &Vec<DaySales>,
    from: Day,
    to: Day,
) -> (r: Vec<LabourGroup>)
    ensures
        r@.len() == report_days(records@, sales@, from, to).len(),
        forall|i: int|
            #![trigger r@[i]]
            0 <= i < r@.len() ==> {
                let d = report_days(records@, sales@, from, to)[i];
                &&& r@[i].day == d
                &&& places(r@[i].records@) == worked_on_day(records@, d)
                &&& r@[i].sales_piastres == sold_on(sales_within(sales@, from, to), d)
            },
{
    let kept: Vec<DaySales> = keep_sales(sales, from, to);
    let mut days: Vec<BranchDay> = Vec::new();
    let ghost list = records@ + sale_days(kept@);
    let mut i: usize = 0;
    while i < records.len()
        invariant
            i <= records@.len(),
            list == records@ + sale_days(kept@),
            days@ == sorted_once(list.take(i as int)),
        decreases records@.len() - i,
    {
        proof {
            assert(list.take(i + 1).drop_last() =~= list.take(i as int));
            assert(list[i as int] == records@[i as int]);
        }
        put_item(&mut days, records[i]);
        i += 1;
    }
    let mut j: usize = 0;
    while j < kept.len()
        invariant
            j <= kept@.len(),
            list == records@ + sale_days(kept@),
            days@ == sorted_once(list.take(records@.len() + j)),
        decreases kept@.len() - j,
    {
        proof {
            let n = records@.len() + j;
            assert(list.take(n + 1).drop_last() =~= list.take(n));
            assert(list[n] == kept@[j as int].day);
        }
        put_item(&mut days, kept[j].day);
        j += 1;
    }
    assert(list.take(list.len() as int) =~= list);
    let mut out: Vec<LabourGroup> = Vec::new();
    let mut k: usize = 0;
    while k < days.len()
        invariant
            k <= days@.len(),
            out@.len() == k,
            kept@ == sales_within(sales@, from, to),
            days@ == report_days(records@, sales@, from, to),
            forall|i: int|
                #![trigger out@[i]]
                0 <= i < k ==> {
                    &&& out@[i].day == days@[i]
                    &&& places(out@[i].records@) == worked_on_day(records@, days@[i])
                    &&& out@[i].sales_piastres == sold_on(kept@, days@[i])
                },
        decreases days@.len() - k,
    {
        let g: LabourGroup = group_of(records, &kept, days[k]);
        out.push(g);
        k += 1;
    }
    out
}

/// The overtime premium: what the multiplier pays above the plain minute.
pub open spec fn premium(multiplier: Dec) -> Dec {
    let above = difference(multiplier.mantissa as int, multiplier.scale as int, 1, 0);
    if above.above(0) {
        above
    } else {
        zero()
    }
}

/// What a record's labour costs: the worked minutes' price, and the overtime
/// minutes' price at the premium.
pub open spec fn cost_of(worked: Dec, overtime: Dec, multiplier: Dec) -> Dec {
    let p = premium(multiplier);
    let extra = product(
        overtime.mantissa as int,
        overtime.scale as int,
        p.mantissa as int,
        p.scale as int,
    );
    total(worked.mantissa as int, worked.scale as int, extra.mantissa as int, extra.scale as int)
}

/// What a record's labour costs, from the clock: its worked minutes at the
/// person's minute rate, plus the overtime premium. `worked` and `overtime` are
/// the prices of its worked and its overtime minutes, in piastres.
pub fn labour_cost(worked: Dec, overtime: Dec, multiplier: Dec) -> (r: Dec)
    requires
        worked.valid(),
        overtime.valid(),
        multiplier.valid(),
        ceiling(worked) + ceiling(overtime) * (ceiling(multiplier) + 3) + 1 <= MAX_MANTISSA,
    ensures
        r == cost_of(worked, overtime, multiplier),
        r.valid(),
        ceiling(r) <= ceiling(worked) + ceiling(overtime) * (ceiling(multiplier) + 3) + 2,
        // A multiplier of one or less pays the worked minutes alone.
        0 < multiplier.mantissa <= power10(multiplier.scale as int) ==> r.mantissa
            == worked.mantissa && (worked.mantissa != 0 ==> r.scale == worked.scale),
        // A larger one pays the overtime minutes what it is above one on top.
        ({
            let extra = Dec {
                mantissa: (overtime.mantissa * (multiplier.mantissa - power10(
                    multiplier.scale as int,
                ))) as i128,
                scale: (overtime.scale + multiplier.scale) as u32,
            };
            let s = shared_scale(worked, extra);
            multiplier.mantissa > power10(multiplier.scale as int) && overtime.mantissa != 0
                && worked.mantissa != 0 && overtime.scale + multiplier.scale <= 28 && has_room(
                overtime.mantissa * (multiplier.mantissa - power10(multiplier.scale as int)),
            ) && has_room(at_scale(worked, s)) && has_room(at_scale(extra, s)) && has_room(
                at_scale(worked, s) + at_scale(extra, s),
            ) ==> r.mantissa == at_scale(worked, s) + at_scale(extra, s) && r.scale == s
        }),
{
    proof {
        lemma_ceiling(worked);
        lemma_ceiling(overtime);
        lemma_ceiling(multiplier);
        let o = ceiling(overtime);
        let m = ceiling(multiplier);
        assert(o * (m + 3) >= m + 3) by (nonlinear_arith)
            requires
                o >= 1,
                m >= 1,
        ;
        assert(power10(0) == 1);
        assert(ceiling(one()) == 2);
        assert(ceiling(zero()) == 1);
    }
    proof {
        let unit = power10(multiplier.scale as int);
        lemma_power_has_room(multiplier.scale as int);
        assert(shared_scale(multiplier, one()) == multiplier.scale);
        assert(at_scale(multiplier, multiplier.scale as int) == multiplier.mantissa * power10(0));
        assert(at_scale(one(), multiplier.scale as int) == unit);
    }
    let above: Dec = minus(multiplier, Dec { mantissa: 1, scale: 0 });
    let extra_rate: Dec = if is_above(above, 0) {
        above
    } else {
        Dec { mantissa: 0, scale: 0 }
    };
    proof {
        lemma_ceiling(extra_rate);
        let o = ceiling(overtime);
        let e = ceiling(extra_rate);
        let m = ceiling(multiplier);
        assert(o * e <= o * (m + 3)) by (nonlinear_arith)
            requires
                o >= 1,
                e <= m + 3,
        ;
    }
    proof {
        lemma_ceilings_fit(overtime, extra_rate);
    }
    let extra: Dec = multiplied(overtime, extra_rate);
    proof {
        let unit = power10(multiplier.scale as int);
        if multiplier.mantissa > unit && overtime.mantissa != 0 {
            let n = overtime.mantissa * (multiplier.mantissa - unit);
            assert(n != 0) by (nonlinear_arith)
                requires
                    n == overtime.mantissa * (multiplier.mantissa - unit),
                    overtime.mantissa != 0,
                    multiplier.mantissa - unit > 0,
            ;
        }
    }
    plus(worked, extra)
}

/// A power of ten of a scale there is has room.
proof fn lemma_power_has_room(n: int)
    requires
        0 <= n <= 28,
    ensures
        0 < power10(n) <= 10_000_000_000_000_000_000_000_000_000,
        n <= 14 ==> power10(n) <= 100_000_000_000_000,
    decreases n,
{
    if n > 14 {
        lemma_power_has_room(n - 1);
        lemma_power_sums(14, n - 14);
        lemma_power_has_room(n - 14);
        lemma_power_has_room(14);
        assert(power10(n) <= 100_000_000_000_000 * 100_000_000_000_000) by (nonlinear_arith)
            requires
                power10(n) == power10(14) * power10(n - 14),
                0 < power10(14) <= 100_000_000_000_000,
                0 < power10(n - 14) <= 100_000_000_000_000,
        ;
    } else if n > 0 {
        lemma_small_power(n);
    }
}

proof fn lemma_power_sums(a: int, b: int)
    requires
        a >= 0,
        b >= 0,
    ensures
        power10(a + b) == power10(a) * power10(b),
    decreases b,
{
    if b > 0 {
        lemma_power_sums(a, b - 1);
        assert(power10(a) * (10 * power10(b - 1)) == 10 * (power10(a) * power10(b - 1)))
            by (nonlinear_arith);
    } else {
        assert(power10(0) == 1);
    }
}

proof fn lemma_small_power(n: int)
    requires
        0 <= n <= 14,
    ensures
        0 < power10(n) <= 100_000_000_000_000,
{
    reveal_with_fuel(power10, 16);
}


/// The costs added up, one after another.
pub open spec fn added_up(costs: Seq<Dec>) -> Dec
    decreases costs.len(),
{
    if costs.len() == 0 {
        zero()
    } else {
        let before = added_up(costs.drop_last());
        let c = costs.last();
        total(before.mantissa as int, before.scale as int, c.mantissa as int, c.scale as int)
    }
}

/// A whole number above what the costs come to.
pub open spec fn room_for(costs: Seq<Dec>) -> int
    decreases costs.len(),
{
    if costs.len() == 0 {
        1
    } else {
        room_for(costs.drop_last()) + ceiling(costs.last()) + 1
    }
}

/// Costs there is room to add up.
pub open spec fn addable(costs: Seq<Dec>) -> bool {
    &&& forall|i: int| 0 <= i < costs.len() ==> (#[trigger] costs[i]).valid()
    &&& room_for(costs) <= MAX_MANTISSA
}

proof fn lemma_room_grows(costs: Seq<Dec>, k: int)
    requires
        0 <= k <= costs.len(),
    ensures
        room_for(costs.take(k)) <= room_for(costs),
        room_for(costs.take(k)) >= 1,
    decreases costs.len() - k, k,
{
    if k == costs.len() {
        assert(costs.take(k) =~= costs);
        if k > 0 {
            lemma_ceiling(costs.last());
            assert(costs.drop_last() =~= costs.drop_last().take(k - 1));
            lemma_room_grows(costs.drop_last(), k - 1);
        }
    } else {
        lemma_ceiling(costs[k]);
        lemma_room_grows(costs, k + 1);
        assert(costs.take(k + 1).drop_last() =~= costs.take(k));
        assert(costs.take(k + 1).last() == costs[k]);
        lemma_room_grows(costs.take(k), k);
        assert(costs.take(k).take(k) =~= costs.take(k));
    }
}

/// What a branch's day of labour costs, in whole piastres, halves to the even
/// one; nothing where an `i64` cannot hold it.
pub fn labour_of_day(costs: &Vec<Dec>) -> (r: i64)
    requires
        addable(costs@),
    ensures
        r == match as_i64(half_even(added_up(costs@))) {
            Some(n) => n,
            None => 0,
        },
{
    let mut sum: Dec = Dec { mantissa: 0, scale: 0 };
    let mut i: usize = 0;
    proof {
        assert(power10(0) == 1);
        assert(costs@.take(0) =~= Seq::empty());
    }
    while i < costs.len()
        invariant
            i <= costs@.len(),
            addable(costs@),
            sum.valid(),
            sum == added_up(costs@.take(i as int)),
            ceiling(sum) <= room_for(costs@.take(i as int)),
        decreases costs@.len() - i,
    {
        proof {
            let next = costs@.take(i + 1);
            assert(next.drop_last() =~= costs@.take(i as int));
            assert(next.last() == costs@[i as int]);
            lemma_room_grows(costs@, i + 1);
            assert(costs@[i as int].valid());
        }
        sum = plus(sum, costs[i]);
        i += 1;
    }
    assert(costs@.take(costs@.len() as int) =~= costs@);
    let n: i128 = rounded_even(sum);
    if n >= i64::MIN as i128 && n <= i64::MAX as i128 {
        n as i64
    } else {
        0
    }
}

/// A multiplier of one or less pays no premium: the labour is the worked
/// minutes' price alone.
pub proof fn law_no_premium_without_a_multiplier(worked: Dec, overtime: Dec, multiplier: Dec)
    requires
        !difference(multiplier.mantissa as int, multiplier.scale as int, 1, 0).above(0),
    ensures
        premium(multiplier) == zero(),
        cost_of(worked, overtime, multiplier) == ({
            let extra = product(overtime.mantissa as int, overtime.scale as int, 0, 0);
            total(
                worked.mantissa as int,
                worked.scale as int,
                extra.mantissa as int,
                extra.scale as int,
            )
        }),
{
}

/// Labour as a share of sales, in basis points; none without sales.
pub fn labour_share(labour: i64, sales: i64) -> (r: Option<i128>)
    ensures
        r == if sales > 0 {
            Some(whole_units(labour * 10_000, sales as int) as i128)
        } else {
            None::<i128>
        },
        r is Some <==> sales > 0,
        r is Some && labour >= 0 ==> r->0 * sales <= labour * 10_000 < (r->0 + 1) * sales,
        r is Some && labour < 0 ==> (r->0 - 1) * sales < labour * 10_000 <= r->0 * sales,
{
    proof {
        if sales > 0 {
            let n = if labour >= 0 {
                labour * 10_000
            } else {
                -(labour * 10_000)
            };
            let q = n / sales as int;
            assert(q * sales <= n < (q + 1) * sales) by (nonlinear_arith)
                requires
                    sales > 0,
                    q == n / sales as int,
            ;
            assert((-q) * sales == -(q * sales) && (-q - 1) * sales == -((q + 1) * sales))
                by (nonlinear_arith);
        }
    }
    if sales > 0 {
        let scaled: i128 = labour as i128 * 10_000;
        if scaled >= 0 {
            Some(scaled / sales as i128)
        } else {
            Some(-((-scaled) / sales as i128))
        }
    } else {
        None
    }
}

/// A salary advance of the report.
pub struct SalaryAdvanceRow {
    pub amount_piastres: i64,
    pub remaining_piastres: i64,
    /// `pending` · `approved` · `rejected` · …
    pub status: String,
}

/// Given out: approved, or settled since.
pub open spec fn given_out(rows: Seq<SalaryAdvanceRow>) -> int
    decreases rows.len(),
{
    if rows.len() == 0 {
        0
    } else {
        let s = rows.last().status@;
        given_out(rows.drop_last()) + if s == "approved"@ || s == "settled"@ {
            rows.last().amount_piastres as int
        } else {
            0
        }
    }
}

/// Still owed: what is left of the approved ones.
pub open spec fn outstanding(rows: Seq<SalaryAdvanceRow>) -> int
    decreases rows.len(),
{
    if rows.len() == 0 {
        0
    } else {
        outstanding(rows.drop_last()) + if rows.last().status@ == "approved"@ {
            rows.last().remaining_piastres as int
        } else {
            0
        }
    }
}

/// The sum of the amounts.
pub open spec fn sum_of(amounts: Seq<i64>) -> int
    decreases amounts.len(),
{
    if amounts.len() == 0 {
        0
    } else {
        sum_of(amounts.drop_last()) + amounts.last()
    }
}

/// The totals of the advances report.
#[derive(Debug, Clone, Copy, PartialEq, Eq, Structural)]
pub struct AdvanceTotals {
    pub salary_given_piastres: i128,
    pub salary_outstanding_piastres: i128,
    pub expense_given_piastres: i128,
}

/// Advances given, and what is still owed. Cash for shop purchases is a log,
/// never deducted.
pub fn advances(salary: &Vec<SalaryAdvanceRow>, expense: &Vec<i64>) -> (r: AdvanceTotals)
    ensures
        r.salary_given_piastres == given_out(salary@),
        r.salary_outstanding_piastres == outstanding(salary@),
        r.expense_given_piastres == sum_of(expense@),
{
    let mut gave: i128 = 0;
    let mut owed: i128 = 0;
    let mut i: usize = 0;
    while i < salary.len()
        invariant
            i <= salary@.len(),
            gave == given_out(salary@.take(i as int)),
            owed == outstanding(salary@.take(i as int)),
            -(i * 9_223_372_036_854_775_808) <= gave <= i * 9_223_372_036_854_775_808,
            -(i * 9_223_372_036_854_775_808) <= owed <= i * 9_223_372_036_854_775_808,
        decreases salary@.len() - i,
    {
        assert(salary@.take(i + 1).drop_last() =~= salary@.take(i as int));
        let approved: bool = same_text(salary[i].status.as_str(), "approved");
        let settled: bool = same_text(salary[i].status.as_str(), "settled");
        if approved || settled {
            gave = gave + salary[i].amount_piastres as i128;
        }
        if approved {
            owed = owed + salary[i].remaining_piastres as i128;
        }
        i += 1;
    }
    assert(salary@.take(salary@.len() as int) =~= salary@);
    let mut spent: i128 = 0;
    let mut j: usize = 0;
    while j < expense.len()
        invariant
            j <= expense@.len(),
            spent == sum_of(expense@.take(j as int)),
            -(j * 9_223_372_036_854_775_808) <= spent <= j * 9_223_372_036_854_775_808,
        decreases expense@.len() - j,
    {
        assert(expense@.take(j + 1).drop_last() =~= expense@.take(j as int));
        spent = spent + expense[j] as i128;
        j += 1;
    }
    assert(expense@.take(expense@.len() as int) =~= expense@);
    AdvanceTotals {
        salary_given_piastres: gave,
        salary_outstanding_piastres: owed,
        expense_given_piastres: spent,
    }
}

/// What was given does not depend on what was repaid, nor what is owed on what
/// was given: two lists alike in amount and status give the same total given,
/// and two alike in what remains and status the same total owed.
pub proof fn law_repaying_changes_nothing_given(
    a: Seq<SalaryAdvanceRow>,
    b: Seq<SalaryAdvanceRow>,
)
    requires
        a.len() == b.len(),
        forall|i: int| 0 <= i < a.len() ==> (#[trigger] a[i]).status@ == b[i].status@,
    ensures
        (forall|i: int| 0 <= i < a.len() ==> (#[trigger] a[i]).amount_piastres
            == b[i].amount_piastres) ==> given_out(a) == given_out(b),
        (forall|i: int| 0 <= i < a.len() ==> (#[trigger] a[i]).remaining_piastres
            == b[i].remaining_piastres) ==> outstanding(a) == outstanding(b),
    decreases a.len(),
{
    if a.len() > 0 {
        let x = a.drop_last();
        let y = b.drop_last();
        assert forall|i: int| 0 <= i < x.len() implies #[trigger] x[i] == a[i] && y[i] == b[i] by {}
        law_repaying_changes_nothing_given(x, y);
        assert(a[a.len() - 1] == a.last() && b[b.len() - 1] == b.last());
    }
}

/// Each advance approved or settled gives its amount, and each approved one owes
/// what remains of it; an advance in any other state gives and owes nothing. So
/// a list of a single approved or settled advance gives exactly its amount.
pub proof fn law_an_advance_gives_its_amount(rows: Seq<SalaryAdvanceRow>, x: SalaryAdvanceRow)
    ensures
        ({
            let gave = given_out(rows.push(x)) - given_out(rows);
            let owes = outstanding(rows.push(x)) - outstanding(rows);
            &&& x.status@ == "approved"@ ==> gave == x.amount_piastres && owes
                == x.remaining_piastres
            &&& x.status@ == "settled"@ ==> gave == x.amount_piastres && owes == 0
            &&& x.status@ != "approved"@ && x.status@ != "settled"@ ==> gave == 0 && owes == 0
        }),
        x.status@ == "approved"@ || x.status@ == "settled"@ ==> given_out(seq![x])
            == x.amount_piastres,
        x.status@ == "approved"@ ==> outstanding(seq![x]) == x.remaining_piastres,
        given_out(Seq::empty()) == 0,
        outstanding(Seq::empty()) == 0,
{
    assert(rows.push(x).drop_last() =~= rows);
    assert(seq![x].drop_last() =~= Seq::empty());
    reveal_strlit("approved");
    reveal_strlit("settled");
    assert("approved"@.len() != "settled"@.len());
    assert(given_out(seq![x].drop_last()) == 0);
    assert(outstanding(seq![x].drop_last()) == 0);
}

/// The totals of two lists add up to those of both.
pub proof fn law_advances_add_up(a: Seq<SalaryAdvanceRow>, b: Seq<SalaryAdvanceRow>)
    ensures
        given_out(a + b) == given_out(a) + given_out(b),
        outstanding(a + b) == outstanding(a) + outstanding(b),
    decreases b.len(),
{
    if b.len() > 0 {
        assert((a + b).drop_last() =~= a + b.drop_last());
        law_advances_add_up(a, b.drop_last());
    } else {
        assert(a + b =~= a);
    }
}

/// Every expense counts in full: one more adds its amount.
pub proof fn law_every_expense_counts(amounts: Seq<i64>, x: i64)
    ensures
        sum_of(amounts.push(x)) == sum_of(amounts) + x,
        sum_of(Seq::empty()) == 0,
{
    assert(amounts.push(x).drop_last() =~= amounts);
}

/// A sale counts in full on its own day at its own branch, and nowhere else.
pub proof fn law_a_sale_counts_on_its_day(sales: Seq<DaySales>, x: DaySales, d: BranchDay)
    ensures
        sold_on(sales.push(x), d) == sold_on(sales, d) + if x.day == d {
            x.amount as int
        } else {
            0
        },
        sold_on(Seq::empty(), d) == 0,
{
    assert(sales.push(x).drop_last() =~= sales);
}

/// A sale counts where its day is in the range, both ends with it.
pub proof fn law_sales_of_the_range_count(sales: Seq<DaySales>, x: DaySales, from: Day, to: Day)
    ensures
        sales_within(sales.push(x), from, to) == if from <= x.day.date && x.day.date <= to {
            sales_within(sales, from, to).push(x)
        } else {
            sales_within(sales, from, to)
        },
{
    reveal(Seq::filter);
    assert(sales.push(x).drop_last() =~= sales);
}

/// The records priced for a day are just those of the day.
pub proof fn law_a_days_records_are_its_own(records: Seq<BranchDay>, d: BranchDay, k: int)
    ensures
        worked_on_day(records, d).contains(k) <==> 0 <= k < records.len() && records[k] == d,
    decreases records.len(),
{
    broadcast use vstd::seq_lib::group_seq_properties;

    if records.len() > 0 {
        law_a_days_records_are_its_own(records.drop_last(), d, k);
    }
}

/// A report's range runs forward and spans at most four hundred days.
pub proof fn law_a_report_spans_so_many_days(from: Day, to: Day)
    ensures
        report_refused(from, to) is None <==> from <= to && to - from <= 400,
{
}

/// A report has a row for each branch and day with work, or with sales in the
/// range; each once, in order, and no other.
pub proof fn law_a_report_has_a_row_for_each_day(
    records: Seq<BranchDay>,
    sales: Seq<DaySales>,
    from: Day,
    to: Day,
    d: BranchDay,
)
    ensures
        report_days(records, sales, from, to).contains(d) <==> records.contains(d) || exists|i: int|
            0 <= i < sales.len() && (#[trigger] sales[i]).day == d && from <= d.date && d.date
                <= to,
        in_order(report_days(records, sales, from, to)),
{
    let kept = sales_within(sales, from, to);
    let f = |s: DaySales| from <= s.day.date <= to;
    let list = records + sale_days(kept);
    law_sorted_once(list);
    assert(list.contains(d) <==> records.contains(d) || sale_days(kept).contains(d)) by {
        if records.contains(d) {
            let i = choose|i: int| 0 <= i < records.len() && records[i] == d;
            assert(list[i] == d);
        }
        if sale_days(kept).contains(d) {
            let i = choose|i: int| 0 <= i < kept.len() && sale_days(kept)[i] == d;
            assert(list[records.len() + i] == d);
        }
        if list.contains(d) && !records.contains(d) {
            let i = choose|i: int| 0 <= i < list.len() && list[i] == d;
            if i < records.len() {
                assert(records[i] == d);
            }
            assert(sale_days(kept)[i - records.len()] == d);
        }
    }
    if sale_days(kept).contains(d) {
        let i = choose|i: int| 0 <= i < kept.len() && sale_days(kept)[i] == d;
        assert(kept.contains(kept[i]));
        sales.lemma_filter_contains_rev(f, kept[i]);
        sales.lemma_filter_pred(f, i);
        let k = choose|k: int| 0 <= k < sales.len() && sales[k] == kept[i];
        assert(sales[k].day == d);
    }
    if exists|i: int|
        0 <= i < sales.len() && (#[trigger] sales[i]).day == d && from <= d.date && d.date <= to {
        let i = choose|i: int|
            0 <= i < sales.len() && (#[trigger] sales[i]).day == d && from <= d.date && d.date
                <= to;
        sales.lemma_filter_contains(f, i);
        let k = choose|k: int| 0 <= k < kept.len() && kept[k] == sales[i];
        assert(sale_days(kept)[k] == d);
    }
}

} // verus!
