//! The attendance rules: which there are, what they may be set to, and how a
//! branch's rules lie over the business's.

use vstd::prelude::*;

use crate::calendar::{ClockTime, Id};
use crate::decimal::{is_above, is_below, power10, Dec};
use crate::errors::{bad_request, either, outcome, refusal, unless, AppError, ErrorView, Var, VarView};
use crate::text::{
    has_text, int_chars, int_text, join, join3, join_all, joined, nat_chars, nat_text, same_text,
    texts,
};

verus! {

/// How a step of the lateness ladder is charged.
#[derive(Clone, Copy, Debug, PartialEq, Eq, Structural)]
pub enum LateDeductionKind {
    Minutes,
    DayFraction,
}

/// One step of the lateness ladder.
#[derive(Clone, Copy, Debug)]
pub struct LateTier {
    pub from_minutes: i32,
    pub to_minutes: Option<i32>,
    pub kind: LateDeductionKind,
    pub value: Dec,
}

/// One stored rule: its column, the built-in default (SQL), and whether a
/// branch may override it. The pay period, the advance cap and the gender mode
/// are the business's alone: payroll runs for the whole business and the gender
/// mode is a roster setting of the owner's.
#[derive(Clone, Copy, Debug, PartialEq, Eq, Structural)]
pub enum RuleField {
    LateDeductionTiers,
    AbsenceDeductionDays,
    DefaultOvertimeMultiplier,
    AutoCheckoutBufferMinutes,
    WorkingDaysPerMonth,
    RequireGeofence,
    ExcusedTimePaidDefault,
    PeriodStartDay,
    OvertimeMode,
    OvertimeDayMultiplier,
    OvertimeNightMultiplier,
    HolidayMultiplier,
    AdvanceCapPercent,
    HalfDayLeaveCounts,
    NightStart,
    NightEnd,
    GenderMode,
    LimitDayHours,
    LimitWeekHours,
    LimitPresenceHours,
    LimitRestHours,
    LimitOvertimeDayHours,
    OrdersPerStaff,
}

impl RuleField {
    /// The rule's column, which is its name on the wire.
    pub open spec fn column(self) -> Seq<char> {
        match self {
            RuleField::LateDeductionTiers => "late_deduction_tiers"@,
            RuleField::AbsenceDeductionDays => "absence_deduction_days"@,
            RuleField::DefaultOvertimeMultiplier => "default_overtime_multiplier"@,
            RuleField::AutoCheckoutBufferMinutes => "auto_checkout_buffer_minutes"@,
            RuleField::WorkingDaysPerMonth => "working_days_per_month"@,
            RuleField::RequireGeofence => "require_geofence"@,
            RuleField::ExcusedTimePaidDefault => "excused_time_paid_default"@,
            RuleField::PeriodStartDay => "period_start_day"@,
            RuleField::OvertimeMode => "overtime_mode"@,
            RuleField::OvertimeDayMultiplier => "overtime_day_multiplier"@,
            RuleField::OvertimeNightMultiplier => "overtime_night_multiplier"@,
            RuleField::HolidayMultiplier => "holiday_multiplier"@,
            RuleField::AdvanceCapPercent => "advance_cap_percent"@,
            RuleField::HalfDayLeaveCounts => "half_day_leave_counts"@,
            RuleField::NightStart => "night_start"@,
            RuleField::NightEnd => "night_end"@,
            RuleField::GenderMode => "gender_mode"@,
            RuleField::LimitDayHours => "limit_day_hours"@,
            RuleField::LimitWeekHours => "limit_week_hours"@,
            RuleField::LimitPresenceHours => "limit_presence_hours"@,
            RuleField::LimitRestHours => "limit_rest_hours"@,
            RuleField::LimitOvertimeDayHours => "limit_overtime_day_hours"@,
            RuleField::OrdersPerStaff => "orders_per_staff"@,
        }
    }

    /// The built-in default, in SQL.
    pub open spec fn fallback(self) -> Seq<char> {
        match self {
            RuleField::LateDeductionTiers => "'[]'::jsonb"@,
            RuleField::AbsenceDeductionDays => "1.00"@,
            RuleField::DefaultOvertimeMultiplier => "1.50"@,
            RuleField::AutoCheckoutBufferMinutes => "120"@,
            RuleField::WorkingDaysPerMonth => "30.00"@,
            RuleField::RequireGeofence => "TRUE"@,
            RuleField::ExcusedTimePaidDefault => "TRUE"@,
            RuleField::PeriodStartDay => "26::smallint"@,
            RuleField::OvertimeMode => "'off'"@,
            RuleField::OvertimeDayMultiplier => "1.35"@,
            RuleField::OvertimeNightMultiplier => "1.70"@,
            RuleField::HolidayMultiplier => "2.00"@,
            RuleField::AdvanceCapPercent => "50"@,
            RuleField::HalfDayLeaveCounts => "'half_shift'"@,
            RuleField::NightStart => "'22:00'::time"@,
            RuleField::NightEnd => "'06:00'::time"@,
            RuleField::GenderMode => "'soft'"@,
            RuleField::LimitDayHours => "8"@,
            RuleField::LimitWeekHours => "48"@,
            RuleField::LimitPresenceHours => "10"@,
            RuleField::LimitRestHours => "12"@,
            RuleField::LimitOvertimeDayHours => "2"@,
            RuleField::OrdersPerStaff => "12"@,
        }
    }

    /// Whether a branch may override the rule.
    pub open spec fn of_branch(self) -> bool {
        self != RuleField::PeriodStartDay && self != RuleField::AdvanceCapPercent && self
            != RuleField::GenderMode
    }

    /// The rule's column, which is its name on the wire.
    pub fn name(&self) -> (r: &'static str)
        ensures
            r@ == self.column(),
    {
        match self {
            RuleField::LateDeductionTiers => "late_deduction_tiers",
            RuleField::AbsenceDeductionDays => "absence_deduction_days",
            RuleField::DefaultOvertimeMultiplier => "default_overtime_multiplier",
            RuleField::AutoCheckoutBufferMinutes => "auto_checkout_buffer_minutes",
            RuleField::WorkingDaysPerMonth => "working_days_per_month",
            RuleField::RequireGeofence => "require_geofence",
            RuleField::ExcusedTimePaidDefault => "excused_time_paid_default",
            RuleField::PeriodStartDay => "period_start_day",
            RuleField::OvertimeMode => "overtime_mode",
            RuleField::OvertimeDayMultiplier => "overtime_day_multiplier",
            RuleField::OvertimeNightMultiplier => "overtime_night_multiplier",
            RuleField::HolidayMultiplier => "holiday_multiplier",
            RuleField::AdvanceCapPercent => "advance_cap_percent",
            RuleField::HalfDayLeaveCounts => "half_day_leave_counts",
            RuleField::NightStart => "night_start",
            RuleField::NightEnd => "night_end",
            RuleField::GenderMode => "gender_mode",
            RuleField::LimitDayHours => "limit_day_hours",
            RuleField::LimitWeekHours => "limit_week_hours",
            RuleField::LimitPresenceHours => "limit_presence_hours",
            RuleField::LimitRestHours => "limit_rest_hours",
            RuleField::LimitOvertimeDayHours => "limit_overtime_day_hours",
            RuleField::OrdersPerStaff => "orders_per_staff",
        }
    }

    /// The built-in default, in SQL.
    pub fn default_sql(&self) -> (r: &'static str)
        ensures
            r@ == self.fallback(),
    {
        match self {
            RuleField::LateDeductionTiers => "'[]'::jsonb",
            RuleField::AbsenceDeductionDays => "1.00",
            RuleField::DefaultOvertimeMultiplier => "1.50",
            RuleField::AutoCheckoutBufferMinutes => "120",
            RuleField::WorkingDaysPerMonth => "30.00",
            RuleField::RequireGeofence => "TRUE",
            RuleField::ExcusedTimePaidDefault => "TRUE",
            RuleField::PeriodStartDay => "26::smallint",
            RuleField::OvertimeMode => "'off'",
            RuleField::OvertimeDayMultiplier => "1.35",
            RuleField::OvertimeNightMultiplier => "1.70",
            RuleField::HolidayMultiplier => "2.00",
            RuleField::AdvanceCapPercent => "50",
            RuleField::HalfDayLeaveCounts => "'half_shift'",
            RuleField::NightStart => "'22:00'::time",
            RuleField::NightEnd => "'06:00'::time",
            RuleField::GenderMode => "'soft'",
            RuleField::LimitDayHours => "8",
            RuleField::LimitWeekHours => "48",
            RuleField::LimitPresenceHours => "10",
            RuleField::LimitRestHours => "12",
            RuleField::LimitOvertimeDayHours => "2",
            RuleField::OrdersPerStaff => "12",
        }
    }

    /// Whether a branch may override the rule.
    pub fn branch(&self) -> (r: bool)
        ensures
            r == self.of_branch(),
    {
        match self {
            RuleField::PeriodStartDay | RuleField::AdvanceCapPercent | RuleField::GenderMode => false,
            _ => true,
        }
    }
}

/// Every rule, in order.
pub open spec fn all_rules() -> Seq<RuleField> {
    seq![
        RuleField::LateDeductionTiers,
        RuleField::AbsenceDeductionDays,
        RuleField::DefaultOvertimeMultiplier,
        RuleField::AutoCheckoutBufferMinutes,
        RuleField::WorkingDaysPerMonth,
        RuleField::RequireGeofence,
        RuleField::ExcusedTimePaidDefault,
        RuleField::PeriodStartDay,
        RuleField::OvertimeMode,
        RuleField::OvertimeDayMultiplier,
        RuleField::OvertimeNightMultiplier,
        RuleField::HolidayMultiplier,
        RuleField::AdvanceCapPercent,
        RuleField::HalfDayLeaveCounts,
        RuleField::NightStart,
        RuleField::NightEnd,
        RuleField::GenderMode,
        RuleField::LimitDayHours,
        RuleField::LimitWeekHours,
        RuleField::LimitPresenceHours,
        RuleField::LimitRestHours,
        RuleField::LimitOvertimeDayHours,
        RuleField::OrdersPerStaff,
    ]
}

/// Every rule, in order.
pub fn rule_fields() -> (r: Vec<RuleField>)
    ensures
        r@ == all_rules(),
{
    let r: Vec<RuleField> = vec![
        RuleField::LateDeductionTiers,
        RuleField::AbsenceDeductionDays,
        RuleField::DefaultOvertimeMultiplier,
        RuleField::AutoCheckoutBufferMinutes,
        RuleField::WorkingDaysPerMonth,
        RuleField::RequireGeofence,
        RuleField::ExcusedTimePaidDefault,
        RuleField::PeriodStartDay,
        RuleField::OvertimeMode,
        RuleField::OvertimeDayMultiplier,
        RuleField::OvertimeNightMultiplier,
        RuleField::HolidayMultiplier,
        RuleField::AdvanceCapPercent,
        RuleField::HalfDayLeaveCounts,
        RuleField::NightStart,
        RuleField::NightEnd,
        RuleField::GenderMode,
        RuleField::LimitDayHours,
        RuleField::LimitWeekHours,
        RuleField::LimitPresenceHours,
        RuleField::LimitRestHours,
        RuleField::LimitOvertimeDayHours,
        RuleField::OrdersPerStaff,
    ];
    assert(r@ =~= all_rules());
    r
}

/// A change of the rules. A rule that is not sent stays as it is.
pub struct PutAttendanceSettingsRequest {
    /// `None` = the business's own row.
    pub branch_id: Option<Id>,
    pub late_deduction_tiers: Option<Vec<LateTier>>,
    pub absence_deduction_days: Option<Dec>,
    pub default_overtime_multiplier: Option<Dec>,
    pub auto_checkout_buffer_minutes: Option<i32>,
    pub working_days_per_month: Option<Dec>,
    pub require_geofence: Option<bool>,
    pub excused_time_paid_default: Option<bool>,
    pub period_start_day: Option<i16>,
    pub overtime_mode: Option<String>,
    pub overtime_day_multiplier: Option<Dec>,
    pub overtime_night_multiplier: Option<Dec>,
    pub holiday_multiplier: Option<Dec>,
    pub advance_cap_percent: Option<Dec>,
    pub half_day_leave_counts: Option<String>,
    pub night_start: Option<ClockTime>,
    pub night_end: Option<ClockTime>,
    pub gender_mode: Option<String>,
    pub limit_day_hours: Option<Dec>,
    pub limit_week_hours: Option<Dec>,
    pub limit_presence_hours: Option<Dec>,
    pub limit_rest_hours: Option<Dec>,
    pub limit_overtime_day_hours: Option<Dec>,
    pub orders_per_staff: Option<i32>,
    /// For a branch: the rules it goes back to following the business on.
    pub inherit: Option<Vec<String>>,
}

/// Whether a rule is sent.
pub open spec fn sent(f: RuleField, body: PutAttendanceSettingsRequest) -> bool {
    match f {
        RuleField::LateDeductionTiers => body.late_deduction_tiers is Some,
        RuleField::AbsenceDeductionDays => body.absence_deduction_days is Some,
        RuleField::DefaultOvertimeMultiplier => body.default_overtime_multiplier is Some,
        RuleField::AutoCheckoutBufferMinutes => body.auto_checkout_buffer_minutes is Some,
        RuleField::WorkingDaysPerMonth => body.working_days_per_month is Some,
        RuleField::RequireGeofence => body.require_geofence is Some,
        RuleField::ExcusedTimePaidDefault => body.excused_time_paid_default is Some,
        RuleField::PeriodStartDay => body.period_start_day is Some,
        RuleField::OvertimeMode => body.overtime_mode is Some,
        RuleField::OvertimeDayMultiplier => body.overtime_day_multiplier is Some,
        RuleField::OvertimeNightMultiplier => body.overtime_night_multiplier is Some,
        RuleField::HolidayMultiplier => body.holiday_multiplier is Some,
        RuleField::AdvanceCapPercent => body.advance_cap_percent is Some,
        RuleField::HalfDayLeaveCounts => body.half_day_leave_counts is Some,
        RuleField::NightStart => body.night_start is Some,
        RuleField::NightEnd => body.night_end is Some,
        RuleField::GenderMode => body.gender_mode is Some,
        RuleField::LimitDayHours => body.limit_day_hours is Some,
        RuleField::LimitWeekHours => body.limit_week_hours is Some,
        RuleField::LimitPresenceHours => body.limit_presence_hours is Some,
        RuleField::LimitRestHours => body.limit_rest_hours is Some,
        RuleField::LimitOvertimeDayHours => body.limit_overtime_day_hours is Some,
        RuleField::OrdersPerStaff => body.orders_per_staff is Some,
    }
}

/// Was this rule sent?
pub fn rule_sent(f: RuleField, body: &PutAttendanceSettingsRequest) -> (r: bool)
    ensures
        r == sent(f, *body),
{
    match f {
        RuleField::LateDeductionTiers => body.late_deduction_tiers.is_some(),
        RuleField::AbsenceDeductionDays => body.absence_deduction_days.is_some(),
        RuleField::DefaultOvertimeMultiplier => body.default_overtime_multiplier.is_some(),
        RuleField::AutoCheckoutBufferMinutes => body.auto_checkout_buffer_minutes.is_some(),
        RuleField::WorkingDaysPerMonth => body.working_days_per_month.is_some(),
        RuleField::RequireGeofence => body.require_geofence.is_some(),
        RuleField::ExcusedTimePaidDefault => body.excused_time_paid_default.is_some(),
        RuleField::PeriodStartDay => body.period_start_day.is_some(),
        RuleField::OvertimeMode => body.overtime_mode.is_some(),
        RuleField::OvertimeDayMultiplier => body.overtime_day_multiplier.is_some(),
        RuleField::OvertimeNightMultiplier => body.overtime_night_multiplier.is_some(),
        RuleField::HolidayMultiplier => body.holiday_multiplier.is_some(),
        RuleField::AdvanceCapPercent => body.advance_cap_percent.is_some(),
        RuleField::HalfDayLeaveCounts => body.half_day_leave_counts.is_some(),
        RuleField::NightStart => body.night_start.is_some(),
        RuleField::NightEnd => body.night_end.is_some(),
        RuleField::GenderMode => body.gender_mode.is_some(),
        RuleField::LimitDayHours => body.limit_day_hours.is_some(),
        RuleField::LimitWeekHours => body.limit_week_hours.is_some(),
        RuleField::LimitPresenceHours => body.limit_presence_hours.is_some(),
        RuleField::LimitRestHours => body.limit_rest_hours.is_some(),
        RuleField::LimitOvertimeDayHours => body.limit_overtime_day_hours.is_some(),
        RuleField::OrdersPerStaff => body.orders_per_staff.is_some(),
    }
}

/// The rules of a list a branch may override.
pub open spec fn of_branches(list: Seq<RuleField>) -> Seq<RuleField> {
    list.filter(|f: RuleField| f.of_branch())
}

/// The columns of a list of rules.
pub open spec fn columns(list: Seq<RuleField>) -> Seq<Seq<char>> {
    Seq::new(list.len(), |i: int| list[i].column())
}

/// The rules that apply to a row: every one for the business's, those a branch
/// may override for a branch's.
pub open spec fn row_rules(branch: bool) -> Seq<RuleField> {
    if branch {
        of_branches(all_rules())
    } else {
        all_rules()
    }
}

/// The rules that apply to a row.
pub fn fields_of_row(branch: bool) -> (r: Vec<RuleField>)
    ensures
        r@ == row_rules(branch),
{
    let all: Vec<RuleField> = rule_fields();
    if !branch {
        return all;
    }
    let ghost keep = |f: RuleField| f.of_branch();
    let mut out: Vec<RuleField> = Vec::new();
    let mut i: usize = 0;
    assert(all@.take(0).filter(keep) =~= Seq::empty());
    while i < all.len()
        invariant
            i <= all@.len(),
            keep == (|f: RuleField| f.of_branch()),
            out@ == all@.take(i as int).filter(keep),
        decreases all@.len() - i,
    {
        proof {
            assert(all@.take(i + 1).drop_last() =~= all@.take(i as int));
            reveal(Seq::filter);
        }
        if all[i].branch() {
            out.push(all[i]);
        }
        i += 1;
    }
    assert(all@.take(all@.len() as int) =~= all@);
    out
}

/// The texts of borrowed texts.
pub open spec fn said(list: Seq<&'static str>) -> Seq<Seq<char>> {
    Seq::new(list.len(), |i: int| list[i]@)
}

/// The rules a branch may override, by name (the wire's field names).
pub fn branch_rule_fields() -> (r: Vec<&'static str>)
    ensures
        said(r@) == columns(row_rules(true)),
{
    names_of(&fields_of_row(true))
}

fn names_of(fields: &Vec<RuleField>) -> (r: Vec<&'static str>)
    ensures
        said(r@) == columns(fields@),
{
    let mut out: Vec<&'static str> = Vec::new();
    let mut i: usize = 0;
    while i < fields.len()
        invariant
            i <= fields@.len(),
            out@.len() == i,
            forall|k: int| 0 <= k < i ==> (#[trigger] out@[k])@ == fields@[k].column(),
        decreases fields@.len() - i,
    {
        out.push(fields[i].name());
        i += 1;
    }
    assert(said(out@) =~= columns(fields@));
    out
}

/// `CASE WHEN row.rule IS NOT NULL THEN 'rule' END`.
pub open spec fn overridden_part(row: Seq<char>, f: RuleField) -> Seq<char> {
    "CASE WHEN "@ + row + "."@ + f.column() + " IS NOT NULL THEN '"@ + f.column() + "' END"@
}

/// `ARRAY['rule', …]` of a branch row's non-NULL overridable columns.
pub open spec fn overridden_text(row: Seq<char>) -> Seq<char> {
    "COALESCE(array_remove(ARRAY["@ + joined(
        row_rules(true).map_values(|f: RuleField| overridden_part(row, f)),
        ", "@,
    ) + "]::text[], NULL), '{}'::text[])"@
}

/// `ARRAY['field', …]` of the branch row's non-NULL overridable columns.
pub fn overridden_sql(row: &str) -> (r: String)
    ensures
        r@ == overridden_text(row@),
{
    let fields: Vec<RuleField> = fields_of_row(true);
    let mut parts: Vec<String> = Vec::new();
    let mut i: usize = 0;
    while i < fields.len()
        invariant
            i <= fields@.len(),
            parts@.len() == i,
            forall|k: int|
                0 <= k < i ==> (#[trigger] parts@[k])@ == overridden_part(row@, fields@[k]),
        decreases fields@.len() - i,
    {
        let name: &'static str = fields[i].name();
        let mut part: String = join3("CASE WHEN ", row, ".");
        part.push_str(name);
        part.push_str(" IS NOT NULL THEN '");
        part.push_str(name);
        part.push_str("' END");
        parts.push(part);
        i += 1;
    }
    assert(texts(parts@) =~= row_rules(true).map_values(
        |f: RuleField| overridden_part(row@, f),
    ));
    join3(
        "COALESCE(array_remove(ARRAY[",
        join_all(&parts, ", ").as_str(),
        "]::text[], NULL), '{}'::text[])",
    )
}

/// A rule's effective value: the branch's where it may set one, else the
/// business's, else the built-in default.
pub open spec fn effective_part(f: RuleField) -> Seq<char> {
    if f.of_branch() {
        "COALESCE(b."@ + f.column() + ", o."@ + f.column() + ", "@ + f.fallback() + ") AS "@
            + f.column()
    } else {
        "COALESCE(o."@ + f.column() + ", "@ + f.fallback() + ") AS "@ + f.column()
    }
}

/// The query of the effective rules.
pub open spec fn effective_text() -> Seq<char> {
    "WITH o AS (SELECT * FROM attendance_settings WHERE org_id = $1 AND branch_id IS NULL), b AS (SELECT * FROM attendance_settings WHERE org_id = $1 AND $2::uuid IS NOT NULL AND branch_id = $2) SELECT COALESCE(b.id, o.id, '00000000-0000-0000-0000-000000000000'::uuid) AS id, $1::uuid AS org_id, $2::uuid AS branch_id, "@
        + joined(all_rules().map_values(|f: RuleField| effective_part(f)), ", "@)
        + ", o.rules_saved_at, COALESCE(b.created_at, o.created_at, now()) AS created_at, COALESCE(b.updated_at, o.updated_at, now()) AS updated_at, "@
        + overridden_text("b"@)
        + " AS overridden FROM (SELECT 1) one LEFT JOIN o ON true LEFT JOIN b ON true"@
}

/// The resolver: the business's row, with a branch's overrides laid over it
/// field by field, and the built-in defaults under both. One query, so it runs
/// on a pool, a connection or a transaction alike.
pub fn effective_settings_sql() -> (r: String)
    ensures
        r@ == effective_text(),
{
    let fields: Vec<RuleField> = rule_fields();
    let mut parts: Vec<String> = Vec::new();
    let mut i: usize = 0;
    while i < fields.len()
        invariant
            i <= fields@.len(),
            parts@.len() == i,
            forall|k: int| 0 <= k < i ==> (#[trigger] parts@[k])@ == effective_part(fields@[k]),
        decreases fields@.len() - i,
    {
        let f: RuleField = fields[i];
        let name: &'static str = f.name();
        let mut part: String = if f.branch() {
            join3("COALESCE(b.", name, ", o.")
        } else {
            "COALESCE(o.".to_owned()
        };
        part.push_str(name);
        part.push_str(", ");
        part.push_str(f.default_sql());
        part.push_str(") AS ");
        part.push_str(name);
        parts.push(part);
        i += 1;
    }
    assert(texts(parts@) =~= all_rules().map_values(|f: RuleField| effective_part(f)));
    let mut out: String = "WITH o AS (SELECT * FROM attendance_settings WHERE org_id = $1 AND branch_id IS NULL), b AS (SELECT * FROM attendance_settings WHERE org_id = $1 AND $2::uuid IS NOT NULL AND branch_id = $2) SELECT COALESCE(b.id, o.id, '00000000-0000-0000-0000-000000000000'::uuid) AS id, $1::uuid AS org_id, $2::uuid AS branch_id, ".to_owned();
    out.push_str(join_all(&parts, ", ").as_str());
    out.push_str(", o.rules_saved_at, COALESCE(b.created_at, o.created_at, now()) AS created_at, COALESCE(b.updated_at, o.updated_at, now()) AS updated_at, ");
    out.push_str(overridden_sql("b").as_str());
    out.push_str(" AS overridden FROM (SELECT 1) one LEFT JOIN o ON true LEFT JOIN b ON true");
    out
}

/// The ladder the set-up step starts from: a few minutes cost minutes, then a
/// quarter, a half and a whole day. A suggestion only — pricing uses a ladder
/// the owner saved, never this one.
pub fn suggested_tiers() -> (r: Vec<LateTier>)
    ensures
        r@ == seq![
            tier(1, Some(15), LateDeductionKind::Minutes, 15, 0),
            tier(16, Some(30), LateDeductionKind::DayFraction, 25, 2),
            tier(31, Some(60), LateDeductionKind::DayFraction, 50, 2),
            tier(61, None, LateDeductionKind::DayFraction, 1, 0),
        ],
{
    let r: Vec<LateTier> = vec![
        LateTier {
            from_minutes: 1,
            to_minutes: Some(15),
            kind: LateDeductionKind::Minutes,
            value: Dec { mantissa: 15, scale: 0 },
        },
        LateTier {
            from_minutes: 16,
            to_minutes: Some(30),
            kind: LateDeductionKind::DayFraction,
            value: Dec { mantissa: 25, scale: 2 },
        },
        LateTier {
            from_minutes: 31,
            to_minutes: Some(60),
            kind: LateDeductionKind::DayFraction,
            value: Dec { mantissa: 50, scale: 2 },
        },
        LateTier {
            from_minutes: 61,
            to_minutes: None,
            kind: LateDeductionKind::DayFraction,
            value: Dec { mantissa: 1, scale: 0 },
        },
    ];
    assert(r@ =~= seq![
        tier(1, Some(15), LateDeductionKind::Minutes, 15, 0),
        tier(16, Some(30), LateDeductionKind::DayFraction, 25, 2),
        tier(31, Some(60), LateDeductionKind::DayFraction, 50, 2),
        tier(61, None, LateDeductionKind::DayFraction, 1, 0),
    ]);
    r
}

/// A step of the ladder charged `mantissa / 10^scale`.
pub open spec fn tier(
    from: i32,
    to: Option<i32>,
    kind: LateDeductionKind,
    mantissa: i128,
    scale: u32,
) -> LateTier {
    LateTier { from_minutes: from, to_minutes: to, kind, value: Dec { mantissa, scale } }
}

/// The figures of the rules a request sends are decimals there is room for.
pub open spec fn valid_figures(body: PutAttendanceSettingsRequest) -> bool {
    &&& body.absence_deduction_days is Some ==> body.absence_deduction_days->0.valid()
    &&& body.default_overtime_multiplier is Some ==> body.default_overtime_multiplier->0.valid()
    &&& body.working_days_per_month is Some ==> body.working_days_per_month->0.valid()
    &&& body.overtime_day_multiplier is Some ==> body.overtime_day_multiplier->0.valid()
    &&& body.overtime_night_multiplier is Some ==> body.overtime_night_multiplier->0.valid()
    &&& body.holiday_multiplier is Some ==> body.holiday_multiplier->0.valid()
    &&& body.advance_cap_percent is Some ==> body.advance_cap_percent->0.valid()
    &&& body.limit_day_hours is Some ==> body.limit_day_hours->0.valid()
    &&& body.limit_week_hours is Some ==> body.limit_week_hours->0.valid()
    &&& body.limit_presence_hours is Some ==> body.limit_presence_hours->0.valid()
    &&& body.limit_rest_hours is Some ==> body.limit_rest_hours->0.valid()
    &&& body.limit_overtime_day_hours is Some ==> body.limit_overtime_day_hours->0.valid()
}

/// A bound on one rule.
pub struct Bound {
    pub field: RuleField,
    pub value: Option<Dec>,
    pub min: i64,
    pub min_in: bool,
    pub max: i64,
    pub max_in: bool,
}

impl Bound {
    /// The value sent is not within the bound.
    pub open spec fn broken(self) -> bool {
        self.value is Some && {
            ||| self.value->0.below(self.min as int)
            ||| self.value->0.above(self.max as int)
            ||| !self.min_in && !self.value->0.above(self.min as int)
            ||| !self.max_in && !self.value->0.below(self.max as int)
        }
    }

    /// What a value past the bound is answered.
    pub open spec fn refusal(self) -> ErrorView {
        setting_out(
            self.field.column(),
            self.field.column() + " must be "@ + (if self.min_in {
                "from"@
            } else {
                "above"@
            }) + " "@ + int_chars(self.min as int) + " and "@ + (if self.max_in {
                "up to"@
            } else {
                "below"@
            }) + " "@ + int_chars(self.max as int),
            seq![
                ("min"@, VarView::Text(int_chars(self.min as int))),
                ("max"@, VarView::Text(int_chars(self.max as int))),
                ("min_inclusive"@, VarView::Bool(self.min_in)),
                ("max_inclusive"@, VarView::Bool(self.max_in)),
            ],
        )
    }
}

/// The refusal of an impossible setting, with its figures and its name.
pub open spec fn setting_out(
    field: Seq<char>,
    why: Seq<char>,
    vars: Seq<(Seq<char>, VarView)>,
) -> ErrorView {
    ErrorView::CodedVars {
        status: 400,
        code: "SETTING_OUT_OF_RANGE"@,
        reason: why,
        vars: vars.push(("field"@, VarView::Text(field))),
    }
}

/// The first bound of a list that is broken.
pub open spec fn first_broken(bounds: Seq<Bound>) -> Option<ErrorView>
    decreases bounds.len(),
{
    if bounds.len() == 0 {
        None
    } else {
        match first_broken(bounds.drop_last()) {
            Some(e) => Some(e),
            None => if bounds.last().broken() {
                Some(bounds.last().refusal())
            } else {
                None
            },
        }
    }
}

/// A bound on a rule.
pub open spec fn bound(
    field: RuleField,
    value: Option<Dec>,
    min: i64,
    min_in: bool,
    max: i64,
    max_in: bool,
) -> Bound {
    Bound { field, value, min, min_in, max, max_in }
}

/// A whole number as a decimal.
pub open spec fn whole(n: Option<i32>) -> Option<Dec> {
    match n {
        Some(n) => Some(Dec { mantissa: n as i128, scale: 0 }),
        None => None,
    }
}

/// What each figure of the rules must be within.
pub open spec fn bounds_of(body: PutAttendanceSettingsRequest) -> Seq<Bound> {
    seq![
        bound(RuleField::OvertimeDayMultiplier, body.overtime_day_multiplier, 1, true, 100, false),
        bound(RuleField::OvertimeNightMultiplier, body.overtime_night_multiplier, 1, true, 100, false),
        bound(RuleField::HolidayMultiplier, body.holiday_multiplier, 1, true, 100, false),
        bound(RuleField::DefaultOvertimeMultiplier, body.default_overtime_multiplier, 1, true, 100, false),
        bound(RuleField::AdvanceCapPercent, body.advance_cap_percent, 0, true, 100, true),
        bound(RuleField::AbsenceDeductionDays, body.absence_deduction_days, 0, true, 31, true),
        bound(RuleField::WorkingDaysPerMonth, body.working_days_per_month, 0, false, 31, true),
        bound(RuleField::LimitDayHours, body.limit_day_hours, 0, false, 168, true),
        bound(RuleField::LimitWeekHours, body.limit_week_hours, 0, false, 168, true),
        bound(RuleField::LimitPresenceHours, body.limit_presence_hours, 0, false, 168, true),
        bound(RuleField::LimitRestHours, body.limit_rest_hours, 0, true, 168, true),
        bound(RuleField::LimitOvertimeDayHours, body.limit_overtime_day_hours, 0, true, 168, true),
        bound(RuleField::AutoCheckoutBufferMinutes, whole(body.auto_checkout_buffer_minutes), 0, true, 1440, true),
    ]
}

/// A whole number sent for a rule is not within `1..=max`.
pub open spec fn number_refused(field: RuleField, n: Option<int>, max: int) -> Option<ErrorView> {
    if n is Some && !(1 <= n->0 <= max) {
        Some(
            setting_out(
                field.column(),
                field.column() + " must be from 1 and up to "@ + int_chars(max),
                seq![("min"@, VarView::Int(1)), ("max"@, VarView::Int(max))],
            ),
        )
    } else {
        None
    }
}

/// A choice sent for a rule is not one of those there are.
pub open spec fn choice_refused(
    field: RuleField,
    value: Option<String>,
    allowed: Seq<Seq<char>>,
) -> Option<ErrorView> {
    if value is Some && !allowed.contains(value->0@) {
        Some(
            setting_out(
                field.column(),
                field.column() + " is one of "@ + joined(allowed, ", "@),
                seq![("allowed"@, VarView::Texts(allowed))],
            ),
        )
    } else {
        None
    }
}

/// What a change of the rules is refused for, if anything: the first figure
/// past its bound, then the first choice there is not.
pub open spec fn settings_refused(body: PutAttendanceSettingsRequest) -> Option<ErrorView> {
    either(
        first_broken(bounds_of(body)),
        either(
            number_refused(
                RuleField::OrdersPerStaff,
                match body.orders_per_staff {
                    Some(n) => Some(n as int),
                    None => None,
                },
                1000,
            ),
            either(
                number_refused(
                    RuleField::PeriodStartDay,
                    match body.period_start_day {
                        Some(n) => Some(n as int),
                        None => None,
                    },
                    28,
                ),
                either(
                    choice_refused(
                        RuleField::OvertimeMode,
                        body.overtime_mode,
                        seq!["off"@, "automatic"@, "approval"@],
                    ),
                    either(
                        choice_refused(
                            RuleField::HalfDayLeaveCounts,
                            body.half_day_leave_counts,
                            seq!["half_shift"@, "whole_day"@],
                        ),
                        choice_refused(
                            RuleField::GenderMode,
                            body.gender_mode,
                            seq!["off"@, "soft"@, "hard"@],
                        ),
                    ),
                ),
            ),
        ),
    )
}

/// Builds the refusal of an impossible setting.
fn out_of_range(field: RuleField, why: String, vars: Vec<(&'static str, Var)>) -> (e: AppError)
    ensures
        e@ == setting_out(field.column(), why@, crate::errors::vars_view(vars@)),
{
    let ghost before = crate::errors::vars_view(vars@);
    let mut vars: Vec<(&'static str, Var)> = vars;
    vars.push(("field", Var::Text(field.name().to_owned())));
    let e: AppError = AppError::CodedVars {
        status: 400,
        code: "SETTING_OUT_OF_RANGE",
        reason: why,
        vars,
    };
    assert(e@->CodedVars_vars =~= before.push(("field"@, VarView::Text(field.column()))));
    e
}

/// Refuses a figure past its bound.
fn check_bound(b: &Bound) -> (r: Result<(), AppError>)
    requires
        b.value is Some ==> b.value->0.valid(),
    ensures
        outcome(r) == unless(
            if b.broken() {
                Some(b.refusal())
            } else {
                None
            },
            (),
        ),
{
    let v: Dec = match b.value {
        Some(v) => v,
        None => {
            return Ok(());
        },
    };
    let low: bool = if b.min_in {
        is_below(v, b.min)
    } else {
        !is_above(v, b.min)
    };
    let high: bool = if b.max_in {
        is_above(v, b.max)
    } else {
        !is_below(v, b.max)
    };
    proof {
        let p = crate::decimal::power10(v.scale as int);
        assert(v.below(b.min as int) ==> !v.above(b.min as int));
        assert(v.above(b.max as int) ==> !v.below(b.max as int));
    }
    if !low && !high {
        return Ok(());
    }
    let min: String = int_text(b.min);
    let max: String = int_text(b.max);
    let mut why: String = join(b.field.name(), " must be ");
    why.push_str(
        if b.min_in {
            "from"
        } else {
            "above"
        },
    );
    why.push_str(" ");
    why.push_str(min.as_str());
    why.push_str(" and ");
    why.push_str(
        if b.max_in {
            "up to"
        } else {
            "below"
        },
    );
    why.push_str(" ");
    why.push_str(max.as_str());
    let vars: Vec<(&'static str, Var)> = vec![
        ("min", Var::Text(min)),
        ("max", Var::Text(max)),
        ("min_inclusive", Var::Bool(b.min_in)),
        ("max_inclusive", Var::Bool(b.max_in)),
    ];
    assert(crate::errors::vars_view(vars@) =~= seq![
        ("min"@, VarView::Text(int_chars(b.min as int))),
        ("max"@, VarView::Text(int_chars(b.max as int))),
        ("min_inclusive"@, VarView::Bool(b.min_in)),
        ("max_inclusive"@, VarView::Bool(b.max_in)),
    ]);
    Err(out_of_range(b.field, why, vars))
}

/// Refuses a whole number not within `1..=max`.
fn check_number(field: RuleField, n: Option<i64>, max: i64) -> (r: Result<(), AppError>)
    ensures
        outcome(r) == unless(
            number_refused(
                field,
                match n {
                    Some(n) => Some(n as int),
                    None => None,
                },
                max as int,
            ),
            (),
        ),
{
    match n {
        Some(n) => {
            if n >= 1 && n <= max {
                return Ok(());
            }
            let why: String = join3(
                field.name(),
                " must be from 1 and up to ",
                int_text(max).as_str(),
            );
            let vars: Vec<(&'static str, Var)> = vec![("min", Var::Int(1)), ("max", Var::Int(max))];
            assert(crate::errors::vars_view(vars@) =~= seq![
                ("min"@, VarView::Int(1)),
                ("max"@, VarView::Int(max as int)),
            ]);
            Err(out_of_range(field, why, vars))
        },
        None => Ok(()),
    }
}

/// Refuses a choice there is not.
fn check_choice(field: RuleField, value: &Option<String>, allowed: Vec<String>) -> (r: Result<
    (),
    AppError,
>)
    ensures
        outcome(r) == unless(choice_refused(field, *value, texts(allowed@)), ()),
{
    match value {
        Some(v) => {
            let known: bool = has_text(&allowed, v.as_str());
            proof {
                if known {
                    let i = choose|i: int|
                        0 <= i < allowed@.len() && (#[trigger] allowed@[i])@ == v@;
                    assert(texts(allowed@)[i] == v@);
                } else if texts(allowed@).contains(v@) {
                    let i = choose|i: int|
                        0 <= i < texts(allowed@).len() && texts(allowed@)[i] == v@;
                    assert(allowed@[i]@ == v@);
                }
            }
            if known {
                return Ok(());
            }
            let why: String = join3(
                field.name(),
                " is one of ",
                join_all(&allowed, ", ").as_str(),
            );
            let ghost names = texts(allowed@);
            let vars: Vec<(&'static str, Var)> = vec![("allowed", Var::Texts(allowed))];
            assert(vars@[0].1@ == VarView::Texts(names)) by {
                assert(Seq::new(allowed@.len(), |i: int| allowed@[i]@) =~= names);
            }
            assert(crate::errors::vars_view(vars@) =~= seq![("allowed"@, VarView::Texts(names))]);
            Err(out_of_range(field, why, vars))
        },
        None => Ok(()),
    }
}

/// A list of two texts.
fn two(a: &str, b: &str) -> (r: Vec<String>)
    ensures
        texts(r@) == seq![a@, b@],
{
    let r: Vec<String> = vec![a.to_owned(), b.to_owned()];
    assert(texts(r@) =~= seq![a@, b@]);
    r
}

/// A list of three texts.
fn three(a: &str, b: &str, c: &str) -> (r: Vec<String>)
    ensures
        texts(r@) == seq![a@, b@, c@],
{
    let r: Vec<String> = vec![a.to_owned(), b.to_owned(), c.to_owned()];
    assert(texts(r@) =~= seq![a@, b@, c@]);
    r
}

/// The bounds on the figures of a request.
fn list_bounds(body: &PutAttendanceSettingsRequest) -> (r: Vec<Bound>)
    requires
        valid_figures(*body),
    ensures
        r@ == bounds_of(*body),
        forall|i: int|
            0 <= i < r@.len() && (#[trigger] r@[i]).value is Some ==> r@[i].value->0.valid(),
{
    let buffer: Option<Dec> = match body.auto_checkout_buffer_minutes {
        Some(n) => Some(Dec { mantissa: n as i128, scale: 0 }),
        None => None,
    };
    let r: Vec<Bound> = vec![
        Bound { field: RuleField::OvertimeDayMultiplier, value: body.overtime_day_multiplier, min: 1, min_in: true, max: 100, max_in: false },
        Bound { field: RuleField::OvertimeNightMultiplier, value: body.overtime_night_multiplier, min: 1, min_in: true, max: 100, max_in: false },
        Bound { field: RuleField::HolidayMultiplier, value: body.holiday_multiplier, min: 1, min_in: true, max: 100, max_in: false },
        Bound { field: RuleField::DefaultOvertimeMultiplier, value: body.default_overtime_multiplier, min: 1, min_in: true, max: 100, max_in: false },
        Bound { field: RuleField::AdvanceCapPercent, value: body.advance_cap_percent, min: 0, min_in: true, max: 100, max_in: true },
        Bound { field: RuleField::AbsenceDeductionDays, value: body.absence_deduction_days, min: 0, min_in: true, max: 31, max_in: true },
        Bound { field: RuleField::WorkingDaysPerMonth, value: body.working_days_per_month, min: 0, min_in: false, max: 31, max_in: true },
        Bound { field: RuleField::LimitDayHours, value: body.limit_day_hours, min: 0, min_in: false, max: 168, max_in: true },
        Bound { field: RuleField::LimitWeekHours, value: body.limit_week_hours, min: 0, min_in: false, max: 168, max_in: true },
        Bound { field: RuleField::LimitPresenceHours, value: body.limit_presence_hours, min: 0, min_in: false, max: 168, max_in: true },
        Bound { field: RuleField::LimitRestHours, value: body.limit_rest_hours, min: 0, min_in: true, max: 168, max_in: true },
        Bound { field: RuleField::LimitOvertimeDayHours, value: body.limit_overtime_day_hours, min: 0, min_in: true, max: 168, max_in: true },
        Bound { field: RuleField::AutoCheckoutBufferMinutes, value: buffer, min: 0, min_in: true, max: 1440, max_in: true },
    ];
    assert(r@ =~= bounds_of(*body));
    r
}

/// Every number and choice of the rules within what makes sense — checked
/// here, so an impossible value is never stored. The refusal is 400
/// `SETTING_OUT_OF_RANGE` with `{field, min, max}` (or `{field, allowed}`) for
/// the client's own wording.
pub fn check_setting_ranges(body: &PutAttendanceSettingsRequest) -> (r: Result<(), AppError>)
    requires
        valid_figures(*body),
    ensures
        outcome(r) == unless(settings_refused(*body), ()),
{
    let bounds: Vec<Bound> = list_bounds(body);
    let mut i: usize = 0;
    while i < bounds.len()
        invariant
            i <= bounds@.len(),
            bounds@ == bounds_of(*body),
            forall|i: int|
                0 <= i < bounds@.len() && (#[trigger] bounds@[i]).value is Some
                    ==> bounds@[i].value->0.valid(),
            first_broken(bounds@.take(i as int)) is None,
        decreases bounds@.len() - i,
    {
        assert(bounds@.take(i + 1).drop_last() =~= bounds@.take(i as int));
        match check_bound(&bounds[i]) {
            Ok(_) => {},
            Err(e) => {
                proof {
                    lemma_first_broken_stays(bounds@, i + 1);
                }
                return Err(e);
            },
        }
        i += 1;
    }
    assert(bounds@.take(bounds@.len() as int) =~= bounds@);
    let orders: Option<i64> = match body.orders_per_staff {
        Some(n) => Some(n as i64),
        None => None,
    };
    check_number(RuleField::OrdersPerStaff, orders, 1000)?;
    let start: Option<i64> = match body.period_start_day {
        Some(n) => Some(n as i64),
        None => None,
    };
    check_number(RuleField::PeriodStartDay, start, 28)?;
    check_choice(
        RuleField::OvertimeMode,
        &body.overtime_mode,
        three("off", "automatic", "approval"),
    )?;
    check_choice(
        RuleField::HalfDayLeaveCounts,
        &body.half_day_leave_counts,
        two("half_shift", "whole_day"),
    )?;
    check_choice(RuleField::GenderMode, &body.gender_mode, three("off", "soft", "hard"))
}

/// A bound broken early is the first one broken.
proof fn lemma_first_broken_stays(bounds: Seq<Bound>, k: int)
    requires
        0 <= k <= bounds.len(),
        first_broken(bounds.take(k)) is Some,
    ensures
        first_broken(bounds) == first_broken(bounds.take(k)),
    decreases bounds.len() - k,
{
    if k == bounds.len() {
        assert(bounds.take(k) =~= bounds);
    } else {
        assert(bounds.take(k + 1).drop_last() =~= bounds.take(k));
        lemma_first_broken_stays(bounds, k + 1);
    }
}

/// The first of a list of rules a branch may not set that is sent.
pub open spec fn first_business_rule(
    list: Seq<RuleField>,
    body: PutAttendanceSettingsRequest,
) -> Option<RuleField>
    decreases list.len(),
{
    if list.len() == 0 {
        None
    } else {
        match first_business_rule(list.drop_last(), body) {
            Some(f) => Some(f),
            None => if !list.last().of_branch() && sent(list.last(), body) {
                Some(list.last())
            } else {
                None
            },
        }
    }
}

/// The first of a list of names that is no rule a branch can override.
pub open spec fn first_stranger(names: Seq<Seq<char>>) -> Option<Seq<char>>
    decreases names.len(),
{
    if names.len() == 0 {
        None
    } else {
        match first_stranger(names.drop_last()) {
            Some(n) => Some(n),
            None => if !columns(row_rules(true)).contains(names.last()) {
                Some(names.last())
            } else {
                None
            },
        }
    }
}

/// The names a request asks to go back to the business's rules on.
pub open spec fn inherited(body: PutAttendanceSettingsRequest) -> Seq<Seq<char>> {
    match body.inherit {
        Some(list) => texts(list@),
        None => Seq::empty(),
    }
}

/// What a change of whose rules is refused for: a branch overrides the rules,
/// never the business's own settings, and only a branch goes back to them.
pub open spec fn scope_refused(body: PutAttendanceSettingsRequest) -> Option<ErrorView> {
    if body.branch_id is Some {
        match first_business_rule(all_rules(), body) {
            Some(f) => Some(
                ErrorView::BadRequest(
                    f.column() + " is the business's setting, not a branch's"@,
                ),
            ),
            None => match first_stranger(inherited(body)) {
                Some(n) => Some(
                    ErrorView::BadRequest(
                        "'"@ + n + "' is not a rule a branch can override"@,
                    ),
                ),
                None => None,
            },
        }
    } else if inherited(body).len() > 0 {
        Some(ErrorView::BadRequest("Only a branch can go back to the business's rules"@))
    } else {
        None
    }
}

proof fn lemma_first_business_stays(
    list: Seq<RuleField>,
    body: PutAttendanceSettingsRequest,
    k: int,
)
    requires
        0 <= k <= list.len(),
        first_business_rule(list.take(k), body) is Some,
    ensures
        first_business_rule(list, body) == first_business_rule(list.take(k), body),
    decreases list.len() - k,
{
    if k == list.len() {
        assert(list.take(k) =~= list);
    } else {
        assert(list.take(k + 1).drop_last() =~= list.take(k));
        lemma_first_business_stays(list, body, k + 1);
    }
}

proof fn lemma_first_stranger_stays(names: Seq<Seq<char>>, k: int)
    requires
        0 <= k <= names.len(),
        first_stranger(names.take(k)) is Some,
    ensures
        first_stranger(names) == first_stranger(names.take(k)),
    decreases names.len() - k,
{
    if k == names.len() {
        assert(names.take(k) =~= names);
    } else {
        assert(names.take(k + 1).drop_last() =~= names.take(k));
        lemma_first_stranger_stays(names, k + 1);
    }
}

fn find_business_rule(body: &PutAttendanceSettingsRequest) -> (r: Option<RuleField>)
    ensures
        r == first_business_rule(all_rules(), *body),
{
    let all: Vec<RuleField> = rule_fields();
    let mut i: usize = 0;
    while i < all.len()
        invariant
            i <= all@.len(),
            all@ == all_rules(),
            first_business_rule(all@.take(i as int), *body) is None,
        decreases all@.len() - i,
    {
        assert(all@.take(i + 1).drop_last() =~= all@.take(i as int));
        if !all[i].branch() && rule_sent(all[i], body) {
            proof {
                lemma_first_business_stays(all@, *body, i + 1);
            }
            return Some(all[i]);
        }
        i += 1;
    }
    assert(all@.take(all@.len() as int) =~= all@);
    None
}

/// Whether a name is a rule a branch may override.
fn is_branch_rule(name: &str) -> (r: bool)
    ensures
        r == columns(row_rules(true)).contains(name@),
{
    let names: Vec<&'static str> = branch_rule_fields();
    let mut i: usize = 0;
    while i < names.len()
        invariant
            i <= names@.len(),
            said(names@) == columns(row_rules(true)),
            forall|k: int| 0 <= k < i ==> (#[trigger] names@[k])@ != name@,
        decreases names@.len() - i,
    {
        if same_text(names[i], name) {
            assert(said(names@)[i as int] == name@);
            return true;
        }
        i += 1;
    }
    proof {
        if columns(row_rules(true)).contains(name@) {
            let k = choose|k: int| 0 <= k < said(names@).len() && said(names@)[k] == name@;
            assert(names@[k]@ == name@);
        }
    }
    false
}

/// Refuses a change of the wrong rules.
pub fn check_rule_scope(body: &PutAttendanceSettingsRequest) -> (r: Result<(), AppError>)
    ensures
        outcome(r) == unless(scope_refused(*body), ()),
{
    if body.branch_id.is_some() {
        if let Some(f) = find_business_rule(body) {
            return Err(
                bad_request(
                    join(f.name(), " is the business's setting, not a branch's").as_str(),
                ),
            );
        }
        if let Some(list) = &body.inherit {
            let mut i: usize = 0;
            while i < list.len()
                invariant
                    i <= list@.len(),
                    body.branch_id is Some,
                    first_business_rule(all_rules(), *body) is None,
                    inherited(*body) == texts(list@),
                    first_stranger(texts(list@).take(i as int)) is None,
                decreases list@.len() - i,
            {
                assert(texts(list@).take(i + 1).drop_last() =~= texts(list@).take(i as int));
                assert(texts(list@).take(i + 1).last() == list@[i as int]@);
                if !is_branch_rule(list[i].as_str()) {
                    proof {
                        lemma_first_stranger_stays(texts(list@), i + 1);
                    }
                    return Err(
                        bad_request(
                            join3(
                                "'",
                                list[i].as_str(),
                                "' is not a rule a branch can override",
                            ).as_str(),
                        ),
                    );
                }
                i += 1;
            }
            assert(texts(list@).take(list@.len() as int) =~= texts(list@));
        }
        Ok(())
    } else {
        if let Some(list) = &body.inherit {
            assert(texts(list@).len() == list@.len());
            if list.len() > 0 {
                return Err(bad_request("Only a branch can go back to the business's rules"));
            }
        }
        Ok(())
    }
}

/// Saving the lateness ladder and the absence cost together is the step that
/// lets people clock in; a one-field save (the gender mode, a limit) never does.
pub fn saves_rules(body: &PutAttendanceSettingsRequest) -> (r: bool)
    ensures
        r == (body.late_deduction_tiers is Some && body.absence_deduction_days is Some),
{
    body.late_deduction_tiers.is_some() && body.absence_deduction_days.is_some()
}

/// The value stored for a rule on a new row.
pub open spec fn value_part(branch: bool, f: RuleField, n: nat) -> Seq<char> {
    if branch {
        "$"@ + nat_chars(n)
    } else {
        "COALESCE($"@ + nat_chars(n) + ", "@ + f.fallback() + ")"@
    }
}

/// The change of a rule on a row there is.
pub open spec fn update_part(branch: bool, f: RuleField, n: nat) -> Seq<char> {
    if branch {
        f.column() + " = CASE WHEN '"@ + f.column() + "' = ANY($3) THEN NULL ELSE COALESCE($"@
            + nat_chars(n) + ", attendance_settings."@ + f.column() + ") END"@
    } else {
        f.column() + " = COALESCE($"@ + nat_chars(n) + ", attendance_settings."@ + f.column()
            + ")"@
    }
}

/// The statement that stores a row of rules. Parameters: $1 business, $2
/// branch, $3 the rules inherited again, $4 whether it saves the rules, then
/// one per rule.
pub open spec fn store_text(branch: bool) -> Seq<char> {
    let fields = row_rules(branch);
    "INSERT INTO attendance_settings (org_id, branch_id, "@ + joined(columns(fields), ", "@)
        + ", rules_saved_at) VALUES ($1, $2, "@ + joined(
        Seq::new(fields.len(), |i: int| value_part(branch, fields[i], (i + 5) as nat)),
        ", "@,
    )
        + ", CASE WHEN $2::uuid IS NULL AND $4 THEN now() END) ON CONFLICT (org_id, COALESCE(branch_id, '00000000-0000-0000-0000-000000000000'::uuid)) DO UPDATE SET "@
        + joined(
        Seq::new(fields.len(), |i: int| update_part(branch, fields[i], (i + 5) as nat)),
        ", "@,
    )
        + ", rules_saved_at = CASE WHEN attendance_settings.branch_id IS NULL AND $4 THEN COALESCE(attendance_settings.rules_saved_at, now()) ELSE attendance_settings.rules_saved_at END, updated_at = now()"@
}

/// The statement that stores a row of rules.
pub fn store_settings_sql(branch: bool) -> (r: String)
    ensures
        r@ == store_text(branch),
{
    let fields: Vec<RuleField> = fields_of_row(branch);
    let mut names: Vec<String> = Vec::new();
    let mut values: Vec<String> = Vec::new();
    let mut updates: Vec<String> = Vec::new();
    let mut i: usize = 0;
    proof {
        lemma_few_rules(branch);
    }
    while i < fields.len()
        invariant
            i <= fields@.len() <= 23,
            fields@ == row_rules(branch),
            names@.len() == i,
            values@.len() == i,
            updates@.len() == i,
            forall|k: int| 0 <= k < i ==> (#[trigger] names@[k])@ == fields@[k].column(),
            forall|k: int|
                0 <= k < i ==> (#[trigger] values@[k])@ == value_part(
                    branch,
                    fields@[k],
                    (k + 5) as nat,
                ),
            forall|k: int|
                0 <= k < i ==> (#[trigger] updates@[k])@ == update_part(
                    branch,
                    fields@[k],
                    (k + 5) as nat,
                ),
        decreases fields@.len() - i,
    {
        let f: RuleField = fields[i];
        let name: &'static str = f.name();
        let n: String = nat_text(i as u64 + 5);
        names.push(name.to_owned());
        if branch {
            values.push(join("$", n.as_str()));
            let mut u: String = join3(name, " = CASE WHEN '", name);
            u.push_str("' = ANY($3) THEN NULL ELSE COALESCE($");
            u.push_str(n.as_str());
            u.push_str(", attendance_settings.");
            u.push_str(name);
            u.push_str(") END");
            updates.push(u);
        } else {
            let mut v: String = join3("COALESCE($", n.as_str(), ", ");
            v.push_str(f.default_sql());
            v.push_str(")");
            values.push(v);
            let mut u: String = join3(name, " = COALESCE($", n.as_str());
            u.push_str(", attendance_settings.");
            u.push_str(name);
            u.push_str(")");
            updates.push(u);
        }
        i += 1;
    }
    proof {
        let fs = row_rules(branch);
        assert(texts(names@) =~= columns(fs));
        assert(texts(values@) =~= Seq::new(
            fs.len(),
            |i: int| value_part(branch, fs[i], (i + 5) as nat),
        ));
        assert(texts(updates@) =~= Seq::new(
            fs.len(),
            |i: int| update_part(branch, fs[i], (i + 5) as nat),
        ));
    }
    let mut out: String = join3(
        "INSERT INTO attendance_settings (org_id, branch_id, ",
        join_all(&names, ", ").as_str(),
        ", rules_saved_at) VALUES ($1, $2, ",
    );
    out.push_str(join_all(&values, ", ").as_str());
    out.push_str(", CASE WHEN $2::uuid IS NULL AND $4 THEN now() END) ON CONFLICT (org_id, COALESCE(branch_id, '00000000-0000-0000-0000-000000000000'::uuid)) DO UPDATE SET ");
    out.push_str(join_all(&updates, ", ").as_str());
    out.push_str(", rules_saved_at = CASE WHEN attendance_settings.branch_id IS NULL AND $4 THEN COALESCE(attendance_settings.rules_saved_at, now()) ELSE attendance_settings.rules_saved_at END, updated_at = now()");
    out
}

proof fn lemma_few_rules(branch: bool)
    ensures
        row_rules(branch).len() <= 23,
{
    broadcast use vstd::seq_lib::group_filter_ensures;

    assert(all_rules().len() == 23);
}

/// What a change of the rules asks for.
#[derive(Debug, Clone, Copy, PartialEq, Eq, Structural)]
pub struct SettingsPlan {
    /// It is the step that lets people clock in.
    pub saves_rules: bool,
    /// It is a branch's override.
    pub branch: bool,
}

/// What a change of the rules asks for.
pub open spec fn settings_plan(body: PutAttendanceSettingsRequest) -> SettingsPlan {
    SettingsPlan {
        saves_rules: body.late_deduction_tiers is Some && body.absence_deduction_days is Some,
        branch: body.branch_id is Some,
    }
}

/// What is known when the rules are changed.
pub struct SettingsFacts {
    /// The caller may edit the rules everywhere.
    pub everywhere: Result<(), AppError>,
    /// The caller may edit the rules at the branch, for a branch's override.
    pub at_branch: Result<(), AppError>,
    /// The lateness ladder can be priced, where one is sent.
    pub ladder: Result<(), AppError>,
    /// The caller may edit the roster's settings everywhere.
    pub roster_settings: Result<(), AppError>,
}

/// Why a change of the rules is refused: the right to edit them everywhere and
/// at the branch, the ladder, a figure that cannot be, the gender mode (a roster
/// setting of the owner's), then whose the rules are.
pub open spec fn change_refused(f: SettingsFacts, body: PutAttendanceSettingsRequest) -> Option<
    ErrorView,
> {
    let at_branch = if body.branch_id is Some {
        refusal(f.at_branch)
    } else {
        None
    };
    let ladder = if body.late_deduction_tiers is Some {
        refusal(f.ladder)
    } else {
        None
    };
    let roster = if body.gender_mode is Some {
        refusal(f.roster_settings)
    } else {
        None
    };
    either(
        refusal(f.everywhere),
        either(
            at_branch,
            either(
                ladder,
                either(settings_refused(body), either(roster, scope_refused(body))),
            ),
        ),
    )
}

/// A change of the rules, by whoever may make it: every figure possible, and the
/// rules whose they are.
pub fn put_attendance_settings(f: SettingsFacts, body: &PutAttendanceSettingsRequest) -> (r: Result<
    SettingsPlan,
    AppError,
>)
    requires
        valid_figures(*body),
    ensures
        outcome(r) == unless(change_refused(f, *body), settings_plan(*body)),
{
    f.everywhere?;
    if body.branch_id.is_some() {
        f.at_branch?;
    }
    if body.late_deduction_tiers.is_some() {
        f.ladder?;
    }
    check_setting_ranges(body)?;
    if body.gender_mode.is_some() {
        f.roster_settings?;
    }
    check_rule_scope(body)?;
    Ok(SettingsPlan { saves_rules: saves_rules(body), branch: body.branch_id.is_some() })
}

/// The gender mode is set only by whoever may edit the roster's settings.
pub proof fn law_the_gender_mode_is_a_roster_setting(
    f: SettingsFacts,
    body: PutAttendanceSettingsRequest,
)
    requires
        body.gender_mode is Some,
        f.roster_settings is Err,
    ensures
        change_refused(f, body) is Some,
{
}

/// A branch never overrides the business's own settings.
pub proof fn law_business_rules_are_no_branchs(f: RuleField)
    ensures
        row_rules(true).contains(f) <==> f != RuleField::PeriodStartDay && f
            != RuleField::AdvanceCapPercent && f != RuleField::GenderMode,
        row_rules(false).contains(f),
{
    broadcast use vstd::seq_lib::group_filter_ensures;

    let all = all_rules();
    assert(all.contains(f)) by {
        assert(exists|i: int| 0 <= i < all.len() && #[trigger] all[i] == f) by {
            let at = rank(f);
            assert(all[at] == f);
        }
    }
    assert(row_rules(true) == all.filter(|f: RuleField| f.of_branch()));
}

/// A rule's place among the rules.
pub open spec fn rank(f: RuleField) -> int {
    match f {
        RuleField::LateDeductionTiers => 0,
        RuleField::AbsenceDeductionDays => 1,
        RuleField::DefaultOvertimeMultiplier => 2,
        RuleField::AutoCheckoutBufferMinutes => 3,
        RuleField::WorkingDaysPerMonth => 4,
        RuleField::RequireGeofence => 5,
        RuleField::ExcusedTimePaidDefault => 6,
        RuleField::PeriodStartDay => 7,
        RuleField::OvertimeMode => 8,
        RuleField::OvertimeDayMultiplier => 9,
        RuleField::OvertimeNightMultiplier => 10,
        RuleField::HolidayMultiplier => 11,
        RuleField::AdvanceCapPercent => 12,
        RuleField::HalfDayLeaveCounts => 13,
        RuleField::NightStart => 14,
        RuleField::NightEnd => 15,
        RuleField::GenderMode => 16,
        RuleField::LimitDayHours => 17,
        RuleField::LimitWeekHours => 18,
        RuleField::LimitPresenceHours => 19,
        RuleField::LimitRestHours => 20,
        RuleField::LimitOvertimeDayHours => 21,
        RuleField::OrdersPerStaff => 22,
    }
}

/// Reading the rules: those of a branch by whoever may read them there, the
/// business's by whoever may read them anywhere.
pub fn require_rules_view(
    branch: Option<Id>,
    at_branch: Result<(), AppError>,
    anywhere: Result<(), AppError>,
) -> (r: Result<(), AppError>)
    ensures
        refusal(r) == if branch is Some {
            refusal(at_branch)
        } else {
            refusal(anywhere)
        },
{
    match branch {
        Some(_) => at_branch,
        None => anywhere,
    }
}

/// Dropping a branch's own rules takes the right to edit them everywhere, and
/// at the branch.
pub fn delete_branch_rules(
    everywhere: Result<(), AppError>,
    at_branch: Result<(), AppError>,
) -> (r: Result<(), AppError>)
    ensures
        refusal(r) == either(refusal(everywhere), refusal(at_branch)),
{
    everywhere?;
    at_branch
}

/// A figure is not sent, or lies from one whole number to another, each in or
/// out.
pub open spec fn lies_within(v: Option<Dec>, min: int, min_in: bool, max: int, max_in: bool) -> bool {
    v is Some ==> {
        let m = v->0.mantissa as int;
        let unit = power10(v->0.scale as int);
        &&& min * unit < m || (min_in && m == min * unit)
        &&& m < max * unit || (max_in && m == max * unit)
    }
}

/// A choice is not sent, or one of some.
pub open spec fn chosen_of(v: Option<String>, allowed: Seq<Seq<char>>) -> bool {
    v is Some ==> allowed.contains(v->0@)
}

proof fn lemma_first_broken(bounds: Seq<Bound>)
    ensures
        first_broken(bounds) is None <==> forall|i: int|
            0 <= i < bounds.len() ==> !(#[trigger] bounds[i]).broken(),
    decreases bounds.len(),
{
    if bounds.len() > 0 {
        let short = bounds.drop_last();
        lemma_first_broken(short);
        assert forall|i: int| 0 <= i < short.len() implies #[trigger] bounds[i] == short[i] by {}
        assert(bounds[bounds.len() - 1] == bounds.last());
        if first_broken(short) is None {
            assert forall|i: int| 0 <= i < short.len() implies !(
            #[trigger] bounds[i]).broken() by {
                assert(!short[i].broken());
            }
        } else {
            let i = choose|i: int| 0 <= i < short.len() && (#[trigger] short[i]).broken();
            assert(bounds[i].broken());
        }
    }
}

/// Every figure of the rules is possible: multipliers from one and below a
/// hundred, shares up to a hundred percent, days of a month, hours of a week, a
/// day of minutes, up to a thousand orders, a start day every month has, and
/// choices there are. What is not sent is not judged.
pub proof fn law_which_settings_are_possible(body: PutAttendanceSettingsRequest)
    ensures
        settings_refused(body) is None <==> {
            &&& lies_within(body.overtime_day_multiplier, 1, true, 100, false)
            &&& lies_within(body.overtime_night_multiplier, 1, true, 100, false)
            &&& lies_within(body.holiday_multiplier, 1, true, 100, false)
            &&& lies_within(body.default_overtime_multiplier, 1, true, 100, false)
            &&& lies_within(body.advance_cap_percent, 0, true, 100, true)
            &&& lies_within(body.absence_deduction_days, 0, true, 31, true)
            &&& lies_within(body.working_days_per_month, 0, false, 31, true)
            &&& lies_within(body.limit_day_hours, 0, false, 168, true)
            &&& lies_within(body.limit_week_hours, 0, false, 168, true)
            &&& lies_within(body.limit_presence_hours, 0, false, 168, true)
            &&& lies_within(body.limit_rest_hours, 0, true, 168, true)
            &&& lies_within(body.limit_overtime_day_hours, 0, true, 168, true)
            &&& body.auto_checkout_buffer_minutes is Some ==> 0
                <= body.auto_checkout_buffer_minutes->0 <= 1440
            &&& body.orders_per_staff is Some ==> 1 <= body.orders_per_staff->0 <= 1000
            &&& body.period_start_day is Some ==> 1 <= body.period_start_day->0 <= 28
            &&& chosen_of(body.overtime_mode, seq!["off"@, "automatic"@, "approval"@])
            &&& chosen_of(body.half_day_leave_counts, seq!["half_shift"@, "whole_day"@])
            &&& chosen_of(body.gender_mode, seq!["off"@, "soft"@, "hard"@])
        },
{
    let bounds = bounds_of(body);
    lemma_first_broken(bounds);
    assert(power10(0) == 1);
    assert(bounds[0].broken() <==> !lies_within(body.overtime_day_multiplier, 1, true, 100, false));
    assert(bounds[1].broken() <==> !lies_within(body.overtime_night_multiplier, 1, true, 100, false));
    assert(bounds[2].broken() <==> !lies_within(body.holiday_multiplier, 1, true, 100, false));
    assert(bounds[3].broken() <==> !lies_within(
        body.default_overtime_multiplier,
        1,
        true,
        100,
        false,
    ));
    assert(bounds[4].broken() <==> !lies_within(body.advance_cap_percent, 0, true, 100, true));
    assert(bounds[5].broken() <==> !lies_within(body.absence_deduction_days, 0, true, 31, true));
    assert(bounds[6].broken() <==> !lies_within(body.working_days_per_month, 0, false, 31, true));
    assert(bounds[7].broken() <==> !lies_within(body.limit_day_hours, 0, false, 168, true));
    assert(bounds[8].broken() <==> !lies_within(body.limit_week_hours, 0, false, 168, true));
    assert(bounds[9].broken() <==> !lies_within(body.limit_presence_hours, 0, false, 168, true));
    assert(bounds[10].broken() <==> !lies_within(body.limit_rest_hours, 0, true, 168, true));
    assert(bounds[11].broken() <==> !lies_within(body.limit_overtime_day_hours, 0, true, 168, true));
    assert(bounds[12].broken() <==> !(body.auto_checkout_buffer_minutes is Some ==> 0
        <= body.auto_checkout_buffer_minutes->0 <= 1440));
}

/// A branch sends none of the business's own rules and goes back only on rules it
/// may override; the business goes back on none.
pub proof fn law_whose_rules_may_be_changed(body: PutAttendanceSettingsRequest)
    ensures
        body.branch_id is Some ==> (scope_refused(body) is None <==> {
            &&& body.period_start_day is None
            &&& body.advance_cap_percent is None
            &&& body.gender_mode is None
            &&& forall|i: int|
                0 <= i < inherited(body).len() ==> columns(row_rules(true)).contains(
                    #[trigger] inherited(body)[i],
                )
        }),
        body.branch_id is None ==> (scope_refused(body) is None <==> inherited(body).len() == 0),
{
    let all = all_rules();
    lemma_business_rules(all, body);
    lemma_strangers(inherited(body));
    assert(all[7] == RuleField::PeriodStartDay);
    assert(all[12] == RuleField::AdvanceCapPercent);
    assert(all[16] == RuleField::GenderMode);
}

proof fn lemma_business_rules(list: Seq<RuleField>, body: PutAttendanceSettingsRequest)
    ensures
        first_business_rule(list, body) is None <==> forall|i: int|
            0 <= i < list.len() ==> (#[trigger] list[i]).of_branch() || !sent(list[i], body),
    decreases list.len(),
{
    if list.len() > 0 {
        let short = list.drop_last();
        lemma_business_rules(short, body);
        assert forall|i: int| 0 <= i < short.len() implies #[trigger] list[i] == short[i] by {}
        assert(list[list.len() - 1] == list.last());
        if first_business_rule(short, body) is None {
            assert forall|i: int| 0 <= i < short.len() implies (#[trigger] list[i]).of_branch()
                || !sent(list[i], body) by {
                assert(short[i].of_branch() || !sent(short[i], body));
            }
        } else {
            let i = choose|i: int|
                0 <= i < short.len() && !(#[trigger] short[i]).of_branch() && sent(short[i], body);
            assert(!list[i].of_branch() && sent(list[i], body));
        }
    }
}

proof fn lemma_strangers(names: Seq<Seq<char>>)
    ensures
        first_stranger(names) is None <==> forall|i: int|
            0 <= i < names.len() ==> columns(row_rules(true)).contains(#[trigger] names[i]),
    decreases names.len(),
{
    if names.len() > 0 {
        let short = names.drop_last();
        lemma_strangers(short);
        assert forall|i: int| 0 <= i < short.len() implies #[trigger] names[i] == short[i] by {}
        assert(names[names.len() - 1] == names.last());
        if first_stranger(short) is None {
            assert forall|i: int| 0 <= i < short.len() implies columns(row_rules(true)).contains(
                #[trigger] names[i],
            ) by {
                assert(columns(row_rules(true)).contains(short[i]));
            }
        } else {
            let i = choose|i: int|
                0 <= i < short.len() && !columns(row_rules(true)).contains(#[trigger] short[i]);
            assert(!columns(row_rules(true)).contains(names[i]));
        }
    }
}

/// The rules are changed by who may edit them everywhere, and at the branch for a
/// branch's; with a ladder that can be priced, possible figures, the right to
/// roster settings for the gender mode, and of the rules that are theirs.
pub proof fn law_who_changes_the_rules(f: SettingsFacts, body: PutAttendanceSettingsRequest)
    ensures
        change_refused(f, body) is None <==> {
            &&& f.everywhere is Ok
            &&& body.branch_id is Some ==> f.at_branch is Ok
            &&& body.late_deduction_tiers is Some ==> f.ladder is Ok
            &&& settings_refused(body) is None
            &&& body.gender_mode is Some ==> f.roster_settings is Ok
            &&& scope_refused(body) is None
        },
{
}

/// People may clock in once the ladder and the cost of an absence are saved
/// together.
pub proof fn law_the_ladder_and_the_absence_together_save_the_rules(
    body: PutAttendanceSettingsRequest,
)
    ensures
        settings_plan(body).saves_rules <==> body.late_deduction_tiers is Some
            && body.absence_deduction_days is Some,
        settings_plan(body).branch <==> body.branch_id is Some,
{
}

/// What a change of the rules is refused for first.
pub proof fn law_how_changing_the_rules_is_refused(
    f: SettingsFacts,
    body: PutAttendanceSettingsRequest,
)
    ensures
        ({
            change_refused(f, body) == if f.everywhere is Err {
                Some(f.everywhere->Err_0@)
            } else if body.branch_id is Some && f.at_branch is Err {
                Some(f.at_branch->Err_0@)
            } else if body.late_deduction_tiers is Some && f.ladder is Err {
                Some(f.ladder->Err_0@)
            } else if settings_refused(body) is Some {
                Some(settings_refused(body)->0)
            } else if body.gender_mode is Some && f.roster_settings is Err {
                Some(f.roster_settings->Err_0@)
            } else if scope_refused(body) is Some {
                Some(scope_refused(body)->0)
            } else {
                None
            }
        }),
{
}

} // verus!
