//! What the query of the effective rules reads: a branch's value only of the
//! rules a branch may set.

use vstd::prelude::*;

use crate::attendance::settings::{
    all_rules, effective_part, effective_text, overridden_part, overridden_text, rank,
    row_rules,
    RuleField,
};
use crate::text::joined;

verus! {

/// A text holds a part.
pub open spec fn holds_part(text: Seq<char>, part: Seq<char>) -> bool {
    exists|i: int| #![trigger text.subrange(i, i + part.len())]
        0 <= i && i + part.len() <= text.len() && text.subrange(i, i + part.len()) == part
}

proof fn lemma_part_of_sum(a: Seq<char>, b: Seq<char>, part: Seq<char>)
    requires
        holds_part(a, part) || holds_part(b, part),
    ensures
        holds_part(a + b, part),
{
    let n = part.len() as int;
    if holds_part(a, part) {
        let i = choose|i: int| #![trigger a.subrange(i, i + n)]
            0 <= i && i + n <= a.len() && a.subrange(i, i + n) == part;
        assert((a + b).subrange(i, i + n) =~= a.subrange(i, i + n));
    } else {
        let i = choose|i: int| #![trigger b.subrange(i, i + n)]
            0 <= i && i + n <= b.len() && b.subrange(i, i + n) == part;
        let k = a.len() + i;
        assert((a + b).subrange(k, k + n) =~= b.subrange(i, i + n));
    }
}

proof fn lemma_part_of_joined(list: Seq<Seq<char>>, sep: Seq<char>, i: int)
    requires
        0 <= i < list.len(),
    ensures
        holds_part(joined(list, sep), list[i]),
    decreases list.len(),
{
    let last = list.last();
    assert(last.subrange(0, 0 + last.len() as int) =~= last);
    assert(holds_part(last, last));
    if list.len() > 1 {
        let before = joined(list.drop_last(), sep);
        if i < list.len() - 1 {
            lemma_part_of_joined(list.drop_last(), sep, i);
            lemma_part_of_sum(before, sep, list[i]);
            lemma_part_of_sum(before + sep, last, list[i]);
        } else {
            lemma_part_of_sum(before + sep, last, last);
        }
    }
}

/// Wherever a text names a column of the branch's row, it is none of the
/// business's own.
spec fn clean(t: Seq<char>) -> bool {
    forall|i: int| #![trigger t[i]]
        0 <= i && i + 1 < t.len() && t[i] == 'b' && t[i + 1] == '.' ==> i + 3 < t.len() && fine(
            t[i + 2],
            t[i + 3],
        )
}

/// No rule that is the business's own starts so.
spec fn fine(c: char, d: char) -> bool {
    c != 'p' && c != 'g' && !(c == 'a' && d == 'd')
}

/// A text without a dot.
spec fn plain(t: Seq<char>) -> bool {
    forall|i: int| 0 <= i < t.len() ==> #[trigger] t[i] != '.'
}

proof fn lemma_clean_sum(a: Seq<char>, b: Seq<char>)
    requires
        clean(a),
        clean(b),
        b.len() > 0 ==> b[0] != '.',
    ensures
        clean(a + b),
{
    let t = a + b;
    assert forall|i: int| #![trigger t[i]]
        0 <= i && i + 1 < t.len() && t[i] == 'b' && t[i + 1] == '.' implies i + 3 < t.len() && fine(
        t[i + 2],
        t[i + 3],
    ) by {
        if i + 1 < a.len() {
            assert(a[i] == 'b' && a[i + 1] == '.');
        } else if i >= a.len() {
            let k = i - a.len();
            assert(b[k] == 'b' && b[k + 1] == '.');
        }
    }
}

proof fn lemma_clean_joined(list: Seq<Seq<char>>, sep: Seq<char>)
    requires
        forall|i: int| 0 <= i < list.len() ==> clean(#[trigger] list[i]),
        forall|i: int| 0 <= i < list.len() ==> (#[trigger] list[i]).len() > 0 && list[i][0] != '.',
        clean(sep),
        sep.len() > 0,
        sep[0] != '.',
    ensures
        clean(joined(list, sep)),
    decreases list.len(),
{
    if list.len() > 1 {
        let short = list.drop_last();
        assert forall|i: int| 0 <= i < short.len() implies clean(#[trigger] short[i])
            && short[i].len() > 0 && short[i][0] != '.' by {
            assert(short[i] == list[i]);
        }
        lemma_clean_joined(short, sep);
        lemma_clean_sum(joined(short, sep), sep);
        assert(list[list.len() - 1] == list.last());
        lemma_clean_sum(joined(short, sep) + sep, list.last());
    } else if list.len() == 1 {
        assert(list[0] == list.last());
    }
}

proof fn lemma_columns(f: RuleField)
    ensures
        plain(f.column()),
        f.column().len() >= 2,
        f.of_branch() ==> fine(f.column()[0], f.column()[1]),
{
    match f {
        RuleField::LateDeductionTiers => reveal_strlit("late_deduction_tiers"),
        RuleField::AbsenceDeductionDays => reveal_strlit("absence_deduction_days"),
        RuleField::DefaultOvertimeMultiplier => reveal_strlit("default_overtime_multiplier"),
        RuleField::AutoCheckoutBufferMinutes => reveal_strlit("auto_checkout_buffer_minutes"),
        RuleField::WorkingDaysPerMonth => reveal_strlit("working_days_per_month"),
        RuleField::RequireGeofence => reveal_strlit("require_geofence"),
        RuleField::ExcusedTimePaidDefault => reveal_strlit("excused_time_paid_default"),
        RuleField::PeriodStartDay => reveal_strlit("period_start_day"),
        RuleField::OvertimeMode => reveal_strlit("overtime_mode"),
        RuleField::OvertimeDayMultiplier => reveal_strlit("overtime_day_multiplier"),
        RuleField::OvertimeNightMultiplier => reveal_strlit("overtime_night_multiplier"),
        RuleField::HolidayMultiplier => reveal_strlit("holiday_multiplier"),
        RuleField::AdvanceCapPercent => reveal_strlit("advance_cap_percent"),
        RuleField::HalfDayLeaveCounts => reveal_strlit("half_day_leave_counts"),
        RuleField::NightStart => reveal_strlit("night_start"),
        RuleField::NightEnd => reveal_strlit("night_end"),
        RuleField::GenderMode => reveal_strlit("gender_mode"),
        RuleField::LimitDayHours => reveal_strlit("limit_day_hours"),
        RuleField::LimitWeekHours => reveal_strlit("limit_week_hours"),
        RuleField::LimitPresenceHours => reveal_strlit("limit_presence_hours"),
        RuleField::LimitRestHours => reveal_strlit("limit_rest_hours"),
        RuleField::LimitOvertimeDayHours => reveal_strlit("limit_overtime_day_hours"),
        RuleField::OrdersPerStaff => reveal_strlit("orders_per_staff"),
    }
}

proof fn lemma_fallbacks(f: RuleField)
    ensures
        clean(f.fallback()),
        f.fallback().len() > 0,
        f.fallback()[0] != '.',
{
    reveal_strlit("'[]'::jsonb");
    reveal_strlit("1.00");
    reveal_strlit("1.50");
    reveal_strlit("120");
    reveal_strlit("30.00");
    reveal_strlit("TRUE");
    reveal_strlit("26::smallint");
    reveal_strlit("'off'");
    reveal_strlit("1.35");
    reveal_strlit("1.70");
    reveal_strlit("2.00");
    reveal_strlit("50");
    reveal_strlit("'half_shift'");
    reveal_strlit("'22:00'::time");
    reveal_strlit("'06:00'::time");
    reveal_strlit("'soft'");
    reveal_strlit("8");
    reveal_strlit("48");
    reveal_strlit("10");
    reveal_strlit("12");
    reveal_strlit("2");
}

/// A text with one dot, then a rule's column.
proof fn lemma_named(lead: Seq<char>, f: RuleField)
    requires
        lead.len() >= 2,
        lead[0] != '.',
        forall|i: int| 0 <= i < lead.len() - 1 ==> #[trigger] lead[i] != '.',
        lead[lead.len() - 2] == 'b' ==> f.of_branch(),
    ensures
        clean(lead + f.column()),
        (lead + f.column()).len() > 0,
        (lead + f.column())[0] != '.',
{
    lemma_columns(f);
    let col = f.column();
    let t = lead + col;
    let n = lead.len() as int;
    assert forall|i: int| #![trigger t[i]]
        0 <= i && i + 1 < t.len() && t[i] == 'b' && t[i + 1] == '.' implies i + 3 < t.len() && fine(
        t[i + 2],
        t[i + 3],
    ) by {
        if i + 1 < n - 1 {
            assert(lead[i + 1] == '.');
        } else if i + 1 >= n {
            assert(col[i + 1 - n] == '.');
        } else {
            assert(lead[n - 2] == 'b');
            assert(t[n] == col[0] && t[n + 1] == col[1]);
        }
    }
}

proof fn lemma_effective_part_clean(f: RuleField)
    ensures
        clean(effective_part(f)),
        effective_part(f).len() > 0,
        effective_part(f)[0] != '.',
{
    reveal_strlit("COALESCE(b.");
    reveal_strlit("COALESCE(o.");
    reveal_strlit(", o.");
    reveal_strlit(", ");
    reveal_strlit(") AS ");
    lemma_columns(f);
    lemma_fallbacks(f);
    let col = f.column();
    assert(clean(col));
    let head = if f.of_branch() {
        lemma_named("COALESCE(b."@, f);
        lemma_clean_sum("COALESCE(b."@ + col, ", o."@);
        "COALESCE(b."@ + col + ", o."@ + col
    } else {
        "COALESCE(o."@ + col
    };
    if f.of_branch() {
        lemma_clean_sum("COALESCE(b."@ + col + ", o."@, col);
    } else {
        lemma_named("COALESCE(o."@, f);
    }
    lemma_clean_sum(head, ", "@);
    lemma_clean_sum(head + ", "@, f.fallback());
    lemma_clean_sum(head + ", "@ + f.fallback(), ") AS "@);
    lemma_clean_sum(head + ", "@ + f.fallback() + ") AS "@, col);
}

proof fn lemma_overridden_part_clean(f: RuleField)
    requires
        f.of_branch(),
    ensures
        clean(overridden_part("b"@, f)),
        overridden_part("b"@, f).len() > 0,
        overridden_part("b"@, f)[0] != '.',
{
    reveal_strlit("CASE WHEN ");
    reveal_strlit("b");
    reveal_strlit(".");
    reveal_strlit(" IS NOT NULL THEN '");
    reveal_strlit("' END");
    lemma_columns(f);
    let lead = "CASE WHEN "@ + "b"@ + "."@;
    let col = f.column();
    lemma_named(lead, f);
    lemma_clean_sum(lead + col, " IS NOT NULL THEN '"@);
    lemma_clean_sum(lead + col + " IS NOT NULL THEN '"@, col);
    lemma_clean_sum(lead + col + " IS NOT NULL THEN '"@ + col, "' END"@);
}

/// The texts around the rules in the query.
proof fn lemma_rest_clean()
    ensures
        clean(
            "WITH o AS (SELECT * FROM attendance_settings WHERE org_id = $1 AND branch_id IS NULL), b AS (SELECT * FROM attendance_settings WHERE org_id = $1 AND $2::uuid IS NOT NULL AND branch_id = $2) SELECT COALESCE(b.id, o.id, '00000000-0000-0000-0000-000000000000'::uuid) AS id, $1::uuid AS org_id, $2::uuid AS branch_id, "@,
        ),
{
    reveal_strlit("WITH o AS (SELECT * FROM attendance_settings WHERE org_id = $1 AND branch_id IS NULL), b AS (SELECT * FROM attendance_settings WHERE org_id = $1 AND $2::uuid IS NOT NULL AND branch_id = $2) SELECT COALESCE(b.id, o.id, '00000000-0000-0000-0000-000000000000'::uuid) AS id, $1::uuid AS org_id, $2::uuid AS branch_id, ");
}

proof fn lemma_times_clean()
    ensures
        clean(
            ", o.rules_saved_at, COALESCE(b.created_at, o.created_at, now()) AS created_at, COALESCE(b.updated_at, o.updated_at, now()) AS updated_at, "@,
        ),
        ", o.rules_saved_at, COALESCE(b.created_at, o.created_at, now()) AS created_at, COALESCE(b.updated_at, o.updated_at, now()) AS updated_at, "@[0]
            != '.',
{
    reveal_strlit(", o.rules_saved_at, COALESCE(b.created_at, o.created_at, now()) AS created_at, COALESCE(b.updated_at, o.updated_at, now()) AS updated_at, ");
}

proof fn lemma_end_clean()
    ensures
        clean(
            " AS overridden FROM (SELECT 1) one LEFT JOIN o ON true LEFT JOIN b ON true"@,
        ),
        " AS overridden FROM (SELECT 1) one LEFT JOIN o ON true LEFT JOIN b ON true"@[0] != '.',
{
    reveal_strlit(" AS overridden FROM (SELECT 1) one LEFT JOIN o ON true LEFT JOIN b ON true");
}

proof fn lemma_overridden_clean()
    ensures
        clean(overridden_text("b"@)),
        overridden_text("b"@).len() > 0,
        overridden_text("b"@)[0] != '.',
{
    broadcast use vstd::seq_lib::group_filter_ensures;

    reveal_strlit("COALESCE(array_remove(ARRAY[");
    reveal_strlit("]::text[], NULL), '{}'::text[])");
    reveal_strlit(", ");
    let fs = row_rules(true);
    let list = fs.map_values(|f: RuleField| overridden_part("b"@, f));
    assert forall|i: int| 0 <= i < list.len() implies clean(#[trigger] list[i]) && list[i].len() > 0
        && list[i][0] != '.' by {
        assert(fs.contains(fs[i]));
        assert(fs[i].of_branch());
        lemma_overridden_part_clean(fs[i]);
    }
    lemma_clean_joined(list, ", "@);
    lemma_joined_starts(list, ", "@);
    lemma_clean_sum("COALESCE(array_remove(ARRAY["@, joined(list, ", "@));
    lemma_clean_sum(
        "COALESCE(array_remove(ARRAY["@ + joined(list, ", "@),
        "]::text[], NULL), '{}'::text[])"@,
    );
}

/// Texts in a row start as the first does.
proof fn lemma_joined_starts(list: Seq<Seq<char>>, sep: Seq<char>)
    requires
        forall|i: int| 0 <= i < list.len() ==> (#[trigger] list[i]).len() > 0 && list[i][0] != '.',
    ensures
        joined(list, sep).len() > 0 ==> joined(list, sep)[0] != '.',
        list.len() > 0 ==> joined(list, sep).len() > 0,
    decreases list.len(),
{
    if list.len() > 1 {
        let short = list.drop_last();
        assert forall|i: int| 0 <= i < short.len() implies (#[trigger] short[i]).len() > 0
            && short[i][0] != '.' by {
            assert(short[i] == list[i]);
        }
        lemma_joined_starts(short, sep);
    } else if list.len() == 1 {
        assert(list[0].len() > 0);
    }
}

proof fn lemma_effective_clean()
    ensures
        clean(effective_text()),
{
    let fs = all_rules();
    let list = fs.map_values(|f: RuleField| effective_part(f));
    assert forall|i: int| 0 <= i < list.len() implies clean(#[trigger] list[i]) && list[i].len() > 0
        && list[i][0] != '.' by {
        lemma_effective_part_clean(fs[i]);
    }
    reveal_strlit(", ");
    lemma_clean_joined(list, ", "@);
    lemma_joined_starts(list, ", "@);
    lemma_rest_clean();
    lemma_times_clean();
    lemma_end_clean();
    lemma_overridden_clean();
    let head = "WITH o AS (SELECT * FROM attendance_settings WHERE org_id = $1 AND branch_id IS NULL), b AS (SELECT * FROM attendance_settings WHERE org_id = $1 AND $2::uuid IS NOT NULL AND branch_id = $2) SELECT COALESCE(b.id, o.id, '00000000-0000-0000-0000-000000000000'::uuid) AS id, $1::uuid AS org_id, $2::uuid AS branch_id, "@;
    let times = ", o.rules_saved_at, COALESCE(b.created_at, o.created_at, now()) AS created_at, COALESCE(b.updated_at, o.updated_at, now()) AS updated_at, "@;
    let rules = joined(list, ", "@);
    lemma_clean_sum(head, rules);
    lemma_clean_sum(head + rules, times);
    lemma_clean_sum(head + rules + times, overridden_text("b"@));
    lemma_clean_sum(
        head + rules + times + overridden_text("b"@),
        " AS overridden FROM (SELECT 1) one LEFT JOIN o ON true LEFT JOIN b ON true"@,
    );
}

/// A rule a branch may set is the branch's value, else the business's, else the
/// built-in default; any other is the business's, else the default.
pub proof fn law_every_rule_is_resolved(f: RuleField)
    ensures
        f.of_branch() ==> holds_part(
            effective_text(),
            "COALESCE(b."@ + f.column() + ", o."@ + f.column() + ", "@ + f.fallback() + ") AS "@
                + f.column(),
        ),
        !f.of_branch() ==> holds_part(
            effective_text(),
            "COALESCE(o."@ + f.column() + ", "@ + f.fallback() + ") AS "@ + f.column(),
        ),
{
    let fs = all_rules();
    let list = fs.map_values(|f: RuleField| effective_part(f));
    let i = rank(f);
    assert(fs[i] == f);
    assert(list[i] == effective_part(f));
    let part = effective_part(f);
    lemma_part_of_joined(list, ", "@, i);
    let head = "WITH o AS (SELECT * FROM attendance_settings WHERE org_id = $1 AND branch_id IS NULL), b AS (SELECT * FROM attendance_settings WHERE org_id = $1 AND $2::uuid IS NOT NULL AND branch_id = $2) SELECT COALESCE(b.id, o.id, '00000000-0000-0000-0000-000000000000'::uuid) AS id, $1::uuid AS org_id, $2::uuid AS branch_id, "@;
    let times = ", o.rules_saved_at, COALESCE(b.created_at, o.created_at, now()) AS created_at, COALESCE(b.updated_at, o.updated_at, now()) AS updated_at, "@;
    let rules = joined(list, ", "@);
    lemma_part_of_sum(head, rules, part);
    lemma_part_of_sum(head + rules, times, part);
    lemma_part_of_sum(head + rules + times, overridden_text("b"@), part);
    lemma_part_of_sum(
        head + rules + times + overridden_text("b"@),
        " AS overridden FROM (SELECT 1) one LEFT JOIN o ON true LEFT JOIN b ON true"@,
        part,
    );
}

/// A rule that is the business's own is never read of a branch's row.
pub proof fn law_the_business_rules_are_read_of_the_business(f: RuleField)
    requires
        !f.of_branch(),
    ensures
        !holds_part(effective_text(), "b."@ + f.column()),
{
    lemma_effective_clean();
    let t = effective_text();
    let name = "b."@ + f.column();
    if holds_part(t, name) {
        reveal_strlit("b.");
        reveal_strlit("period_start_day");
        reveal_strlit("advance_cap_percent");
        reveal_strlit("gender_mode");
        let n = name.len() as int;
        let i = choose|i: int| #![trigger t.subrange(i, i + n)]
            0 <= i && i + n <= t.len() && t.subrange(i, i + n) == name;
        let at = t.subrange(i, i + n);
        assert(at[0] == t[i] && at[1] == t[i + 1] && at[2] == t[i + 2] && at[3] == t[i + 3]);
        assert(name[0] == 'b' && name[1] == '.');
        assert(name[2] == f.column()[0] && name[3] == f.column()[1]);
    }
}

} // verus!
