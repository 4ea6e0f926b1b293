//! The statistics page: chart, totals, model mix and slot windows.

use vstd::prelude::*;

use crate::ansi::truncate_ansi_line;
use crate::ansi::visible_width;
use crate::chart::chart_points;
use crate::chart::daily_chart_bucket_count_for_terminal;
use crate::chart::daily_chart_render_width_for_terminal;
use crate::chart::stacked_bar_chart_lines;
use crate::chart::top_models_for_stacked_chart;
use crate::chart::ChartPoint;
use crate::chart::PointModel;
use crate::format::format_cost;
use crate::format::format_ratio;
use crate::format::human_tokens;
use crate::format::pad_left;
use crate::format::pad_right;
use crate::format::truncate;
use crate::lines::join;
use crate::models::accent;
use crate::models::add_amount;
use crate::models::model_label;
use crate::models::model_marker_for_key;
use crate::models::other_model_key;
use crate::models::rank;
use crate::models::DisplayModelKey;
use crate::models::KeyModel;
use crate::models::ModelVisuals;
use crate::models::Tally;
use crate::numbers::decimal;
use crate::stats::selected_daily_days;
use crate::stats::DailyUsage;
use crate::stats::DayModel;
use crate::stats::NamedUsage;
use crate::stats::PeriodUsage;
use crate::stats::StatsReport;
use crate::stats::TokenUsage;
use crate::text::concat2;
use crate::text::concat3;
use crate::text::concat4;
use crate::text::extend;
use crate::text::push_text;
use crate::text::replace_all;
use crate::wrap::chart_legend_lines;
use crate::wrap::legend_label_width_for_columns;
use crate::wrap::text_wrap_width_for_columns;
use crate::wrap::wrapped_items_lines;
use crate::wrap::wrapped_text_lines;

verus! {

/// The most models in the chart.
pub const DAILY_CHART_MODEL_LIMIT: usize = 5;

/// The most models in the model mix.
pub const MODEL_MIX_LIMIT: usize = 6;

// ---------------------------------------------------------------------------
// What was used, in words
// ---------------------------------------------------------------------------

/// The kinds of token that were used.
pub open spec fn detail_parts(usage: TokenUsage) -> Seq<Seq<char>> {
    let a: Seq<Seq<char>> = if usage.input_tokens > 0 {
        seq!["In "@ + crate::format::tokens_text(usage.input_tokens as nat)]
    } else {
        seq![]
    };
    let b = if usage.cached_input_tokens > 0 {
        a.push("Cache "@ + crate::format::tokens_text(usage.cached_input_tokens as nat))
    } else {
        a
    };
    let c = if usage.output_tokens > 0 {
        b.push("Out "@ + crate::format::tokens_text(usage.output_tokens as nat))
    } else {
        b
    };
    let d = if usage.reasoning_output_tokens > 0 {
        c.push("Reason "@ + crate::format::tokens_text(usage.reasoning_output_tokens as nat))
    } else {
        c
    };
    if usage.uncategorized_tokens > 0 || d.len() == 0 {
        d.push("Raw "@ + crate::format::tokens_text(usage.uncategorized_tokens as nat))
    } else {
        d
    }
}

/// The kinds of token that were used.
pub fn model_usage_detail_parts(usage: &TokenUsage) -> (out: Vec<String>)
    ensures
        crate::text::texts(out@) == detail_parts(*usage),
{
    let mut out: Vec<String> = Vec::new();
    proof {
        assert(crate::text::texts(out@) =~= seq![]);
    }
    if usage.input_tokens > 0 {
        push_text(&mut out, concat2("In ", human_tokens(usage.input_tokens).as_str()));
        proof {
            assert(crate::text::texts(out@) =~= seq![
                "In "@ + crate::format::tokens_text(usage.input_tokens as nat),
            ]);
        }
    }
    if usage.cached_input_tokens > 0 {
        push_text(&mut out, concat2("Cache ", human_tokens(usage.cached_input_tokens).as_str()));
    }
    if usage.output_tokens > 0 {
        push_text(&mut out, concat2("Out ", human_tokens(usage.output_tokens).as_str()));
    }
    if usage.reasoning_output_tokens > 0 {
        push_text(
            &mut out,
            concat2("Reason ", human_tokens(usage.reasoning_output_tokens).as_str()),
        );
    }
    proof {
        assert(crate::text::texts(out@).len() == out@.len());
    }
    if usage.uncategorized_tokens > 0 || out.len() == 0 {
        push_text(&mut out, concat2("Raw ", human_tokens(usage.uncategorized_tokens).as_str()));
    }
    out
}

/// The share, total and cost of a model.
pub open spec fn primary_parts(usage: TokenUsage, total_tokens: u64) -> Seq<Seq<char>> {
    let parts = seq![
        "Share "@ + crate::format::share_text(usage.tokens as nat, total_tokens as nat),
        "Total "@ + crate::format::tokens_text(usage.tokens as nat),
    ];
    if usage.estimated_cost is Some {
        parts.push(
            "Cost "@ + crate::format::cost_text(usage.estimated_cost, usage.unpriced_tokens),
        )
    } else {
        parts
    }
}

/// The share, total and cost of a model.
pub fn model_mix_primary_parts(usage: &TokenUsage, total_tokens: u64) -> (out: Vec<String>)
    ensures
        crate::text::texts(out@) == primary_parts(*usage, total_tokens),
{
    let mut out: Vec<String> = Vec::new();
    out.push(concat2("Share ", format_ratio(usage.tokens, total_tokens).as_str()));
    out.push(concat2("Total ", human_tokens(usage.tokens).as_str()));
    proof {
        assert(crate::text::texts(out@) =~= seq![
            "Share "@ + crate::format::share_text(usage.tokens as nat, total_tokens as nat),
            "Total "@ + crate::format::tokens_text(usage.tokens as nat),
        ]);
    }
    if usage.estimated_cost.is_some() {
        push_text(
            &mut out,
            concat2("Cost ", format_cost(usage.estimated_cost, usage.unpriced_tokens).as_str()),
        );
    }
    out
}

/// What was used on all of `days`.
pub open spec fn total_usage(days: Seq<DayModel>) -> TokenUsage
    decreases days.len(),
{
    if days.len() == 0 {
        crate::stats::no_usage()
    } else {
        crate::stats::usage_sum(total_usage(days.drop_last()), days.last().usage)
    }
}

/// The totals of `days`.
pub open spec fn total_parts(days: Seq<DayModel>, priced: bool) -> Seq<Seq<char>> {
    let total = total_usage(days);
    let head = seq!["Total "@ + crate::format::tokens_text(total.tokens as nat)];
    let costs = if priced && total.estimated_cost is Some {
        head.push("Cost "@ + crate::format::cost_text(total.estimated_cost, total.unpriced_tokens))
    } else {
        head
    };
    costs + detail_parts(total)
}

/// The totals of `days`.
pub fn range_total_items(days: &Vec<DailyUsage>, includes_price_estimates: bool) -> (out: Vec<
    String,
>)
    ensures
        crate::text::texts(out@) == total_parts(
            crate::stats::day_models(days@),
            includes_price_estimates,
        ),
{
    let ghost all = crate::stats::day_models(days@);
    let mut total = TokenUsage::none();
    let mut i: usize = 0;
    while i < days.len()
        invariant
            i <= days.len(),
            all == crate::stats::day_models(days@),
            total == total_usage(all.take(i as int)),
        decreases days.len() - i,
    {
        proof {
            assert(all.take(i + 1).drop_last() =~= all.take(i as int));
            assert(all.take(i + 1).last() == days@[i as int]@);
        }
        total = total.add_usage(&days[i].usage);
        i += 1;
    }
    proof {
        assert(all.take(all.len() as int) =~= all);
    }
    let mut out: Vec<String> = Vec::new();
    out.push(concat2("Total ", human_tokens(total.tokens).as_str()));
    proof {
        assert(crate::text::texts(out@) =~= seq![
            "Total "@ + crate::format::tokens_text(total.tokens as nat),
        ]);
    }
    if includes_price_estimates && total.estimated_cost.is_some() {
        push_text(
            &mut out,
            concat2("Cost ", format_cost(total.estimated_cost, total.unpriced_tokens).as_str()),
        );
    }
    extend(&mut out, model_usage_detail_parts(&total));
    out
}

// ---------------------------------------------------------------------------
// The chart and its totals
// ---------------------------------------------------------------------------

/// Whether no tokens were used on any of `days`.
pub open spec fn is_idle(days: Seq<DayModel>) -> bool {
    forall|i: int| 0 <= i < days.len() ==> (#[trigger] days[i]).usage.tokens == 0
}

/// The most tokens of a point.
pub open spec fn highest(points: Seq<PointModel>) -> u64
    decreases points.len(),
{
    if points.len() == 0 {
        0
    } else {
        let rest = highest(points.drop_last());
        if points.last().tokens > rest {
            points.last().tokens
        } else {
            rest
        }
    }
}

/// The items of the chart's legend.
pub open spec fn legend_items(
    top: Seq<KeyModel>,
    colors: Seq<(KeyModel, int)>,
    columns: nat,
    use_color: bool,
) -> Seq<Seq<char>> {
    top.map_values(
        |key: KeyModel|
            crate::models::marker_of(colors, key, use_color) + " "@ + crate::format::shortened(
                crate::models::label_of(key),
                crate::wrap::legend_width(columns),
            ),
    )
}

/// The chart of `days`, its legend and the totals.
pub open spec fn chart_page(
    days: Seq<DayModel>,
    label: Seq<char>,
    priced: bool,
    columns: nat,
    use_color: bool,
) -> Seq<Seq<char>> {
    if is_idle(days) {
        seq![]
    } else {
        let points = crate::chart::points_of(days, crate::chart::point_limit(columns as int));
        let top = crate::chart::top_models(points, DAILY_CHART_MODEL_LIMIT as int);
        let colors = crate::models::colors_for(top);
        let chart = crate::chart::chart_block(
            points,
            top,
            colors,
            highest(points) as int,
            crate::chart::chart_width(columns as int),
            use_color,
        );
        let legend = if top.len() > 0 {
            crate::wrap::legend(legend_items(top, colors, columns, use_color), columns)
        } else {
            seq![]
        };
        seq!["Tokens per Day"@] + chart + legend + seq![
            ""@,
            "Range: "@ + crate::models::accented(label, use_color),
        ] + crate::wrap::wrapped_items(total_parts(days, priced), 0, columns) + seq![""@]
    }
}

fn no_tokens(days: &Vec<DailyUsage>) -> (out: bool)
    ensures
        out == is_idle(crate::stats::day_models(days@)),
{
    let ghost all = crate::stats::day_models(days@);
    let mut i: usize = 0;
    while i < days.len()
        invariant
            i <= days.len(),
            all == crate::stats::day_models(days@),
            forall|j: int| 0 <= j < i ==> (#[trigger] all[j]).usage.tokens == 0,
        decreases days.len() - i,
    {
        if days[i].usage.tokens != 0 {
            proof {
                assert(all[i as int].usage.tokens != 0);
            }
            return false;
        }
        i += 1;
    }
    true
}

fn max_point_tokens(points: &Vec<ChartPoint>) -> (out: u64)
    ensures
        out == highest(crate::chart::point_models(points@)),
{
    let ghost all = crate::chart::point_models(points@);
    let mut out: u64 = 0;
    let mut i: usize = 0;
    while i < points.len()
        invariant
            i <= points.len(),
            all == crate::chart::point_models(points@),
            out == highest(all.take(i as int)),
        decreases points.len() - i,
    {
        proof {
            assert(all.take(i + 1).drop_last() =~= all.take(i as int));
            assert(all.take(i + 1).last() == points@[i as int]@);
        }
        if points[i].tokens > out {
            out = points[i].tokens;
        }
        i += 1;
    }
    proof {
        assert(all.take(all.len() as int) =~= all);
    }
    out
}

fn build_legend(
    top: &Vec<DisplayModelKey>,
    visuals: &ModelVisuals,
    columns: usize,
    use_color: bool,
) -> (out: Vec<String>)
    ensures
        crate::text::texts(out@) == legend_items(
            crate::models::key_models(top@),
            visuals@,
            columns as nat,
            use_color,
        ),
{
    let ghost wanted = legend_items(
        crate::models::key_models(top@),
        visuals@,
        columns as nat,
        use_color,
    );
    let width = legend_label_width_for_columns(columns);
    let mut out: Vec<String> = Vec::new();
    let mut i: usize = 0;
    proof {
        assert(crate::text::texts(out@) =~= wanted.take(0));
    }
    while i < top.len()
        invariant
            i <= top.len(),
            width == crate::wrap::legend_width(columns as nat),
            wanted == legend_items(
                crate::models::key_models(top@),
                visuals@,
                columns as nat,
                use_color,
            ),
            crate::text::texts(out@) == wanted.take(i as int),
        decreases top.len() - i,
    {
        let marker = model_marker_for_key(&top[i], visuals, use_color);
        let label = truncate(model_label(&top[i]).as_str(), width);
        push_text(&mut out, concat3(marker.as_str(), " ", label.as_str()));
        proof {
            assert(wanted.take(i + 1) =~= wanted.take(i as int).push(wanted[i as int]));
        }
        i += 1;
    }
    proof {
        assert(wanted.take(wanted.len() as int) =~= wanted);
    }
    out
}

/// The chart of `days`, its legend and the totals.
pub fn chart_lines_for(
    days: &Vec<DailyUsage>,
    label: &str,
    priced: bool,
    columns: usize,
    use_color: bool,
) -> (out: Vec<String>)
    ensures
        crate::text::texts(out@) == chart_page(
            crate::stats::day_models(days@),
            label@,
            priced,
            columns as nat,
            use_color,
        ),
{
    let mut out: Vec<String> = Vec::new();
    if no_tokens(days) {
        proof {
            assert(crate::text::texts(out@) =~= seq![]);
        }
        return out;
    }
    let points = chart_points(days, daily_chart_bucket_count_for_terminal(columns));
    let width = daily_chart_render_width_for_terminal(columns);
    let max_tokens = max_point_tokens(&points);
    let top = top_models_for_stacked_chart(&points, DAILY_CHART_MODEL_LIMIT);
    let visuals = ModelVisuals::from_models(&top);
    out.push(String::from_str("Tokens per Day"));
    proof {
        assert(crate::text::texts(out@) =~= seq!["Tokens per Day"@]);
    }
    extend(
        &mut out,
        stacked_bar_chart_lines(&points, &top, &visuals, max_tokens, width, use_color),
    );
    let ghost drawn = crate::text::texts(out@);
    if top.len() > 0 {
        let legend = build_legend(&top, &visuals, columns, use_color);
        extend(&mut out, chart_legend_lines(&legend, columns));
    } else {
        proof {
            assert(drawn + Seq::<Seq<char>>::empty() =~= drawn);
        }
    }
    let ghost with_legend = crate::text::texts(out@);
    push_text(&mut out, String::from_str(""));
    push_text(&mut out, concat2("Range: ", accent(label, use_color).as_str()));
    proof {
        assert(crate::text::texts(out@) =~= with_legend + seq![
            ""@,
            "Range: "@ + crate::models::accented(label@, use_color),
        ]);
    }
    extend(&mut out, wrapped_items_lines(&range_total_items(days, priced), 0, columns));
    let ghost with_totals = crate::text::texts(out@);
    push_text(&mut out, String::from_str(""));
    proof {
        assert(crate::text::texts(out@) =~= with_totals + seq![""@]);
    }
    out
}

/// The days that a report shows.
pub open spec fn days_of(report: &StatsReport, today: int) -> Seq<DayModel> {
    crate::stats::selected_days(
        report.range.kind,
        crate::stats::day_models(report.daily@),
        today,
    )
}

/// The chart of a report, its legend and the totals.
pub fn daily_chart_lines(report: &StatsReport, columns: usize, use_color: bool, today: i32) -> (out:
    Vec<String>)
    requires
        crate::dates::is_day(today as int),
        report.range.kind.is_valid(),
    ensures
        crate::text::texts(out@) == chart_page(
            days_of(report, today as int),
            report.range.kind.words(),
            report.is_priced(),
            columns as nat,
            use_color,
        ),
{
    let days = selected_daily_days(report, today);
    let label = report.range.label();
    chart_lines_for(
        &days,
        label.as_str(),
        report.includes_price_estimates(),
        columns,
        use_color,
    )
}

// ---------------------------------------------------------------------------
// The model mix
// ---------------------------------------------------------------------------

/// What each model used on a day.
pub open spec fn usage_entries(day: DayModel) -> Seq<(KeyModel, TokenUsage)> {
    day.models.map_values(
        |m: crate::stats::DailyModelModel| (crate::models::key_of(m), m.usage),
    )
}

/// What each model used on each of `days`.
pub open spec fn all_usage_entries(days: Seq<DayModel>) -> Seq<(KeyModel, TokenUsage)>
    decreases days.len(),
{
    if days.len() == 0 {
        seq![]
    } else {
        all_usage_entries(days.drop_last()) + usage_entries(days.last())
    }
}

/// What each model used on all of `days`, the most tokens first.
pub open spec fn usage_by_model(days: Seq<DayModel>) -> Seq<(KeyModel, TokenUsage)> {
    crate::models::ranked(crate::models::tallied(all_usage_entries(days)))
}

/// What each model used on all of `days`, the most tokens first.
pub fn aggregate_model_usage(days: &Vec<DailyUsage>) -> (out: Vec<Tally<TokenUsage>>)
    ensures
        crate::models::tallies(out@) == usage_by_model(crate::stats::day_models(days@)),
{
    let ghost all = crate::stats::day_models(days@);
    let mut sums: Vec<Tally<TokenUsage>> = Vec::new();
    let mut i: usize = 0;
    proof {
        assert(crate::models::tallies(sums@) =~= seq![]);
    }
    while i < days.len()
        invariant
            i <= days.len(),
            all == crate::stats::day_models(days@),
            crate::models::tallies(sums@) == crate::models::tallied(
                all_usage_entries(all.take(i as int)),
            ),
        decreases days.len() - i,
    {
        let ghost head = all_usage_entries(all.take(i as int));
        let ghost added = usage_entries(all[i as int]);
        proof {
            assert(all.take(i + 1).drop_last() =~= all.take(i as int));
            assert(all.take(i + 1).last() == all[i as int]);
            assert(head + added.take(0) =~= head);
        }
        let mut j: usize = 0;
        while j < days[i].models.len()
            invariant
                i < days.len(),
                j <= days@[i as int].models@.len(),
                added == usage_entries(days@[i as int]@),
                crate::models::tallies(sums@) == crate::models::tallied(
                    head + added.take(j as int),
                ),
            decreases days@[i as int].models@.len() - j,
        {
            proof {
                let whole = head + added.take(j + 1);
                assert(whole.drop_last() =~= head + added.take(j as int));
                assert(whole.last() == added[j as int]);
            }
            let key = DisplayModelKey::from_daily_model(&days[i].models[j]);
            add_amount(&mut sums, key, days[i].models[j].usage);
            j += 1;
        }
        proof {
            assert(added.take(added.len() as int) =~= added);
        }
        i += 1;
    }
    proof {
        assert(all.take(all.len() as int) =~= all);
    }
    rank(sums)
}

/// The sum of what some models used.
pub open spec fn usage_of_all(items: Seq<(KeyModel, TokenUsage)>) -> TokenUsage
    decreases items.len(),
{
    if items.len() == 0 {
        crate::stats::no_usage()
    } else {
        crate::stats::usage_sum(usage_of_all(items.drop_last()), items.last().1)
    }
}

/// The sum of what the models from `from` on used.
pub fn combine_model_usage(items: &Vec<Tally<TokenUsage>>, from: usize) -> (out: TokenUsage)
    requires
        from <= items@.len(),
    ensures
        out == usage_of_all(crate::models::tallies(items@).skip(from as int)),
{
    let ghost all = crate::models::tallies(items@).skip(from as int);
    let mut out = TokenUsage::none();
    let mut i: usize = from;
    while i < items.len()
        invariant
            from <= i <= items.len(),
            all == crate::models::tallies(items@).skip(from as int),
            out == usage_of_all(all.take(i - from)),
        decreases items.len() - i,
    {
        proof {
            let whole = all.take(i - from + 1);
            assert(whole.drop_last() =~= all.take(i - from));
            assert(whole.last() == crate::models::tallies(items@)[i as int]);
        }
        out = out.add_usage(&items[i].amount);
        i += 1;
    }
    proof {
        assert(all.take(all.len() as int) =~= all);
    }
    out
}

/// `n`, or the nearest number between `low` and `high`.
pub open spec fn between(n: int, low: int, high: int) -> int {
    if n < low {
        low
    } else if n > high {
        high
    } else {
        n
    }
}

/// `n`, or the nearest number between `low` and `high`.
pub fn clamp(n: usize, low: usize, high: usize) -> (out: usize)
    requires
        low <= high,
    ensures
        out == between(n as int, low as int, high as int),
{
    if n < low {
        low
    } else if n > high {
        high
    } else {
        n
    }
}

/// The one line of a model in the compact model mix.
pub open spec fn compact_row(
    key: KeyModel,
    usage: TokenUsage,
    colors: Seq<(KeyModel, int)>,
    total_tokens: u64,
    use_color: bool,
    columns: nat,
) -> Seq<char> {
    let marker = crate::models::marker_of(colors, key, use_color);
    let metrics = crate::lines::joined(primary_parts(usage, total_tokens), " · "@);
    let fixed = 4 + crate::ansi::width_of(marker) + metrics.len();
    let width = between(crate::chart::less(columns as int, fixed as int), 8, 32);
    "  "@ + marker + " "@ + crate::format::shortened(crate::models::label_of(key), width as nat)
        + " "@ + metrics
}

/// The lines of a model in the model mix.
pub open spec fn mix_row(
    key: KeyModel,
    usage: TokenUsage,
    colors: Seq<(KeyModel, int)>,
    total_tokens: u64,
    use_color: bool,
    columns: nat,
    compact: bool,
) -> Seq<Seq<char>> {
    if compact {
        seq![compact_row(key, usage, colors, total_tokens, use_color, columns)]
    } else {
        let width = between(
            crate::chart::less(crate::wrap::wrap_width(columns) as int, 4),
            8,
            48,
        );
        seq![
            "  "@ + crate::models::marker_of(colors, key, use_color) + " "@
                + crate::format::shortened(crate::models::label_of(key), width as nat),
        ] + crate::wrap::wrapped_items(primary_parts(usage, total_tokens), 4, columns)
            + crate::wrap::wrapped_items(detail_parts(usage), 4, columns)
    }
}

fn compact_model_mix_row(
    key: &DisplayModelKey,
    usage: &TokenUsage,
    visuals: &ModelVisuals,
    total_tokens: u64,
    use_color: bool,
    columns: usize,
) -> (out: String)
    ensures
        out@ == compact_row(key@, *usage, visuals@, total_tokens, use_color, columns as nat),
{
    let marker = model_marker_for_key(key, visuals, use_color);
    let metrics = join(&model_mix_primary_parts(usage, total_tokens), " · ");
    let fixed: usize = visible_width(marker.as_str()).saturating_add(
        metrics.as_str().unicode_len(),
    ).saturating_add(4);
    let width: usize = clamp(columns.saturating_sub(fixed), 8, 32);
    let label = truncate(model_label(key).as_str(), width);
    let head = concat4("  ", marker.as_str(), " ", label.as_str());
    concat3(head.as_str(), " ", metrics.as_str())
}

/// The lines of a model in the model mix.
pub fn model_mix_row_lines(
    key: &DisplayModelKey,
    usage: &TokenUsage,
    visuals: &ModelVisuals,
    total_tokens: u64,
    use_color: bool,
    columns: usize,
    compact: bool,
) -> (out: Vec<String>)
    ensures
        crate::text::texts(out@) == mix_row(
            key@,
            *usage,
            visuals@,
            total_tokens,
            use_color,
            columns as nat,
            compact,
        ),
{
    let mut out: Vec<String> = Vec::new();
    if compact {
        out.push(compact_model_mix_row(key, usage, visuals, total_tokens, use_color, columns));
        proof {
            assert(crate::text::texts(out@) =~= seq![
                compact_row(key@, *usage, visuals@, total_tokens, use_color, columns as nat),
            ]);
        }
        return out;
    }
    let width: usize = clamp(text_wrap_width_for_columns(columns).saturating_sub(4), 8, 48);
    let marker = model_marker_for_key(key, visuals, use_color);
    let label = truncate(model_label(key).as_str(), width);
    let head = concat4("  ", marker.as_str(), " ", label.as_str());
    let ghost first = head@;
    out.push(head);
    proof {
        assert(crate::text::texts(out@) =~= seq![first]);
    }
    extend(
        &mut out,
        wrapped_items_lines(&model_mix_primary_parts(usage, total_tokens), 4, columns),
    );
    extend(&mut out, wrapped_items_lines(&model_usage_detail_parts(usage), 4, columns));
    out
}

/// The tokens of some models.
pub open spec fn tokens_of_all(items: Seq<(KeyModel, TokenUsage)>) -> nat
    decreases items.len(),
{
    if items.len() == 0 {
        0
    } else {
        tokens_of_all(items.drop_last()) + items.last().1.tokens as nat
    }
}

/// The models that get lines of their own, then what stands for the others.
pub open spec fn mix_items(items: Seq<(KeyModel, TokenUsage)>) -> Seq<(KeyModel, TokenUsage)> {
    if items.len() <= MODEL_MIX_LIMIT {
        items
    } else {
        items.take(MODEL_MIX_LIMIT as int).push(
            (crate::models::other_key(), usage_of_all(items.skip(MODEL_MIX_LIMIT as int))),
        )
    }
}

/// The lines of some models in the model mix.
pub open spec fn mix_rows(
    items: Seq<(KeyModel, TokenUsage)>,
    colors: Seq<(KeyModel, int)>,
    total_tokens: u64,
    use_color: bool,
    columns: nat,
    compact: bool,
) -> Seq<Seq<char>>
    decreases items.len(),
{
    if items.len() == 0 {
        seq![]
    } else {
        mix_rows(items.drop_last(), colors, total_tokens, use_color, columns, compact) + mix_row(
            items.last().0,
            items.last().1,
            colors,
            total_tokens,
            use_color,
            columns,
            compact,
        )
    }
}

/// The model mix of `days`.
pub open spec fn mix_page(days: Seq<DayModel>, columns: nat, use_color: bool, compact: bool) -> Seq<
    Seq<char>,
> {
    let items = usage_by_model(days);
    let total = crate::stats::capped(tokens_of_all(items) as int);
    let shown = mix_items(items);
    if total == 0 {
        seq![]
    } else {
        seq!["Model Mix"@] + mix_rows(
            shown,
            crate::models::colors_for(crate::chart::names_of(shown)),
            total,
            use_color,
            columns,
            compact,
        ) + seq![""@]
    }
}

fn count_tokens(items: &Vec<Tally<TokenUsage>>) -> (out: u64)
    ensures
        out == crate::stats::capped(tokens_of_all(crate::models::tallies(items@)) as int),
{
    let ghost all = crate::models::tallies(items@);
    let mut out: u64 = 0;
    let mut i: usize = 0;
    while i < items.len()
        invariant
            i <= items.len(),
            all == crate::models::tallies(items@),
            out == crate::stats::capped(tokens_of_all(all.take(i as int)) as int),
        decreases items.len() - i,
    {
        proof {
            assert(all.take(i + 1).drop_last() =~= all.take(i as int));
            assert(all.take(i + 1).last() == all[i as int]);
        }
        out = out.saturating_add(items[i].amount.tokens);
        i += 1;
    }
    proof {
        assert(all.take(all.len() as int) =~= all);
    }
    out
}

fn choose_mix_items(items: Vec<Tally<TokenUsage>>) -> (out: Vec<Tally<TokenUsage>>)
    ensures
        crate::models::tallies(out@) == mix_items(crate::models::tallies(items@)),
{
    if items.len() <= MODEL_MIX_LIMIT {
        return items;
    }
    let ghost all = crate::models::tallies(items@);
    let rest = combine_model_usage(&items, MODEL_MIX_LIMIT);
    let mut out = items;
    out.truncate(MODEL_MIX_LIMIT);
    out.push(Tally { key: other_model_key(), amount: rest });
    proof {
        assert(crate::models::tallies(out@) =~= mix_items(all));
    }
    out
}

fn keys_of(items: &Vec<Tally<TokenUsage>>) -> (out: Vec<DisplayModelKey>)
    ensures
        crate::models::key_models(out@) == crate::chart::names_of(crate::models::tallies(items@)),
{
    let ghost names = crate::chart::names_of(crate::models::tallies(items@));
    let mut out: Vec<DisplayModelKey> = Vec::new();
    let mut i: usize = 0;
    while i < items.len()
        invariant
            i <= items.len(),
            names == crate::chart::names_of(crate::models::tallies(items@)),
            crate::models::key_models(out@) == names.take(i as int),
        decreases items.len() - i,
    {
        let ghost before = out@;
        out.push(items[i].key.copy());
        proof {
            assert(crate::models::key_models(out@) =~= crate::models::key_models(before).push(
                names[i as int],
            ));
            assert(names.take(i + 1) =~= names.take(i as int).push(names[i as int]));
        }
        i += 1;
    }
    proof {
        assert(names.take(names.len() as int) =~= names);
    }
    out
}

/// The model mix of `days`.
pub fn mix_lines_for(days: &Vec<DailyUsage>, columns: usize, use_color: bool, compact: bool) -> (out:
    Vec<String>)
    ensures
        crate::text::texts(out@) == mix_page(
            crate::stats::day_models(days@),
            columns as nat,
            use_color,
            compact,
        ),
{
    let mut out: Vec<String> = Vec::new();
    let items = aggregate_model_usage(days);
    let total = count_tokens(&items);
    if total == 0 {
        proof {
            assert(crate::text::texts(out@) =~= seq![]);
        }
        return out;
    }
    let shown = choose_mix_items(items);
    let ghost all = crate::models::tallies(shown@);
    let visuals = ModelVisuals::from_models(&keys_of(&shown));
    out.push(String::from_str("Model Mix"));
    let ghost title = seq!["Model Mix"@];
    proof {
        assert(crate::text::texts(out@) =~= title + mix_rows(
            all.take(0),
            visuals@,
            total,
            use_color,
            columns as nat,
            compact,
        ));
    }
    let mut i: usize = 0;
    while i < shown.len()
        invariant
            i <= shown.len(),
            all == crate::models::tallies(shown@),
            crate::text::texts(out@) == title + mix_rows(
                all.take(i as int),
                visuals@,
                total,
                use_color,
                columns as nat,
                compact,
            ),
        decreases shown.len() - i,
    {
        proof {
            assert(all.take(i + 1).drop_last() =~= all.take(i as int));
            assert(all.take(i + 1).last() == all[i as int]);
        }
        let ghost before = crate::text::texts(out@);
        let more = model_mix_row_lines(
            &shown[i].key,
            &shown[i].amount,
            &visuals,
            total,
            use_color,
            columns,
            compact,
        );
        let ghost added = crate::text::texts(more@);
        extend(&mut out, more);
        proof {
            assert(before + added =~= title + (mix_rows(
                all.take(i as int),
                visuals@,
                total,
                use_color,
                columns as nat,
                compact,
            ) + added));
        }
        i += 1;
    }
    proof {
        assert(all.take(all.len() as int) =~= all);
    }
    let ghost body = crate::text::texts(out@);
    push_text(&mut out, String::from_str(""));
    proof {
        assert(crate::text::texts(out@) =~= body + seq![""@]);
    }
    out
}

/// The model mix of a report.
pub fn model_mix_lines(
    report: &StatsReport,
    columns: usize,
    use_color: bool,
    compact: bool,
    today: i32,
) -> (out: Vec<String>)
    requires
        crate::dates::is_day(today as int),
        report.range.kind.is_valid(),
    ensures
        crate::text::texts(out@) == mix_page(
            days_of(report, today as int),
            columns as nat,
            use_color,
            compact,
        ),
{
    mix_lines_for(&selected_daily_days(report, today), columns, use_color, compact)
}

/// What stands for the models without lines of their own used all that they used:
/// no token is lost from the model mix, as long as counts stay in range.
pub proof fn mixes_hold_all_tokens(items: Seq<(KeyModel, TokenUsage)>)
    requires
        tokens_of_all(items) <= u64::MAX,
    ensures
        tokens_of_all(mix_items(items)) == tokens_of_all(items),
{
    if items.len() > MODEL_MIX_LIMIT {
        let head = items.take(MODEL_MIX_LIMIT as int);
        let rest = items.skip(MODEL_MIX_LIMIT as int);
        assert(head + rest =~= items);
        lemma_tokens_split(head, rest);
        lemma_usage_tokens(rest);
        assert(mix_items(items).drop_last() =~= head);
    }
}

proof fn lemma_tokens_split(a: Seq<(KeyModel, TokenUsage)>, b: Seq<(KeyModel, TokenUsage)>)
    ensures
        tokens_of_all(a + b) == tokens_of_all(a) + tokens_of_all(b),
    decreases b.len(),
{
    if b.len() == 0 {
        assert(a + b =~= a);
    } else {
        lemma_tokens_split(a, b.drop_last());
        assert((a + b).drop_last() =~= a + b.drop_last());
        assert((a + b).last() == b.last());
    }
}

proof fn lemma_usage_tokens(items: Seq<(KeyModel, TokenUsage)>)
    ensures
        usage_of_all(items).tokens == crate::stats::capped(tokens_of_all(items) as int),
    decreases items.len(),
{
    if items.len() > 0 {
        lemma_usage_tokens(items.drop_last());
    }
}

// ---------------------------------------------------------------------------
// Slot windows
// ---------------------------------------------------------------------------

/// Whether tables show costs.
#[derive(Clone, Copy, Debug, PartialEq, Eq, Structural)]
pub enum StatsColumns {
    Tokens,
    TokensAndCost,
}

/// The columns of a row of the table of periods.
pub open spec fn period_columns(
    name: Seq<char>,
    threads: Seq<char>,
    tokens: Seq<char>,
    raw: Seq<char>,
) -> Seq<char> {
    crate::format::left_aligned(name, 8) + " "@ + crate::format::right_aligned(threads, 8) + " "@
        + crate::format::right_aligned(tokens, 12) + " "@ + crate::format::right_aligned(raw, 12)
}

fn lay_out_period(name: &str, threads: &str, tokens: &str, raw: &str) -> (out: String)
    ensures
        out@ == period_columns(name@, threads@, tokens@, raw@),
{
    let head = concat4(pad_right(name, 8).as_str(), " ", pad_left(threads, 8).as_str(), " ");
    concat4(head.as_str(), pad_left(tokens, 12).as_str(), " ", pad_left(raw, 12).as_str())
}

impl StatsColumns {
    /// The columns of a report.
    pub open spec fn of_report(report: &StatsReport) -> StatsColumns {
        if report.is_priced() {
            StatsColumns::TokensAndCost
        } else {
            StatsColumns::Tokens
        }
    }

    /// The columns of a report.
    pub fn from_report(report: &StatsReport) -> (out: StatsColumns)
        ensures
            out == StatsColumns::of_report(report),
    {
        if report.includes_price_estimates() {
            StatsColumns::TokensAndCost
        } else {
            StatsColumns::Tokens
        }
    }

    /// The head of the table.
    pub open spec fn header_text(self) -> Seq<char> {
        let head = period_columns("period"@, "threads"@, "tokens"@, "raw"@);
        match self {
            StatsColumns::Tokens => head,
            StatsColumns::TokensAndCost => head + " "@ + crate::format::right_aligned(
                "est. cost"@,
                12,
            ),
        }
    }

    /// The head of the table.
    pub fn header(self) -> (out: String)
        ensures
            out@ == self.header_text(),
    {
        let head = lay_out_period("period", "threads", "tokens", "raw");
        match self {
            StatsColumns::Tokens => head,
            StatsColumns::TokensAndCost => concat3(
                head.as_str(),
                " ",
                pad_left("est. cost", 12).as_str(),
            ),
        }
    }

    /// The row of a period.
    pub open spec fn period_text(self, period: &PeriodUsage) -> Seq<char> {
        let head = period_columns(
            period.period@,
            crate::numbers::decimal_of(period.threads as nat),
            crate::format::tokens_text(period.tokens as nat),
            crate::numbers::decimal_of(period.tokens as nat),
        );
        match self {
            StatsColumns::Tokens => head,
            StatsColumns::TokensAndCost => head + " "@ + crate::format::right_aligned(
                crate::format::cost_text(period.estimated_cost, period.unpriced_tokens),
                12,
            ),
        }
    }

    /// The row of a period.
    pub fn period_row(self, period: &PeriodUsage) -> (out: String)
        ensures
            out@ == self.period_text(period),
    {
        let head = lay_out_period(
            period.period.as_str(),
            decimal(period.threads).as_str(),
            human_tokens(period.tokens).as_str(),
            decimal(period.tokens).as_str(),
        );
        match self {
            StatsColumns::Tokens => head,
            StatsColumns::TokensAndCost => {
                let cost = format_cost(period.estimated_cost, period.unpriced_tokens);
                concat3(head.as_str(), " ", pad_left(cost.as_str(), 12).as_str())
            },
        }
    }

    /// The row of a slot.
    pub open spec fn slot_text(self, slot: &NamedUsage) -> Seq<char> {
        let head = "  "@ + crate::format::left_aligned(
            crate::format::shortened(slot.name@, 18),
            18,
        ) + " "@ + crate::format::right_aligned(
            crate::numbers::decimal_of(slot.threads as nat),
            8,
        ) + " "@ + crate::format::right_aligned(
            crate::format::tokens_text(slot.tokens as nat),
            12,
        );
        match self {
            StatsColumns::Tokens => head,
            StatsColumns::TokensAndCost => head + " "@ + crate::format::right_aligned(
                crate::format::cost_text(slot.estimated_cost, slot.unpriced_tokens),
                12,
            ),
        }
    }

    /// The row of a slot.
    pub fn slot_row(self, slot: &NamedUsage) -> (out: String)
        ensures
            out@ == self.slot_text(slot),
    {
        let name = pad_right(truncate(slot.name.as_str(), 18).as_str(), 18);
        let start = concat4("  ", name.as_str(), " ", pad_left(decimal(slot.threads).as_str(), 8).as_str());
        let head = concat3(
            start.as_str(),
            " ",
            pad_left(human_tokens(slot.tokens).as_str(), 12).as_str(),
        );
        match self {
            StatsColumns::Tokens => head,
            StatsColumns::TokensAndCost => {
                let cost = format_cost(slot.estimated_cost, slot.unpriced_tokens);
                concat3(head.as_str(), " ", pad_left(cost.as_str(), 12).as_str())
            },
        }
    }
}

/// The rows of the slots of a period.
pub open spec fn slot_rows(columns: StatsColumns, slots: Seq<NamedUsage>) -> Seq<Seq<char>> {
    slots.map_values(|slot: NamedUsage| columns.slot_text(&slot))
}

/// The rows of periods, each before those of its slots.
pub open spec fn period_rows(columns: StatsColumns, periods: Seq<PeriodUsage>) -> Seq<Seq<char>>
    decreases periods.len(),
{
    if periods.len() == 0 {
        seq![]
    } else {
        period_rows(columns, periods.drop_last()).push(
            columns.period_text(&periods.last()),
        ) + slot_rows(columns, periods.last().slots@)
    }
}

pub(crate) fn list_periods(columns: StatsColumns, periods: &Vec<PeriodUsage>) -> (out: Vec<String>)
    ensures
        crate::text::texts(out@) == period_rows(columns, periods@),
{
    let mut out: Vec<String> = Vec::new();
    let mut i: usize = 0;
    proof {
        assert(crate::text::texts(out@) =~= period_rows(columns, periods@.take(0)));
    }
    while i < periods.len()
        invariant
            i <= periods.len(),
            crate::text::texts(out@) == period_rows(columns, periods@.take(i as int)),
        decreases periods.len() - i,
    {
        proof {
            assert(periods@.take(i + 1).drop_last() =~= periods@.take(i as int));
            assert(periods@.take(i + 1).last() == periods@[i as int]);
        }
        push_text(&mut out, columns.period_row(&periods[i]));
        let ghost head = crate::text::texts(out@);
        let ghost rows = slot_rows(columns, periods@[i as int].slots@);
        let mut j: usize = 0;
        proof {
            assert(head + rows.take(0) =~= head);
        }
        while j < periods[i].slots.len()
            invariant
                i < periods.len(),
                j <= periods@[i as int].slots@.len(),
                rows == slot_rows(columns, periods@[i as int].slots@),
                crate::text::texts(out@) == head + rows.take(j as int),
            decreases periods@[i as int].slots@.len() - j,
        {
            push_text(&mut out, columns.slot_row(&periods[i].slots[j]));
            proof {
                assert(head + rows.take(j + 1) =~= (head + rows.take(j as int)).push(
                    rows[j as int],
                ));
            }
            j += 1;
        }
        proof {
            assert(rows.take(rows.len() as int) =~= rows);
        }
        i += 1;
    }
    proof {
        assert(periods@.take(periods@.len() as int) =~= periods@);
    }
    out
}

/// `lines`, each cut to `columns`.
pub open spec fn all_clipped(lines: Seq<Seq<char>>, columns: nat) -> Seq<Seq<char>> {
    lines.map_values(|line: Seq<char>| crate::ansi::clipped(line, columns))
}

/// `lines`, each cut to `columns`.
pub fn clip_all(lines: &Vec<String>, columns: usize) -> (out: Vec<String>)
    ensures
        crate::text::texts(out@) == all_clipped(crate::text::texts(lines@), columns as nat),
{
    let ghost wanted = all_clipped(crate::text::texts(lines@), columns as nat);
    let mut out: Vec<String> = Vec::new();
    let mut i: usize = 0;
    proof {
        assert(crate::text::texts(out@) =~= wanted.take(0));
    }
    while i < lines.len()
        invariant
            i <= lines.len(),
            wanted == all_clipped(crate::text::texts(lines@), columns as nat),
            crate::text::texts(out@) == wanted.take(i as int),
        decreases lines.len() - i,
    {
        push_text(&mut out, truncate_ansi_line(lines[i].as_str(), columns));
        proof {
            assert(wanted.take(i + 1) =~= wanted.take(i as int).push(wanted[i as int]));
        }
        i += 1;
    }
    proof {
        assert(wanted.take(wanted.len() as int) =~= wanted);
    }
    out
}

/// The table of periods and slots, its rows cut to `columns`.
pub open spec fn slot_windows(report: &StatsReport, columns: nat) -> Seq<Seq<char>> {
    let table = StatsColumns::of_report(report);
    seq![""@, "Slot Windows"@, table.header_text()] + all_clipped(
        period_rows(table, report.periods@),
        columns,
    ) + seq![""@]
}

/// The table of periods and slots, its rows cut to `columns`.
pub fn slot_window_lines(report: &StatsReport, columns: usize) -> (out: Vec<String>)
    ensures
        crate::text::texts(out@) == slot_windows(report, columns as nat),
{
    let table = StatsColumns::from_report(report);
    let mut out: Vec<String> = Vec::new();
    out.push(String::from_str(""));
    out.push(String::from_str("Slot Windows"));
    out.push(table.header());
    proof {
        assert(crate::text::texts(out@) =~= seq![""@, "Slot Windows"@, table.header_text()]);
    }
    extend(&mut out, clip_all(&list_periods(table, &report.periods), columns));
    let ghost body = crate::text::texts(out@);
    push_text(&mut out, String::from_str(""));
    proof {
        assert(crate::text::texts(out@) =~= body + seq![""@]);
    }
    out
}

// ---------------------------------------------------------------------------
// The page without a terminal
// ---------------------------------------------------------------------------

/// Whether a day has a cost that leaves tokens out.
pub open spec fn leaves_tokens_out(daily: Seq<DailyUsage>) -> bool {
    exists|i: int|
        0 <= i < daily.len() && (#[trigger] daily[i]).usage.estimated_cost is Some
            && daily[i].usage.unpriced_tokens > 0
}

fn has_unpriced_day(daily: &Vec<DailyUsage>) -> (out: bool)
    ensures
        out == leaves_tokens_out(daily@),
{
    let mut i: usize = 0;
    while i < daily.len()
        invariant
            i <= daily.len(),
            forall|j: int|
                0 <= j < i ==> !((#[trigger] daily@[j]).usage.estimated_cost is Some
                    && daily@[j].usage.unpriced_tokens > 0),
        decreases daily.len() - i,
    {
        if daily[i].usage.estimated_cost.is_some() && daily[i].usage.unpriced_tokens > 0 {
            return true;
        }
        i += 1;
    }
    false
}

/// Where prices come from, with the address of the price list in words.
pub open spec fn source_label(source: Seq<char>) -> Seq<char> {
    crate::text::replaced(
        source,
        "https://developers.openai.com/api/docs/pricing"@,
        "OpenAI pricing docs"@,
    )
}

/// The part of the static page below the model mix.
pub open spec fn static_rest(report: &StatsReport, columns: nat) -> Seq<Seq<char>> {
    let table = StatsColumns::of_report(report);
    let windows = if report.by_slot {
        seq!["Slot Windows"@, table.header_text()] + period_rows(table, report.periods@).push(""@)
    } else {
        seq![]
    };
    let note = if leaves_tokens_out(report.daily@) {
        crate::wrap::wrapped_text(
            "* est. cost excludes tokens for models without known OpenAI pricing."@,
            0,
            columns,
        )
    } else {
        seq![]
    };
    let source = match report.price_source {
        Some(text) => seq!["Price estimates:"@] + crate::wrap::wrapped_text(
            source_label(text@),
            2,
            columns,
        ),
        None => seq![],
    };
    windows + note + source
}

/// The page without a terminal.
pub fn static_stats_lines(report: &StatsReport, columns: usize, use_color: bool, today: i32) -> (out:
    Vec<String>)
    requires
        crate::dates::is_day(today as int),
        report.range.kind.is_valid(),
    ensures
        crate::text::texts(out@) == chart_page(
            days_of(report, today as int),
            report.range.kind.words(),
            report.is_priced(),
            columns as nat,
            use_color,
        ) + mix_page(days_of(report, today as int), columns as nat, use_color, false)
            + static_rest(report, columns as nat),
{
    let mut out = daily_chart_lines(report, columns, use_color, today);
    extend(&mut out, model_mix_lines(report, columns, use_color, false, today));
    extend(&mut out, static_rest_lines(report, columns));
    out
}

fn static_rest_lines(report: &StatsReport, columns: usize) -> (out: Vec<String>)
    ensures
        crate::text::texts(out@) == static_rest(report, columns as nat),
{
    let mut out: Vec<String> = Vec::new();
    proof {
        assert(crate::text::texts(out@) =~= seq![]);
    }
    if report.by_slot {
        let table = StatsColumns::from_report(report);
        out.push(String::from_str("Slot Windows"));
        out.push(table.header());
        proof {
            assert(crate::text::texts(out@) =~= seq!["Slot Windows"@, table.header_text()]);
        }
        let mut rows = list_periods(table, &report.periods);
        push_text(&mut rows, String::from_str(""));
        extend(&mut out, rows);
    }
    let ghost windows = crate::text::texts(out@);
    if has_unpriced_day(&report.daily) {
        extend(
            &mut out,
            wrapped_text_lines(
                "* est. cost excludes tokens for models without known OpenAI pricing.",
                0,
                columns,
            ),
        );
    } else {
        proof {
            assert(windows + Seq::<Seq<char>>::empty() =~= windows);
        }
    }
    let ghost noted = crate::text::texts(out@);
    match &report.price_source {
        Some(text) => {
            proof {
                reveal_strlit("https://developers.openai.com/api/docs/pricing");
            }
            let label = replace_all(
                text.as_str(),
                "https://developers.openai.com/api/docs/pricing",
                "OpenAI pricing docs",
            );
            push_text(&mut out, String::from_str("Price estimates:"));
            let more = wrapped_text_lines(label.as_str(), 2, columns);
            let ghost added = crate::text::texts(more@);
            extend(&mut out, more);
            proof {
                assert(noted.push("Price estimates:"@) + added =~= noted + (seq![
                    "Price estimates:"@,
                ] + added));
            }
        },
        None => {
            proof {
                assert(noted + Seq::<Seq<char>>::empty() =~= noted);
            }
        },
    }
    out
}

// ---------------------------------------------------------------------------
// Laws
// ---------------------------------------------------------------------------


proof fn lemma_pushed(items: Seq<Seq<char>>, item: Seq<char>)
    ensures
        items.push(item).contains(item),
        forall|other: Seq<char>| items.contains(other) ==> #[trigger] items.push(item).contains(
            other,
        ),
{
    let all = items.push(item);
    assert(all[items.len() as int] == item);
    assert forall|other: Seq<char>| items.contains(other) implies #[trigger] items.push(
        item,
    ).contains(other) by {
        let i = choose|i: int| 0 <= i < items.len() && items[i] == other;
        assert(all[i] == other);
    }
}

/// Each kind of token that was used is shown under its name, and where nothing is known
/// of the kind, what is unsorted is.
pub proof fn used_kinds_are_shown(usage: TokenUsage)
    ensures
        usage.input_tokens > 0 ==> detail_parts(usage).contains(
            "In "@ + crate::format::tokens_text(usage.input_tokens as nat),
        ),
        usage.cached_input_tokens > 0 ==> detail_parts(usage).contains(
            "Cache "@ + crate::format::tokens_text(usage.cached_input_tokens as nat),
        ),
        usage.output_tokens > 0 ==> detail_parts(usage).contains(
            "Out "@ + crate::format::tokens_text(usage.output_tokens as nat),
        ),
        usage.reasoning_output_tokens > 0 ==> detail_parts(usage).contains(
            "Reason "@ + crate::format::tokens_text(usage.reasoning_output_tokens as nat),
        ),
        usage.uncategorized_tokens > 0 ==> detail_parts(usage).last() == "Raw "@
            + crate::format::tokens_text(usage.uncategorized_tokens as nat),
        usage.input_tokens == 0 && usage.cached_input_tokens == 0 && usage.output_tokens == 0
            && usage.reasoning_output_tokens == 0 ==> detail_parts(usage) == seq![
            "Raw "@ + crate::format::tokens_text(usage.uncategorized_tokens as nat),
        ],
        detail_parts(usage).len() >= 1,
        usage.input_tokens > 0 && usage.cached_input_tokens > 0 && usage.output_tokens > 0
            && usage.reasoning_output_tokens > 0 && usage.uncategorized_tokens == 0
            ==> detail_parts(usage).len() == 4,
{
    let input = "In "@ + crate::format::tokens_text(usage.input_tokens as nat);
    let a: Seq<Seq<char>> = if usage.input_tokens > 0 {
        seq![input]
    } else {
        seq![]
    };
    if usage.input_tokens > 0 {
        assert(a[0] == input);
    }
    let cache = "Cache "@ + crate::format::tokens_text(usage.cached_input_tokens as nat);
    let b = if usage.cached_input_tokens > 0 {
        a.push(cache)
    } else {
        a
    };
    lemma_pushed(a, cache);
    let output = "Out "@ + crate::format::tokens_text(usage.output_tokens as nat);
    let c = if usage.output_tokens > 0 {
        b.push(output)
    } else {
        b
    };
    lemma_pushed(b, output);
    let reason = "Reason "@ + crate::format::tokens_text(usage.reasoning_output_tokens as nat);
    let d = if usage.reasoning_output_tokens > 0 {
        c.push(reason)
    } else {
        c
    };
    lemma_pushed(c, reason);
    let raw = "Raw "@ + crate::format::tokens_text(usage.uncategorized_tokens as nat);
    lemma_pushed(d, raw);
    if d.len() == 0 {
        assert(detail_parts(usage) =~= seq![raw]);
    }
}

/// A model is shown with its share, its tokens and, where a price is known, its cost.
pub proof fn models_are_shown_with_their_share(usage: TokenUsage, total_tokens: u64)
    ensures
        ({
            let parts = primary_parts(usage, total_tokens);
            &&& parts[0] == "Share "@ + crate::format::share_text(
                usage.tokens as nat,
                total_tokens as nat,
            )
            &&& parts[1] == "Total "@ + crate::format::tokens_text(usage.tokens as nat)
            &&& parts.len() == 2 + (if usage.estimated_cost is Some {
                1int
            } else {
                0int
            })
            &&& usage.estimated_cost is Some ==> parts[2] == "Cost "@ + crate::format::cost_text(
                usage.estimated_cost,
                usage.unpriced_tokens,
            )
        }),
{
}

/// One more day adds its tokens, of each kind, to the total.
pub proof fn totals_add_their_days(days: Seq<DayModel>, day: DayModel)
    ensures
        ({
            let before = total_usage(days);
            let after = total_usage(days.push(day));
            &&& before.tokens + day.usage.tokens <= u64::MAX ==> after.tokens == before.tokens
                + day.usage.tokens
            &&& before.input_tokens + day.usage.input_tokens <= u64::MAX ==> after.input_tokens
                == before.input_tokens + day.usage.input_tokens
            &&& before.output_tokens + day.usage.output_tokens <= u64::MAX ==> after.output_tokens
                == before.output_tokens + day.usage.output_tokens
            &&& before.tokens + day.usage.tokens > u64::MAX ==> after.tokens == u64::MAX
            &&& (after.estimated_cost is Some <==> before.estimated_cost is Some
                || day.usage.estimated_cost is Some)
        }),
        total_usage(seq![]).tokens == 0 && total_usage(seq![]).estimated_cost is None,
{
    assert(days.push(day).drop_last() =~= days);
    crate::stats::usages_add_up(total_usage(days), day.usage);
}

/// The total is shown first, its cost next where prices were asked for and one is
/// known, and the kinds of tokens last.
pub proof fn totals_are_shown(days: Seq<DayModel>, priced: bool)
    ensures
        ({
            let parts = total_parts(days, priced);
            let total = total_usage(days);
            let cost = priced && total.estimated_cost is Some;
            let details = detail_parts(total);
            &&& parts[0] == "Total "@ + crate::format::tokens_text(total.tokens as nat)
            &&& cost ==> parts[1] == "Cost "@ + crate::format::cost_text(
                total.estimated_cost,
                total.unpriced_tokens,
            )
            &&& parts.len() == details.len() + (if cost {
                2int
            } else {
                1int
            })
            &&& parts.skip(parts.len() - details.len()) == details
        }),
{
    let parts = total_parts(days, priced);
    let details = detail_parts(total_usage(days));
    assert(parts.skip(parts.len() - details.len()) =~= details);
}

/// The highest point is as high as one of the points, and none is higher.
pub proof fn the_highest_point_is_the_scale(points: Seq<PointModel>, i: int)
    requires
        0 <= i < points.len(),
    ensures
        points[i].tokens <= highest(points),
        exists|j: int| 0 <= j < points.len() && (#[trigger] points[j]).tokens == highest(points),
    decreases points.len(),
{
    let rest = points.drop_last();
    let last = points.len() - 1;
    if rest.len() > 0 {
        let k = if i < last {
            i
        } else {
            0
        };
        the_highest_point_is_the_scale(rest, k);
        if points.last().tokens <= highest(rest) {
            let j = choose|j: int|
                0 <= j < rest.len() && (#[trigger] rest[j]).tokens == highest(rest);
            assert(points[j].tokens == highest(points));
        } else {
            assert(points[last].tokens == highest(points));
        }
        if i < last {
            assert(rest[i] == points[i]);
        }
    } else {
        assert(highest(rest) == 0);
        assert(points[last].tokens == highest(points));
    }
}

/// Without tokens there is no chart. Otherwise it has its heading, then the bars, and
/// it names its range.
pub proof fn charts_are_shown_where_tokens_were_used(
    days: Seq<DayModel>,
    label: Seq<char>,
    priced: bool,
    columns: nat,
    use_color: bool,
)
    ensures
        (forall|i: int| 0 <= i < days.len() ==> (#[trigger] days[i]).usage.tokens == 0)
            ==> chart_page(days, label, priced, columns, use_color).len() == 0,
        !(forall|i: int| 0 <= i < days.len() ==> (#[trigger] days[i]).usage.tokens == 0) ==> {
            let lines = chart_page(days, label, priced, columns, use_color);
            &&& lines.len() >= 3
            &&& lines[0] == "Tokens per Day"@
            &&& lines.last() == ""@
            &&& lines.contains("Range: "@ + crate::models::accented(label, use_color))
        },
{
    if !is_idle(days) {
        let lines = chart_page(days, label, priced, columns, use_color);
        let tail = crate::wrap::wrapped_items(total_parts(days, priced), 0, columns) + seq![""@];
        let at = lines.len() - tail.len() - 1;
        assert(lines[at] == "Range: "@ + crate::models::accented(label, use_color));
    }
}

/// A legend names each model once, in order, behind its mark.
pub proof fn legends_name_their_models(
    top: Seq<KeyModel>,
    colors: Seq<(KeyModel, int)>,
    columns: nat,
    use_color: bool,
    i: int,
)
    requires
        0 <= i < top.len(),
    ensures
        legend_items(top, colors, columns, use_color).len() == top.len(),
        crate::text::has_prefix(
            legend_items(top, colors, columns, use_color)[i],
            crate::models::marker_of(colors, top[i], use_color),
        ),
        crate::text::has_suffix(
            legend_items(top, colors, columns, use_color)[i],
            crate::format::shortened(
                crate::models::label_of(top[i]),
                crate::wrap::legend_width(columns),
            ),
        ),
{
    let item = legend_items(top, colors, columns, use_color)[i];
    let mark = crate::models::marker_of(colors, top[i], use_color);
    let label = crate::format::shortened(
        crate::models::label_of(top[i]),
        crate::wrap::legend_width(columns),
    );
    assert(item.take(mark.len() as int) =~= mark);
    assert(item.skip(item.len() - label.len()) =~= label);
}

/// What the days hold for a model is added up, and models with more tokens come first.
pub proof fn models_are_added_up_and_ranked(days: Seq<DayModel>, day: DayModel, i: int, j: int)
    ensures
        all_usage_entries(days.push(day)) == all_usage_entries(days) + usage_entries(day),
        0 <= i < day.models.len() ==> usage_entries(day)[i].0.provider == day.models[i].provider
            && usage_entries(day)[i].0.model == day.models[i].model && usage_entries(day)[i].1
            == day.models[i].usage,
        0 <= i < j < usage_by_model(days).len() ==> usage_by_model(days)[i].1.tokens
            >= usage_by_model(days)[j].1.tokens,
        usage_by_model(days).to_multiset() == crate::models::tallied(
            all_usage_entries(days),
        ).to_multiset(),
{
    assert(days.push(day).drop_last() =~= days);
    let tallied = crate::models::tallied(all_usage_entries(days));
    crate::models::rankings_are_sorted(tallied);
    if 0 <= i < j < usage_by_model(days).len() {
        let ranked = crate::models::ranked(tallied);
        assert(!crate::models::outranks(ranked[j], ranked[i]));
    }
}

/// Up to six models are shown as they are; of more, the first six and the rest as one.
pub proof fn six_models_are_shown(items: Seq<(KeyModel, TokenUsage)>, i: int)
    ensures
        items.len() <= 6 ==> mix_items(items) == items,
        items.len() > 6 ==> mix_items(items).len() == 7 && mix_items(items)[6].0
            == crate::models::other_key(),
        0 <= i < items.len() && i < 6 ==> mix_items(items)[i] == items[i],
{
}

/// The models are listed in their order, each with its own lines, under a heading;
/// without tokens nothing is.
pub proof fn mixes_list_their_models(
    items: Seq<(KeyModel, TokenUsage)>,
    item: (KeyModel, TokenUsage),
    colors: Seq<(KeyModel, int)>,
    total_tokens: u64,
    use_color: bool,
    columns: nat,
    compact: bool,
    days: Seq<DayModel>,
)
    ensures
        mix_rows(items.push(item), colors, total_tokens, use_color, columns, compact) == mix_rows(
            items,
            colors,
            total_tokens,
            use_color,
            columns,
            compact,
        ) + mix_row(item.0, item.1, colors, total_tokens, use_color, columns, compact),
        tokens_of_all(usage_by_model(days)) == 0 ==> mix_page(days, columns, use_color, compact).len()
            == 0,
        tokens_of_all(usage_by_model(days)) > 0 ==> mix_page(days, columns, use_color, compact).len()
            >= 2 && mix_page(days, columns, use_color, compact)[0] == "Model Mix"@ && mix_page(
            days,
            columns,
            use_color,
            compact,
        ).last() == ""@,
{
    assert(items.push(item).drop_last() =~= items);
}

/// A compact row is one line. Any other row names the model on its first line, with
/// the share and the tokens below it.
pub proof fn rows_name_their_model(
    key: KeyModel,
    usage: TokenUsage,
    colors: Seq<(KeyModel, int)>,
    total_tokens: u64,
    use_color: bool,
    columns: nat,
)
    ensures
        mix_row(key, usage, colors, total_tokens, use_color, columns, true).len() == 1,
        crate::text::has_prefix(
            mix_row(key, usage, colors, total_tokens, use_color, columns, true)[0],
            "  "@ + crate::models::marker_of(colors, key, use_color) + " "@,
        ),
        crate::text::has_suffix(
            mix_row(key, usage, colors, total_tokens, use_color, columns, true)[0],
            " "@ + crate::lines::joined(primary_parts(usage, total_tokens), " · "@),
        ),
        crate::text::has_prefix(
            mix_row(key, usage, colors, total_tokens, use_color, columns, false)[0],
            "  "@ + crate::models::marker_of(colors, key, use_color) + " "@,
        ),
        crate::models::label_of(key).len() <= 8 ==> crate::text::has_suffix(
            mix_row(key, usage, colors, total_tokens, use_color, columns, false)[0],
            crate::models::label_of(key),
        ),
        mix_row(key, usage, colors, total_tokens, use_color, columns, false).len() == 1
            + crate::wrap::wrapped_items(primary_parts(usage, total_tokens), 4, columns).len()
            + crate::wrap::wrapped_items(detail_parts(usage), 4, columns).len(),
{
    let head = "  "@ + crate::models::marker_of(colors, key, use_color) + " "@;
    let short = mix_row(key, usage, colors, total_tokens, use_color, columns, true)[0];
    let long = mix_row(key, usage, colors, total_tokens, use_color, columns, false)[0];
    let metrics = " "@ + crate::lines::joined(primary_parts(usage, total_tokens), " · "@);
    assert(short.take(head.len() as int) =~= head);
    assert(long.take(head.len() as int) =~= head);
    assert(short.skip(short.len() - metrics.len()) =~= metrics);
    let label = crate::models::label_of(key);
    if label.len() <= 8 {
        assert(long.skip(long.len() - label.len()) =~= label);
    }
}

/// A table with costs has the columns of one without, and one more.
pub proof fn costs_are_a_further_column(period: PeriodUsage, slot: NamedUsage)
    ensures
        crate::text::has_prefix(
            StatsColumns::TokensAndCost.header_text(),
            StatsColumns::Tokens.header_text(),
        ),
        crate::text::has_prefix(
            StatsColumns::TokensAndCost.period_text(&period),
            StatsColumns::Tokens.period_text(&period),
        ),
        crate::text::has_suffix(
            StatsColumns::TokensAndCost.period_text(&period),
            crate::format::cost_text(period.estimated_cost, period.unpriced_tokens),
        ),
        crate::text::has_prefix(
            StatsColumns::TokensAndCost.slot_text(&slot),
            StatsColumns::Tokens.slot_text(&slot),
        ),
        crate::text::has_suffix(
            StatsColumns::TokensAndCost.slot_text(&slot),
            crate::format::cost_text(slot.estimated_cost, slot.unpriced_tokens),
        ),
{
    let a = StatsColumns::Tokens.header_text();
    let b = StatsColumns::TokensAndCost.header_text();
    assert(b.take(a.len() as int) =~= a);
    let a = StatsColumns::Tokens.period_text(&period);
    let b = StatsColumns::TokensAndCost.period_text(&period);
    let c = crate::format::cost_text(period.estimated_cost, period.unpriced_tokens);
    assert(b.take(a.len() as int) =~= a);
    assert(b.skip(b.len() - c.len()) =~= c);
    let a = StatsColumns::Tokens.slot_text(&slot);
    let b = StatsColumns::TokensAndCost.slot_text(&slot);
    let c = crate::format::cost_text(slot.estimated_cost, slot.unpriced_tokens);
    assert(b.take(a.len() as int) =~= a);
    assert(b.skip(b.len() - c.len()) =~= c);
}

/// A period's row begins with its name and ends with the number of its tokens; a slot's
/// is set in and ends with its tokens. Columns line up: rows of short fields have the
/// same length.
pub proof fn rows_begin_with_names_and_end_with_tokens(period: PeriodUsage, slot: NamedUsage)
    ensures
        crate::text::has_prefix(StatsColumns::Tokens.period_text(&period), period.period@),
        crate::text::has_suffix(
            StatsColumns::Tokens.period_text(&period),
            crate::numbers::decimal_of(period.tokens as nat),
        ),
        crate::text::has_prefix(
            StatsColumns::Tokens.slot_text(&slot),
            "  "@ + crate::format::shortened(slot.name@, 18),
        ),
        crate::text::has_suffix(
            StatsColumns::Tokens.slot_text(&slot),
            crate::format::tokens_text(slot.tokens as nat),
        ),
        period.period@.len() <= 8 && crate::numbers::decimal_of(period.threads as nat).len() <= 8
            && crate::format::tokens_text(period.tokens as nat).len() <= 12
            && crate::numbers::decimal_of(period.tokens as nat).len() <= 12
            ==> StatsColumns::Tokens.period_text(&period).len() == 43,
{
    reveal_strlit(" ");
    let row = StatsColumns::Tokens.period_text(&period);
    let number = crate::numbers::decimal_of(period.tokens as nat);
    assert(row.take(period.period@.len() as int) =~= period.period@);
    assert(row.skip(row.len() - number.len()) =~= number);
    let row = StatsColumns::Tokens.slot_text(&slot);
    let head = "  "@ + crate::format::shortened(slot.name@, 18);
    let tokens = crate::format::tokens_text(slot.tokens as nat);
    assert(row.take(head.len() as int) =~= head);
    assert(row.skip(row.len() - tokens.len()) =~= tokens);
}

/// Periods are listed in their order, each with its slots below it.
pub proof fn periods_are_listed_with_their_slots(
    columns: StatsColumns,
    periods: Seq<PeriodUsage>,
    period: PeriodUsage,
    i: int,
)
    ensures
        ({
            let before = period_rows(columns, periods);
            let after = period_rows(columns, periods.push(period));
            &&& after.len() == before.len() + 1 + period.slots@.len()
            &&& after.take(before.len() as int) == before
            &&& after[before.len() as int] == columns.period_text(&period)
            &&& 0 <= i < period.slots@.len() ==> after[before.len() + 1 + i] == columns.slot_text(
                &period.slots@[i],
            )
        }),
{
    assert(periods.push(period).drop_last() =~= periods);
    let before = period_rows(columns, periods);
    let after = period_rows(columns, periods.push(period));
    assert(after.take(before.len() as int) =~= before);
}

/// The windows of the slots come under a heading, and the columns are named.
pub proof fn windows_are_headed(report: &StatsReport, columns: nat, i: int)
    ensures
        ({
            let lines = slot_windows(report, columns);
            let table = StatsColumns::of_report(report);
            let rows = period_rows(table, report.periods@);
            &&& lines.len() == rows.len() + 4
            &&& lines[1] == "Slot Windows"@
            &&& lines[2] == table.header_text()
            &&& 0 <= i < rows.len() ==> lines[3 + i] == crate::ansi::clipped(rows[i], columns)
            &&& lines.last() == ""@
        }),
        report.is_priced() ==> StatsColumns::of_report(report) == StatsColumns::TokensAndCost,
        !report.is_priced() ==> StatsColumns::of_report(report) == StatsColumns::Tokens,
{
}

/// Below the charts come the windows where slots were asked for, a note where a cost
/// leaves tokens out, and where the prices come from.
pub proof fn notes_follow_the_charts(report: &StatsReport, columns: nat)
    ensures
        !report.by_slot && !leaves_tokens_out(report.daily@) && report.price_source is None
            ==> static_rest(report, columns).len() == 0,
        report.by_slot ==> static_rest(report, columns).len() >= 3 && static_rest(report, columns)[0]
            == "Slot Windows"@,
        report.price_source is Some ==> static_rest(report, columns).contains("Price estimates:"@),
        !report.by_slot && leaves_tokens_out(report.daily@) && report.price_source is None
            ==> static_rest(report, columns) == crate::wrap::wrapped_text(
            "* est. cost excludes tokens for models without known OpenAI pricing."@,
            0,
            columns,
        ),
{
    let lines = static_rest(report, columns);
    if !report.by_slot && report.price_source is None {
        if leaves_tokens_out(report.daily@) {
            assert(lines =~= crate::wrap::wrapped_text(
                "* est. cost excludes tokens for models without known OpenAI pricing."@,
                0,
                columns,
            ));
        }
    }
    if let Some(text) = report.price_source {
        let tail = crate::wrap::wrapped_text(source_label(text@), 2, columns);
        assert(lines[lines.len() - tail.len() - 1] == "Price estimates:"@);
    }
}

/// A number is moved into its bounds, and stays where it is inside them.
pub proof fn numbers_are_kept_between_bounds(n: int, low: int, high: int)
    requires
        low <= high,
    ensures
        low <= between(n, low, high) <= high,
        low <= n <= high ==> between(n, low, high) == n,
        n < low ==> between(n, low, high) == low,
        n > high ==> between(n, low, high) == high,
{
}

/// A day whose cost leaves tokens out is noted, and where there is none nothing is.
pub proof fn days_that_leave_tokens_out_are_noted(daily: Seq<DailyUsage>, i: int)
    ensures
        0 <= i < daily.len() && daily[i].usage.estimated_cost is Some
            && daily[i].usage.unpriced_tokens > 0 ==> leaves_tokens_out(daily),
        (forall|k: int|
            0 <= k < daily.len() ==> (#[trigger] daily[k]).usage.estimated_cost is None
                || daily[k].usage.unpriced_tokens == 0) ==> !leaves_tokens_out(daily),
{
}

/// Where tokens were used, the bars follow the heading, and the models are named below
/// them where there are any.
pub proof fn charts_have_bars_and_a_legend(
    days: Seq<DayModel>,
    label: Seq<char>,
    priced: bool,
    columns: nat,
    use_color: bool,
)
    requires
        exists|i: int| 0 <= i < days.len() && (#[trigger] days[i]).usage.tokens > 0,
    ensures
        ({
            let lines = chart_page(days, label, priced, columns, use_color);
            let points = crate::chart::points_of(days, crate::chart::point_limit(columns as int));
            let top = crate::chart::top_models(points, 5);
            let colors = crate::models::colors_for(top);
            let bars = crate::chart::chart_block(
                points,
                top,
                colors,
                highest(points) as int,
                crate::chart::chart_width(columns as int),
                use_color,
            );
            let names = crate::wrap::legend(legend_items(top, colors, columns, use_color), columns);
            &&& lines.subrange(1, 1int + bars.len()) == bars
            &&& top.len() > 0 ==> lines.subrange(
                1int + bars.len(),
                1int + bars.len() + names.len(),
            ) == names
            &&& top.len() == 0 ==> lines[1int + bars.len()] == ""@
        }),
{
    let lines = chart_page(days, label, priced, columns, use_color);
    let points = crate::chart::points_of(days, crate::chart::point_limit(columns as int));
    let top = crate::chart::top_models(points, 5);
    let colors = crate::models::colors_for(top);
    let bars = crate::chart::chart_block(
        points,
        top,
        colors,
        highest(points) as int,
        crate::chart::chart_width(columns as int),
        use_color,
    );
    let names = crate::wrap::legend(legend_items(top, colors, columns, use_color), columns);
    assert(!is_idle(days));
    assert(lines.subrange(1, 1int + bars.len()) =~= bars);
    if top.len() > 0 {
        assert(lines.subrange(1int + bars.len(), 1int + bars.len() + names.len()) =~= names);
    }
}

} // verus!
