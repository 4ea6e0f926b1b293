//! Statistics: tables, charts and the interactive page.

use cx::ansi::visible_width;
use cx::chart::chart_points;
use cx::chart::daily_chart_render_width_for_terminal;
use cx::chart::short_date_label;
use cx::chart::stacked_bar_chart_lines;
use cx::chart::stacked_bar_segment_heights;
use cx::chart::top_models_for_stacked_chart;
use cx::chart::ChartPoint;
use cx::chart::CHART_PREFIX_WIDTH;
use cx::chart::DAILY_BAR_CHART_HEIGHT;
use cx::chart::MAX_DAILY_CHART_WIDTH;
use cx::dashboard::model_mix_primary_parts;
use cx::dashboard::model_usage_detail_parts;
use cx::dashboard::static_stats_lines;
use cx::dashboard::StatsColumns;
use cx::doubles::Double;
use cx::models::model_marker_for_key;
use cx::models::other_model_key;
use cx::models::preferred_model_color_index;
use cx::models::DisplayModelKey;
use cx::models::ModelVisuals;
use cx::models::Tally;
use cx::periods::print_periods;
use cx::ranges::zoom_stats_range;
use cx::ranges::StatsRange;
use cx::ranges::StatsRangeKind;
use cx::ranges::ZoomDirection;
use cx::screen::apply_key;
use cx::screen::interactive_display_lines;
use cx::screen::interactive_key_from_csi_sequence;
use cx::screen::interactive_key_from_ss3_final;
use cx::screen::interactive_stats_lines;
use cx::screen::terminal_size;
use cx::screen::InteractiveStatsKey;
use cx::screen::TerminalSize;
use cx::stats::selected_daily_days;
use cx::stats::DailyModelUsage;
use cx::stats::DailyUsage;
use cx::stats::ModelUsage;
use cx::stats::NamedUsage;
use cx::stats::PeriodUsage;
use cx::stats::StatsReport;
use cx::stats::TokenMix;
use cx::stats::TokenUsage;
use cx::wrap::balanced_item_rows;
use cx::wrap::joined_items_len;

/// 12 May 2026, as a Julian day.
const TODAY: i32 = 2461173;

/// The bits of 1.25.
const PRICE: Option<Double> = Some(Double { bits: 0x3ff4_0000_0000_0000 });

fn priced(cost: Option<Double>) -> u64 {
    if cost.is_some() {
        12_500
    } else {
        0
    }
}

fn unpriced(cost: Option<Double>) -> u64 {
    if cost.is_some() {
        0
    } else {
        12_500
    }
}

fn period_usage(cost: Option<Double>) -> PeriodUsage {
    PeriodUsage {
        period: "24h".to_string(),
        since_unix: 0,
        threads: 2,
        tokens: 12_500,
        estimated_cost: cost,
        priced_tokens: priced(cost),
        unpriced_tokens: unpriced(cost),
        slots: Vec::new(),
        models: Vec::new(),
    }
}

fn named_usage(cost: Option<Double>) -> NamedUsage {
    NamedUsage {
        name: "primary".to_string(),
        threads: 2,
        tokens: 12_500,
        estimated_cost: cost,
        priced_tokens: priced(cost),
        unpriced_tokens: unpriced(cost),
    }
}

fn model_usage(cost: Option<Double>) -> ModelUsage {
    ModelUsage {
        provider: "openai".to_string(),
        model: "gpt-5.5".to_string(),
        threads: 2,
        tokens: 12_500,
        estimated_cost: cost,
        priced_tokens: priced(cost),
        unpriced_tokens: unpriced(cost),
    }
}

fn token_usage(cost: Option<Double>) -> TokenUsage {
    TokenUsage {
        tokens: 12_500,
        input_tokens: 10_000,
        cached_input_tokens: 8_000,
        output_tokens: 2_500,
        reasoning_output_tokens: 500,
        uncategorized_tokens: 0,
        estimated_cost: cost,
        priced_tokens: priced(cost),
        unpriced_tokens: unpriced(cost),
    }
}

fn daily_usage(cost: Option<Double>) -> DailyUsage {
    DailyUsage {
        date: "2026-05-12".to_string(),
        threads: 2,
        usage: token_usage(cost),
        models: vec![DailyModelUsage {
            provider: "openai".to_string(),
            model: "gpt-5.5".to_string(),
            threads: 2,
            usage: token_usage(cost),
        }],
    }
}

fn stats_report(cost: Option<Double>) -> StatsReport {
    let mut period = period_usage(cost);
    period.slots.push(named_usage(cost));
    period.models.push(model_usage(cost));

    StatsReport {
        json: true,
        by_slot: false,
        range: StatsRange::parse("all").expect("stats range"),
        source_databases: vec!["/tmp/state_5.sqlite".to_string()],
        period_basis: "threads.tokens_used bucketed by threads.updated_at".to_string(),
        price_source: cost.map(|_| "cache: https://example.test/pricing".to_string()),
        price_note: cost.map(|_| "estimate note".to_string()),
        token_mix: cost.map(|_| TokenMix {
            uncached_input_share: Double { bits: f64::to_bits(0.05) },
            cached_input_share: Double { bits: f64::to_bits(0.94) },
            output_share: Double { bits: f64::to_bits(0.01) },
        }),
        token_mix_source: cost.map(|_| "test calibration".to_string()),
        periods: vec![period],
        daily: vec![daily_usage(cost)],
    }
}

fn test_model_key(model: &str) -> DisplayModelKey {
    DisplayModelKey { provider: "openai".to_string(), model: model.to_string() }
}

fn names(keys: &[DisplayModelKey]) -> Vec<(String, String)> {
    keys.iter().map(|key| (key.provider.clone(), key.model.clone())).collect()
}

fn tokens_are_shown_alone() {
    let period = period_usage(None);
    let slot = named_usage(None);

    assert_eq!(
        StatsColumns::Tokens.header(),
        "period    threads       tokens          raw"
    );
    assert_eq!(
        StatsColumns::Tokens.period_row(&period),
        "24h             2        12.5K        12500"
    );
    assert_eq!(
        StatsColumns::Tokens.slot_row(&slot),
        "  primary                   2        12.5K"
    );
}

fn tokens_are_shown_with_costs() {
    let period = period_usage(PRICE);
    let slot = named_usage(PRICE);

    assert_eq!(
        StatsColumns::TokensAndCost.header(),
        "period    threads       tokens          raw    est. cost"
    );
    assert_eq!(
        StatsColumns::TokensAndCost.period_row(&period),
        "24h             2        12.5K        12500        $1.25"
    );
    assert_eq!(
        StatsColumns::TokensAndCost.slot_row(&slot),
        "  primary                   2        12.5K        $1.25"
    );
}

#[test]
fn output_token_only_stats_columns_do_not_emit_cost_fields() {
    tokens_are_shown_alone();
    let table = print_periods(&stats_report(None));
    assert_eq!(
        table,
        vec![
            "state db: /tmp/state_5.sqlite",
            "basis: threads.tokens_used bucketed by threads.updated_at",
            "",
            "period    threads       tokens          raw",
            "24h             2        12.5K        12500",
        ]
    );
}

#[test]
fn output_priced_stats_columns_emit_cost_fields() {
    tokens_are_shown_with_costs();
    let mut report = stats_report(PRICE);
    report.by_slot = true;
    report.periods[0].unpriced_tokens = 5;
    report.source_databases.push("/tmp/other.sqlite".to_string());
    let table = print_periods(&report);
    assert_eq!(table[0], "state dbs: 2");
    assert_eq!(table[2], "prices: cache: https://example.test/pricing");
    assert_eq!(table[3], "note: estimate note");
    assert_eq!(table[7], "  primary                   2        12.5K        $1.25");
    assert_eq!(
        table[9],
        "* est. cost excludes tokens for models without known OpenAI pricing."
    );
    assert_eq!(table.len(), 10);
}

#[test]
fn mod_token_only_stats_columns_do_not_emit_cost_fields() {
    tokens_are_shown_alone();
}

#[test]
fn mod_priced_stats_columns_emit_cost_fields() {
    tokens_are_shown_with_costs();
}

#[test]
fn chart_points_keep_short_ranges_sparse() {
    let mut first = daily_usage(None);
    first.date = "2026-05-10".to_string();
    first.usage.tokens = 100;
    first.models[0].usage.tokens = 100;
    let mut second = daily_usage(None);
    second.date = "2026-05-11".to_string();
    second.usage.tokens = 200;
    second.models[0].usage.tokens = 200;

    let points = chart_points(&vec![first, second], 6);

    assert_eq!(points.len(), 2);
    assert_eq!(points[0].date, "2026-05-10");
    assert_eq!(points[0].tokens, 100);
    assert_eq!(points[1].date, "2026-05-11");
    assert_eq!(points[1].tokens, 200);
}

#[test]
fn sparse_chart_uses_full_axis_without_repeating_single_day() {
    let mut day = daily_usage(None);
    day.usage.tokens = 100;
    day.models[0].usage.tokens = 100;
    let points = chart_points(&vec![day], 30);
    let models = top_models_for_stacked_chart(&points, 5);
    let visuals = ModelVisuals::from_models(&models);

    let lines = stacked_bar_chart_lines(&points, &models, &visuals, 100, 60, false);
    let glyphs = ['█', '▓', '▒', '░', '■', '□', '●', '○', '◆', '◇', '▲', '△'];

    assert_eq!(points.len(), 1);
    assert!(lines
        .iter()
        .take(DAILY_BAR_CHART_HEIGHT)
        .all(|line| { line.chars().filter(|ch| glyphs.contains(ch)).count() <= 1 }));
    assert!(lines
        .iter()
        .take(DAILY_BAR_CHART_HEIGHT)
        .all(|line| { line.chars().any(|ch| glyphs.contains(&ch)) }));
}

#[test]
fn daily_chart_width_accounts_for_axis_prefix() {
    assert_eq!(daily_chart_render_width_for_terminal(40) + CHART_PREFIX_WIDTH, 40);
    assert_eq!(daily_chart_render_width_for_terminal(80), MAX_DAILY_CHART_WIDTH);
    assert_eq!(daily_chart_render_width_for_terminal(140), MAX_DAILY_CHART_WIDTH);
    assert_eq!(daily_chart_render_width_for_terminal(20) + CHART_PREFIX_WIDTH, 20);
    assert_eq!(daily_chart_render_width_for_terminal(40) + CHART_PREFIX_WIDTH, 40);
}

#[test]
fn chart_legend_balances_four_items_in_two_rows() {
    let items = vec![
        "● gpt-5.5".to_string(),
        "◆ gpt-5.4".to_string(),
        "■ gpt-5.3-codex".to_string(),
        "▲ gpt-5.4-mini".to_string(),
    ];

    let rows = balanced_item_rows(&items, 32);

    assert_eq!(
        rows,
        vec![
            vec!["● gpt-5.5".to_string(), "◆ gpt-5.4".to_string()],
            vec!["■ gpt-5.3-codex".to_string(), "▲ gpt-5.4-mini".to_string()],
        ]
    );
    assert!(rows.iter().all(|row| joined_items_len(row) <= 32));
}

#[test]
fn interactive_display_lines_fit_viewport_height_and_width() {
    let report = stats_report(PRICE);
    let viewport = TerminalSize { columns: 72, rows: 10 };

    for use_color in [false, true] {
        let frame = interactive_display_lines(&report, viewport, 0, use_color, TODAY);

        assert_eq!(frame.lines.len(), viewport.rows);
        assert_eq!(frame.scroll_offset, 0);
        assert!(frame
            .lines
            .iter()
            .all(|line| visible_width(line) <= viewport.render_columns()));
        assert!(frame.lines.last().is_some_and(|line| line.contains("q quit")));
        assert!(!frame
            .lines
            .iter()
            .any(|line| line.contains("resize") || line.contains("narrow")));
    }
}

#[test]
fn interactive_display_lines_scroll_through_overflow() {
    let report = stats_report(PRICE);
    let viewport = TerminalSize { columns: 72, rows: 8 };

    let top = interactive_display_lines(&report, viewport, 0, false, TODAY);
    let scrolled = interactive_display_lines(&report, viewport, 2, false, TODAY);

    assert!(top.max_scroll > 0);
    assert_eq!(scrolled.scroll_offset, 2.min(scrolled.max_scroll));
    assert_ne!(top.lines[0], scrolled.lines[0]);
    assert!(scrolled.lines.last().is_some_and(|line| line.contains("Rows")));
}

#[test]
fn interactive_escape_parser_supports_csi_and_ss3_arrows() {
    assert_eq!(interactive_key_from_csi_sequence(b"A"), InteractiveStatsKey::ScrollUp);
    assert_eq!(interactive_key_from_csi_sequence(b"B"), InteractiveStatsKey::ScrollDown);
    assert_eq!(interactive_key_from_csi_sequence(b"1;2A"), InteractiveStatsKey::ScrollUp);
    assert_eq!(interactive_key_from_ss3_final(b'A'), InteractiveStatsKey::ScrollUp);
    assert_eq!(interactive_key_from_ss3_final(b'B'), InteractiveStatsKey::ScrollDown);
}

#[test]
fn wide_interactive_layout_places_model_mix_next_to_chart() {
    let report = stats_report(PRICE);
    let viewport = TerminalSize { columns: 140, rows: 24 };

    let lines = interactive_stats_lines(&report, viewport, false, TODAY);

    assert!(lines
        .iter()
        .take(2)
        .any(|line| line.contains("Tokens per Day") && line.contains("Model Mix")));
    assert!(lines.iter().any(|line| line.contains("│")));
}

#[test]
fn stacked_bar_segments_preserve_total_height() {
    let heights = stacked_bar_segment_heights(&vec![80, 20], 100, 100);

    assert_eq!(heights, vec![6, 2]);
    assert_eq!(heights.iter().sum::<usize>(), DAILY_BAR_CHART_HEIGHT);
}

#[test]
fn stacked_chart_collapses_extra_models_into_other() {
    let point = ChartPoint {
        date: "2026-05-12".to_string(),
        tokens: 600,
        models: vec![
            Tally { key: test_model_key("gpt-a"), amount: 300 },
            Tally { key: test_model_key("gpt-b"), amount: 200 },
            Tally { key: test_model_key("gpt-c"), amount: 100 },
        ],
    };

    let models = top_models_for_stacked_chart(&vec![point], 2);

    assert_eq!(names(&models), names(&[test_model_key("gpt-a"), other_model_key()]));
}

#[test]
fn model_visuals_are_stable_for_model_key() {
    let key = test_model_key("gpt-5.5");
    let visuals = ModelVisuals::from_models(&vec![test_model_key("gpt-5.5")]);

    assert_eq!(preferred_model_color_index(&key), preferred_model_color_index(&key));
    assert_eq!(
        model_marker_for_key(&key, &visuals, false),
        model_marker_for_key(&key, &visuals, false)
    );
}

#[test]
fn model_visuals_avoid_color_collisions_for_visible_models() {
    let models = vec![
        test_model_key("gpt-5.5"),
        test_model_key("gpt-5.4"),
        test_model_key("gpt-5.3-codex"),
        test_model_key("gpt-5.4-mini"),
        other_model_key(),
    ];

    let visuals = ModelVisuals::from_models(&models);
    let mut colors = models
        .iter()
        .map(|model| visuals.color_index(model))
        .collect::<Vec<_>>();
    colors.sort_unstable();
    colors.dedup();

    assert_eq!(colors.len(), models.len());
}

#[test]
fn model_mix_primary_parts_keep_cost_out_of_detail_line() {
    let usage = TokenUsage {
        tokens: 100,
        input_tokens: 80,
        output_tokens: 20,
        estimated_cost: PRICE,
        ..TokenUsage::none()
    };

    assert_eq!(
        model_mix_primary_parts(&usage, 200),
        vec![
            "Share 50.0%".to_string(),
            "Total 100".to_string(),
            "Cost $1.25".to_string(),
        ]
    );
    assert_eq!(
        model_usage_detail_parts(&usage),
        vec!["In 80".to_string(), "Out 20".to_string()]
    );
}

#[test]
fn selected_daily_days_fills_missing_dates() {
    let mut report = stats_report(None);
    let mut second = daily_usage(None);
    second.date = "2026-05-14".to_string();
    report.daily.push(second);

    let days = selected_daily_days(&report, TODAY + 2);

    assert_eq!(days.len(), 3);
    assert_eq!(days[0].date, "2026-05-12");
    assert_eq!(days[1].date, "2026-05-13");
    assert_eq!(days[1].usage.tokens, 0);
    assert_eq!(days[2].date, "2026-05-14");
}

#[test]
fn stats_range_accepts_dynamic_relative_days() {
    let range = StatsRange::parse("17d").expect("a range");
    assert_eq!(range.key(), "17d");
    assert_eq!(range.label(), "Last 17 days");
    assert_eq!(range.kind(), StatsRangeKind::LastDays(17));
    let weeks = StatsRange::parse("2w").expect("a range");
    assert_eq!(weeks.kind(), StatsRangeKind::LastDays(14));
}

#[test]
fn stats_range_rejects_invalid_calendar_dates() {
    assert!(StatsRange::parse("2026-02-31").is_err());
    assert!(StatsRange::parse("2026-02-28").is_ok());
}

/// The Julian day number of a date of the Gregorian calendar.
fn day_number(year: i32, month: i32, day: i32) -> i32 {
    let leap = year % 4 == 0 && (year % 100 != 0 || year % 400 == 0);
    let lengths = [31, if leap { 29 } else { 28 }, 31, 30, 31, 30, 31, 31, 30, 31, 30, 31];
    let before: i32 = lengths.iter().take((month - 1) as usize).sum();
    let past = year - 1;
    1_721_425 + 365 * past + past.div_euclid(4) - past.div_euclid(100)
        + past.div_euclid(400)
        + before
        + day
}

#[test]
fn dates_are_numbered_and_written_by_the_calendar() {
    let months =
        ["Jan", "Feb", "Mar", "Apr", "May", "Jun", "Jul", "Aug", "Sep", "Oct", "Nov", "Dec"];
    for year in -9999i32..=9999 {
        let sign = if year < 0 { "-" } else { "" };
        let leap = year % 4 == 0 && (year % 100 != 0 || year % 400 == 0);
        let turn = 1 + year.rem_euclid(12);
        for (month, day) in [(1, 1), (2, if leap { 29 } else { 28 }), (turn, 17), (12, 31)] {
            let text = format!("{sign}{:04}-{month:02}-{day:02}", year.abs());
            let range = StatsRange::parse(&text).expect("a date");
            assert_eq!(range.kind(), StatsRangeKind::Since(day_number(year, month, day)));
            assert_eq!(range.key(), &text);
            assert_eq!(
                short_date_label(&text),
                format!("{} {day}", months[(month - 1) as usize])
            );
        }
    }
    assert_eq!(day_number(1970, 1, 1), 2_440_588);
    assert!(StatsRange::parse("1900-02-29").is_err());
}

#[test]
fn zooming_out_comes_back() {
    let month = StatsRange::last_days(30);
    let closer = zoom_stats_range(&month, ZoomDirection::In);
    let back = zoom_stats_range(&closer, ZoomDirection::Out);
    assert_eq!(back.kind(), month.kind());
}

#[test]
fn keys_move_the_page() {
    let report = stats_report(PRICE);
    let viewport = TerminalSize { columns: 72, rows: 8 };
    let frame = interactive_display_lines(&report, viewport, 0, false, TODAY);
    let (_, down) = apply_key(&report.range, &frame, InteractiveStatsKey::ScrollDown).expect("on");
    assert_eq!(down, 1);
    let (_, end) = apply_key(&report.range, &frame, InteractiveStatsKey::End).expect("on");
    assert_eq!(end, frame.max_scroll);
    let (week, top) = apply_key(&report.range, &frame, InteractiveStatsKey::Last7).expect("on");
    assert_eq!(week.kind(), StatsRangeKind::LastDays(7));
    assert_eq!(top, 0);
    assert!(apply_key(&report.range, &frame, InteractiveStatsKey::Quit).is_none());
}

#[test]
fn terminals_have_a_size() {
    let none = None;
    assert_eq!(terminal_size(None, &none, &none), TerminalSize { columns: 100, rows: 24 });
    let columns = Some("120".to_string());
    let rows = Some("40".to_string());
    assert_eq!(terminal_size(None, &columns, &rows), TerminalSize { columns: 120, rows: 40 });
}

#[test]
fn dates_are_shortened() {
    assert_eq!(short_date_label("2026-05-12"), "May 12");
    assert_eq!(short_date_label("no date"), "no date");
}

#[test]
fn static_pages_hold_the_chart_and_the_mix() {
    let lines = static_stats_lines(&stats_report(PRICE), 80, false, TODAY);
    assert!(lines.iter().any(|line| line.contains("Tokens per Day")));
    assert!(lines.iter().any(|line| line.contains("gpt-5.5")));
}
