//! The statistics page in a terminal: layout, scrolling and keys.

use vstd::prelude::*;

use crate::ansi::side_by_side_lines;
use crate::ansi::visible_width;
use crate::dashboard::clamp;
use crate::dashboard::clip_all;
use crate::dashboard::daily_chart_lines;
use crate::dashboard::model_mix_lines;
use crate::dashboard::slot_window_lines;
use crate::lines::join;
use crate::numbers::decimal;
use crate::numbers::parse_number;
use crate::ranges::zoom_stats_range;
use crate::ranges::RangeModel;
use crate::ranges::StatsRange;
use crate::ranges::StatsRangeKind;
use crate::ranges::ZoomDirection;
use crate::stats::StatsReport;
use crate::text::chars_of;
use crate::text::concat2;
use crate::text::concat4;
use crate::text::extend;
use crate::text::push_text;

verus! {

// ---------------------------------------------------------------------------
// The size of the terminal
// ---------------------------------------------------------------------------

/// The size of a terminal.
#[derive(Clone, Copy, Debug, PartialEq, Eq, Structural)]
pub struct TerminalSize {
    pub columns: usize,
    pub rows: usize,
}

/// The positive number that `text` names, if it names one.
pub open spec fn positive_size(text: Option<Seq<char>>) -> Option<nat> {
    match text {
        None => None,
        Some(s) => match crate::numbers::parsed_number(s, usize::MAX as nat) {
            Some(n) if n > 0 => Some(n),
            _ => None,
        },
    }
}

fn read_size(text: &Option<String>) -> (out: Option<usize>)
    ensures
        match out {
            Some(n) => positive_size(crate::text::opt_text(*text)) == Some(n as nat),
            None => positive_size(crate::text::opt_text(*text)) is None,
        },
{
    match text {
        None => None,
        Some(s) => match parse_number(&chars_of(s.as_str()), usize::MAX as u64) {
            Some(n) => if n > 0 {
                Some(n as usize)
            } else {
                None
            },
            None => None,
        },
    }
}

/// The size of the terminal: as it reports it, else as `COLUMNS` and `ROWS` say,
/// else the usual one.
pub fn terminal_size(
    reported: Option<TerminalSize>,
    columns: &Option<String>,
    rows: &Option<String>,
) -> (out: TerminalSize)
    ensures
        match (
            reported,
            positive_size(crate::text::opt_text(*columns)),
            positive_size(crate::text::opt_text(*rows)),
        ) {
            (Some(size), _, _) => out == size,
            (None, Some(c), Some(r)) => out.columns == c && out.rows == r,
            _ => out.columns == 100 && out.rows == 24,
        },
{
    if let Some(size) = reported {
        return size;
    }
    match (read_size(columns), read_size(rows)) {
        (Some(c), Some(r)) => TerminalSize { columns: c, rows: r },
        _ => TerminalSize { columns: 100, rows: 24 },
    }
}

/// The width of the terminal: as it reports it, else as `COLUMNS` says, else the
/// usual one.
pub fn terminal_width(reported: Option<TerminalSize>, columns: &Option<String>) -> (out: usize)
    ensures
        match (reported, positive_size(crate::text::opt_text(*columns))) {
            (Some(size), _) => out == size.columns,
            (None, Some(c)) => out == c,
            (None, None) => out == 100,
        },
{
    if let Some(size) = reported {
        return size.columns;
    }
    match read_size(columns) {
        Some(c) => c,
        None => 100,
    }
}

/// The columns that are written to: the last one stays free.
pub open spec fn usable_columns(columns: int) -> int {
    if columns <= 2 {
        1
    } else {
        columns - 1
    }
}

impl TerminalSize {
    /// The columns that are written to.
    pub fn render_columns(self) -> (out: usize)
        ensures
            out == usable_columns(self.columns as int),
            out >= 1,
    {
        if self.columns <= 2 {
            1
        } else {
            self.columns - 1
        }
    }
}

// ---------------------------------------------------------------------------
// Layout
// ---------------------------------------------------------------------------

/// What stands between two columns of text.
pub open spec fn column_gap() -> Seq<char> {
    "  │  "@
}

/// The width of the right column, where there is room for two.
pub open spec fn right_width(columns: int) -> int {
    crate::dashboard::between(
        columns / 3,
        36,
        if columns - 64 > 36 {
            columns - 64
        } else {
            36
        },
    )
}

/// Whether there is room for two columns.
pub open spec fn is_wide(columns: int) -> bool {
    columns >= 112 && crate::chart::less(
        columns,
        right_width(columns) + crate::ansi::width_of(column_gap()),
    ) >= 56
}

/// The content of the page: chart and model mix next to each other where there is
/// room, else below each other.
pub open spec fn page_content(
    report: &StatsReport,
    size: TerminalSize,
    use_color: bool,
    today: int,
) -> Seq<Seq<char>> {
    let columns = usable_columns(size.columns as int);
    let days = crate::dashboard::days_of(report, today);
    let label = report.range.kind.words();
    let priced = report.is_priced();
    if is_wide(columns) {
        let right = right_width(columns);
        let left = columns - (right + crate::ansi::width_of(column_gap()));
        let chart = crate::dashboard::chart_page(days, label, priced, left as nat, use_color);
        let mix = crate::dashboard::mix_page(days, right as nat, use_color, false);
        if mix.len() == 0 {
            chart
        } else {
            crate::ansi::side_by_side(chart, mix, left as nat, columns as nat, column_gap())
        }
    } else {
        let chart = crate::dashboard::chart_page(days, label, priced, columns as nat, use_color);
        let mix = crate::dashboard::mix_page(days, columns as nat, use_color, false);
        let both = if chart.len() > 0 && mix.len() > 0 {
            chart.push(""@) + mix
        } else {
            chart + mix
        };
        if report.by_slot && size.rows >= 36 {
            both + crate::dashboard::slot_windows(report, columns as nat)
        } else {
            both
        }
    }
}

fn wide_interactive_stats_lines(
    report: &StatsReport,
    columns: usize,
    use_color: bool,
    today: i32,
) -> (out: Option<Vec<String>>)
    requires
        crate::dates::is_day(today as int),
        report.range.kind.is_valid(),
    ensures
        out is Some == is_wide(columns as int),
        out matches Some(lines) ==> forall|size: TerminalSize|
            #![trigger page_content(report, size, use_color, today as int)]
            usable_columns(size.columns as int) == columns ==> crate::text::texts(lines@)
                == page_content(report, size, use_color, today as int),
{
    if columns < 112 {
        return None;
    }
    let right: usize = clamp(
        columns / 3,
        36,
        if columns - 64 > 36 {
            columns - 64
        } else {
            36
        },
    );
    let gap = "  │  ";
    let taken: usize = right.saturating_add(visible_width(gap));
    let left: usize = columns.saturating_sub(taken);
    if left < 56 {
        return None;
    }
    let chart = daily_chart_lines(report, left, use_color, today);
    let mix = model_mix_lines(report, right, use_color, false, today);
    proof {
        assert(crate::text::texts(mix@).len() == mix@.len());
    }
    if mix.len() == 0 {
        return Some(chart);
    }
    Some(side_by_side_lines(&chart, &mix, left, columns, gap))
}

/// The content of the page.
pub fn interactive_stats_lines(
    report: &StatsReport,
    viewport: TerminalSize,
    use_color: bool,
    today: i32,
) -> (out: Vec<String>)
    requires
        crate::dates::is_day(today as int),
        report.range.kind.is_valid(),
    ensures
        crate::text::texts(out@) == page_content(report, viewport, use_color, today as int),
{
    let columns = viewport.render_columns();
    if let Some(lines) = wide_interactive_stats_lines(report, columns, use_color, today) {
        return lines;
    }
    let mut lines = daily_chart_lines(report, columns, use_color, today);
    let mix = model_mix_lines(report, columns, use_color, false, today);
    proof {
        assert(crate::text::texts(lines@).len() == lines@.len());
        assert(crate::text::texts(mix@).len() == mix@.len());
    }
    if lines.len() > 0 && mix.len() > 0 {
        push_text(&mut lines, String::from_str(""));
    }
    extend(&mut lines, mix);
    if report.by_slot && viewport.rows >= 36 {
        extend(&mut lines, slot_window_lines(report, columns));
    }
    lines
}

// ---------------------------------------------------------------------------
// Frames
// ---------------------------------------------------------------------------

/// The help at the foot of the page.
pub open spec fn help_text() -> Seq<char> {
    "q quit · +/- range · a all · 7 last 7d · 3 last 30d"@
}

/// The smaller of two numbers.
pub open spec fn smaller(a: int, b: int) -> int {
    if a < b {
        a
    } else {
        b
    }
}

/// The foot of the page: which rows are seen, where not all are, and the help.
pub open spec fn foot_text(offset: int, max_scroll: int, content_rows: int, total_rows: int) -> Seq<
    char,
> {
    if max_scroll == 0 {
        help_text()
    } else {
        let start = smaller(offset + 1, total_rows);
        let stop = smaller(offset + content_rows, total_rows);
        let end = if stop < start {
            start
        } else {
            stop
        };
        "Rows "@ + crate::numbers::decimal_of(start as nat) + "-"@ + crate::numbers::decimal_of(
            end as nat,
        ) + "/"@ + crate::numbers::decimal_of(total_rows as nat) + " · ↑/↓ scroll · "@
            + help_text()
    }
}

/// The foot of the page.
pub fn interactive_stats_footer(
    scroll_offset: usize,
    max_scroll: usize,
    content_rows: usize,
    total_rows: usize,
) -> (out: String)
    ensures
        out@ == foot_text(
            scroll_offset as int,
            max_scroll as int,
            content_rows as int,
            total_rows as int,
        ),
{
    let help = "q quit · +/- range · a all · 7 last 7d · 3 last 30d";
    if max_scroll == 0 {
        return String::from_str(help);
    }
    let first: usize = scroll_offset.saturating_add(1);
    let start: usize = if first < total_rows {
        first
    } else {
        total_rows
    };
    let last: usize = scroll_offset.saturating_add(content_rows);
    let stop: usize = if last < total_rows {
        last
    } else {
        total_rows
    };
    let end: usize = if stop < start {
        start
    } else {
        stop
    };
    let head = concat4("Rows ", decimal(start as u64).as_str(), "-", decimal(end as u64).as_str());
    let middle = concat4(
        head.as_str(),
        "/",
        decimal(total_rows as u64).as_str(),
        " · ↑/↓ scroll · ",
    );
    concat2(middle.as_str(), help)
}

/// The page as it is seen at some offset.
#[derive(Debug)]
pub struct InteractiveStatsFrame {
    pub lines: Vec<String>,
    pub scroll_offset: usize,
    pub max_scroll: usize,
    pub content_rows: usize,
}

/// The rows of a frame above its foot.
pub open spec fn rows_above(rows: int) -> int {
    if rows < 1 {
        0
    } else {
        rows - 1
    }
}

/// The largest offset that is of use.
pub open spec fn last_offset(content: int, rows: int) -> int {
    crate::chart::less(content, rows_above(rows))
}

/// Row `i` of `content` seen from `offset`, empty behind the last one.
pub open spec fn seen_row(content: Seq<Seq<char>>, offset: int, i: int) -> Seq<char> {
    if offset + i < content.len() {
        content[offset + i]
    } else {
        ""@
    }
}

/// The lines of a frame: content from `offset` on, then the foot, all cut to the
/// terminal.
pub open spec fn frame_lines(content: Seq<Seq<char>>, size: TerminalSize, offset: int) -> Seq<
    Seq<char>,
> {
    let above = rows_above(size.rows as int);
    let max = last_offset(content.len() as int, size.rows as int);
    let from = smaller(offset, max);
    crate::dashboard::all_clipped(
        Seq::new(above as nat, |i: int| seen_row(content, from, i)).push(
            foot_text(from, max, above, content.len() as int),
        ),
        usable_columns(size.columns as int) as nat,
    )
}

/// The frame that shows `content` from `scroll_offset` on.
pub fn frame_for(content: &Vec<String>, viewport: TerminalSize, scroll_offset: usize) -> (out:
    InteractiveStatsFrame)
    ensures
        crate::text::texts(out.lines@) == frame_lines(
            crate::text::texts(content@),
            viewport,
            scroll_offset as int,
        ),
        out.max_scroll == last_offset(content@.len() as int, viewport.rows as int),
        out.scroll_offset == smaller(scroll_offset as int, out.max_scroll as int),
        out.content_rows == rows_above(viewport.rows as int),
{
    let columns = viewport.render_columns();
    let content_rows: usize = viewport.rows.saturating_sub(1);
    let max_scroll: usize = content.len().saturating_sub(content_rows);
    let offset: usize = if scroll_offset < max_scroll {
        scroll_offset
    } else {
        max_scroll
    };
    let ghost all = crate::text::texts(content@);
    let ghost seen = Seq::new(content_rows as nat, |i: int| seen_row(all, offset as int, i));
    let mut lines: Vec<String> = Vec::new();
    let mut i: usize = 0;
    proof {
        assert(crate::text::texts(lines@) =~= seen.take(0));
    }
    while i < content_rows
        invariant
            i <= content_rows,
            offset <= content.len(),
            all == crate::text::texts(content@),
            seen == Seq::new(content_rows as nat, |i: int| seen_row(all, offset as int, i)),
            crate::text::texts(lines@) == seen.take(i as int),
        decreases content_rows - i,
    {
        let line = if i < content.len() - offset {
            content[offset + i].clone()
        } else {
            String::from_str("")
        };
        push_text(&mut lines, line);
        proof {
            assert(seen.take(i + 1) =~= seen.take(i as int).push(seen[i as int]));
        }
        i += 1;
    }
    proof {
        assert(seen.take(content_rows as int) =~= seen);
    }
    push_text(
        &mut lines,
        interactive_stats_footer(offset, max_scroll, content_rows, content.len()),
    );
    InteractiveStatsFrame {
        lines: clip_all(&lines, columns),
        scroll_offset: offset,
        max_scroll,
        content_rows,
    }
}

/// The frame that shows a report from `scroll_offset` on.
pub fn interactive_display_lines(
    report: &StatsReport,
    viewport: TerminalSize,
    scroll_offset: usize,
    use_color: bool,
    today: i32,
) -> (out: InteractiveStatsFrame)
    requires
        crate::dates::is_day(today as int),
        report.range.kind.is_valid(),
    ensures
        ({
            let content = page_content(report, viewport, use_color, today as int);
            &&& crate::text::texts(out.lines@) == frame_lines(
                content,
                viewport,
                scroll_offset as int,
            )
            &&& out.max_scroll == last_offset(content.len() as int, viewport.rows as int)
            &&& out.scroll_offset == smaller(scroll_offset as int, out.max_scroll as int)
            &&& out.content_rows == rows_above(viewport.rows as int)
        }),
{
    let content = interactive_stats_lines(report, viewport, use_color, today);
    proof {
        assert(crate::text::texts(content@).len() == content@.len());
    }
    frame_for(&content, viewport, scroll_offset)
}

/// What is written to the terminal to show a frame.
pub open spec fn screen_text(lines: Seq<Seq<char>>) -> Seq<char> {
    "\u{1b}[H\u{1b}[2J"@ + crate::lines::joined(lines, "\r\n"@)
}

impl InteractiveStatsFrame {
    /// The rows that a page further or back is away.
    pub open spec fn step_of(rows: int) -> int {
        if rows <= 2 {
            1
        } else {
            rows - 1
        }
    }

    /// The rows that a page further or back is away.
    pub fn page_step(&self) -> (out: usize)
        ensures
            out == InteractiveStatsFrame::step_of(self.content_rows as int),
    {
        if self.content_rows <= 2 {
            1
        } else {
            self.content_rows - 1
        }
    }

    /// What is written to the terminal to show the frame.
    pub fn screen(&self) -> (out: String)
        ensures
            out@ == screen_text(crate::text::texts(self.lines@)),
    {
        concat2("\u{1b}[H\u{1b}[2J", join(&self.lines, "\r\n").as_str())
    }
}

/// A frame is as high as the terminal, and none of its lines is wider than what
/// is written to.
pub proof fn frames_fit(content: Seq<Seq<char>>, size: TerminalSize, offset: int)
    ensures
        frame_lines(content, size, offset).len() == (if size.rows < 1 {
            1
        } else {
            size.rows as int
        }),
        forall|i: int|
            0 <= i < frame_lines(content, size, offset).len() ==> crate::ansi::width_of(
                #[trigger] frame_lines(content, size, offset)[i],
            ) <= usable_columns(size.columns as int),
{
    let columns = usable_columns(size.columns as int) as nat;
    let lines = frame_lines(content, size, offset);
    let above = rows_above(size.rows as int);
    let max = last_offset(content.len() as int, size.rows as int);
    let from = smaller(offset, max);
    let raw = Seq::new(above as nat, |i: int| seen_row(content, from, i)).push(
        foot_text(from, max, above, content.len() as int),
    );
    assert(lines == crate::dashboard::all_clipped(raw, columns));
    assert forall|i: int| 0 <= i < lines.len() implies crate::ansi::width_of(#[trigger] lines[i])
        <= columns by {
        crate::ansi::clipped_lines_fit(raw[i], columns);
    }
}

/// Each line of the content is seen from some offset in range, where a frame has
/// room for content at all.
pub proof fn scrolling_reaches_every_line(content: Seq<Seq<char>>, size: TerminalSize, line: int)
    requires
        0 <= line < content.len(),
        size.rows >= 2,
    ensures
        ({
            let offset = smaller(line, last_offset(content.len() as int, size.rows as int));
            &&& 0 <= line - offset < rows_above(size.rows as int)
            &&& frame_lines(content, size, offset)[line - offset] == crate::ansi::clipped(
                content[line],
                usable_columns(size.columns as int) as nat,
            )
        }),
{
}

// ---------------------------------------------------------------------------
// Keys
// ---------------------------------------------------------------------------

/// What a key asks for.
#[derive(Clone, Copy, Debug, PartialEq, Eq, Structural)]
pub enum InteractiveStatsKey {
    Quit,
    ZoomIn,
    ZoomOut,
    All,
    Last7,
    Last30,
    ScrollUp,
    ScrollDown,
    PageUp,
    PageDown,
    Home,
    End,
    Ignored,
}

/// What a single byte asks for. An escape starts a longer sequence.
pub open spec fn plain_key(byte: u8) -> InteractiveStatsKey {
    if byte == 0x71 || byte == 0x51 {
        InteractiveStatsKey::Quit
    } else if byte == 0x2b || byte == 0x3d {
        InteractiveStatsKey::ZoomIn
    } else if byte == 0x2d || byte == 0x5f {
        InteractiveStatsKey::ZoomOut
    } else if byte == 0x61 || byte == 0x41 {
        InteractiveStatsKey::All
    } else if byte == 0x37 {
        InteractiveStatsKey::Last7
    } else if byte == 0x33 {
        InteractiveStatsKey::Last30
    } else if byte == 0x6b || byte == 0x4b {
        InteractiveStatsKey::ScrollUp
    } else if byte == 0x6a || byte == 0x4a {
        InteractiveStatsKey::ScrollDown
    } else if byte == 0x62 || byte == 0x42 {
        InteractiveStatsKey::PageUp
    } else if byte == 0x20 || byte == 0x66 || byte == 0x46 {
        InteractiveStatsKey::PageDown
    } else if byte == 0x67 {
        InteractiveStatsKey::Home
    } else if byte == 0x47 {
        InteractiveStatsKey::End
    } else {
        InteractiveStatsKey::Ignored
    }
}

/// What a single byte asks for.
pub fn key_from_byte(byte: u8) -> (out: InteractiveStatsKey)
    ensures
        out == plain_key(byte),
{
    match byte {
        0x71 | 0x51 => InteractiveStatsKey::Quit,
        0x2b | 0x3d => InteractiveStatsKey::ZoomIn,
        0x2d | 0x5f => InteractiveStatsKey::ZoomOut,
        0x61 | 0x41 => InteractiveStatsKey::All,
        0x37 => InteractiveStatsKey::Last7,
        0x33 => InteractiveStatsKey::Last30,
        0x6b | 0x4b => InteractiveStatsKey::ScrollUp,
        0x6a | 0x4a => InteractiveStatsKey::ScrollDown,
        0x62 | 0x42 => InteractiveStatsKey::PageUp,
        0x20 | 0x66 | 0x46 => InteractiveStatsKey::PageDown,
        0x67 => InteractiveStatsKey::Home,
        0x47 => InteractiveStatsKey::End,
        _ => InteractiveStatsKey::Ignored,
    }
}

/// What the last byte of an `ESC O` sequence asks for.
pub open spec fn ss3_key(byte: u8) -> InteractiveStatsKey {
    if byte == 0x41 {
        InteractiveStatsKey::ScrollUp
    } else if byte == 0x42 {
        InteractiveStatsKey::ScrollDown
    } else if byte == 0x48 {
        InteractiveStatsKey::Home
    } else if byte == 0x46 {
        InteractiveStatsKey::End
    } else {
        InteractiveStatsKey::Ignored
    }
}

/// What the last byte of an `ESC O` sequence asks for.
pub fn interactive_key_from_ss3_final(final_byte: u8) -> (out: InteractiveStatsKey)
    ensures
        out == ss3_key(final_byte),
{
    match final_byte {
        0x41 => InteractiveStatsKey::ScrollUp,
        0x42 => InteractiveStatsKey::ScrollDown,
        0x48 => InteractiveStatsKey::Home,
        0x46 => InteractiveStatsKey::End,
        _ => InteractiveStatsKey::Ignored,
    }
}

/// What an `ESC [` sequence asks for: by its last byte, and by its first one where
/// the last is a tilde.
pub open spec fn csi_key(sequence: Seq<u8>) -> InteractiveStatsKey {
    if sequence.len() == 0 {
        InteractiveStatsKey::Ignored
    } else if sequence.last() != 0x7e {
        ss3_key(sequence.last())
    } else if sequence.len() == 1 {
        InteractiveStatsKey::Ignored
    } else if sequence[0] == 0x35 {
        InteractiveStatsKey::PageUp
    } else if sequence[0] == 0x36 {
        InteractiveStatsKey::PageDown
    } else if sequence[0] == 0x31 || sequence[0] == 0x37 {
        InteractiveStatsKey::Home
    } else if sequence[0] == 0x34 || sequence[0] == 0x38 {
        InteractiveStatsKey::End
    } else {
        InteractiveStatsKey::Ignored
    }
}

/// What an `ESC [` sequence asks for.
pub fn interactive_key_from_csi_sequence(sequence: &[u8]) -> (out: InteractiveStatsKey)
    ensures
        out == csi_key(sequence@),
{
    if sequence.len() == 0 {
        return InteractiveStatsKey::Ignored;
    }
    let last: u8 = sequence[sequence.len() - 1];
    if last != 0x7e {
        return interactive_key_from_ss3_final(last);
    }
    if sequence.len() == 1 {
        return InteractiveStatsKey::Ignored;
    }
    match sequence[0] {
        0x35 => InteractiveStatsKey::PageUp,
        0x36 => InteractiveStatsKey::PageDown,
        0x31 | 0x37 => InteractiveStatsKey::Home,
        0x34 | 0x38 => InteractiveStatsKey::End,
        _ => InteractiveStatsKey::Ignored,
    }
}

/// What has been read of a key.
#[derive(Debug)]
pub enum KeyState {
    Start,
    Escape,
    Csi(Vec<u8>),
    Ss3,
}

/// What a further byte, or the lack of one, leads to.
#[derive(Debug)]
pub enum KeyStep {
    Done(InteractiveStatsKey),
    More(KeyState),
}

/// What has been read of a key, over mathematical values.
pub enum KeyStateModel {
    Start,
    Escape,
    Csi(Seq<u8>),
    Ss3,
}

/// What a further byte leads to, over mathematical values.
pub enum KeyStepModel {
    Done(InteractiveStatsKey),
    More(KeyStateModel),
}

impl View for KeyState {
    type V = KeyStateModel;

    open spec fn view(&self) -> KeyStateModel {
        match self {
            KeyState::Start => KeyStateModel::Start,
            KeyState::Escape => KeyStateModel::Escape,
            KeyState::Csi(bytes) => KeyStateModel::Csi(bytes@),
            KeyState::Ss3 => KeyStateModel::Ss3,
        }
    }
}

impl View for KeyStep {
    type V = KeyStepModel;

    open spec fn view(&self) -> KeyStepModel {
        match self {
            KeyStep::Done(key) => KeyStepModel::Done(*key),
            KeyStep::More(state) => KeyStepModel::More(state@),
        }
    }
}

/// What a further byte, or the lack of one, leads to. Only the first byte of a key
/// is waited for without end; an escape alone asks to quit.
pub open spec fn key_step(state: KeyStateModel, byte: Option<u8>) -> KeyStepModel {
    match (state, byte) {
        (KeyStateModel::Start, Some(b)) => if b == 0x1b {
            KeyStepModel::More(KeyStateModel::Escape)
        } else {
            KeyStepModel::Done(plain_key(b))
        },
        (KeyStateModel::Start, None) => KeyStepModel::More(KeyStateModel::Start),
        (KeyStateModel::Escape, None) => KeyStepModel::Done(InteractiveStatsKey::Quit),
        (KeyStateModel::Escape, Some(b)) => if b == 0x5b {
            KeyStepModel::More(KeyStateModel::Csi(seq![]))
        } else if b == 0x4f {
            KeyStepModel::More(KeyStateModel::Ss3)
        } else {
            KeyStepModel::Done(InteractiveStatsKey::Ignored)
        },
        (KeyStateModel::Csi(bytes), None) => KeyStepModel::Done(csi_key(bytes)),
        (KeyStateModel::Csi(bytes), Some(b)) => {
            let more = bytes.push(b);
            if 0x40 <= b <= 0x7e || more.len() >= 16 {
                KeyStepModel::Done(csi_key(more))
            } else {
                KeyStepModel::More(KeyStateModel::Csi(more))
            }
        },
        (KeyStateModel::Ss3, None) => KeyStepModel::Done(InteractiveStatsKey::Ignored),
        (KeyStateModel::Ss3, Some(b)) => KeyStepModel::Done(ss3_key(b)),
    }
}

/// What a further byte, or the lack of one, leads to.
pub fn read_key_step(state: KeyState, byte: Option<u8>) -> (out: KeyStep)
    ensures
        out@ == key_step(state@, byte),
{
    match (state, byte) {
        (KeyState::Start, Some(b)) => if b == 0x1b {
            KeyStep::More(KeyState::Escape)
        } else {
            KeyStep::Done(key_from_byte(b))
        },
        (KeyState::Start, None) => KeyStep::More(KeyState::Start),
        (KeyState::Escape, None) => KeyStep::Done(InteractiveStatsKey::Quit),
        (KeyState::Escape, Some(b)) => if b == 0x5b {
            let bytes: Vec<u8> = Vec::new();
            proof {
                assert(bytes@ =~= seq![]);
            }
            KeyStep::More(KeyState::Csi(bytes))
        } else if b == 0x4f {
            KeyStep::More(KeyState::Ss3)
        } else {
            KeyStep::Done(InteractiveStatsKey::Ignored)
        },
        (KeyState::Csi(bytes), None) => KeyStep::Done(
            interactive_key_from_csi_sequence(bytes.as_slice()),
        ),
        (KeyState::Csi(bytes), Some(b)) => {
            let mut more = bytes;
            more.push(b);
            if (b >= 0x40 && b <= 0x7e) || more.len() >= 16 {
                KeyStep::Done(interactive_key_from_csi_sequence(more.as_slice()))
            } else {
                KeyStep::More(KeyState::Csi(more))
            }
        },
        (KeyState::Ss3, None) => KeyStep::Done(InteractiveStatsKey::Ignored),
        (KeyState::Ss3, Some(b)) => KeyStep::Done(interactive_key_from_ss3_final(b)),
    }
}

/// The range and offset that a key leads to, or nothing if it ends the page.
pub open spec fn after_key(
    range: RangeModel,
    offset: int,
    max_scroll: int,
    content_rows: int,
    key: InteractiveStatsKey,
) -> Option<(RangeModel, int)> {
    let step = InteractiveStatsFrame::step_of(content_rows);
    match key {
        InteractiveStatsKey::Quit => None,
        InteractiveStatsKey::ZoomIn => Some(
            (
                crate::ranges::last_days_range(
                    crate::ranges::zoomed_days(
                        crate::ranges::zoom_base(range.kind),
                        ZoomDirection::In,
                    ) as u32,
                ),
                0,
            ),
        ),
        InteractiveStatsKey::ZoomOut => Some(
            (
                crate::ranges::last_days_range(
                    crate::ranges::zoomed_days(
                        crate::ranges::zoom_base(range.kind),
                        ZoomDirection::Out,
                    ) as u32,
                ),
                0,
            ),
        ),
        InteractiveStatsKey::All => Some(
            (RangeModel { raw: "all"@, kind: StatsRangeKind::All }, 0),
        ),
        InteractiveStatsKey::Last7 => Some((crate::ranges::last_days_range(7), 0)),
        InteractiveStatsKey::Last30 => Some((crate::ranges::last_days_range(30), 0)),
        InteractiveStatsKey::ScrollUp => Some((range, crate::chart::less(offset, 1))),
        InteractiveStatsKey::ScrollDown => Some((range, smaller(offset + 1, max_scroll))),
        InteractiveStatsKey::PageUp => Some((range, crate::chart::less(offset, step))),
        InteractiveStatsKey::PageDown => Some((range, smaller(offset + step, max_scroll))),
        InteractiveStatsKey::Home => Some((range, 0)),
        InteractiveStatsKey::End => Some((range, max_scroll)),
        InteractiveStatsKey::Ignored => Some((range, offset)),
    }
}

/// The range and offset that a key leads to, or nothing if it ends the page.
pub fn apply_key(range: &StatsRange, frame: &InteractiveStatsFrame, key: InteractiveStatsKey) -> (out:
    Option<(StatsRange, usize)>)
    ensures
        match out {
            Some((next, offset)) => after_key(
                range@,
                frame.scroll_offset as int,
                frame.max_scroll as int,
                frame.content_rows as int,
                key,
            ) == Some((next@, offset as int)),
            None => after_key(
                range@,
                frame.scroll_offset as int,
                frame.max_scroll as int,
                frame.content_rows as int,
                key,
            ) is None,
        },
{
    let offset: usize = frame.scroll_offset;
    let max: usize = frame.max_scroll;
    match key {
        InteractiveStatsKey::Quit => None,
        InteractiveStatsKey::ZoomIn => Some((zoom_stats_range(range, ZoomDirection::In), 0)),
        InteractiveStatsKey::ZoomOut => Some((zoom_stats_range(range, ZoomDirection::Out), 0)),
        InteractiveStatsKey::All => Some((StatsRange::all(), 0)),
        InteractiveStatsKey::Last7 => Some((StatsRange::last_days(7), 0)),
        InteractiveStatsKey::Last30 => Some((StatsRange::last_days(30), 0)),
        InteractiveStatsKey::ScrollUp => Some((range.copy(), offset.saturating_sub(1))),
        InteractiveStatsKey::ScrollDown => Some(
            (range.copy(), at_most(offset.saturating_add(1), max)),
        ),
        InteractiveStatsKey::PageUp => Some(
            (range.copy(), offset.saturating_sub(frame.page_step())),
        ),
        InteractiveStatsKey::PageDown => Some(
            (range.copy(), at_most(offset.saturating_add(frame.page_step()), max)),
        ),
        InteractiveStatsKey::Home => Some((range.copy(), 0)),
        InteractiveStatsKey::End => Some((range.copy(), max)),
        InteractiveStatsKey::Ignored => Some((range.copy(), offset)),
    }
}

fn at_most(a: usize, b: usize) -> (out: usize)
    ensures
        out == smaller(a as int, b as int),
{
    if a < b {
        a
    } else {
        b
    }
}

/// From an offset in range, each key leads to an offset in range.
pub proof fn keys_keep_offsets_in_range(
    range: RangeModel,
    offset: int,
    max_scroll: int,
    content_rows: int,
    key: InteractiveStatsKey,
)
    requires
        0 <= offset <= max_scroll,
    ensures
        after_key(range, offset, max_scroll, content_rows, key) matches Some((_, next)) ==> 0
            <= next <= max_scroll,
{
}

/// A number of columns or rows is taken from the environment where it is a number and
/// not nothing.
pub proof fn sizes_are_read(n: nat)
    requires
        n <= usize::MAX,
    ensures
        n > 0 ==> positive_size(Some(crate::numbers::decimal_of(n))) == Some(n),
        n == 0 ==> positive_size(Some(crate::numbers::decimal_of(n))) is None,
        positive_size(None) is None,
{
    crate::numbers::lemma_parse_decimal(n, usize::MAX as nat);
}

/// The last column is left free, and one is always used.
pub proof fn the_last_column_is_left_free(columns: int)
    ensures
        columns > 2 ==> usable_columns(columns) == columns - 1,
        columns <= 2 ==> usable_columns(columns) == 1,
{
}

/// On a wide screen the models stand to the right, in a third of it or a little more,
/// and enough is left for the chart.
pub proof fn wide_screens_have_two_columns(columns: int)
    ensures
        columns < 112 ==> !is_wide(columns),
        is_wide(columns) ==> right_width(columns) >= 36 && right_width(columns) + 56 <= columns,
        is_wide(columns) && columns >= 150 ==> right_width(columns) == columns / 3
            || right_width(columns) == columns - 64,
{
}

/// On a narrow screen the chart stands above the models, and the windows of the slots
/// below them where they were asked for and there is room.
pub proof fn narrow_screens_have_one_column(
    report: &StatsReport,
    size: TerminalSize,
    use_color: bool,
    today: int,
)
    requires
        !is_wide(usable_columns(size.columns as int)),
    ensures
        ({
            let columns = usable_columns(size.columns as int) as nat;
            let days = crate::dashboard::days_of(report, today);
            let chart = crate::dashboard::chart_page(
                days,
                report.range.kind.words(),
                report.is_priced(),
                columns,
                use_color,
            );
            let mix = crate::dashboard::mix_page(days, columns, use_color, false);
            let windows = crate::dashboard::slot_windows(report, columns);
            let page = page_content(report, size, use_color, today);
            &&& page.len() >= chart.len() + mix.len()
            &&& page.take(chart.len() as int) == chart
            &&& report.by_slot && size.rows >= 36 ==> page.skip(page.len() - windows.len())
                == windows
            &&& !(report.by_slot && size.rows >= 36) ==> page.skip(page.len() - mix.len()) == mix
        }),
{
    let columns = usable_columns(size.columns as int) as nat;
    let days = crate::dashboard::days_of(report, today);
    let chart = crate::dashboard::chart_page(
        days,
        report.range.kind.words(),
        report.is_priced(),
        columns,
        use_color,
    );
    let mix = crate::dashboard::mix_page(days, columns, use_color, false);
    let windows = crate::dashboard::slot_windows(report, columns);
    let page = page_content(report, size, use_color, today);
    assert(page.take(chart.len() as int) =~= chart);
    if report.by_slot && size.rows >= 36 {
        assert(page.skip(page.len() - windows.len()) =~= windows);
    } else {
        assert(page.skip(page.len() - mix.len()) =~= mix);
    }
}

/// The foot says which rows are seen where not all are: the first and the last of them,
/// counted from one.
pub proof fn the_foot_counts_rows(offset: int, max_scroll: int, content_rows: int, total_rows: int)
    requires
        0 <= offset <= max_scroll,
        0 < content_rows,
        0 < max_scroll,
        max_scroll + content_rows == total_rows,
    ensures
        foot_text(offset, max_scroll, content_rows, total_rows) == "Rows "@
            + crate::numbers::decimal_of((offset + 1) as nat) + "-"@ + crate::numbers::decimal_of(
            (offset + content_rows) as nat,
        ) + "/"@ + crate::numbers::decimal_of(total_rows as nat) + " · ↑/↓ scroll · "@
            + "q quit · +/- range · a all · 7 last 7d · 3 last 30d"@,
        foot_text(offset, 0, content_rows, total_rows)
            == "q quit · +/- range · a all · 7 last 7d · 3 last 30d"@,
{
}

/// Keys move the view by a row, by a page or to an end, and never past one. They leave
/// the range as it is.
pub proof fn keys_move_the_view(
    range: RangeModel,
    offset: int,
    max_scroll: int,
    content_rows: int,
)
    requires
        0 <= offset <= max_scroll,
        content_rows > 2,
    ensures
        after_key(range, offset, max_scroll, content_rows, InteractiveStatsKey::ScrollDown) == Some(
            (
                range,
                if offset == max_scroll {
                    offset
                } else {
                    offset + 1
                },
            ),
        ),
        after_key(range, offset, max_scroll, content_rows, InteractiveStatsKey::ScrollUp) == Some(
            (
                range,
                if offset == 0 {
                    0
                } else {
                    offset - 1
                },
            ),
        ),
        offset + content_rows - 1 <= max_scroll ==> after_key(
            range,
            offset,
            max_scroll,
            content_rows,
            InteractiveStatsKey::PageDown,
        ) == Some((range, offset + content_rows - 1)),
        offset + content_rows - 1 > max_scroll ==> after_key(
            range,
            offset,
            max_scroll,
            content_rows,
            InteractiveStatsKey::PageDown,
        ) == Some((range, max_scroll)),
        offset >= content_rows - 1 ==> after_key(
            range,
            offset,
            max_scroll,
            content_rows,
            InteractiveStatsKey::PageUp,
        ) == Some((range, offset - (content_rows - 1))),
        offset < content_rows - 1 ==> after_key(
            range,
            offset,
            max_scroll,
            content_rows,
            InteractiveStatsKey::PageUp,
        ) == Some((range, 0int)),
        after_key(range, offset, max_scroll, content_rows, InteractiveStatsKey::Home) == Some(
            (range, 0int),
        ),
        after_key(range, offset, max_scroll, content_rows, InteractiveStatsKey::End) == Some(
            (range, max_scroll),
        ),
        after_key(range, offset, max_scroll, content_rows, InteractiveStatsKey::Ignored) == Some(
            (range, offset),
        ),
        after_key(range, offset, max_scroll, content_rows, InteractiveStatsKey::Quit) is None,
{
}

/// Keys that change the range start at its top: zooming halves or doubles its days.
pub proof fn keys_change_the_range(
    range: RangeModel,
    days: u32,
    offset: int,
    max_scroll: int,
    content_rows: int,
)
    requires
        range.kind == StatsRangeKind::LastDays(days),
        1 <= days <= 1830,
    ensures
        ({
            let zoomed = after_key(
                range,
                offset,
                max_scroll,
                content_rows,
                InteractiveStatsKey::ZoomOut,
            );
            &&& zoomed is Some
            &&& zoomed->0 == (crate::ranges::last_days_range((2 * days) as u32), 0int)
        }),
        ({
            let zoomed = after_key(
                range,
                offset,
                max_scroll,
                content_rows,
                InteractiveStatsKey::ZoomIn,
            );
            &&& zoomed is Some
            &&& zoomed->0 == (crate::ranges::last_days_range(((days + 1) / 2) as u32), 0int)
        }),
        ({
            let week = after_key(range, offset, max_scroll, content_rows, InteractiveStatsKey::Last7);
            &&& week is Some
            &&& week->0 == (crate::ranges::last_days_range(7), 0int)
        }),
        ({
            let month = after_key(
                range,
                offset,
                max_scroll,
                content_rows,
                InteractiveStatsKey::Last30,
            );
            &&& month is Some
            &&& month->0 == (crate::ranges::last_days_range(30), 0int)
        }),
        ({
            let all = after_key(range, offset, max_scroll, content_rows, InteractiveStatsKey::All);
            &&& all is Some
            &&& all->0 == (RangeModel { raw: "all"@, kind: StatsRangeKind::All }, 0int)
        }),
{
}

/// Letters work in both cases where they mean the same, and a byte that is no key does
/// nothing.
pub proof fn letters_are_keys(byte: u8)
    ensures
        (byte as char == 'q' || byte as char == 'Q') == (plain_key(byte)
            == InteractiveStatsKey::Quit),
        (byte as char == '+' || byte as char == '=') == (plain_key(byte)
            == InteractiveStatsKey::ZoomIn),
        (byte as char == '-' || byte as char == '_') == (plain_key(byte)
            == InteractiveStatsKey::ZoomOut),
        (byte as char == 'a' || byte as char == 'A') == (plain_key(byte)
            == InteractiveStatsKey::All),
        (byte as char == '7') == (plain_key(byte) == InteractiveStatsKey::Last7),
        (byte as char == '3') == (plain_key(byte) == InteractiveStatsKey::Last30),
        (byte as char == 'k' || byte as char == 'K') == (plain_key(byte)
            == InteractiveStatsKey::ScrollUp),
        (byte as char == 'j' || byte as char == 'J') == (plain_key(byte)
            == InteractiveStatsKey::ScrollDown),
        (byte as char == 'b' || byte as char == 'B') == (plain_key(byte)
            == InteractiveStatsKey::PageUp),
        (byte as char == ' ' || byte as char == 'f' || byte as char == 'F') == (plain_key(byte)
            == InteractiveStatsKey::PageDown),
        (byte as char == 'g') == (plain_key(byte) == InteractiveStatsKey::Home),
        (byte as char == 'G') == (plain_key(byte) == InteractiveStatsKey::End),
{
}

/// An escape that nothing follows quits. One that a bracket or an O follows opens a
/// sequence, whose last byte says which key it is, however the sequence was opened.
pub proof fn sequences_are_keys(bytes: Seq<u8>, last: u8)
    requires
        bytes.len() < 15,
        0x40 <= last < 0x7e,
    ensures
        key_step(KeyStateModel::Start, Some(0x1bu8)) == KeyStepModel::More(KeyStateModel::Escape),
        key_step(KeyStateModel::Escape, None) == KeyStepModel::Done(InteractiveStatsKey::Quit),
        key_step(KeyStateModel::Escape, Some(0x5bu8)) == KeyStepModel::More(
            KeyStateModel::Csi(seq![]),
        ),
        key_step(KeyStateModel::Escape, Some(0x4fu8)) == KeyStepModel::More(KeyStateModel::Ss3),
        key_step(KeyStateModel::Csi(bytes), Some(last)) == key_step(KeyStateModel::Ss3, Some(last)),
        key_step(KeyStateModel::Csi(bytes), Some(0x31u8)) == KeyStepModel::More(
            KeyStateModel::Csi(bytes.push(0x31u8)),
        ),
        (last as char == 'A') == (key_step(KeyStateModel::Ss3, Some(last)) == KeyStepModel::Done(
            InteractiveStatsKey::ScrollUp,
        )),
        (last as char == 'B') == (key_step(KeyStateModel::Ss3, Some(last)) == KeyStepModel::Done(
            InteractiveStatsKey::ScrollDown,
        )),
        (last as char == 'H') == (key_step(KeyStateModel::Ss3, Some(last)) == KeyStepModel::Done(
            InteractiveStatsKey::Home,
        )),
        (last as char == 'F') == (key_step(KeyStateModel::Ss3, Some(last)) == KeyStepModel::Done(
            InteractiveStatsKey::End,
        )),
{
    assert(bytes.push(last).last() == last);
}

/// Of a sequence that ends in a tilde the first byte says which key it is.
pub proof fn numbered_sequences_are_keys(first: u8, rest: Seq<u8>)
    requires
        rest.len() < 14,
    ensures
        ({
            let step = key_step(KeyStateModel::Csi(seq![first] + rest), Some(0x7eu8));
            &&& (first as char == '5') == (step == KeyStepModel::Done(InteractiveStatsKey::PageUp))
            &&& (first as char == '6') == (step == KeyStepModel::Done(InteractiveStatsKey::PageDown))
            &&& (first as char == '1' || first as char == '7') == (step == KeyStepModel::Done(
                InteractiveStatsKey::Home,
            ))
            &&& (first as char == '4' || first as char == '8') == (step == KeyStepModel::Done(
                InteractiveStatsKey::End,
            ))
        }),
{
    let all = (seq![first] + rest).push(0x7eu8);
    assert(all[0] == first);
    assert(all.last() == 0x7eu8);
}

/// A screen is cleared before its lines are written from the top.
pub proof fn screens_are_cleared_first(lines: Seq<Seq<char>>)
    ensures
        crate::text::has_prefix(screen_text(lines), "\u{1b}[H\u{1b}[2J"@),
        screen_text(lines).skip("\u{1b}[H\u{1b}[2J"@.len() as int) == crate::lines::joined(
            lines,
            "\r\n"@,
        ),
{
    let all = screen_text(lines);
    let clear = "\u{1b}[H\u{1b}[2J"@;
    assert(all.take(clear.len() as int) =~= clear);
    assert(all.skip(clear.len() as int) =~= crate::lines::joined(lines, "\r\n"@));
}

} // verus!
