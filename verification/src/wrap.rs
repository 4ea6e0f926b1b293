//! Breaking text and lists of items into lines.

use vstd::prelude::*;

use crate::format::repeat;
use crate::lines::join;
use crate::lines::white;
use crate::text::chars_of;
use crate::text::concat2;
use crate::text::string_of;
use crate::text::sub_chars;

verus! {

/// The width that text is wrapped to.
pub open spec fn wrap_width(columns: nat) -> nat {
    if columns < 1 {
        1
    } else if columns > 96 {
        96
    } else {
        columns
    }
}

/// The width that text is wrapped to.
pub fn text_wrap_width_for_columns(columns: usize) -> (out: usize)
    ensures
        out == wrap_width(columns as nat),
{
    if columns < 1 {
        1
    } else if columns > 96 {
        96
    } else {
        columns
    }
}

/// The width that is left behind an indent.
pub open spec fn inner_width(columns: nat, indent: nat) -> nat {
    if wrap_width(columns) > indent + 1 {
        (wrap_width(columns) - indent) as nat
    } else {
        1
    }
}

/// The width that is left behind an indent.
pub fn width_behind(columns: usize, indent: usize) -> (out: usize)
    ensures
        out == inner_width(columns as nat, indent as nat),
        out >= 1,
{
    let width = text_wrap_width_for_columns(columns);
    if indent < width && width - indent > 1 {
        width - indent
    } else {
        1
    }
}

/// The width of a label in a legend.
pub open spec fn legend_width(columns: nat) -> nat {
    let room = wrap_width(columns) - 4;
    if room < 4 {
        4
    } else if room > 24 {
        24
    } else {
        room as nat
    }
}

/// The width of a label in a legend.
pub fn legend_label_width_for_columns(columns: usize) -> (out: usize)
    ensures
        out == legend_width(columns as nat),
{
    let width = text_wrap_width_for_columns(columns);
    if width < 8 {
        4
    } else if width > 28 {
        24
    } else {
        width - 4
    }
}

// ---------------------------------------------------------------------------
// Items
// ---------------------------------------------------------------------------

/// What stands between two items on a line.
pub open spec fn dot() -> Seq<char> {
    " · "@
}

/// Lines that are complete, and the one that is being filled.
pub struct Filling {
    pub done: Seq<Seq<char>>,
    pub line: Seq<char>,
}

/// `state` with `item` added: on the current line if it fits there, or else on a
/// line of its own.
pub open spec fn add_item(state: Filling, item: Seq<char>, width: nat) -> Filling {
    if state.line.len() == 0 {
        Filling { done: state.done, line: item }
    } else if state.line.len() + 3 + item.len() > width {
        Filling { done: state.done.push(state.line), line: item }
    } else {
        Filling { done: state.done, line: state.line + dot() + item }
    }
}

/// The lines filled with `items`.
pub open spec fn filled(items: Seq<Seq<char>>, width: nat) -> Filling
    decreases items.len(),
{
    if items.len() == 0 {
        Filling { done: seq![], line: seq![] }
    } else {
        add_item(filled(items.drop_last(), width), items.last(), width)
    }
}

/// All lines, the current one included unless it is empty.
pub open spec fn all_lines(state: Filling) -> Seq<Seq<char>> {
    if state.line.len() == 0 {
        state.done
    } else {
        state.done.push(state.line)
    }
}

/// `lines`, each behind `indent` spaces.
pub open spec fn indented(lines: Seq<Seq<char>>, indent: nat) -> Seq<Seq<char>> {
    lines.map_values(|line: Seq<char>| crate::format::run_of(' ', indent) + line)
}

/// `items` on as few lines as they fit on in their order.
pub open spec fn wrapped_items(items: Seq<Seq<char>>, indent: nat, columns: nat) -> Seq<Seq<char>> {
    indented(all_lines(filled(items, inner_width(columns, indent))), indent)
}

/// `items` on lines, with dots between them.
pub fn wrapped_items_lines(items: &Vec<String>, indent: usize, columns: usize) -> (out: Vec<String>)
    ensures
        crate::text::texts(out@) == wrapped_items(
            crate::text::texts(items@),
            indent as nat,
            columns as nat,
        ),
{
    let width = width_behind(columns, indent);
    let margin = repeat(' ', indent);
    let ghost all = crate::text::texts(items@);
    let mut line = String::new();
    let mut lines: Vec<String> = Vec::new();
    let mut i: usize = 0;
    proof {
        assert(all.take(0) =~= seq![]);
        assert(crate::text::texts(lines@) =~= indented(seq![], indent as nat));
        assert(line@ =~= seq![]);
    }
    while i < items.len()
        invariant
            i <= items.len(),
            width == inner_width(columns as nat, indent as nat),
            margin@ == crate::format::run_of(' ', indent as nat),
            all == crate::text::texts(items@),
            crate::text::texts(lines@) == indented(
                filled(all.take(i as int), width as nat).done,
                indent as nat,
            ),
            line@ == filled(all.take(i as int), width as nat).line,
        decreases items.len() - i,
    {
        let ghost state = filled(all.take(i as int), width as nat);
        let ghost before = lines@;
        proof {
            assert(all.take(i + 1).drop_last() =~= all.take(i as int));
            assert(all.take(i + 1).last() == items@[i as int]@);
        }
        let len = line.as_str().unicode_len();
        let more = items[i].as_str().unicode_len();
        if len == 0 {
            line = items[i].clone();
        } else if len > width || width - len < 3 || width - len - 3 < more {
            let full = concat2(margin.as_str(), line.as_str());
            lines.push(full);
            proof {
                assert(crate::text::texts(lines@) =~= crate::text::texts(before).push(full@));
                assert(indented(state.done.push(state.line), indent as nat) =~= indented(
                    state.done,
                    indent as nat,
                ).push(full@));
            }
            line = items[i].clone();
        } else {
            line = crate::text::concat3(line.as_str(), " · ", items[i].as_str());
        }
        i += 1;
    }
    proof {
        assert(all.take(items@.len() as int) =~= all);
    }
    if line.as_str().unicode_len() > 0 {
        let ghost state = filled(all, width as nat);
        let ghost before = lines@;
        let full = concat2(margin.as_str(), line.as_str());
        lines.push(full);
        proof {
            assert(crate::text::texts(lines@) =~= crate::text::texts(before).push(full@));
            assert(indented(state.done.push(state.line), indent as nat) =~= indented(
                state.done,
                indent as nat,
            ).push(full@));
        }
    }
    lines
}

/// A line is too long only where a single item is.
pub proof fn wrapped_lines_fit(items: Seq<Seq<char>>, width: nat)
    ensures
        ({
            let lines = all_lines(filled(items, width));
            forall|i: int|
                0 <= i < lines.len() ==> (#[trigger] lines[i]).len() <= width || items.contains(
                    lines[i],
                )
        }),
{
    lemma_filled_fits(items, width);
}

spec fn fits(line: Seq<char>, items: Seq<Seq<char>>, width: nat) -> bool {
    line.len() <= width || items.contains(line)
}

proof fn lemma_filled_fits(items: Seq<Seq<char>>, width: nat)
    ensures
        forall|i: int|
            0 <= i < filled(items, width).done.len() ==> fits(
                #[trigger] filled(items, width).done[i],
                items,
                width,
            ),
        filled(items, width).line.len() > 0 ==> fits(filled(items, width).line, items, width),
    decreases items.len(),
{
    if items.len() > 0 {
        let rest = items.drop_last();
        let before = filled(rest, width);
        let after = filled(items, width);
        lemma_filled_fits(rest, width);
        assert(items.contains(items.last()));
        assert forall|line: Seq<char>| #[trigger] fits(line, rest, width) implies fits(
            line,
            items,
            width,
        ) by {
            if rest.contains(line) {
                let k = choose|k: int| 0 <= k < rest.len() && rest[k] == line;
                assert(items[k] == line);
            }
        }
        reveal_strlit(" · ");
        assert forall|i: int| 0 <= i < after.done.len() implies fits(
            #[trigger] after.done[i],
            items,
            width,
        ) by {
            if i < before.done.len() {
                assert(after.done[i] == before.done[i]);
            }
        }
    }
}

// ---------------------------------------------------------------------------
// Words
// ---------------------------------------------------------------------------

/// The length of the run at the start of `s` that is white space, or of the one
/// that is not.
pub open spec fn run_len(s: Seq<char>, is_blank: bool) -> nat
    decreases s.len(),
{
    if s.len() > 0 && crate::lines::is_white(s[0]) == is_blank {
        1 + run_len(s.skip(1), is_blank)
    } else {
        0
    }
}

/// A run is no longer than the text.
pub proof fn lemma_run_len(s: Seq<char>, is_blank: bool)
    ensures
        run_len(s, is_blank) <= s.len(),
    decreases s.len(),
{
    if s.len() > 0 && crate::lines::is_white(s[0]) == is_blank {
        lemma_run_len(s.skip(1), is_blank);
    }
}

/// The words of `s`, which white space separates.
pub open spec fn words_of(s: Seq<char>) -> Seq<Seq<char>>
    decreases s.len(),
{
    if s.len() == 0 {
        seq![]
    } else if crate::lines::is_white(s[0]) {
        words_of(s.skip(1))
    } else {
        proof {
            lemma_run_len(s, false);
        }
        let n = run_len(s, false) as int;
        if n > 0 {
            seq![s.take(n)] + words_of(s.skip(n))
        } else {
            seq![]
        }
    }
}

fn run_from(s: &Vec<char>, from: usize) -> (out: usize)
    requires
        from <= s@.len(),
    ensures
        out == run_len(s@.skip(from as int), false),
        from + out <= s@.len(),
{
    let mut n: usize = 0;
    let ghost t = s@.skip(from as int);
    proof {
        assert(t.skip(0) =~= t);
    }
    while n < s.len() - from && !white(s[from + n])
        invariant
            from + n <= s.len(),
            t == s@.skip(from as int),
            run_len(t, false) == n + run_len(t.skip(n as int), false),
        decreases s.len() - from - n,
    {
        proof {
            assert(t.skip(n as int)[0] == s@[from + n]);
            assert(t.skip(n as int).skip(1) =~= t.skip(n + 1));
        }
        n += 1;
    }
    proof {
        if from + n < s@.len() {
            assert(t.skip(n as int)[0] == s@[from + n]);
        }
    }
    n
}

/// The words of `s`.
pub fn split_words(s: &Vec<char>) -> (out: Vec<Vec<char>>)
    ensures
        crate::lines::rows(out@) == words_of(s@),
{
    let mut out: Vec<Vec<char>> = Vec::new();
    let mut i: usize = 0;
    proof {
        assert(s@.skip(0) =~= s@);
        assert(crate::lines::rows(out@) + words_of(s@) =~= words_of(s@));
    }
    while i < s.len()
        invariant
            i <= s.len(),
            crate::lines::rows(out@) + words_of(s@.skip(i as int)) == words_of(s@),
        decreases s.len() - i,
    {
        let ghost t = s@.skip(i as int);
        proof {
            assert(t[0] == s@[i as int]);
            assert(t.skip(1) =~= s@.skip(i + 1));
        }
        if white(s[i]) {
            i += 1;
        } else {
            let n = run_from(s, i);
            let word = sub_chars(s, i, i + n);
            let ghost before = out@;
            proof {
                assert(word@ =~= t.take(n as int));
                assert(t.skip(n as int) =~= s@.skip(i + n));
                assert(n > 0);
            }
            out.push(word);
            proof {
                assert(crate::lines::rows(out@) =~= crate::lines::rows(before).push(word@));
                assert(crate::lines::rows(before) + (seq![word@] + words_of(t.skip(n as int)))
                    =~= crate::lines::rows(out@) + words_of(t.skip(n as int)));
            }
            i += n;
        }
    }
    proof {
        assert(crate::lines::rows(out@) + words_of(s@.skip(i as int)) =~= crate::lines::rows(out@));
    }
    out
}

/// `state` with `word` added: on the current line if it fits there, or else on
/// the next lines, broken wherever it is longer than a line.
pub open spec fn add_word(state: Filling, word: Seq<char>, width: nat) -> Filling
    decreases word.len(), state.line.len(),
{
    let len = if state.line.len() == 0 {
        word.len()
    } else {
        state.line.len() + 1 + word.len()
    };
    if len <= width || width == 0 {
        Filling {
            done: state.done,
            line: if state.line.len() == 0 {
                word
            } else {
                state.line.push(' ') + word
            },
        }
    } else if state.line.len() > 0 {
        add_word(Filling { done: state.done.push(state.line), line: seq![] }, word, width)
    } else {
        add_word(
            Filling { done: state.done.push(word.take(width as int)), line: seq![] },
            word.skip(width as int),
            width,
        )
    }
}

/// The lines filled with `words`.
pub open spec fn flowed(words: Seq<Seq<char>>, width: nat) -> Filling
    decreases words.len(),
{
    if words.len() == 0 {
        Filling { done: seq![], line: seq![] }
    } else {
        add_word(flowed(words.drop_last(), width), words.last(), width)
    }
}

/// `text` on lines.
pub open spec fn wrapped_text(text: Seq<char>, indent: nat, columns: nat) -> Seq<Seq<char>> {
    indented(all_lines(flowed(words_of(text), inner_width(columns, indent))), indent)
}

/// Adds `word` to the lines that are being filled.
fn append_wrapped_word(
    margin: &str,
    width: usize,
    line: &mut Vec<char>,
    word: &Vec<char>,
    lines: &mut Vec<String>,
    done: Ghost<Seq<Seq<char>>>,
    indent: Ghost<nat>,
)
    requires
        width >= 1,
        margin@ == crate::format::run_of(' ', indent@),
        crate::text::texts(old(lines)@) == indented(done@, indent@),
    ensures
        ({
            let after = add_word(Filling { done: done@, line: old(line)@ }, word@, width as nat);
            &&& crate::text::texts(final(lines)@) == indented(after.done, indent@)
            &&& final(line)@ == after.line
        }),
    decreases word@.len(), old(line)@.len(),
{
    let word_len = word.len();
    let len = line.len();
    let fits = if len == 0 {
        word_len <= width
    } else {
        len < width && word_len <= width - len - 1
    };
    if fits {
        let ghost before = line@;
        if len > 0 {
            line.push(' ');
        }
        line.extend_from_slice(word.as_slice());
        proof {
            if len == 0 {
                assert(line@ =~= word@);
            } else {
                assert(line@ =~= before.push(' ') + word@);
            }
        }
        return ;
    }
    let ghost start = line@;
    let ghost before = lines@;
    if len > 0 {
        let full = concat2(margin, string_of(line).as_str());
        lines.push(full);
        proof {
            assert(crate::text::texts(lines@) =~= crate::text::texts(before).push(full@));
            assert(indented(done@.push(start), indent@) =~= indented(done@, indent@).push(full@));
        }
        line.clear();
        append_wrapped_word(
            margin,
            width,
            line,
            word,
            lines,
            Ghost(done@.push(start)),
            indent,
        );
    } else {
        let head = sub_chars(word, 0, width);
        let tail = sub_chars(word, width, word_len);
        let full = concat2(margin, string_of(&head).as_str());
        lines.push(full);
        proof {
            assert(head@ =~= word@.take(width as int));
            assert(tail@ =~= word@.skip(width as int));
            assert(start =~= seq![]);
            assert(crate::text::texts(lines@) =~= crate::text::texts(before).push(full@));
            assert(indented(done@.push(head@), indent@) =~= indented(done@, indent@).push(full@));
        }
        append_wrapped_word(
            margin,
            width,
            line,
            &tail,
            lines,
            Ghost(done@.push(head@)),
            indent,
        );
    }
}

/// `text` on lines.
pub fn wrapped_text_lines(text: &str, indent: usize, columns: usize) -> (out: Vec<String>)
    ensures
        crate::text::texts(out@) == wrapped_text(text@, indent as nat, columns as nat),
{
    let width = width_behind(columns, indent);
    let margin = repeat(' ', indent);
    let words = split_words(&chars_of(text));
    let ghost all = words_of(text@);
    let mut line: Vec<char> = Vec::new();
    let mut lines: Vec<String> = Vec::new();
    let mut i: usize = 0;
    proof {
        assert(all.take(0) =~= seq![]);
        assert(crate::text::texts(lines@) =~= indented(seq![], indent as nat));
        assert(line@ =~= seq![]);
    }
    while i < words.len()
        invariant
            i <= words.len(),
            width >= 1,
            width == inner_width(columns as nat, indent as nat),
            margin@ == crate::format::run_of(' ', indent as nat),
            all == crate::lines::rows(words@),
            crate::text::texts(lines@) == indented(
                flowed(all.take(i as int), width as nat).done,
                indent as nat,
            ),
            line@ == flowed(all.take(i as int), width as nat).line,
        decreases words.len() - i,
    {
        proof {
            assert(all.take(i + 1).drop_last() =~= all.take(i as int));
            assert(all.take(i + 1).last() == words@[i as int]@);
        }
        append_wrapped_word(
            margin.as_str(),
            width,
            &mut line,
            &words[i],
            &mut lines,
            Ghost(flowed(all.take(i as int), width as nat).done),
            Ghost(indent as nat),
        );
        i += 1;
    }
    proof {
        assert(all.take(words@.len() as int) =~= all);
    }
    if line.len() > 0 {
        let ghost state = flowed(all, width as nat);
        let ghost before = lines@;
        let full = concat2(margin.as_str(), string_of(&line).as_str());
        lines.push(full);
        proof {
            assert(crate::text::texts(lines@) =~= crate::text::texts(before).push(full@));
            assert(indented(state.done.push(state.line), indent as nat) =~= indented(
                state.done,
                indent as nat,
            ).push(full@));
        }
    }
    lines
}

/// No line of wrapped text is longer than the width.
pub proof fn wrapped_text_fits(words: Seq<Seq<char>>, width: nat)
    requires
        width > 0,
    ensures
        ({
            let lines = all_lines(flowed(words, width));
            forall|i: int| 0 <= i < lines.len() ==> (#[trigger] lines[i]).len() <= width
        }),
{
    lemma_flowed_fits(words, width);
}

spec fn filling_fits(state: Filling, width: nat) -> bool {
    &&& state.line.len() <= width
    &&& forall|i: int| 0 <= i < state.done.len() ==> (#[trigger] state.done[i]).len() <= width
}

proof fn lemma_add_word_fits(state: Filling, word: Seq<char>, width: nat)
    requires
        width > 0,
        filling_fits(state, width),
    ensures
        filling_fits(add_word(state, word, width), width),
    decreases word.len(), state.line.len(),
{
    let len = if state.line.len() == 0 {
        word.len()
    } else {
        state.line.len() + 1 + word.len()
    };
    if len > width {
        if state.line.len() > 0 {
            let next = Filling { done: state.done.push(state.line), line: seq![] };
            lemma_add_word_fits(next, word, width);
        } else {
            let next = Filling { done: state.done.push(word.take(width as int)), line: seq![] };
            lemma_add_word_fits(next, word.skip(width as int), width);
        }
    }
}

proof fn lemma_flowed_fits(words: Seq<Seq<char>>, width: nat)
    requires
        width > 0,
    ensures
        filling_fits(flowed(words, width), width),
    decreases words.len(),
{
    if words.len() > 0 {
        lemma_flowed_fits(words.drop_last(), width);
        lemma_add_word_fits(flowed(words.drop_last(), width), words.last(), width);
    }
}

// ---------------------------------------------------------------------------
// Rows of equal size
// ---------------------------------------------------------------------------

/// The number of items in row `row` when `items` items stand in `rows` rows.
pub open spec fn row_size(items: nat, rows: nat, row: nat) -> nat
    recommends
        rows > 0,
{
    items / rows + (if row < items % rows {
        1nat
    } else {
        0nat
    })
}

/// The number of items before row `row`.
pub open spec fn row_start(items: nat, rows: nat, row: nat) -> nat
    decreases row,
{
    if row == 0 {
        0
    } else {
        row_start(items, rows, (row - 1) as nat) + row_size(items, rows, (row - 1) as nat)
    }
}

/// `items` in `rows` rows, the longer rows first.
pub open spec fn in_rows(items: Seq<Seq<char>>, rows: nat) -> Seq<Seq<Seq<char>>> {
    Seq::new(
        rows,
        |row: int|
            items.subrange(
                row_start(items.len(), rows, row as nat) as int,
                row_start(items.len(), rows, (row + 1) as nat) as int,
            ),
    )
}

/// The length of `items` on one line with dots between them.
pub open spec fn joined_len(items: Seq<Seq<char>>) -> nat
    decreases items.len(),
{
    if items.len() == 0 {
        0
    } else if items.len() == 1 {
        items[0].len()
    } else {
        joined_len(items.drop_last()) + 3 + items.last().len()
    }
}

/// Whether every row fits in `width`.
pub open spec fn rows_fit(rows: Seq<Seq<Seq<char>>>, width: nat) -> bool {
    forall|i: int| 0 <= i < rows.len() ==> joined_len(#[trigger] rows[i]) <= width
}

/// Whether `rows` rows are acceptable: they fit, and no item stands alone in the
/// last of several.
pub open spec fn is_balanced(items: Seq<Seq<char>>, rows: nat, width: nat) -> bool {
    !(rows > 1 && row_size(items.len(), rows, (rows - 1) as nat) == 1) && rows_fit(
        in_rows(items, rows),
        width,
    )
}

/// The smallest acceptable number of rows from `from` on, if there is one.
pub open spec fn balanced_count(items: Seq<Seq<char>>, width: nat, from: nat) -> Option<nat>
    decreases items.len() + 1 - from,
{
    if from > items.len() || from == 0 {
        None
    } else if is_balanced(items, from, width) {
        Some(from)
    } else {
        balanced_count(items, width, from + 1)
    }
}

/// `items` in as few acceptable rows as possible, or else each in a row of its own.
pub open spec fn balanced(items: Seq<Seq<char>>, width: nat) -> Seq<Seq<Seq<char>>> {
    match balanced_count(items, width, 1) {
        Some(rows) => in_rows(items, rows),
        None => Seq::new(items.len(), |i: int| seq![items[i]]),
    }
}

/// The texts of rows of strings.
pub open spec fn row_texts(rows: Seq<Vec<String>>) -> Seq<Seq<Seq<char>>> {
    rows.map_values(|row: Vec<String>| crate::text::texts(row@))
}

proof fn lemma_row_start(items: nat, rows: nat, row: nat)
    requires
        rows > 0,
        row <= rows,
    ensures
        row_start(items, rows, row) == row * (items / rows) + (if row < items % rows {
            row as int
        } else {
            (items % rows) as int
        }),
        row_start(items, rows, row) <= items,
        row == rows ==> row_start(items, rows, row) == items,
    decreases row,
{
    let q = items / rows;
    let r = items % rows;
    assert(items == rows * q + r && r < rows) by (nonlinear_arith)
        requires
            rows > 0,
            q == items / rows,
            r == items % rows,
    ;
    if row > 0 {
        lemma_row_start(items, rows, (row - 1) as nat);
        assert(row * q == (row - 1) * q + q) by (nonlinear_arith)
            requires
                row > 0,
        ;
    } else {
        assert(0 * q == 0);
    }
    assert(row * q <= rows * q) by (nonlinear_arith)
        requires
            row <= rows,
    ;
}

/// The numbers of items in each of `row_count` rows, without the rows that are empty.
pub fn balanced_row_sizes(item_count: usize, row_count: usize) -> (out: Vec<usize>)
    requires
        0 < row_count,
    ensures
        out@.len() == (if row_count < item_count {
            row_count
        } else {
            item_count
        }),
        forall|i: int|
            0 <= i < out@.len() ==> #[trigger] out@[i] == row_size(
                item_count as nat,
                row_count as nat,
                i as nat,
            ) && out@[i] > 0,
        forall|i: nat|
            out@.len() <= i < row_count ==> #[trigger] row_size(
                item_count as nat,
                row_count as nat,
                i,
            ) == 0,
{
    let base: usize = item_count / row_count;
    let extra: usize = item_count % row_count;
    let mut out: Vec<usize> = Vec::new();
    let mut i: usize = 0;
    proof {
        vstd::arithmetic::div_mod::lemma_fundamental_div_mod(item_count as int, row_count as int);
        if base == 0 {
            assert(row_count * 0 == 0);
        } else {
            assert(row_count <= item_count) by (nonlinear_arith)
                requires
                    item_count == row_count * base + extra,
                    base >= 1,
            ;
            assert(base < item_count || row_count == 1) by (nonlinear_arith)
                requires
                    item_count == row_count * base + extra,
                    base >= 1,
                    row_count > 0,
            ;
        }
    }
    while i < row_count
        invariant
            i <= row_count,
            base == item_count / row_count,
            extra == item_count % row_count,
            extra < row_count,
            base == 0 ==> extra == item_count,
            base > 0 ==> row_count <= item_count,
            base < item_count || extra == 0,
            out@.len() == (if i < item_count {
                i
            } else {
                item_count
            }),
            forall|j: int|
                0 <= j < out@.len() ==> #[trigger] out@[j] == row_size(
                    item_count as nat,
                    row_count as nat,
                    j as nat,
                ) && out@[j] > 0,
        decreases row_count - i,
    {
        let size: usize = if i < extra {
            base + 1
        } else {
            base
        };
        if size > 0 {
            out.push(size);
        }
        i += 1;
    }
    out
}

/// Copies of the strings `from..to`.
pub fn copy_range(items: &Vec<String>, from: usize, to: usize) -> (out: Vec<String>)
    requires
        from <= to <= items@.len(),
    ensures
        out@ == items@.subrange(from as int, to as int),
{
    let mut out: Vec<String> = Vec::new();
    let mut i: usize = from;
    while i < to
        invariant
            from <= i <= to <= items.len(),
            out@ == items@.subrange(from as int, i as int),
        decreases to - i,
    {
        out.push(items[i].clone());
        proof {
            assert(items@.subrange(from as int, i + 1) =~= items@.subrange(
                from as int,
                i as int,
            ).push(items@[i as int]));
        }
        i += 1;
    }
    out
}

/// The items in the first `rows` of rows of given sizes.
pub open spec fn size_sum(sizes: Seq<usize>, rows: nat) -> nat
    decreases rows,
{
    if rows == 0 {
        0
    } else {
        size_sum(sizes, (rows - 1) as nat) + sizes[rows - 1] as nat
    }
}

/// `items` in rows of given sizes.
pub open spec fn in_sizes(items: Seq<Seq<char>>, sizes: Seq<usize>) -> Seq<Seq<Seq<char>>> {
    Seq::new(
        sizes.len(),
        |row: int|
            items.subrange(
                size_sum(sizes, row as nat) as int,
                size_sum(sizes, (row + 1) as nat) as int,
            ),
    )
}

proof fn lemma_size_sum_grows(sizes: Seq<usize>, a: nat, b: nat)
    requires
        a <= b,
    ensures
        size_sum(sizes, a) <= size_sum(sizes, b),
    decreases b,
{
    if a < b {
        lemma_size_sum_grows(sizes, a, (b - 1) as nat);
    }
}

proof fn lemma_balanced_sums(sizes: Seq<usize>, items: nat, rows: nat, row: nat)
    requires
        sizes.len() == rows,
        row <= rows,
        forall|j: int| 0 <= j < rows ==> #[trigger] sizes[j] == row_size(items, rows, j as nat),
    ensures
        size_sum(sizes, row) == row_start(items, rows, row),
    decreases row,
{
    if row > 0 {
        lemma_balanced_sums(sizes, items, rows, (row - 1) as nat);
        assert(sizes[row - 1] == row_size(items, rows, (row - 1) as nat));
    }
}

/// Rows whose sizes are balanced are those that the items are laid out in.
proof fn lemma_balanced_rows(items: Seq<Seq<char>>, sizes: Seq<usize>, rows: nat)
    requires
        rows > 0,
        sizes.len() == rows,
        forall|j: int|
            0 <= j < rows ==> #[trigger] sizes[j] == row_size(items.len(), rows, j as nat),
    ensures
        in_sizes(items, sizes) == in_rows(items, rows),
        size_sum(sizes, rows) == items.len(),
{
    assert forall|row: int| 0 <= row < rows implies in_sizes(items, sizes)[row] == in_rows(
        items,
        rows,
    )[row] by {
        lemma_balanced_sums(sizes, items.len(), rows, row as nat);
        lemma_balanced_sums(sizes, items.len(), rows, (row + 1) as nat);
    }
    assert(in_sizes(items, sizes) =~= in_rows(items, rows));
    lemma_balanced_sums(sizes, items.len(), rows, rows);
    lemma_row_start(items.len(), rows, rows);
}

/// `items` in rows of given sizes.
pub fn copy_item_rows(items: &Vec<String>, sizes: &Vec<usize>) -> (out: Vec<Vec<String>>)
    requires
        size_sum(sizes@, sizes@.len()) <= items@.len(),
    ensures
        row_texts(out@) == in_sizes(crate::text::texts(items@), sizes@),
{
    let ghost goal = in_sizes(crate::text::texts(items@), sizes@);
    let mut rows: Vec<Vec<String>> = Vec::new();
    let mut start: usize = 0;
    let mut i: usize = 0;
    while i < sizes.len()
        invariant
            i <= sizes.len(),
            size_sum(sizes@, sizes@.len()) <= items@.len(),
            goal == in_sizes(crate::text::texts(items@), sizes@),
            start == size_sum(sizes@, i as nat),
            start <= items.len(),
            row_texts(rows@) == goal.take(i as int),
        decreases sizes.len() - i,
    {
        proof {
            lemma_size_sum_grows(sizes@, (i + 1) as nat, sizes@.len());
            assert(size_sum(sizes@, (i + 1) as nat) == start + sizes@[i as int]);
        }
        let end: usize = start + sizes[i];
        let row = copy_range(items, start, end);
        let ghost before = rows@;
        proof {
            assert(crate::text::texts(row@) =~= goal[i as int]);
        }
        rows.push(row);
        proof {
            assert(row_texts(rows@) =~= row_texts(before).push(goal[i as int]));
            assert(goal.take(i + 1) =~= goal.take(i as int).push(goal[i as int]));
        }
        start = end;
        i += 1;
    }
    proof {
        assert(goal.take(sizes@.len() as int) =~= goal);
    }
    rows
}

/// The length of `items` on one line with dots between them, or more than
/// `limit` if it is more.
fn joined_at_most(items: &Vec<String>, limit: usize) -> (out: bool)
    ensures
        out == (joined_len(crate::text::texts(items@)) <= limit),
{
    let ghost all = crate::text::texts(items@);
    let mut len: usize = 0;
    let mut i: usize = 0;
    proof {
        assert(all.take(0) =~= seq![]);
    }
    while i < items.len()
        invariant
            i <= items.len(),
            all == crate::text::texts(items@),
            len == joined_len(all.take(i as int)),
            len <= limit,
        decreases items.len() - i,
    {
        proof {
            let t = all.take(i + 1);
            assert(t.drop_last() =~= all.take(i as int));
            assert(t.last() == items@[i as int]@);
            if i == 0 {
                assert(t[0] == items@[0]@);
            }
            lemma_joined_len_grows(all, i + 1);
        }
        let sep: usize = if i == 0 {
            0
        } else {
            3
        };
        let more = items[i].as_str().unicode_len();
        if limit - len < sep || limit - len - sep < more {
            return false;
        }
        len = len + sep + more;
        i += 1;
    }
    proof {
        assert(all.take(items@.len() as int) =~= all);
    }
    true
}

proof fn lemma_joined_len_grows(items: Seq<Seq<char>>, k: int)
    requires
        0 <= k <= items.len(),
    ensures
        joined_len(items.take(k)) <= joined_len(items),
    decreases items.len() - k,
{
    if k < items.len() {
        lemma_joined_len_grows(items, k + 1);
        assert(items.take(k + 1).drop_last() =~= items.take(k));
        if k == 0 {
            assert(items.take(0) =~= seq![]);
        }
    } else {
        assert(items.take(k) =~= items);
    }
}

fn all_rows_fit(rows: &Vec<Vec<String>>, width: usize) -> (out: bool)
    ensures
        out == rows_fit(row_texts(rows@), width as nat),
{
    let mut i: usize = 0;
    while i < rows.len()
        invariant
            i <= rows.len(),
            forall|j: int|
                0 <= j < i ==> joined_len(#[trigger] row_texts(rows@)[j]) <= width,
        decreases rows.len() - i,
    {
        proof {
            assert(row_texts(rows@)[i as int] == crate::text::texts(rows@[i as int]@));
        }
        if !joined_at_most(&rows[i], width) {
            return false;
        }
        i += 1;
    }
    true
}

/// `items` in as few acceptable rows as possible, or else each in a row of its own.
pub fn balanced_item_rows(items: &Vec<String>, width: usize) -> (out: Vec<Vec<String>>)
    ensures
        row_texts(out@) == balanced(crate::text::texts(items@), width as nat),
{
    let ghost all = crate::text::texts(items@);
    let n = items.len();
    let mut rows: usize = 0;
    while rows < n
        invariant
            rows <= n,
            n == items.len(),
            all == crate::text::texts(items@),
            balanced_count(all, width as nat, 1) == balanced_count(
                all,
                width as nat,
                (rows + 1) as nat,
            ),
        decreases n - rows,
    {
        rows += 1;
        let sizes = balanced_row_sizes(n, rows);
        if !(rows > 1 && sizes[rows - 1] == 1) {
            proof {
                lemma_balanced_rows(all, sizes@, rows as nat);
            }
            let candidate = copy_item_rows(items, &sizes);
            if all_rows_fit(&candidate, width) {
                return candidate;
            }
        }
    }
    let mut out: Vec<Vec<String>> = Vec::new();
    let mut i: usize = 0;
    let ghost goal = Seq::new(all.len(), |i: int| seq![all[i]]);
    while i < n
        invariant
            i <= n,
            n == items.len(),
            all == crate::text::texts(items@),
            goal == Seq::new(all.len(), |i: int| seq![all[i]]),
            row_texts(out@) == goal.take(i as int),
        decreases n - i,
    {
        let mut row: Vec<String> = Vec::new();
        row.push(items[i].clone());
        let ghost before = out@;
        proof {
            assert(crate::text::texts(row@) =~= goal[i as int]);
        }
        out.push(row);
        proof {
            assert(row_texts(out@) =~= row_texts(before).push(goal[i as int]));
            assert(goal.take(i + 1) =~= goal.take(i as int).push(goal[i as int]));
        }
        i += 1;
    }
    proof {
        assert(goal.take(n as int) =~= goal);
    }
    out
}

/// The length of `items` on one line with dots between them.
pub fn joined_items_len(items: &Vec<String>) -> (out: usize)
    requires
        joined_len(crate::text::texts(items@)) <= usize::MAX,
    ensures
        out == joined_len(crate::text::texts(items@)),
{
    let ghost all = crate::text::texts(items@);
    let mut len: usize = 0;
    let mut i: usize = 0;
    proof {
        assert(all.take(0) =~= seq![]);
    }
    while i < items.len()
        invariant
            i <= items.len(),
            all == crate::text::texts(items@),
            joined_len(all) <= usize::MAX,
            len == joined_len(all.take(i as int)),
        decreases items.len() - i,
    {
        proof {
            let t = all.take(i + 1);
            assert(t.drop_last() =~= all.take(i as int));
            assert(t.last() == items@[i as int]@);
            if i == 0 {
                assert(t[0] == items@[0]@);
            }
            lemma_joined_len_grows(all, i + 1);
        }
        let more = items[i].as_str().unicode_len();
        if i > 0 {
            len = len + 3 + more;
        } else {
            len = len + more;
        }
        i += 1;
    }
    proof {
        assert(all.take(items@.len() as int) =~= all);
    }
    len
}

/// The lines of a legend.
pub open spec fn legend(items: Seq<Seq<char>>, columns: nat) -> Seq<Seq<char>> {
    balanced(items, inner_width(columns, 2)).map_values(
        |row: Seq<Seq<char>>| "  "@ + crate::lines::joined(row, dot()),
    )
}

/// The lines of a legend.
pub fn chart_legend_lines(items: &Vec<String>, columns: usize) -> (out: Vec<String>)
    ensures
        crate::text::texts(out@) == legend(crate::text::texts(items@), columns as nat),
{
    let width = width_behind(columns, 2);
    let rows = balanced_item_rows(items, width);
    let ghost goal = legend(crate::text::texts(items@), columns as nat);
    let mut lines: Vec<String> = Vec::new();
    let mut i: usize = 0;
    while i < rows.len()
        invariant
            i <= rows.len(),
            width == inner_width(columns as nat, 2),
            row_texts(rows@) == balanced(crate::text::texts(items@), width as nat),
            goal == legend(crate::text::texts(items@), columns as nat),
            goal.len() == rows@.len(),
            crate::text::texts(lines@) == goal.take(i as int),
        decreases rows.len() - i,
    {
        let line = concat2("  ", join(&rows[i], " · ").as_str());
        let ghost before = lines@;
        lines.push(line);
        proof {
            assert(row_texts(rows@)[i as int] == crate::text::texts(rows@[i as int]@));
            assert(goal[i as int] == line@);
            assert(crate::text::texts(lines@) =~= crate::text::texts(before).push(line@));
            assert(goal.take(i + 1) =~= goal.take(i as int).push(goal[i as int]));
        }
        i += 1;
    }
    proof {
        assert(goal.take(rows@.len() as int) =~= goal);
    }
    lines
}

proof fn lemma_balanced_count(items: Seq<Seq<char>>, width: nat, from: nat)
    ensures
        balanced_count(items, width, from) matches Some(rows) ==> from <= rows <= items.len()
            && rows > 0 && is_balanced(items, rows, width),
    decreases items.len() + 1 - from,
{
    if from > 0 && from <= items.len() && !is_balanced(items, from, width) {
        lemma_balanced_count(items, width, from + 1);
    }
}

/// Rows of a legend hold all items in their order, and fit where any number of
/// rows fits.
pub proof fn legends_hold_all_items(items: Seq<Seq<char>>, width: nat)
    ensures
        balanced(items, width).flatten() == items,
        balanced_count(items, width, 1) is Some ==> rows_fit(balanced(items, width), width),
{
    lemma_balanced_count(items, width, 1);
    match balanced_count(items, width, 1) {
        Some(rows) => {
            lemma_flatten_rows(items, rows, rows);
            lemma_row_start(items.len(), rows, rows);
            assert(in_rows(items, rows).take(rows as int) =~= in_rows(items, rows));
            assert(items.take(items.len() as int) =~= items);
        },
        None => {
            let single = Seq::new(items.len(), |i: int| seq![items[i]]);
            lemma_flatten_single(items, items.len());
            assert(single.take(items.len() as int) =~= single);
            assert(items.take(items.len() as int) =~= items);
        },
    }
}

proof fn lemma_flatten_rows(items: Seq<Seq<char>>, rows: nat, k: nat)
    requires
        0 < rows,
        k <= rows,
    ensures
        in_rows(items, rows).take(k as int).flatten() == items.take(
            row_start(items.len(), rows, k) as int,
        ),
    decreases k,
{
    let all = in_rows(items, rows);
    if k > 0 {
        lemma_flatten_rows(items, rows, (k - 1) as nat);
        lemma_row_start(items.len(), rows, (k - 1) as nat);
        lemma_row_start(items.len(), rows, k);
        assert(all.take(k as int) =~= all.take(k - 1).push(all[k - 1]));
        all.take(k - 1).lemma_flatten_push(all[k - 1]);
        assert(items.take(row_start(items.len(), rows, (k - 1) as nat) as int) + all[k - 1]
            =~= items.take(row_start(items.len(), rows, k) as int));
    } else {
        assert(all.take(0) =~= seq![]);
        assert(items.take(0) =~= seq![]);
    }
}

proof fn lemma_flatten_single(items: Seq<Seq<char>>, k: nat)
    requires
        k <= items.len(),
    ensures
        Seq::new(items.len(), |i: int| seq![items[i]]).take(k as int).flatten() == items.take(
            k as int,
        ),
    decreases k,
{
    let all = Seq::new(items.len(), |i: int| seq![items[i]]);
    if k > 0 {
        lemma_flatten_single(items, (k - 1) as nat);
        assert(all.take(k as int) =~= all.take(k - 1).push(all[k - 1]));
        all.take(k - 1).lemma_flatten_push(all[k - 1]);
        assert(items.take(k - 1) + all[k - 1] =~= items.take(k as int));
    } else {
        assert(all.take(0) =~= seq![]);
        assert(items.take(0) =~= seq![]);
    }
}

/// An item goes on the last line where it fits behind a dot, and else on a line of its
/// own.
pub proof fn items_go_where_they_fit(items: Seq<Seq<char>>, item: Seq<char>, width: nat)
    requires
        item.len() > 0,
    ensures
        ({
            let before = all_lines(filled(items, width));
            let after = all_lines(filled(items.push(item), width));
            let line = filled(items, width).line;
            &&& line.len() == 0 ==> after == before.push(item)
            &&& line.len() > 0 ==> before.last() == line
            &&& line.len() > 0 && line.len() + 3 + item.len() <= width ==> after == before.update(
                before.len() - 1,
                line + " · "@ + item,
            )
            &&& line.len() > 0 && line.len() + 3 + item.len() > width ==> after == before.push(item)
        }),
        all_lines(filled(seq![], width)).len() == 0,
{
    reveal_strlit(" · ");
    assert(items.push(item).drop_last() =~= items);
    let before = all_lines(filled(items, width));
    let state = filled(items, width);
    let after = all_lines(filled(items.push(item), width));
    if state.line.len() > 0 && state.line.len() + 3 + item.len() <= width {
        assert(after =~= before.update(before.len() - 1, state.line + " · "@ + item));
    }
}

/// A word goes on the last line where it fits behind a space. Where it does not, and
/// fits on a line, it begins the next.
pub proof fn words_go_where_they_fit(words: Seq<Seq<char>>, word: Seq<char>, width: nat)
    requires
        0 < word.len() <= width,
    ensures
        ({
            let before = all_lines(flowed(words, width));
            let after = all_lines(flowed(words.push(word), width));
            let line = flowed(words, width).line;
            &&& line.len() == 0 ==> after == before.push(word)
            &&& line.len() > 0 ==> before.last() == line
            &&& line.len() > 0 && line.len() + 1 + word.len() <= width ==> after == before.update(
                before.len() - 1,
                line + seq![' '] + word,
            )
            &&& line.len() > 0 && line.len() + 1 + word.len() > width ==> after == before.push(word)
        }),
        all_lines(flowed(seq![], width)).len() == 0,
{
    reveal_with_fuel(add_word, 3);
    assert(words.push(word).drop_last() =~= words);
    let before = all_lines(flowed(words, width));
    let state = flowed(words, width);
    let after = all_lines(flowed(words.push(word), width));
    if state.line.len() > 0 && state.line.len() + 1 + word.len() <= width {
        assert(state.line.push(' ') + word =~= state.line + seq![' '] + word);
        assert(after =~= before.update(before.len() - 1, state.line + seq![' '] + word));
    }
}

/// Words are the runs between white space: none is empty and none holds any, and blanks
/// in front make no difference.
pub proof fn words_hold_no_blanks(s: Seq<char>, i: int, k: int)
    requires
        0 <= i < words_of(s).len(),
    ensures
        words_of(s)[i].len() > 0,
        0 <= k < words_of(s)[i].len() ==> !crate::lines::is_white(words_of(s)[i][k]),
    decreases s.len(),
{
    if s.len() > 0 {
        if crate::lines::is_white(s[0]) {
            words_hold_no_blanks(s.skip(1), i, k);
        } else {
            lemma_run_len(s, false);
            let n = run_len(s, false) as int;
            if n > 0 {
                if i == 0 {
                    lemma_run_holds(s, false, k);
                } else {
                    assert(words_of(s)[i] == words_of(s.skip(n))[i - 1]);
                    words_hold_no_blanks(s.skip(n), i - 1, k);
                }
            }
        }
    }
}

proof fn lemma_run_holds(s: Seq<char>, is_blank: bool, k: int)
    ensures
        0 <= k < run_len(s, is_blank) ==> k < s.len() && crate::lines::is_white(s[k]) == is_blank,
    decreases s.len(),
{
    if s.len() > 0 && crate::lines::is_white(s[0]) == is_blank && k > 0 {
        lemma_run_holds(s.skip(1), is_blank, k - 1);
    }
}

/// A word with a blank behind it is the first of what follows.
pub proof fn words_are_separated_by_blanks(word: Seq<char>, blank: char, rest: Seq<char>)
    requires
        word.len() > 0,
        forall|k: int| 0 <= k < word.len() ==> !crate::lines::is_white(#[trigger] word[k]),
        crate::lines::is_white(blank),
    ensures
        words_of(word + seq![blank] + rest) == seq![word] + words_of(rest),
        words_of(seq![blank] + rest) == words_of(rest),
        words_of(word) == seq![word],
{
    let all = word + seq![blank] + rest;
    lemma_run_is(all, word.len());
    assert(all[0] == word[0]);
    assert(all.take(word.len() as int) =~= word);
    let tail = all.skip(word.len() as int);
    assert(tail =~= seq![blank] + rest);
    assert(tail.skip(1) =~= rest);
    assert((seq![blank] + rest).skip(1) =~= rest);
    assert(tail[0] == blank);
    assert(words_of(tail) == words_of(rest));
    assert(words_of(all) == seq![word] + words_of(tail));
    lemma_run_is(word, word.len());
    assert(word.take(word.len() as int) =~= word);
    assert(words_of(word.skip(word.len() as int)) =~= seq![]);
    assert(seq![word] + Seq::<Seq<char>>::empty() =~= seq![word]);
}

proof fn lemma_run_is(s: Seq<char>, n: nat)
    requires
        n <= s.len(),
        forall|k: int| 0 <= k < n ==> !crate::lines::is_white(#[trigger] s[k]),
        n < s.len() ==> crate::lines::is_white(s[n as int]),
    ensures
        run_len(s, false) == n,
    decreases n,
{
    if n > 0 {
        let rest = s.skip(1);
        assert forall|k: int| 0 <= k < n - 1 implies !crate::lines::is_white(#[trigger] rest[k]) by {
            assert(rest[k] == s[k + 1]);
        }
        lemma_run_is(rest, (n - 1) as nat);
    }
}

/// Text is set in and no wider than asked for, ninety-six at most.
pub proof fn wrapped_lines_are_set_in(lines: Seq<Seq<char>>, indent: nat, columns: nat, i: int)
    requires
        0 <= i < lines.len(),
    ensures
        indented(lines, indent).len() == lines.len(),
        indented(lines, indent)[i].len() == indent + lines[i].len(),
        indented(lines, indent)[i].skip(indent as int) == lines[i],
        1 <= columns <= 96 ==> wrap_width(columns) == columns,
        columns > 96 ==> wrap_width(columns) == 96,
        indent + 1 < wrap_width(columns) ==> inner_width(columns, indent) + indent == wrap_width(
            columns,
        ),
        inner_width(columns, indent) >= 1,
        8 <= wrap_width(columns) <= 28 ==> legend_width(columns) == wrap_width(columns) - 4,
        4 <= legend_width(columns) <= 24,
{
    assert(indented(lines, indent)[i].skip(indent as int) =~= lines[i]);
}

/// Rows of a legend are of almost the same length: none has more than one item more
/// than another, and longer rows come first.
pub proof fn legends_are_even(items: nat, rows: nat, a: nat, b: nat)
    requires
        a <= b < rows,
    ensures
        row_size(items, rows, b) <= row_size(items, rows, a) <= row_size(items, rows, b) + 1,
{
}

/// A legend has no more rows than it needs: with fewer, a row is too wide or the last
/// one holds a single item.
pub proof fn legends_have_few_rows(items: Seq<Seq<char>>, width: nat, rows: nat)
    requires
        0 < rows <= items.len(),
        balanced_count(items, width, 1) is Some ==> rows < balanced_count(items, width, 1)->0,
    ensures
        !rows_fit(in_rows(items, rows), width) || (rows > 1 && row_size(
            items.len(),
            rows,
            (rows - 1) as nat,
        ) == 1),
{
    lemma_fewer_rows(items, width, 1, rows);
}

proof fn lemma_fewer_rows(items: Seq<Seq<char>>, width: nat, from: nat, rows: nat)
    requires
        0 < from <= rows <= items.len(),
        balanced_count(items, width, from) is Some ==> rows < balanced_count(items, width, from)->0,
    ensures
        !is_balanced(items, rows, width),
    decreases rows - from,
{
    if !is_balanced(items, from, width) && from < rows {
        lemma_fewer_rows(items, width, from + 1, rows);
    }
}

/// A row is as long as its items with a dot between each two.
pub proof fn rows_are_as_long_as_their_items(items: Seq<Seq<char>>)
    ensures
        joined_len(items) == crate::lines::joined(items, " · "@).len(),
    decreases items.len(),
{
    reveal_strlit(" · ");
    if items.len() > 1 {
        rows_are_as_long_as_their_items(items.drop_last());
    }
}

} // verus!
