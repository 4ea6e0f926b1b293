//! White space, lines and joining.

use vstd::prelude::*;

use crate::text::chars_of;
use crate::text::find;
use crate::text::string_of;
use crate::text::sub_chars;

verus! {

/// The characters with the Unicode property `White_Space`.
pub open spec fn is_white(c: char) -> bool {
    ||| '\u{9}' <= c <= '\u{d}'
    ||| c == '\u{20}'
    ||| c == '\u{85}'
    ||| c == '\u{a0}'
    ||| c == '\u{1680}'
    ||| '\u{2000}' <= c <= '\u{200a}'
    ||| c == '\u{2028}'
    ||| c == '\u{2029}'
    ||| c == '\u{202f}'
    ||| c == '\u{205f}'
    ||| c == '\u{3000}'
}

/// Whether `c` is white space.
pub fn white(c: char) -> (out: bool)
    ensures
        out == is_white(c),
{
    ('\u{9}' <= c && c <= '\u{d}') || c == '\u{20}' || c == '\u{85}' || c == '\u{a0}' || c
        == '\u{1680}' || ('\u{2000}' <= c && c <= '\u{200a}') || c == '\u{2028}' || c
        == '\u{2029}' || c == '\u{202f}' || c == '\u{205f}' || c == '\u{3000}'
}

/// `s` without its leading white space.
pub open spec fn trimmed_start(s: Seq<char>) -> Seq<char>
    decreases s.len(),
{
    if s.len() > 0 && is_white(s[0]) {
        trimmed_start(s.skip(1))
    } else {
        s
    }
}

/// `s` without its trailing white space.
pub open spec fn trimmed_end(s: Seq<char>) -> Seq<char>
    decreases s.len(),
{
    if s.len() > 0 && is_white(s.last()) {
        trimmed_end(s.drop_last())
    } else {
        s
    }
}

/// `s` without leading and trailing white space.
pub open spec fn trimmed(s: Seq<char>) -> Seq<char> {
    trimmed_end(trimmed_start(s))
}

/// `s` without leading and trailing white space.
pub fn trim(s: &Vec<char>) -> (out: Vec<char>)
    ensures
        out@ == trimmed(s@),
        out@.len() <= s@.len(),
{
    let mut from: usize = 0;
    proof {
        assert(s@.skip(0) =~= s@);
    }
    while from < s.len() && white(s[from])
        invariant
            from <= s.len(),
            trimmed_start(s@) == trimmed_start(s@.skip(from as int)),
        decreases s.len() - from,
    {
        proof {
            assert(s@.skip(from as int).skip(1) =~= s@.skip(from + 1));
        }
        from += 1;
    }
    let mut to: usize = s.len();
    let ghost t = s@.skip(from as int);
    proof {
        assert(t =~= s@.subrange(from as int, to as int));
    }
    while to > from && white(s[to - 1])
        invariant
            from <= to <= s.len(),
            trimmed_end(t) == trimmed_end(s@.subrange(from as int, to as int)),
        decreases to - from,
    {
        proof {
            assert(s@.subrange(from as int, to as int).drop_last() =~= s@.subrange(
                from as int,
                to - 1,
            ));
        }
        to -= 1;
    }
    sub_chars(s, from, to)
}

/// The text `s` without leading and trailing white space.
pub fn trim_text(s: &str) -> (out: String)
    ensures
        out@ == trimmed(s@),
{
    string_of(&trim(&chars_of(s)))
}

/// `trimmed` leaves text alone that neither starts nor ends with white space.
pub proof fn lemma_trimmed_fixed(s: Seq<char>)
    requires
        s.len() > 0 ==> !is_white(s[0]) && !is_white(s.last()),
    ensures
        trimmed(s) == s,
{
}

/// Trimmed text neither starts nor ends with white space, and holds nothing new.
pub proof fn lemma_trimmed_ends(s: Seq<char>)
    ensures
        trimmed(s).len() > 0 ==> !is_white(trimmed(s)[0]) && !is_white(trimmed(s).last()),
        forall|c: char| trimmed(s).contains(c) ==> s.contains(c),
{
    lemma_trimmed_start_head(s);
    lemma_trimmed_end_last(trimmed_start(s));
    lemma_trimmed_start_part(s);
    lemma_trimmed_end_part(trimmed_start(s));
    let t = trimmed(s);
    if t.len() > 0 {
        assert(t[0] == trimmed_start(s)[0]);
    }
}

proof fn lemma_trimmed_start_part(s: Seq<char>)
    ensures
        forall|c: char| trimmed_start(s).contains(c) ==> s.contains(c),
    decreases s.len(),
{
    if s.len() > 0 && is_white(s[0]) {
        lemma_trimmed_start_part(s.skip(1));
        assert forall|c: char| trimmed_start(s).contains(c) implies s.contains(c) by {
            let rest = s.skip(1);
            assert(rest.contains(c));
            let j = choose|j: int| 0 <= j < rest.len() && rest[j] == c;
            assert(s[j + 1] == c);
        }
    }
}

proof fn lemma_trimmed_end_part(s: Seq<char>)
    ensures
        forall|c: char| trimmed_end(s).contains(c) ==> s.contains(c),
        trimmed_end(s).len() > 0 ==> trimmed_end(s)[0] == s[0],
    decreases s.len(),
{
    if s.len() > 0 && is_white(s.last()) {
        lemma_trimmed_end_part(s.drop_last());
        assert forall|c: char| trimmed_end(s).contains(c) implies s.contains(c) by {
            let rest = s.drop_last();
            assert(rest.contains(c));
            let j = choose|j: int| 0 <= j < rest.len() && rest[j] == c;
            assert(s[j] == c);
        }
    }
}

/// Trimming twice is trimming once.
pub proof fn trimming_settles(s: Seq<char>)
    ensures
        trimmed(trimmed(s)) == trimmed(s),
{
    let t = trimmed_start(s);
    lemma_trimmed_start_head(s);
    lemma_trimmed_end_last(t);
    let u = trimmed_end(t);
    if u.len() > 0 {
        assert(u[0] == t[0]);
    }
    lemma_trimmed_fixed(u);
}

proof fn lemma_trimmed_start_head(s: Seq<char>)
    ensures
        trimmed_start(s).len() > 0 ==> !is_white(trimmed_start(s)[0]),
    decreases s.len(),
{
    if s.len() > 0 && is_white(s[0]) {
        lemma_trimmed_start_head(s.skip(1));
    }
}

proof fn lemma_trimmed_end_last(s: Seq<char>)
    ensures
        trimmed_end(s).len() > 0 ==> !is_white(trimmed_end(s).last()),
        trimmed_end(s).len() <= s.len(),
        trimmed_end(s) == s.take(trimmed_end(s).len() as int),
    decreases s.len(),
{
    if s.len() > 0 && is_white(s.last()) {
        lemma_trimmed_end_last(s.drop_last());
        assert(s.drop_last().take(trimmed_end(s).len() as int) =~= s.take(
            trimmed_end(s).len() as int,
        ));
    } else {
        assert(s.take(s.len() as int) =~= s);
    }
}

// ---------------------------------------------------------------------------
// Lines
// ---------------------------------------------------------------------------

/// `s` without one carriage return at its end.
pub open spec fn without_cr(s: Seq<char>) -> Seq<char> {
    if s.len() > 0 && s.last() == '\r' {
        s.drop_last()
    } else {
        s
    }
}

/// The lines of `s`. A line ends with a line feed, which may have a carriage
/// return before it; the last line may lack its line feed.
pub open spec fn lines_of(s: Seq<char>) -> Seq<Seq<char>>
    decreases s.len(),
{
    let k = crate::text::find_char(s, '\n');
    if s.len() == 0 {
        seq![]
    } else if 0 <= k < s.len() {
        seq![without_cr(s.take(k))] + lines_of(s.skip(k + 1))
    } else {
        seq![s]
    }
}

/// The sequences held by a sequence of vectors.
pub open spec fn rows(items: Seq<Vec<char>>) -> Seq<Seq<char>> {
    items.map_values(|item: Vec<char>| item@)
}

/// The lines of `s`.
pub fn split_lines(s: &Vec<char>) -> (out: Vec<Vec<char>>)
    ensures
        rows(out@) == lines_of(s@),
{
    let mut out: Vec<Vec<char>> = Vec::new();
    let mut from: usize = 0;
    proof {
        assert(s@.skip(0) =~= s@);
        assert(rows(out@) + lines_of(s@) =~= lines_of(s@));
    }
    while from < s.len()
        invariant
            from <= s.len(),
            rows(out@) + lines_of(s@.skip(from as int)) == lines_of(s@),
        decreases s.len() - from,
    {
        let ghost rest = s@.skip(from as int);
        let tail = sub_chars(s, from, s.len());
        proof {
            assert(tail@ =~= rest);
            crate::text::lemma_find_char(rest, '\n');
        }
        let k = find(&tail, '\n');
        let ghost before = out@;
        if k < tail.len() {
            let end: usize = if k > 0 && tail[k - 1] == '\r' {
                k - 1
            } else {
                k
            };
            let line = sub_chars(&tail, 0, end);
            proof {
                assert(rest.take(k as int).len() == k);
                assert(line@ =~= without_cr(rest.take(k as int)));
            }
            out.push(line);
            proof {
                assert(rows(out@) =~= rows(before).push(line@));
                assert(rest.skip(k + 1) =~= s@.skip(from + k + 1));
                assert(rows(before) + (seq![line@] + lines_of(rest.skip(k + 1))) =~= rows(out@)
                    + lines_of(rest.skip(k + 1)));
            }
            from = from + k + 1;
        } else {
            out.push(tail);
            proof {
                assert(rows(out@) =~= rows(before).push(rest));
                assert(lines_of(s@.skip(s@.len() as int)) =~= seq![]);
                assert(rows(before) + seq![rest] =~= rows(out@) + lines_of(
                    s@.skip(s@.len() as int),
                ));
            }
            from = s.len();
        }
    }
    proof {
        assert(lines_of(s@.skip(from as int)) =~= seq![]);
        assert(rows(out@) + lines_of(s@.skip(from as int)) =~= rows(out@));
    }
    out
}

// ---------------------------------------------------------------------------
// Joining
// ---------------------------------------------------------------------------

/// `items` with `sep` between each two of them.
pub open spec fn joined(items: Seq<Seq<char>>, sep: Seq<char>) -> Seq<char>
    decreases items.len(),
{
    if items.len() == 0 {
        seq![]
    } else if items.len() == 1 {
        items[0]
    } else {
        joined(items.drop_last(), sep) + sep + items.last()
    }
}

/// `items` with `sep` between each two of them.
pub fn join(items: &Vec<String>, sep: &str) -> (out: String)
    ensures
        out@ == joined(crate::text::texts(items@), sep@),
{
    let mut out = String::new();
    let ghost all = crate::text::texts(items@);
    let mut i: usize = 0;
    while i < items.len()
        invariant
            i <= items.len(),
            all == crate::text::texts(items@),
            out@ == joined(all.take(i as int), sep@),
        decreases items.len() - i,
    {
        if i > 0 {
            out.append(sep);
        }
        out.append(items[i].as_str());
        proof {
            let t = all.take(i + 1);
            assert(t.drop_last() =~= all.take(i as int));
            assert(t.last() == items@[i as int]@);
            if i == 0 {
                assert(joined(all.take(0), sep@) =~= seq![]);
                assert(out@ =~= t[0]);
            }
        }
        i += 1;
    }
    proof {
        assert(all.take(items@.len() as int) =~= all);
    }
    out
}

/// Each of `items` followed by a line feed.
pub open spec fn line_block(items: Seq<Seq<char>>) -> Seq<char>
    decreases items.len(),
{
    if items.len() == 0 {
        seq![]
    } else {
        line_block(items.drop_last()) + items.last().push('\n')
    }
}

/// A line that is added to whole lines is the last of their lines.
pub proof fn lemma_lines_of_added_line(text: Seq<char>, line: Seq<char>)
    requires
        text.len() == 0 || text.last() == '\n',
        !line.contains('\n'),
        line.len() == 0 || line.last() != '\r',
    ensures
        lines_of(text + line.push('\n')) == lines_of(text).push(line),
    decreases text.len(),
{
    let all = text + line.push('\n');
    if text.len() == 0 {
        assert(all =~= line.push('\n'));
        assert forall|j: int| 0 <= j < line.len() implies all[j] != '\n' by {
            assert(line.contains(line[j]));
        }
        crate::text::lemma_find_char_is(all, '\n', line.len() as int);
        assert(all.take(line.len() as int) =~= line);
        assert(all.skip(line.len() as int + 1) =~= seq![]);
        assert(lines_of(all.skip(line.len() as int + 1)) =~= seq![]);
        assert(lines_of(all) =~= seq![line]);
        assert(lines_of(text) =~= seq![]);
    } else {
        crate::text::lemma_find_char(text, '\n');
        let k = crate::text::find_char(text, '\n');
        if k >= text.len() {
            assert(text[text.len() - 1] != '\n');
        }
        assert(all[k] == text[k]);
        crate::text::lemma_find_char_is(all, '\n', k);
        let rest = text.skip(k + 1);
        assert(all.skip(k + 1) =~= rest + line.push('\n'));
        assert(all.take(k) =~= text.take(k));
        if rest.len() > 0 {
            assert(rest.last() == text.last());
        }
        lemma_lines_of_added_line(rest, line);
        assert(lines_of(all) =~= lines_of(text).push(line));
    }
}

/// What is left of a text when it is trimmed neither begins nor ends with white space,
/// and only white space is gone.
pub proof fn trimming_takes_white_space_only(s: Seq<char>)
    ensures
        trimmed(s).len() > 0 ==> !is_white(trimmed(s)[0]) && !is_white(trimmed(s).last()),
        (forall|i: int| 0 <= i < s.len() ==> is_white(#[trigger] s[i])) ==> trimmed(s).len() == 0,
        s.len() > 0 && !is_white(s[0]) && !is_white(s.last()) ==> trimmed(s) == s,
        s.len() > 0 && is_white(s[0]) ==> trimmed(s) == trimmed(s.skip(1)),
{
    lemma_trimmed_start_head(s);
    lemma_trimmed_end_last(trimmed_start(s));
    lemma_trimmed_start_part(s);
    lemma_trimmed_end_part(trimmed_start(s));
    if trimmed(s).len() > 0 {
        assert(trimmed(s)[0] == trimmed_start(s)[0]);
        if forall|i: int| 0 <= i < s.len() ==> is_white(#[trigger] s[i]) {
            lemma_all_white(s);
        }
    }
}

proof fn lemma_all_white(s: Seq<char>)
    requires
        forall|i: int| 0 <= i < s.len() ==> is_white(#[trigger] s[i]),
    ensures
        trimmed_start(s).len() == 0,
    decreases s.len(),
{
    if s.len() > 0 {
        let rest = s.skip(1);
        assert forall|i: int| 0 <= i < rest.len() implies is_white(#[trigger] rest[i]) by {
            assert(rest[i] == s[i + 1]);
        }
        lemma_all_white(rest);
    }
}

/// A line that ends is the first of those of the text that it begins. A return in
/// front of the line's end does not belong to the line.
pub proof fn lines_are_read_one_by_one(line: Seq<char>, rest: Seq<char>)
    requires
        !line.contains('\n'),
    ensures
        line.len() == 0 || line.last() != '\r' ==> lines_of(line + seq!['\n'] + rest) == seq![line]
            + lines_of(rest),
        lines_of(line + seq!['\r', '\n'] + rest) == seq![line] + lines_of(rest),
        line.len() > 0 ==> lines_of(line) == seq![line],
        lines_of(seq![]).len() == 0,
{
    lemma_first_line(line, rest);
    assert forall|i: int| 0 <= i < line.len() implies line[i] != '\n' by {
        if line[i] == '\n' {
            assert(line.contains(line[i]));
        }
    }
    let marked = line.push('\r');
    assert(!marked.contains('\n')) by {
        if marked.contains('\n') {
            let i = choose|i: int| 0 <= i < marked.len() && marked[i] == '\n';
            assert(i < line.len());
        }
    }
    lemma_first_line(marked, rest);
    assert(marked + seq!['\n'] + rest =~= line + seq!['\r', '\n'] + rest);
    assert(marked.drop_last() =~= line);
    crate::text::lemma_find_char_is(line, '\n', line.len() as int);
}

proof fn lemma_first_line(line: Seq<char>, rest: Seq<char>)
    requires
        !line.contains('\n'),
    ensures
        lines_of(line + seq!['\n'] + rest) == seq![without_cr(line)] + lines_of(rest),
{
    let all = line + seq!['\n'] + rest;
    assert forall|i: int| 0 <= i < line.len() implies all[i] != '\n' by {
        if line[i] == '\n' {
            assert(line.contains(line[i]));
        }
    }
    crate::text::lemma_find_char_is(all, '\n', line.len() as int);
    assert(all.take(line.len() as int) =~= line);
    assert(all.skip((line.len() + 1) as int) =~= rest);
}

/// Texts are joined with the separator between each two of them and nowhere else.
pub proof fn texts_are_joined_in_order(items: Seq<Seq<char>>, item: Seq<char>, sep: Seq<char>)
    ensures
        items.len() > 0 ==> joined(items.push(item), sep) == joined(items, sep) + sep + item,
        joined(seq![item], sep) == item,
        joined(seq![], sep).len() == 0,
        line_block(items.push(item)) == line_block(items) + item + seq!['\n'],
{
    assert(items.push(item).drop_last() =~= items);
    assert(line_block(items.push(item)) =~= line_block(items) + item + seq!['\n']);
}

} // verus!
