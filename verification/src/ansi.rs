//! Lines of a terminal: text with escape sequences that take no room.

use vstd::prelude::*;

use crate::format::repeat;
use crate::text::chars_of;
use crate::text::concat2;
use crate::text::concat3;
use crate::text::string_of;

verus! {

/// Whether `c` is an ASCII letter, which ends an escape sequence.
pub open spec fn is_letter(c: char) -> bool {
    'A' <= c <= 'Z' || 'a' <= c <= 'z'
}

/// The position behind the first letter of `s`, or the length of `s` if there is none.
pub open spec fn behind_letter(s: Seq<char>) -> nat
    decreases s.len(),
{
    if s.len() == 0 {
        0
    } else if is_letter(s[0]) {
        1
    } else {
        1 + behind_letter(s.skip(1))
    }
}

/// The length of the escape sequence that `s` starts with, zero if it starts with none.
pub open spec fn escape_len(s: Seq<char>) -> nat {
    if s.len() >= 2 && s[0] == '\u{1b}' && s[1] == '[' {
        1 + behind_letter(s.skip(1))
    } else {
        0
    }
}

/// The number of characters of `s` that take room.
pub open spec fn width_of(s: Seq<char>) -> nat
    decreases s.len(),
{
    if s.len() == 0 {
        0
    } else if escape_len(s) > 0 {
        proof {
            lemma_behind_letter(s.skip(1));
        }
        width_of(s.skip(escape_len(s) as int))
    } else {
        1 + width_of(s.skip(1))
    }
}

/// No letter stands before the position behind the first letter.
pub proof fn lemma_behind_letter(s: Seq<char>)
    ensures
        behind_letter(s) <= s.len(),
        forall|j: int| 0 <= j < behind_letter(s) - 1 ==> !is_letter(#[trigger] s[j]),
        behind_letter(s) < s.len() ==> behind_letter(s) > 0 && is_letter(s[behind_letter(s) - 1]),
    decreases s.len(),
{
    if s.len() > 0 && !is_letter(s[0]) {
        let t = s.skip(1);
        lemma_behind_letter(t);
        assert forall|j: int| 0 <= j < behind_letter(s) - 1 implies !is_letter(
            #[trigger] s[j],
        ) by {
            if j > 0 {
                assert(t[j - 1] == s[j]);
            }
        }
    }
}

proof fn lemma_behind_letter_is(s: Seq<char>, k: int)
    requires
        0 < k <= s.len(),
        forall|j: int| 0 <= j < k - 1 ==> !is_letter(#[trigger] s[j]),
        k < s.len() ==> is_letter(s[k - 1]),
    ensures
        behind_letter(s) == k,
    decreases s.len(),
{
    if k > 1 {
        assert(!is_letter(s[0]));
        let t = s.skip(1);
        assert forall|j: int| 0 <= j < k - 2 implies !is_letter(#[trigger] t[j]) by {
            assert(t[j] == s[j + 1]);
        }
        lemma_behind_letter_is(t, k - 1);
    } else if !is_letter(s[0]) {
        assert(s.len() == 1);
        assert(behind_letter(s.skip(1)) == 0);
    }
}

/// The length of the escape sequence that `s` starts with at `from`.
fn escape_at(s: &Vec<char>, from: usize) -> (out: usize)
    requires
        from <= s@.len(),
    ensures
        out == escape_len(s@.skip(from as int)),
        from + out <= s@.len(),
{
    let ghost t = s@.skip(from as int);
    if s.len() - from >= 2 && s[from] == '\u{1b}' && s[from + 1] == '[' {
        proof {
            assert(t[0] == s@[from as int] && t[1] == s@[from + 1]);
        }
        let mut i: usize = from + 1;
        while i < s.len()
            invariant
                from + 1 <= i <= s.len(),
                t == s@.skip(from as int),
                t.len() >= 2 && t[0] == '\u{1b}' && t[1] == '[',
                forall|j: int| from + 1 <= j < i ==> !is_letter(#[trigger] s@[j]),
            decreases s.len() - i,
        {
            let c = s[i];
            i += 1;
            if (c >= 'A' && c <= 'Z') || (c >= 'a' && c <= 'z') {
                proof {
                    let u = t.skip(1);
                    assert forall|j: int| 0 <= j < i - from - 2 implies !is_letter(
                        #[trigger] u[j],
                    ) by {
                        assert(u[j] == s@[from + 1 + j]);
                    }
                    assert(u[i - from - 2] == c);
                    lemma_behind_letter_is(u, i - from - 1);
                }
                return i - from;
            }
        }
        proof {
            let u = t.skip(1);
            assert forall|j: int| 0 <= j < u.len() - 1 implies !is_letter(#[trigger] u[j]) by {
                assert(u[j] == s@[from + 1 + j]);
            }
            lemma_behind_letter_is(u, u.len() as int);
        }
        s.len() - from
    } else {
        proof {
            if t.len() >= 2 {
                assert(t[0] == s@[from as int] && t[1] == s@[from + 1]);
            }
        }
        0
    }
}

fn width_chars(s: &Vec<char>) -> (out: usize)
    ensures
        out == width_of(s@),
        out <= s@.len(),
{
    let mut width: usize = 0;
    let mut i: usize = 0;
    proof {
        assert(s@.skip(0) =~= s@);
    }
    while i < s.len()
        invariant
            i <= s.len(),
            width <= i,
            width + width_of(s@.skip(i as int)) == width_of(s@),
        decreases s.len() - i,
    {
        let ghost t = s@.skip(i as int);
        let e = escape_at(s, i);
        if e > 0 {
            proof {
                assert(t.skip(e as int) =~= s@.skip(i + e));
            }
            i += e;
        } else {
            proof {
                assert(t.skip(1) =~= s@.skip(i + 1));
            }
            width += 1;
            i += 1;
        }
    }
    width
}

/// The number of characters of `value` that take room.
pub fn visible_width(value: &str) -> (out: usize)
    ensures
        out == width_of(value@),
{
    width_chars(&chars_of(value))
}

// ---------------------------------------------------------------------------
// Cutting and padding
// ---------------------------------------------------------------------------

/// The sequence that ends all colours.
pub open spec fn reset() -> Seq<char> {
    seq!['\u{1b}', '[', '0', 'm']
}

/// The start of `s` up to the character that would take more room than `left`.
pub open spec fn kept(s: Seq<char>, left: nat) -> Seq<char>
    decreases s.len(),
{
    if s.len() == 0 {
        seq![]
    } else if escape_len(s) > 0 {
        proof {
            lemma_behind_letter(s.skip(1));
        }
        let e = escape_len(s) as int;
        s.take(e) + kept(s.skip(e), left)
    } else if left == 0 {
        seq![]
    } else {
        seq![s[0]] + kept(s.skip(1), (left - 1) as nat)
    }
}

/// Whether an escape sequence stands in the start of `s` that is kept.
pub open spec fn keeps_escape(s: Seq<char>, left: nat) -> bool
    decreases s.len(),
{
    if s.len() == 0 {
        false
    } else if escape_len(s) > 0 {
        true
    } else if left == 0 {
        false
    } else {
        keeps_escape(s.skip(1), (left - 1) as nat)
    }
}

/// `s` cut so that it takes no more room than `max`. Colours end where it is cut.
pub open spec fn clipped(s: Seq<char>, max: nat) -> Seq<char> {
    if max == 0 {
        seq![]
    } else if keeps_escape(s, max) && width_of(s) > max {
        kept(s, max) + reset()
    } else {
        kept(s, max)
    }
}

/// `value` cut so that it takes no more room than `max_visible`.
pub fn truncate_ansi_line(value: &str, max_visible: usize) -> (out: String)
    ensures
        out@ == clipped(value@, max_visible as nat),
{
    if max_visible == 0 {
        return String::new();
    }
    let s = chars_of(value);
    let mut output: Vec<char> = Vec::new();
    let mut visible: usize = 0;
    let mut copied = false;
    let mut done = false;
    let mut i: usize = 0;
    let ghost max = max_visible as nat;
    proof {
        assert(s@.skip(0) =~= s@);
        assert(output@ + kept(s@, max) =~= kept(s@, max));
    }
    while i < s.len() && !done
        invariant
            i <= s.len(),
            max == max_visible,
            visible <= max_visible,
            done ==> kept(s@.skip(i as int), (max - visible) as nat) == Seq::<char>::empty()
                && !keeps_escape(s@.skip(i as int), (max - visible) as nat),
            output@ + kept(s@.skip(i as int), (max - visible) as nat) == kept(s@, max),
            keeps_escape(s@, max) == (copied || keeps_escape(
                s@.skip(i as int),
                (max - visible) as nat,
            )),
        decreases
            s.len() - i,
            (if done {
                0int
            } else {
                1int
            }),
    {
        let ghost t = s@.skip(i as int);
        let ghost left = (max - visible) as nat;
        let ghost before = output@;
        let e = escape_at(&s, i);
        if e > 0 {
            copied = true;
            let end: usize = i + e;
            while i < end
                invariant
                    i <= end <= s.len(),
                    output@ == before + s@.subrange(end - e, i as int),
                    0 <= end - e <= i,
                decreases end - i,
            {
                output.push(s[i]);
                proof {
                    assert(s@.subrange(end - e, i + 1) =~= s@.subrange(end - e, i as int).push(
                        s@[i as int],
                    ));
                    assert(output@ =~= before + s@.subrange(end - e, i + 1));
                }
                i += 1;
            }
            proof {
                assert(t.take(e as int) =~= s@.subrange(end - e, end as int));
                assert(t.skip(e as int) =~= s@.skip(end as int));
                assert(output@ + kept(t.skip(e as int), left) =~= before + (t.take(e as int) + kept(
                    t.skip(e as int),
                    left,
                )));
            }
        } else if visible >= max_visible {
            done = true;
            proof {
                assert(kept(t, left) =~= seq![]);
            }
        } else {
            output.push(s[i]);
            visible += 1;
            i += 1;
            proof {
                assert(t.skip(1) =~= s@.skip(i as int));
                assert(output@ + kept(t.skip(1), (left - 1) as nat) =~= before + (seq![t[0]]
                    + kept(t.skip(1), (left - 1) as nat)));
            }
        }
    }
    proof {
        if !done {
            assert(s@.skip(i as int) =~= seq![]);
        }
        assert(output@ + seq![] =~= output@);
        assert(output@ == kept(s@, max));
    }
    if copied && width_chars(&s) > max_visible {
        let ghost before = output@;
        output.push('\u{1b}');
        output.push('[');
        output.push('0');
        output.push('m');
        proof {
            assert(output@ =~= before + reset());
        }
    }
    string_of(&output)
}

proof fn lemma_reset_width()
    ensures
        width_of(reset()) == 0,
        escape_len(reset()) == 4,
{
    let r = reset();
    let u = r.skip(1);
    assert(u =~= seq!['[', '0', 'm']);
    lemma_behind_letter_is(u, 3);
    assert(width_of(r.skip(4)) == 0);
}

proof fn lemma_kept_width(s: Seq<char>, left: nat, tail: Seq<char>)
    requires
        tail == Seq::<char>::empty() || tail == reset(),
    ensures
        width_of(kept(s, left) + tail) <= left,
    decreases s.len(),
{
    lemma_reset_width();
    assert(width_of(tail) == 0);
    if s.len() == 0 {
        assert(kept(s, left) + tail =~= tail);
    } else if escape_len(s) > 0 {
        let e = escape_len(s) as int;
        let rest = kept(s.skip(e), left) + tail;
        let all = kept(s, left) + tail;
        let u = s.skip(1);
        lemma_behind_letter(u);
        assert(all =~= s.take(e) + rest);
        assert(all[0] == s[0] && all[1] == s[1]);
        let v = all.skip(1);
        if e < s.len() || is_letter(s[e - 1]) {
            assert forall|j: int| 0 <= j < e - 2 implies !is_letter(#[trigger] v[j]) by {
                assert(v[j] == u[j]);
            }
            assert(v[e - 2] == s[e - 1]);
            if e < s.len() {
                assert(u[e - 2] == s[e - 1]);
            }
            lemma_behind_letter_is(v, e - 1);
            assert(all.skip(e) =~= rest);
            lemma_kept_width(s.skip(e), left, tail);
        } else {
            assert(s.skip(e) =~= seq![]);
            assert(rest =~= tail);
            assert(all =~= s + tail);
            if tail == reset() {
                assert forall|j: int| 0 <= j < v.len() - 1 implies !is_letter(#[trigger] v[j]) by {
                    if j < u.len() - 1 {
                        assert(v[j] == u[j]);
                    } else if j == u.len() - 1 {
                        assert(v[j] == s[e - 1]);
                    } else {
                        assert(v[j] == tail[j - u.len()]);
                    }
                }
                lemma_behind_letter_is(v, v.len() as int);
            } else {
                assert(all =~= s);
            }
            assert(width_of(all.skip(all.len() as int)) == 0);
        }
    } else if left == 0 {
        assert(kept(s, left) + tail =~= tail);
    } else {
        let next = kept(s.skip(1), (left - 1) as nat);
        let rest = next + tail;
        let all = kept(s, left) + tail;
        assert(all =~= seq![s[0]] + rest);
        lemma_kept_width(s.skip(1), (left - 1) as nat, tail);
        lemma_kept_head(s.skip(1), (left - 1) as nat);
        if all.len() >= 2 {
            if next.len() > 0 {
                assert(all[1] == next[0]);
                assert(next[0] == s[1]);
            } else {
                assert(all[1] == tail[0]);
            }
        }
        assert(escape_len(all) == 0);
        assert(all.skip(1) =~= rest);
    }
}

proof fn lemma_kept_head(s: Seq<char>, left: nat)
    ensures
        kept(s, left).len() > 0 ==> s.len() > 0 && kept(s, left)[0] == s[0],
{
    if s.len() > 0 && escape_len(s) > 0 {
        lemma_behind_letter(s.skip(1));
        assert(s.take(escape_len(s) as int)[0] == s[0]);
    }
}

/// A line that was cut takes no more room than asked.
pub proof fn clipped_lines_fit(s: Seq<char>, max: nat)
    ensures
        width_of(clipped(s, max)) <= max,
{
    if max > 0 {
        lemma_kept_width(s, max, reset());
        lemma_kept_width(s, max, seq![]);
        assert(kept(s, max) + seq![] =~= kept(s, max));
    }
}

/// A line that fits is left as it is.
pub proof fn fitting_lines_are_kept(s: Seq<char>, max: nat)
    requires
        width_of(s) <= max,
        max > 0,
    ensures
        clipped(s, max) == s,
{
    lemma_kept_all(s, max);
}

proof fn lemma_kept_all(s: Seq<char>, left: nat)
    requires
        width_of(s) <= left,
    ensures
        kept(s, left) == s,
    decreases s.len(),
{
    if s.len() > 0 {
        if escape_len(s) > 0 {
            let e = escape_len(s) as int;
            lemma_behind_letter(s.skip(1));
            lemma_kept_all(s.skip(e), left);
            assert(s.take(e) + s.skip(e) =~= s);
        } else {
            lemma_kept_all(s.skip(1), (left - 1) as nat);
            assert(seq![s[0]] + s.skip(1) =~= s);
        }
    }
}

/// `s` with spaces behind it up to the room of `width`.
pub open spec fn padded(s: Seq<char>, width: nat) -> Seq<char> {
    if width_of(s) >= width {
        s
    } else {
        s + crate::format::run_of(' ', (width - width_of(s)) as nat)
    }
}

/// `value` with spaces behind it up to the room of `width`.
pub fn pad_visible(value: &str, width: usize) -> (out: String)
    ensures
        out@ == padded(value@, width as nat),
{
    let visible = visible_width(value);
    if visible >= width {
        return String::from_str(value);
    }
    concat2(value, repeat(' ', width - visible).as_str())
}

// ---------------------------------------------------------------------------
// Two columns
// ---------------------------------------------------------------------------

/// Line `i` of `lines`, empty behind the last one.
pub open spec fn line_at(lines: Seq<Seq<char>>, i: int) -> Seq<char> {
    if 0 <= i < lines.len() {
        lines[i]
    } else {
        seq![]
    }
}

/// The room that is left for the right column.
pub open spec fn right_room(left_width: nat, total_width: nat, gap: Seq<char>) -> nat {
    if total_width > left_width + width_of(gap) {
        (total_width - left_width - width_of(gap)) as nat
    } else {
        0
    }
}

/// `left` and `right` next to each other with `gap` between them.
pub open spec fn side_by_side(
    left: Seq<Seq<char>>,
    right: Seq<Seq<char>>,
    left_width: nat,
    total_width: nat,
    gap: Seq<char>,
) -> Seq<Seq<char>> {
    let rows = if left.len() > right.len() {
        left.len()
    } else {
        right.len()
    };
    Seq::new(
        rows,
        |i: int|
            padded(clipped(line_at(left, i), left_width), left_width) + gap + clipped(
                line_at(right, i),
                right_room(left_width, total_width, gap),
            ),
    )
}

/// `left` and `right` next to each other with `gap` between them.
pub fn side_by_side_lines(
    left: &Vec<String>,
    right: &Vec<String>,
    left_width: usize,
    total_width: usize,
    gap: &str,
) -> (out: Vec<String>)
    ensures
        crate::text::texts(out@) == side_by_side(
            crate::text::texts(left@),
            crate::text::texts(right@),
            left_width as nat,
            total_width as nat,
            gap@,
        ),
{
    let gap_width = visible_width(gap);
    let used = left_width.saturating_add(gap_width);
    let right_width = total_width.saturating_sub(used);
    let rows: usize = if left.len() > right.len() {
        left.len()
    } else {
        right.len()
    };
    let ghost goal = side_by_side(
        crate::text::texts(left@),
        crate::text::texts(right@),
        left_width as nat,
        total_width as nat,
        gap@,
    );
    proof {
        assert(right_width == right_room(left_width as nat, total_width as nat, gap@));
    }
    let mut lines: Vec<String> = Vec::new();
    let mut i: usize = 0;
    while i < rows
        invariant
            i <= rows,
            rows == goal.len(),
            rows == (if left@.len() > right@.len() {
                left@.len()
            } else {
                right@.len()
            }),
            right_width == right_room(left_width as nat, total_width as nat, gap@),
            goal == side_by_side(
                crate::text::texts(left@),
                crate::text::texts(right@),
                left_width as nat,
                total_width as nat,
                gap@,
            ),
            crate::text::texts(lines@) == goal.take(i as int),
        decreases rows - i,
    {
        let empty = String::new();
        proof {
            assert(empty@ =~= seq![]);
        }
        let left_line: &str = if i < left.len() {
            left[i].as_str()
        } else {
            empty.as_str()
        };
        let right_line: &str = if i < right.len() {
            right[i].as_str()
        } else {
            empty.as_str()
        };
        proof {
            assert(left_line@ == line_at(crate::text::texts(left@), i as int));
            assert(right_line@ == line_at(crate::text::texts(right@), i as int));
        }
        let head = pad_visible(truncate_ansi_line(left_line, left_width).as_str(), left_width);
        let tail = truncate_ansi_line(right_line, right_width);
        let line = concat3(head.as_str(), gap, tail.as_str());
        let ghost before = lines@;
        lines.push(line);
        proof {
            assert(line@ =~= goal[i as int]);
            assert(crate::text::texts(lines@) =~= crate::text::texts(before).push(line@));
            assert(goal.take(i + 1) =~= goal.take(i as int).push(goal[i as int]));
        }
        i += 1;
    }
    proof {
        assert(goal.take(rows as int) =~= goal);
    }
    lines
}

/// Colour takes no room: a text between an escape that sets a colour and the one that
/// ends it is as wide as before.
pub proof fn plain_text_is_as_wide_as_it_is_long(s: Seq<char>)
    requires
        forall|i: int| 0 <= i < s.len() ==> #[trigger] s[i] != '\u{1b}',
    ensures
        width_of(s) == s.len(),
        width_of(s + reset()) == s.len(),
    decreases s.len(),
{
    reveal_with_fuel(width_of, 2);
    if s.len() == 0 {
        assert(s + reset() =~= reset());
        let tail = reset().skip(1);
        lemma_behind_letter(tail);
        assert(tail[0] == '[' && tail[1] == '0' && tail[2] == 'm');
        lemma_behind_letter_is(tail, 3);
        assert(reset().skip(4) =~= seq![]);
    } else {
        let rest = s.skip(1);
        assert forall|i: int| 0 <= i < rest.len() implies #[trigger] rest[i] != '\u{1b}' by {
            assert(rest[i] == s[i + 1]);
        }
        plain_text_is_as_wide_as_it_is_long(rest);
        assert((s + reset()).skip(1) =~= rest + reset());
        assert((s + reset())[0] == s[0]);
    }
}

/// Lines side by side: as many as the longer side has, each with the left side filled
/// up to its width, the gap, and the right side behind it.
pub proof fn sides_stand_side_by_side(
    left: Seq<Seq<char>>,
    right: Seq<Seq<char>>,
    left_width: nat,
    total_width: nat,
    gap: Seq<char>,
    i: int,
)
    requires
        0 <= i < side_by_side(left, right, left_width, total_width, gap).len(),
    ensures
        ({
            let lines = side_by_side(left, right, left_width, total_width, gap);
            let head = padded(
                clipped(
                    if i < left.len() {
                        left[i]
                    } else {
                        seq![]
                    },
                    left_width,
                ),
                left_width,
            );
            let tail = clipped(
                if i < right.len() {
                    right[i]
                } else {
                    seq![]
                },
                right_room(left_width, total_width, gap),
            );
            &&& lines.len() >= left.len() && lines.len() >= right.len()
            &&& lines.len() == left.len() || lines.len() == right.len()
            &&& lines[i].take(head.len() as int) == head
            &&& lines[i].skip((head.len() + gap.len()) as int) == tail
            &&& lines[i].subrange(head.len() as int, (head.len() + gap.len()) as int) == gap
        }),
        left_width + width_of(gap) <= total_width ==> left_width + width_of(gap) + right_room(
            left_width,
            total_width,
            gap,
        ) == total_width,
{
    let lines = side_by_side(left, right, left_width, total_width, gap);
    let head = padded(clipped(line_at(left, i), left_width), left_width);
    let tail = clipped(line_at(right, i), right_room(left_width, total_width, gap));
    assert(lines[i] =~= head + gap + tail);
    assert(lines[i].take(head.len() as int) =~= head);
    assert(lines[i].skip((head.len() + gap.len()) as int) =~= tail);
    assert(lines[i].subrange(head.len() as int, (head.len() + gap.len()) as int) =~= gap);
}

} // verus!
