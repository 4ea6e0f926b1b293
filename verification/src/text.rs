//! Text as sequences of characters.
//!
//! Every other module states what it does to text over `Seq<char>`. The
//! functions here move between `str`, `String` and `Vec<char>` and implement
//! the handful of text operations that the rest of the library is built from.

use vstd::prelude::*;

verus! {

/// `String::push` appends one character.
pub assume_specification[ String::push ](s: &mut String, c: char)
    ensures
        final(s)@ == old(s)@.push(c),
;

/// The texts held by a sequence of strings.
pub open spec fn texts(items: Seq<String>) -> Seq<Seq<char>> {
    items.map_values(|item: String| item@)
}

/// The text held by an optional string.
pub open spec fn opt_text(item: Option<String>) -> Option<Seq<char>> {
    match item {
        Some(text) => Some(text@),
        None => None,
    }
}

/// The characters of `s`.
pub fn chars_of(s: &str) -> (out: Vec<char>)
    ensures
        out@ == s@,
{
    let n: usize = s.unicode_len();
    let mut out: Vec<char> = Vec::new();
    let mut it = s.chars();
    let ghost all = s@;
    let mut i: usize = 0;
    while i < n
        invariant
            i <= n,
            n == all.len(),
            out@ == all.take(i as int),
            vstd::std_specs::iter::IteratorSpec::remaining(&it) == all.skip(i as int),
        decreases n - i,
    {
        match it.next() {
            Some(c) => {
                out.push(c);
            },
            None => {
                assert(false);
            },
        }
        proof {
            assert(all.skip(i as int).drop_first() =~= all.skip(i + 1));
            assert(all.take(i + 1) =~= all.take(i as int).push(all[i as int]));
        }
        i += 1;
    }
    proof {
        assert(all.take(n as int) =~= all);
    }
    out
}

/// The string made of `chars`.
pub fn string_of(chars: &Vec<char>) -> (out: String)
    ensures
        out@ == chars@,
{
    let mut out = String::new();
    let mut i: usize = 0;
    while i < chars.len()
        invariant
            i <= chars.len(),
            out@ == chars@.take(i as int),
        decreases chars.len() - i,
    {
        out.push(chars[i]);
        proof {
            assert(chars@.take(i + 1) =~= chars@.take(i as int).push(chars@[i as int]));
        }
        i += 1;
    }
    proof {
        assert(chars@.take(chars@.len() as int) =~= chars@);
    }
    out
}

/// A copy of `s`.
pub fn copy_of(s: &str) -> (out: String)
    ensures
        out@ == s@,
{
    String::from_str(s)
}

/// A copy of an optional string.
pub fn opt_copy(item: &Option<String>) -> (out: Option<String>)
    ensures
        opt_text(out) == opt_text(*item),
        out == *item,
{
    match item {
        Some(text) => Some(text.clone()),
        None => None,
    }
}

/// Copies of all strings of `items`.
pub fn copy_all(items: &Vec<String>) -> (out: Vec<String>)
    ensures
        out@ == items@,
{
    let mut out: Vec<String> = Vec::new();
    let mut i: usize = 0;
    while i < items.len()
        invariant
            i <= items.len(),
            out@ == items@.take(i as int),
        decreases items.len() - i,
    {
        out.push(items[i].clone());
        proof {
            assert(items@.take(i + 1) =~= items@.take(i as int).push(items@[i as int]));
        }
        i += 1;
    }
    proof {
        assert(items@.take(items@.len() as int) =~= items@);
    }
    out
}

/// Whether `a` and `b` are the same text.
pub fn same(a: &str, b: &str) -> (out: bool)
    ensures
        out == (a@ == b@),
{
    String::from_str(a) == String::from_str(b)
}

/// The characters `from..to` of `s`.
pub fn sub_chars(s: &Vec<char>, from: usize, to: usize) -> (out: Vec<char>)
    requires
        from <= to <= s@.len(),
    ensures
        out@ == s@.subrange(from as int, to as int),
{
    let mut out: Vec<char> = Vec::new();
    let mut i: usize = from;
    while i < to
        invariant
            from <= i <= to <= s@.len(),
            out@ == s@.subrange(from as int, i as int),
        decreases to - i,
    {
        out.push(s[i]);
        proof {
            assert(s@.subrange(from as int, i + 1) =~= s@.subrange(from as int, i as int).push(
                s@[i as int],
            ));
        }
        i += 1;
    }
    out
}

/// `head` followed by `tail`.
pub fn concat2(head: &str, tail: &str) -> (out: String)
    ensures
        out@ == head@ + tail@,
{
    String::from_str(head).concat(tail)
}

/// `a`, `b` and `c` in a row.
pub fn concat3(a: &str, b: &str, c: &str) -> (out: String)
    ensures
        out@ == a@ + b@ + c@,
{
    String::from_str(a).concat(b).concat(c)
}

/// `a`, `b`, `c` and `d` in a row.
pub fn concat4(a: &str, b: &str, c: &str, d: &str) -> (out: String)
    ensures
        out@ == a@ + b@ + c@ + d@,
{
    String::from_str(a).concat(b).concat(c).concat(d)
}

// ---------------------------------------------------------------------------
// Prefixes and suffixes
// ---------------------------------------------------------------------------

/// Whether `s` starts with `prefix`.
pub open spec fn has_prefix(s: Seq<char>, prefix: Seq<char>) -> bool {
    prefix.len() <= s.len() && s.take(prefix.len() as int) == prefix
}

/// Whether `s` ends with `suffix`.
pub open spec fn has_suffix(s: Seq<char>, suffix: Seq<char>) -> bool {
    suffix.len() <= s.len() && s.skip(s.len() - suffix.len()) == suffix
}

/// Whether `s` starts with `prefix`.
pub fn starts_with(s: &Vec<char>, prefix: &Vec<char>) -> (out: bool)
    ensures
        out == has_prefix(s@, prefix@),
{
    if prefix.len() > s.len() {
        return false;
    }
    let mut i: usize = 0;
    while i < prefix.len()
        invariant
            i <= prefix.len() <= s.len(),
            forall|j: int| 0 <= j < i ==> s@[j] == prefix@[j],
        decreases prefix.len() - i,
    {
        if s[i] != prefix[i] {
            proof {
                if s@.take(prefix@.len() as int) == prefix@ {
                    assert(s@.take(prefix@.len() as int)[i as int] == s@[i as int]);
                }
            }
            return false;
        }
        i += 1;
    }
    proof {
        assert(s@.take(prefix@.len() as int) =~= prefix@);
    }
    true
}

/// Whether `s` ends with `suffix`.
pub fn ends_with(s: &Vec<char>, suffix: &Vec<char>) -> (out: bool)
    ensures
        out == has_suffix(s@, suffix@),
{
    if suffix.len() > s.len() {
        return false;
    }
    let base: usize = s.len() - suffix.len();
    let mut i: usize = 0;
    while i < suffix.len()
        invariant
            i <= suffix.len() <= s.len(),
            base == s.len() - suffix.len(),
            forall|j: int| 0 <= j < i ==> s@[base + j] == suffix@[j],
        decreases suffix.len() - i,
    {
        if s[base + i] != suffix[i] {
            proof {
                if s@.skip(base as int) == suffix@ {
                    assert(s@.skip(base as int)[i as int] == s@[base + i]);
                }
            }
            return false;
        }
        i += 1;
    }
    proof {
        assert(s@.skip(base as int) =~= suffix@);
    }
    true
}

/// Whether the text `s` starts with the text `prefix`.
pub fn text_starts_with(s: &str, prefix: &str) -> (out: bool)
    ensures
        out == has_prefix(s@, prefix@),
{
    starts_with(&chars_of(s), &chars_of(prefix))
}

/// What is left of `s` behind `prefix`, if `s` starts with it.
pub open spec fn stripped_prefix(s: Seq<char>, prefix: Seq<char>) -> Option<Seq<char>> {
    if has_prefix(s, prefix) {
        Some(s.skip(prefix.len() as int))
    } else {
        None
    }
}

/// What is left of `s` before `suffix`, if `s` ends with it.
pub open spec fn stripped_suffix(s: Seq<char>, suffix: Seq<char>) -> Option<Seq<char>> {
    if has_suffix(s, suffix) {
        Some(s.take(s.len() - suffix.len()))
    } else {
        None
    }
}

/// The characters held by an optional vector.
pub open spec fn opt_chars(item: Option<Vec<char>>) -> Option<Seq<char>> {
    match item {
        Some(chars) => Some(chars@),
        None => None,
    }
}

/// What is left of `s` behind `prefix`, if `s` starts with it.
pub fn strip_prefix(s: &Vec<char>, prefix: &str) -> (out: Option<Vec<char>>)
    ensures
        opt_chars(out) == stripped_prefix(s@, prefix@),
{
    let p = chars_of(prefix);
    if starts_with(s, &p) {
        let rest = sub_chars(s, p.len(), s.len());
        proof {
            assert(rest@ =~= s@.skip(p@.len() as int));
        }
        Some(rest)
    } else {
        None
    }
}

/// What is left of `s` before `suffix`, if `s` ends with it.
pub fn strip_suffix(s: &Vec<char>, suffix: &str) -> (out: Option<Vec<char>>)
    ensures
        opt_chars(out) == stripped_suffix(s@, suffix@),
{
    let p = chars_of(suffix);
    if ends_with(s, &p) {
        let rest = sub_chars(s, 0, s.len() - p.len());
        proof {
            assert(rest@ =~= s@.take(s@.len() - p@.len()));
        }
        Some(rest)
    } else {
        None
    }
}

// ---------------------------------------------------------------------------
// Searching and splitting
// ---------------------------------------------------------------------------

/// The position of the first `c` in `s`, or the length of `s` if there is none.
pub open spec fn find_char(s: Seq<char>, c: char) -> int
    decreases s.len(),
{
    if s.len() == 0 {
        0
    } else if s[0] == c {
        0
    } else {
        1 + find_char(s.skip(1), c)
    }
}

/// `find_char` is the first position that holds `c`.
pub proof fn lemma_find_char(s: Seq<char>, c: char)
    ensures
        0 <= find_char(s, c) <= s.len(),
        forall|j: int| 0 <= j < find_char(s, c) ==> s[j] != c,
        find_char(s, c) < s.len() ==> s[find_char(s, c)] == c,
    decreases s.len(),
{
    if s.len() > 0 && s[0] != c {
        let t = s.skip(1);
        lemma_find_char(t, c);
        assert forall|j: int| 0 <= j < find_char(s, c) implies s[j] != c by {
            if j > 0 {
                assert(t[j - 1] == s[j]);
            }
        }
    }
}

/// The first position that holds `c` is `find_char`.
pub proof fn lemma_find_char_is(s: Seq<char>, c: char, k: int)
    requires
        0 <= k <= s.len(),
        forall|j: int| 0 <= j < k ==> s[j] != c,
        k < s.len() ==> s[k] == c,
    ensures
        find_char(s, c) == k,
{
    lemma_find_char(s, c);
    let f = find_char(s, c);
    if f < k {
        assert(s[f] != c);
    } else if k < f {
        assert(s[k] != c);
    }
}

/// The position of the first `c` in `s`, or the length of `s` if there is none.
pub fn find(s: &Vec<char>, c: char) -> (out: usize)
    ensures
        out == find_char(s@, c),
        out <= s@.len(),
{
    let mut i: usize = 0;
    while i < s.len() && s[i] != c
        invariant
            i <= s.len(),
            forall|j: int| 0 <= j < i ==> s@[j] != c,
        decreases s.len() - i,
    {
        i += 1;
    }
    proof {
        lemma_find_char_is(s@, c, i as int);
    }
    i
}

/// The texts before and after the first `c`.
pub open spec fn split_at_first(s: Seq<char>, c: char) -> Option<(Seq<char>, Seq<char>)> {
    let k = find_char(s, c);
    if k < s.len() {
        Some((s.take(k), s.skip(k + 1)))
    } else {
        None
    }
}

/// The characters held by an optional pair of vectors.
pub open spec fn opt_char_pair(item: Option<(Vec<char>, Vec<char>)>) -> Option<
    (Seq<char>, Seq<char>),
> {
    match item {
        Some(pair) => Some((pair.0@, pair.1@)),
        None => None,
    }
}

/// Splits `s` at the first `c`.
pub fn split_once(s: &Vec<char>, c: char) -> (out: Option<(Vec<char>, Vec<char>)>)
    ensures
        opt_char_pair(out) == split_at_first(s@, c),
{
    let k = find(s, c);
    if k < s.len() {
        let head = sub_chars(s, 0, k);
        let tail = sub_chars(s, k + 1, s.len());
        proof {
            assert(head@ =~= s@.take(k as int));
            assert(tail@ =~= s@.skip(k + 1));
        }
        Some((head, tail))
    } else {
        None
    }
}

/// Whether `s` holds `c`.
pub fn has_char(s: &Vec<char>, c: char) -> (out: bool)
    ensures
        out == s@.contains(c),
{
    let k = find(s, c);
    proof {
        lemma_find_char(s@, c);
    }
    k < s.len()
}

/// Whether `needle` stands in `s` at position `i`.
pub open spec fn occurs_at(s: Seq<char>, needle: Seq<char>, i: int) -> bool {
    0 <= i && i + needle.len() <= s.len() && s.subrange(i, i + needle.len()) == needle
}

/// Whether `needle` occurs in `s`.
pub open spec fn has_text(s: Seq<char>, needle: Seq<char>) -> bool {
    exists|i: int| #[trigger] occurs_at(s, needle, i)
}

/// Whether `needle` stands in `s` at position `i`.
pub fn matches_at(s: &Vec<char>, needle: &Vec<char>, i: usize) -> (out: bool)
    ensures
        out == occurs_at(s@, needle@, i as int),
{
    if i > s.len() || needle.len() > s.len() - i {
        return false;
    }
    let mut j: usize = 0;
    while j < needle.len()
        invariant
            j <= needle.len(),
            i + needle.len() <= s.len(),
            forall|k: int| 0 <= k < j ==> s@[i + k] == needle@[k],
        decreases needle.len() - j,
    {
        if s[i + j] != needle[j] {
            proof {
                if s@.subrange(i as int, i + needle@.len()) == needle@ {
                    assert(s@.subrange(i as int, i + needle@.len())[j as int] == s@[i + j]);
                }
            }
            return false;
        }
        j += 1;
    }
    proof {
        assert(s@.subrange(i as int, i + needle@.len()) =~= needle@);
    }
    true
}

/// Whether `needle` occurs in `s`.
pub fn contains_text(s: &Vec<char>, needle: &str) -> (out: bool)
    ensures
        out == has_text(s@, needle@),
{
    let n = chars_of(needle);
    let mut i: usize = 0;
    while i < s.len()
        invariant
            i <= s.len(),
            n@ == needle@,
            forall|k: int| 0 <= k < i ==> !occurs_at(s@, n@, k),
        decreases s.len() - i,
    {
        if matches_at(s, &n, i) {
            return true;
        }
        i += 1;
    }
    matches_at(s, &n, i)
}

/// The first position from `from` on at which `needle` stands in `s`.
pub open spec fn find_text_from(s: Seq<char>, needle: Seq<char>, from: int) -> Option<int>
    decreases s.len() + 1 - from,
{
    if from < 0 || from + needle.len() > s.len() {
        None
    } else if occurs_at(s, needle, from) {
        Some(from)
    } else {
        find_text_from(s, needle, from + 1)
    }
}

/// The texts before and after the first `needle`.
pub open spec fn split_at_text(s: Seq<char>, needle: Seq<char>) -> Option<(Seq<char>, Seq<char>)> {
    match find_text_from(s, needle, 0) {
        Some(i) => Some((s.take(i), s.skip(i + needle.len()))),
        None => None,
    }
}

/// Splits `s` at the first `needle`.
pub fn split_once_text(s: &Vec<char>, needle: &str) -> (out: Option<(Vec<char>, Vec<char>)>)
    ensures
        opt_char_pair(out) == split_at_text(s@, needle@),
{
    let n = chars_of(needle);
    if n.len() > s.len() {
        return None;
    }
    let last: usize = s.len() - n.len();
    let mut i: usize = 0;
    while i < last && !matches_at(s, &n, i)
        invariant
            i <= last,
            last == s.len() - n.len(),
            n@ == needle@,
            find_text_from(s@, needle@, 0) == find_text_from(s@, needle@, i as int),
        decreases last - i,
    {
        i += 1;
    }
    if matches_at(s, &n, i) {
        let head = sub_chars(s, 0, i);
        let tail = sub_chars(s, i + n.len(), s.len());
        proof {
            assert(head@ =~= s@.take(i as int));
            assert(tail@ =~= s@.skip(i + n@.len()));
        }
        Some((head, tail))
    } else {
        proof {
            assert(find_text_from(s@, needle@, i + 1) is None);
        }
        None
    }
}

/// `c` in lower case, if it is an ASCII letter.
pub open spec fn lower_char(c: char) -> char {
    if 'A' <= c <= 'Z' {
        ((c as u32 + 32) as u8) as char
    } else {
        c
    }
}

/// `s` with its ASCII letters in lower case.
pub open spec fn lowered(s: Seq<char>) -> Seq<char> {
    s.map_values(|c: char| lower_char(c))
}

/// `s` with its ASCII letters in lower case.
pub fn to_lower(s: &Vec<char>) -> (out: Vec<char>)
    ensures
        out@ == lowered(s@),
{
    let mut out: Vec<char> = Vec::new();
    let mut i: usize = 0;
    while i < s.len()
        invariant
            i <= s.len(),
            out@ == lowered(s@).take(i as int),
        decreases s.len() - i,
    {
        let c = s[i];
        let low: char = if c >= 'A' && c <= 'Z' {
            ((c as u32 + 32) as u8) as char
        } else {
            c
        };
        out.push(low);
        proof {
            assert(lowered(s@).take(i + 1) =~= lowered(s@).take(i as int).push(low));
        }
        i += 1;
    }
    proof {
        assert(lowered(s@).take(s@.len() as int) =~= lowered(s@));
    }
    out
}

/// Adds all of `more` to `out`.
pub fn extend(out: &mut Vec<String>, more: Vec<String>)
    ensures
        texts(final(out)@) == texts(old(out)@) + texts(more@),
{
    let ghost before = out@;
    let mut rest = more;
    out.append(&mut rest);
    proof {
        assert(texts(out@) =~= texts(before) + texts(more@));
    }
}

/// Adds `item` to `out`.
pub fn push_text(out: &mut Vec<String>, item: String)
    ensures
        texts(final(out)@) == texts(old(out)@).push(item@),
{
    let ghost before = out@;
    out.push(item);
    proof {
        assert(texts(out@) =~= texts(before).push(item@));
    }
}

/// `text` with each `needle`, from the left, replaced.
pub open spec fn replaced(text: Seq<char>, needle: Seq<char>, with: Seq<char>) -> Seq<char>
    decreases text.len(),
{
    if needle.len() == 0 || text.len() < needle.len() {
        text
    } else if text.take(needle.len() as int) == needle {
        with + replaced(text.skip(needle.len() as int), needle, with)
    } else {
        seq![text[0]] + replaced(text.skip(1), needle, with)
    }
}

/// `text` with each `needle`, from the left, replaced.
pub fn replace_all(text: &str, needle: &str, with: &str) -> (out: String)
    requires
        needle@.len() > 0,
    ensures
        out@ == replaced(text@, needle@, with@),
{
    let chars = chars_of(text);
    let pattern = chars_of(needle);
    let mut out = String::new();
    let mut i: usize = 0;
    proof {
        assert(chars@.skip(0) =~= chars@);
        assert(out@ + replaced(chars@, needle@, with@) =~= replaced(chars@, needle@, with@));
    }
    while pattern.len() <= chars.len() - i
        invariant
            i <= chars.len(),
            chars@ == text@,
            pattern@ == needle@,
            pattern@.len() > 0,
            out@ + replaced(chars@.skip(i as int), needle@, with@) == replaced(
                text@,
                needle@,
                with@,
            ),
        decreases chars.len() - i,
    {
        let ghost before = out@;
        let ghost rest = chars@.skip(i as int);
        if matches_at(&chars, &pattern, i) {
            proof {
                assert(rest.take(needle@.len() as int) =~= chars@.subrange(
                    i as int,
                    i + needle@.len(),
                ));
                assert(rest.skip(needle@.len() as int) =~= chars@.skip(i + needle@.len()));
            }
            out.append(with);
            proof {
                let tail = replaced(chars@.skip(i + needle@.len()), needle@, with@);
                assert((before + with@) + tail =~= before + (with@ + tail));
            }
            i += pattern.len();
        } else {
            proof {
                assert(rest.take(needle@.len() as int) =~= chars@.subrange(
                    i as int,
                    i + needle@.len(),
                ));
                assert(rest.skip(1) =~= chars@.skip(i + 1));
            }
            out.push(chars[i]);
            proof {
                let tail = replaced(chars@.skip(i + 1), needle@, with@);
                assert(before.push(chars@[i as int]) + tail =~= before + (seq![rest[0]] + tail));
            }
            i += 1;
        }
    }
    let tail = string_of(&sub_chars(&chars, i, chars.len()));
    proof {
        assert(tail@ =~= chars@.skip(i as int));
    }
    concat2(out.as_str(), tail.as_str())
}

/// The parts of `s` between the occurrences of `c`.
pub open spec fn parts_of(s: Seq<char>, c: char) -> Seq<Seq<char>>
    decreases s.len(),
{
    match split_at_first(s, c) {
        None => seq![s],
        Some(parts) => {
            proof {
                lemma_find_char(s, c);
            }
            seq![parts.0] + parts_of(parts.1, c)
        },
    }
}

/// The parts of `s` between the occurrences of `c`.
pub fn split_all(s: &Vec<char>, c: char) -> (out: Vec<Vec<char>>)
    ensures
        out@.map_values(|part: Vec<char>| part@) == parts_of(s@, c),
    decreases s@.len(),
{
    let mut out: Vec<Vec<char>> = Vec::new();
    match split_once(s, c) {
        None => {
            out.push(sub_chars(s, 0, s.len()));
            proof {
                assert(s@.subrange(0, s@.len() as int) =~= s@);
            }
        },
        Some((head, tail)) => {
            proof {
                lemma_find_char(s@, c);
            }
            let mut rest = split_all(&tail, c);
            let ghost more = rest@;
            out.push(head);
            out.append(&mut rest);
            proof {
                assert(out@ =~= seq![head] + more);
            }
        },
    }
    proof {
        assert(out@.map_values(|part: Vec<char>| part@) =~= parts_of(s@, c));
    }
    out
}

/// Where `c` stands last in `s`, or -1.
pub open spec fn find_last(s: Seq<char>, c: char) -> int
    decreases s.len(),
{
    if s.len() == 0 {
        -1
    } else if s.last() == c {
        s.len() - 1
    } else {
        find_last(s.drop_last(), c)
    }
}

/// `s` in two at its last `c`.
pub open spec fn split_at_last(s: Seq<char>, c: char) -> Option<(Seq<char>, Seq<char>)> {
    let k = find_last(s, c);
    if k < 0 {
        None
    } else {
        Some((s.take(k), s.skip(k + 1)))
    }
}

/// `s` in two at its last `c`.
pub fn rsplit_once(s: &Vec<char>, c: char) -> (out: Option<(Vec<char>, Vec<char>)>)
    ensures
        opt_char_pair(out) == split_at_last(s@, c),
{
    let n: usize = s.len();
    let mut k: usize = n;
    proof {
        assert(s@.take(n as int) =~= s@);
    }
    while k > 0 && s[k - 1] != c
        invariant
            k <= n,
            n == s.len(),
            find_last(s@.take(k as int), c) == find_last(s@, c),
        decreases k,
    {
        proof {
            assert(s@.take(k as int).drop_last() =~= s@.take(k - 1));
        }
        k -= 1;
    }
    if k == 0 {
        return None;
    }
    proof {
        assert(s@.take(k as int).last() == c);
        assert(s@.subrange(0, k - 1) =~= s@.take(k - 1));
        assert(s@.subrange(k as int, n as int) =~= s@.skip(k as int));
    }
    Some((sub_chars(s, 0, k - 1), sub_chars(s, k, n)))
}

/// A text is split at the first separator, or at the last, and both parts with the
/// separator between them are the text.
pub proof fn splits_put_together_are_the_text(s: Seq<char>, c: char)
    ensures
        split_at_first(s, c) matches Some((head, tail)) ==> s == head + seq![c] + tail
            && !head.contains(c),
        split_at_first(s, c) is None ==> !s.contains(c),
        split_at_last(s, c) matches Some((head, tail)) ==> s == head + seq![c] + tail
            && !tail.contains(c),
        split_at_last(s, c) is None ==> !s.contains(c),
{
    lemma_find_char(s, c);
    let k = find_char(s, c);
    if k < s.len() {
        assert(s =~= s.take(k) + seq![c] + s.skip(k + 1));
        if s.take(k).contains(c) {
            let i = choose|i: int| 0 <= i < s.take(k).len() && s.take(k)[i] == c;
            assert(s[i] == c);
        }
    } else if s.contains(c) {
        let i = choose|i: int| 0 <= i < s.len() && s[i] == c;
        assert(s[i] == c);
    }
    lemma_find_last_is(s, c);
    let m = find_last(s, c);
    if m >= 0 {
        assert(s =~= s.take(m) + seq![c] + s.skip(m + 1));
        let tail = s.skip(m + 1);
        if tail.contains(c) {
            let i = choose|i: int| 0 <= i < tail.len() && tail[i] == c;
            assert(s[m + 1 + i] == c);
        }
    }
}

proof fn lemma_find_last_is(s: Seq<char>, c: char)
    ensures
        -1 <= find_last(s, c) < s.len(),
        find_last(s, c) >= 0 ==> s[find_last(s, c)] == c,
        forall|i: int| find_last(s, c) < i < s.len() ==> #[trigger] s[i] != c,
        find_last(s, c) < 0 ==> !s.contains(c),
    decreases s.len(),
{
    if s.len() > 0 && s.last() != c {
        let rest = s.drop_last();
        lemma_find_last_is(rest, c);
        assert forall|i: int| find_last(s, c) < i < s.len() implies #[trigger] s[i] != c by {
            if i < rest.len() {
                assert(rest[i] == s[i]);
            }
        }
        if find_last(s, c) < 0 && s.contains(c) {
            let i = choose|i: int| 0 <= i < s.len() && s[i] == c;
            assert(s[i] != c);
        }
    }
}

/// A text is split into what stands between the separators, in order.
pub proof fn parts_are_split_in_order(head: Seq<char>, c: char, rest: Seq<char>)
    requires
        !head.contains(c),
    ensures
        parts_of(head + seq![c] + rest, c) == seq![head] + parts_of(rest, c),
        parts_of(head, c) == seq![head],
{
    let all = head + seq![c] + rest;
    assert forall|i: int| 0 <= i < head.len() implies all[i] != c by {
        if head[i] == c {
            assert(head.contains(head[i]));
        }
    }
    lemma_find_char_is(all, c, head.len() as int);
    assert(all.take(head.len() as int) =~= head);
    assert(all.skip((head.len() + 1) as int) =~= rest);
    assert forall|i: int| 0 <= i < head.len() implies head[i] != c by {
        if head[i] == c {
            assert(head.contains(head[i]));
        }
    }
    lemma_find_char_is(head, c, head.len() as int);
}

/// A prefix and a suffix come off as they went on.
pub proof fn ends_come_off(s: Seq<char>, prefix: Seq<char>, suffix: Seq<char>)
    ensures
        stripped_prefix(prefix + s, prefix) == Some(s),
        stripped_suffix(s + suffix, suffix) == Some(s),
        stripped_prefix(s, prefix) matches Some(rest) ==> s == prefix + rest,
        stripped_suffix(s, suffix) matches Some(rest) ==> s == rest + suffix,
        has_prefix(s, prefix) <==> stripped_prefix(s, prefix) is Some,
        has_suffix(s, suffix) <==> stripped_suffix(s, suffix) is Some,
{
    let a = prefix + s;
    assert(a.take(prefix.len() as int) =~= prefix);
    assert(a.skip(prefix.len() as int) =~= s);
    let b = s + suffix;
    assert(b.skip(b.len() - suffix.len()) =~= suffix);
    assert(b.take(b.len() - suffix.len()) =~= s);
    if has_prefix(s, prefix) {
        assert(s =~= s.take(prefix.len() as int) + s.skip(prefix.len() as int));
    }
    if has_suffix(s, suffix) {
        let k = s.len() - suffix.len();
        assert(s =~= s.take(k) + s.skip(k));
    }
}

/// A text holds another where it stands anywhere in it.
pub proof fn texts_hold_their_parts(head: Seq<char>, part: Seq<char>, tail: Seq<char>)
    ensures
        has_text(head + part + tail, part),
        part.len() > head.len() ==> !has_text(head, part),
{
    let all = head + part + tail;
    assert(all.subrange(head.len() as int, (head.len() + part.len()) as int) =~= part);
    assert(occurs_at(all, part, head.len() as int));
    if part.len() > head.len() && has_text(head, part) {
        let i = choose|i: int| occurs_at(head, part, i);
        assert(occurs_at(head, part, i));
    }
}

/// Capital letters are lowered and nothing else is.
pub proof fn letters_are_lowered(s: Seq<char>, i: int)
    requires
        0 <= i < s.len(),
    ensures
        lowered(s).len() == s.len(),
        'A' <= s[i] <= 'Z' ==> lowered(s)[i] as int == s[i] as int + 32,
        !('A' <= s[i] <= 'Z') ==> lowered(s)[i] == s[i],
        lowered(lowered(s)) == lowered(s),
{
    assert forall|k: int| 0 <= k < s.len() implies lower_char(#[trigger] lowered(s)[k]) == lowered(
        s,
    )[k] by {
        let c = s[k];
        if 'A' <= c <= 'Z' {
            assert(lowered(s)[k] as int == c as int + 32);
        }
    }
    assert(lowered(lowered(s)) =~= lowered(s));
}

/// A text that is found is replaced, and what stands before it stays.
pub proof fn found_texts_are_replaced(text: Seq<char>, needle: Seq<char>, with: Seq<char>)
    requires
        needle.len() > 0,
    ensures
        replaced(needle + text, needle, with) == with + replaced(text, needle, with),
        !has_text(text, needle) ==> replaced(text, needle, with) == text,
    decreases text.len(),
{
    let all = needle + text;
    assert(all.take(needle.len() as int) =~= needle);
    assert(all.skip(needle.len() as int) =~= text);
    if !has_text(text, needle) && text.len() >= needle.len() {
        assert(!(text.take(needle.len() as int) == needle)) by {
            if text.take(needle.len() as int) == needle {
                assert(text.subrange(0, needle.len() as int) =~= text.take(needle.len() as int));
                assert(occurs_at(text, needle, 0));
            }
        }
        let rest = text.skip(1);
        assert(!has_text(rest, needle)) by {
            if has_text(rest, needle) {
                let i = choose|i: int| occurs_at(rest, needle, i);
                assert(text.subrange(i + 1, i + 1 + needle.len()) =~= rest.subrange(
                    i,
                    i + needle.len(),
                ));
                assert(occurs_at(text, needle, i + 1));
            }
        }
        found_texts_are_replaced(rest, needle, with);
        assert(seq![text[0]] + rest =~= text);
    }
}

/// A text is split at the first place where another stands in it.
pub proof fn texts_are_split_at_texts(s: Seq<char>, needle: Seq<char>)
    ensures
        split_at_text(s, needle) matches Some((head, tail)) ==> s == head + needle + tail,
        split_at_text(s, needle) is None ==> !has_text(s, needle),
{
    lemma_find_text(s, needle, 0);
    if let Some(i) = find_text_from(s, needle, 0) {
        assert(s =~= s.take(i) + s.subrange(i, i + needle.len()) + s.skip(i + needle.len()));
    } else if has_text(s, needle) {
        let i = choose|i: int| occurs_at(s, needle, i);
        assert(occurs_at(s, needle, i));
    }
}

proof fn lemma_find_text(s: Seq<char>, needle: Seq<char>, from: int)
    requires
        from >= 0,
    ensures
        find_text_from(s, needle, from) matches Some(i) ==> from <= i && occurs_at(s, needle, i),
        forall|k: int|
            from <= k && (find_text_from(s, needle, from) is None || k < find_text_from(
                s,
                needle,
                from,
            )->0) ==> !(#[trigger] occurs_at(s, needle, k)),
    decreases s.len() + 1 - from,
{
    if from + needle.len() <= s.len() && !occurs_at(s, needle, from) {
        lemma_find_text(s, needle, from + 1);
    }
}

} // verus!
