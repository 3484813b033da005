//! Questions written down as text, one to a line.

use vstd::prelude::*;

verus! {

/// The characters of `text`, one by one.
pub fn chars_of(text: &str) -> (chars: Vec<char>)
    ensures
        chars@ == text@,
{
    let mut chars: Vec<char> = Vec::new();
    for c in it: text.chars()
        invariant
            it.seq() == text@,
            chars@ == text@.take(it.index() as int),
    {
        chars.push(c);
    }
    chars
}

/// Whether `c` is white space, as Unicode defines it.
pub open spec fn is_space(c: char) -> bool {
    let code = c as u32;
    ||| 0x09 <= code <= 0x0d
    ||| code == 0x20
    ||| code == 0x85
    ||| code == 0xa0
    ||| code == 0x1680
    ||| 0x2000 <= code <= 0x200a
    ||| code == 0x2028
    ||| code == 0x2029
    ||| code == 0x202f
    ||| code == 0x205f
    ||| code == 0x3000
}

/// Whether `c` is white space.
pub fn is_space_char(c: char) -> (space: bool)
    ensures
        space == is_space(c),
{
    let code: u32 = c as u32;
    (0x09 <= code && code <= 0x0d) || code == 0x20 || code == 0x85 || code == 0xa0 || code
        == 0x1680 || (0x2000 <= code && code <= 0x200a) || code == 0x2028 || code == 0x2029
        || code == 0x202f || code == 0x205f || code == 0x3000
}

/// Whether `a` is where the white space at the start of `s` ends.
pub open spec fn starts_at(s: Seq<char>, a: int) -> bool {
    &&& 0 <= a <= s.len()
    &&& forall|i: int| 0 <= i < a ==> is_space(#[trigger] s[i])
    &&& a < s.len() ==> !is_space(s[a])
}

/// Whether `b` is where the white space at the end of `s` begins, given
/// that the white space at its start ends at `a`.
pub open spec fn ends_at(s: Seq<char>, a: int, b: int) -> bool {
    &&& a <= b <= s.len()
    &&& forall|i: int| b <= i < s.len() ==> is_space(#[trigger] s[i])
    &&& a < b ==> !is_space(s[b - 1])
}

/// `s` without the white space at its start and at its end.
pub open spec fn trimmed(s: Seq<char>) -> Seq<char> {
    let a = choose|a: int| starts_at(s, a);
    let b = choose|b: int| ends_at(s, a, b);
    s.subrange(a, b)
}

/// There is one place where the white space at the start ends, and one
/// where that at the end begins: whoever finds them has what `trimmed`
/// gives.
pub proof fn lemma_trimmed(s: Seq<char>, a: int, b: int)
    requires
        starts_at(s, a),
        ends_at(s, a, b),
    ensures
        trimmed(s) == s.subrange(a, b),
{
    let a2 = choose|a: int| starts_at(s, a);
    assert(a2 == a) by {
        if a2 < a {
            assert(is_space(s[a2]));
        } else if a < a2 {
            assert(is_space(s[a]));
        }
    }
    let b2 = choose|b: int| ends_at(s, a, b);
    assert(b2 == b) by {
        if b2 < b {
            assert(is_space(s[b - 1]));
        } else if b < b2 {
            assert(is_space(s[b2 - 1]));
        }
    }
}

/// The place from `from` on at which the white space that starts there
/// ends.
proof fn lemma_white_space_ends(s: Seq<char>, from: int) -> (a: int)
    requires
        0 <= from <= s.len(),
        forall|i: int| 0 <= i < from ==> is_space(#[trigger] s[i]),
    ensures
        starts_at(s, a),
    decreases s.len() - from,
{
    if from < s.len() && is_space(s[from]) {
        lemma_white_space_ends(s, from + 1)
    } else {
        from
    }
}

/// The place down from `to`, and not below `a`, at which the white space
/// that ends there begins.
proof fn lemma_white_space_begins(s: Seq<char>, a: int, to: int) -> (b: int)
    requires
        0 <= a <= to <= s.len(),
        forall|i: int| to <= i < s.len() ==> is_space(#[trigger] s[i]),
    ensures
        ends_at(s, a, b),
    decreases to - a,
{
    if a < to && is_space(s[to - 1]) {
        lemma_white_space_begins(s, a, to - 1)
    } else {
        to
    }
}

/// What `trimmed` gives is a part of `s` that neither starts nor ends with
/// white space, and all that stands before and behind it in `s` is white
/// space.
pub proof fn lemma_trimmed_is_the_inner_part(s: Seq<char>) -> (ends: (int, int))
    ensures
        starts_at(s, ends.0),
        ends_at(s, ends.0, ends.1),
        trimmed(s) == s.subrange(ends.0, ends.1),
{
    let a = lemma_white_space_ends(s, 0);
    let b = lemma_white_space_begins(s, a, s.len() as int);
    lemma_trimmed(s, a, b);
    (a, b)
}

/// The place of the first line feed of `text` at or behind `from`; where
/// there is none, the length of `text`.
pub open spec fn line_end(text: Seq<char>, from: int) -> int
    decreases text.len() - from,
{
    if from < text.len() && text[from] != '\n' {
        line_end(text, from + 1)
    } else {
        from
    }
}

/// The end of a line lies at or behind its start, no line feed stands
/// before it, and where it is not the end of the text, it is a line feed.
pub proof fn lemma_line_end(text: Seq<char>, from: int)
    requires
        0 <= from <= text.len(),
    ensures
        from <= line_end(text, from) <= text.len(),
        forall|i: int| from <= i < line_end(text, from) ==> #[trigger] text[i] != '\n',
        line_end(text, from) < text.len() ==> text[line_end(text, from)] == '\n',
    decreases text.len() - from,
{
    if from < text.len() && text[from] != '\n' {
        lemma_line_end(text, from + 1);
    }
}

/// The line of `text` that starts at `from`, without the line feed that
/// ends it, and without the carriage return before that line feed.
pub open spec fn line_at(text: Seq<char>, from: int) -> Seq<char> {
    let end = line_end(text, from);
    if end < text.len() && from < end && text[end - 1] == '\r' {
        text.subrange(from, end - 1)
    } else {
        text.subrange(from, end)
    }
}

/// The lines of `text` from `from` on. A line ends with a line feed, or
/// with a carriage return and a line feed; the last line may end with the
/// text. Nothing follows the line feed that ends the text.
pub open spec fn lines_from(text: Seq<char>, from: int) -> Seq<Seq<char>>
    decreases text.len() + 1 - from,
{
    if 0 <= from < text.len() {
        proof {
            lemma_line_end(text, from);
        }
        seq![line_at(text, from)] + lines_from(text, line_end(text, from) + 1)
    } else {
        Seq::empty()
    }
}

/// The lines of `text`.
pub open spec fn lines_of(text: Seq<char>) -> Seq<Seq<char>> {
    lines_from(text, 0)
}

/// Whether `line` is blank: it holds nothing but white space.
pub open spec fn blank(line: Seq<char>) -> bool {
    forall|i: int| 0 <= i < line.len() ==> is_space(#[trigger] line[i])
}

/// A line is blank where nothing is left of it once it is trimmed, and
/// only there.
pub proof fn lemma_blank_is_trimmed_to_nothing(line: Seq<char>)
    ensures
        blank(line) <==> trimmed(line).len() == 0,
{
    let (a, b) = lemma_trimmed_is_the_inner_part(line);
    if blank(line) {
        if a < b {
            assert(is_space(line[a]));
        }
    } else {
        let i = choose|i: int| 0 <= i < line.len() && !is_space(#[trigger] line[i]);
        if a == b {
            if i < a {
                assert(is_space(line[i]));
            } else {
                assert(is_space(line[i]));
            }
        }
    }
}

/// What a line says once the hyphen that may stand at its start is taken
/// off, and then the white space at both ends.
pub open spec fn entry_of(line: Seq<char>) -> Seq<char> {
    if line.len() > 0 && line[0] == '-' {
        trimmed(line.subrange(1, line.len() as int))
    } else {
        trimmed(line)
    }
}

/// The entries of `lines`: one for each line that is not blank, in the
/// order of the lines. Whether a line is blank is settled before the hyphen
/// is looked at, so a line with a hyphen and nothing else behind it gives
/// an entry, which is empty.
pub open spec fn entries_in(lines: Seq<Seq<char>>) -> Seq<Seq<char>>
    decreases lines.len(),
{
    if lines.len() == 0 {
        Seq::empty()
    } else if blank(lines.last()) {
        entries_in(lines.drop_last())
    } else {
        entries_in(lines.drop_last()).push(entry_of(lines.last()))
    }
}

/// The entries of `text`.
pub open spec fn entries_of(text: Seq<char>) -> Seq<Seq<char>> {
    entries_in(lines_of(text))
}

/// What each string of `strings` holds.
pub open spec fn texts_of(strings: Seq<String>) -> Seq<Seq<char>> {
    Seq::new(strings.len(), |i: int| strings[i]@)
}

/// Reads the entries out of `text`.
pub fn read_entries(text: &str) -> (entries: Vec<String>)
    ensures
        texts_of(entries@) == entries_of(text@),
{
    let chars = chars_of(text);
    let n: usize = chars.len();
    let mut entries: Vec<String> = Vec::new();
    let mut from: usize = 0;
    let ghost mut seen: Seq<Seq<char>> = Seq::empty();
    while from < n
        invariant
            chars@ == text@,
            n == chars.len(),
            from <= n,
            seen + lines_from(text@, from as int) == lines_of(text@),
            texts_of(entries@) == entries_in(seen),
        decreases n - from,
    {
        let mut end: usize = from;
        while end < n && chars[end] != '\n'
            invariant
                n == chars.len(),
                from <= end <= n,
                line_end(chars@, end as int) == line_end(chars@, from as int),
            decreases n - end,
        {
            end += 1;
        }
        let stop: usize = if end < n && from < end && chars[end - 1] == '\r' {
            end - 1
        } else {
            end
        };
        let ghost line = chars@.subrange(from as int, stop as int);
        let mut ink: usize = from;
        while ink < stop && is_space_char(chars[ink])
            invariant
                n == chars.len(),
                from <= ink <= stop <= n,
                forall|i: int| from <= i < ink ==> is_space(#[trigger] chars@[i]),
            decreases stop - ink,
        {
            ink += 1;
        }
        proof {
            if ink < stop {
                assert(!is_space(line[ink - from]));
            } else {
                assert forall|i: int| 0 <= i < line.len() implies is_space(#[trigger] line[i]) by {
                    assert(is_space(chars@[from + i]));
                }
            }
        }
        if ink < stop {
            let start: usize = if chars[from] == '-' {
                from + 1
            } else {
                from
            };
            let ghost body = chars@.subrange(start as int, stop as int);
            let mut a: usize = start;
            while a < stop && is_space_char(chars[a])
                invariant
                    n == chars.len(),
                    start <= a <= stop <= n,
                    forall|i: int| start <= i < a ==> is_space(#[trigger] chars@[i]),
                decreases stop - a,
            {
                a += 1;
            }
            let mut b: usize = stop;
            while a < b && is_space_char(chars[b - 1])
                invariant
                    n == chars.len(),
                    a <= b <= stop <= n,
                    forall|i: int| b <= i < stop ==> is_space(#[trigger] chars@[i]),
                decreases b - a,
            {
                b -= 1;
            }
            proof {
                lemma_trimmed(body, a - start, b - start);
                if chars@[from as int] == '-' {
                    assert(body =~= line.subrange(1, line.len() as int));
                } else {
                    assert(body =~= line);
                }
                assert(entry_of(line) == text@.subrange(a as int, b as int));
            }
            entries.push(String::from_str(text.substring_char(a, b)));
        }
        proof {
            assert(line == line_at(text@, from as int));
            assert(seen.push(line).drop_last() =~= seen);
            assert(seen.push(line) + lines_from(text@, end + 1) =~= seen + lines_from(
                text@,
                from as int,
            ));
            seen = seen.push(line);
        }
        from = if end < n {
            end + 1
        } else {
            n
        };
    }
    entries
}

} // verus!
