use vstd::prelude::*;
use crate::unicode::{char_is_whitespace, chars_of, is_whitespace, text_of};

verus! {

/// Appends `src[from..to]` to `out`.
pub(crate) fn append_range(out: &mut Vec<char>, src: &Vec<char>, from: usize, to: usize)
    requires
        from <= to <= src.len(),
    ensures
        final(out)@ == old(out)@ + src@.subrange(from as int, to as int),
{
    let mut i: usize = from;
    while i < to
        invariant
            from <= i <= to <= src.len(),
            out@ == old(out)@ + src@.subrange(from as int, i as int),
        decreases to - i,
    {
        out.push(src[i]);
        i = i + 1;
        assert(src@.subrange(from as int, i as int) =~= src@.subrange(from as int, i - 1).push(
            src@[i - 1],
        ));
    }
}

/// The first position at or after `from` that holds `c`, or the length where
/// there is none.
pub open spec fn find_char(s: Seq<char>, c: char, from: int) -> int
    decreases s.len() - from,
{
    if from >= s.len() {
        s.len() as int
    } else if s[from] == c {
        from
    } else {
        find_char(s, c, from + 1)
    }
}

/// The next occurrence of a character is the same from any position before it.
pub proof fn lemma_find_char(s: Seq<char>, c: char, from: int, at: int)
    requires
        0 <= from <= at <= s.len(),
        forall|k: int| from <= k < at ==> s[k] != c,
    ensures
        find_char(s, c, from) == find_char(s, c, at),
        at <= find_char(s, c, at) <= s.len(),
        find_char(s, c, at) < s.len() ==> s[find_char(s, c, at)] == c,
    decreases s.len() - from,
{
    if from < at {
        lemma_find_char(s, c, from + 1, at);
    } else if at < s.len() && s[at] != c {
        lemma_find_char(s, c, at + 1, at + 1);
    }
}

/// A line without the carriage return that stood before its line feed.
pub open spec fn strip_cr(line: Seq<char>) -> Seq<char> {
    if line.len() > 0 && line.last() == '\r' {
        line.drop_last()
    } else {
        line
    }
}

/// The lines of `s` from position `from` on. A line ends at a line feed, or at a
/// carriage return followed by one, or at the end of the text; what ends a line
/// is no part of it, and nothing follows the last line ending.
pub open spec fn lines_from(s: Seq<char>, from: int) -> Seq<Seq<char>>
    decreases s.len() - from,
{
    let end = find_char(s, '\n', from);
    if from < 0 || from >= s.len() || end < from {
        Seq::empty()
    } else if end >= s.len() {
        seq![s.subrange(from, s.len() as int)]
    } else {
        seq![strip_cr(s.subrange(from, end))] + lines_from(s, end + 1)
    }
}

/// The lines of a text.
pub open spec fn text_lines(s: Seq<char>) -> Seq<Seq<char>> {
    lines_from(s, 0)
}

/// A line cut into pieces of `width` characters, the last one of what is left,
/// with a line feed between the pieces. A line of up to `width` characters is
/// left as it is.
pub open spec fn wrapped(line: Seq<char>, width: int) -> Seq<char>
    decreases line.len(),
{
    if width <= 0 || line.len() <= width {
        line
    } else {
        line.take(width) + seq!['\n'] + wrapped(line.skip(width), width)
    }
}

/// Lines put together with a line feed between them.
pub open spec fn joined(lines: Seq<Seq<char>>) -> Seq<char>
    decreases lines.len(),
{
    if lines.len() == 0 {
        Seq::empty()
    } else if lines.len() == 1 {
        lines[0]
    } else {
        joined(lines.drop_last()) + seq!['\n'] + lines.last()
    }
}

/// A text with each of its lines cut to pieces of `width` characters.
pub open spec fn split_text(s: Seq<char>, width: int) -> Seq<char> {
    joined(text_lines(s).map_values(|line: Seq<char>| wrapped(line, width)))
}

/// The lines of a list of character vectors.
pub open spec fn lines_view(lines: Seq<Vec<char>>) -> Seq<Seq<char>> {
    lines.map_values(|line: Vec<char>| line@)
}

/// Splits a text into its lines.
pub fn lines_of(chars: &Vec<char>) -> (lines: Vec<Vec<char>>)
    ensures
        lines_view(lines@) == text_lines(chars@),
{
    let n = chars.len();
    let mut lines: Vec<Vec<char>> = Vec::new();
    let mut start: usize = 0;
    proof {
        assert(lines_view(lines@) =~= Seq::<Seq<char>>::empty());
    }
    while start < n
        invariant
            n == chars.len(),
            0 <= start <= n,
            text_lines(chars@) == lines_view(lines@) + lines_from(chars@, start as int),
        decreases n - start,
    {
        let mut end: usize = start;
        while end < n && chars[end] != '\n'
            invariant
                n == chars.len(),
                start <= end <= n,
                forall|k: int| start <= k < end ==> chars@[k] != '\n',
            decreases n - end,
        {
            end = end + 1;
        }
        proof {
            lemma_find_char(chars@, '\n', start as int, end as int);
            assert(find_char(chars@, '\n', end as int) == end);
        }
        let mut stop: usize = end;
        if end < n && end > start && chars[end - 1] == '\r' {
            stop = end - 1;
        }
        let mut line: Vec<char> = Vec::new();
        append_range(&mut line, chars, start, stop);
        let ghost before = lines_view(lines@);
        lines.push(line);
        proof {
            let whole = chars@.subrange(start as int, end as int);
            assert(line@ =~= chars@.subrange(start as int, stop as int));
            if end < n {
                assert(line@ =~= strip_cr(whole));
            } else {
                assert(line@ =~= whole);
                assert(lines_from(chars@, n as int) =~= Seq::<Seq<char>>::empty());
            }
            assert(lines_view(lines@) =~= before.push(line@));
            let next = if end < n { end + 1 } else { n as int };
            assert(lines_from(chars@, start as int) =~= seq![line@] + lines_from(chars@, next));
            assert(before + (seq![line@] + lines_from(chars@, next)) =~= before.push(line@)
                + lines_from(chars@, next));
        }
        start = if end < n {
            end + 1
        } else {
            n
        };
    }
    proof {
        assert(lines_from(chars@, start as int) =~= Seq::<Seq<char>>::empty());
        assert(lines_view(lines@) + Seq::<Seq<char>>::empty() =~= lines_view(lines@));
    }
    lines
}

/// Appends to `out` a line cut into pieces of `width` characters.
pub fn append_wrapped(out: &mut Vec<char>, line: &Vec<char>, width: usize)
    requires
        width > 0 || line@.len() == 0,
    ensures
        final(out)@ == old(out)@ + wrapped(line@, width as int),
{
    let n = line.len();
    let mut pos: usize = 0;
    proof {
        assert(line@.skip(0) =~= line@);
    }
    while n - pos > width
        invariant
            n == line.len(),
            width > 0 || n == 0,
            0 <= pos <= n,
            old(out)@ + wrapped(line@, width as int) == out@ + wrapped(
                line@.skip(pos as int),
                width as int,
            ),
        decreases n - pos,
    {
        let ghost rest = line@.skip(pos as int);
        let ghost before = out@;
        append_range(out, line, pos, pos + width);
        out.push('\n');
        proof {
            assert(rest.take(width as int) =~= line@.subrange(pos as int, pos + width));
            assert(rest.skip(width as int) =~= line@.skip(pos + width));
            assert(out@ =~= before + (rest.take(width as int) + seq!['\n']));
            assert(before + (rest.take(width as int) + seq!['\n'] + wrapped(
                rest.skip(width as int),
                width as int,
            )) =~= out@ + wrapped(rest.skip(width as int), width as int));
        }
        pos = pos + width;
    }
    let ghost before = out@;
    append_range(out, line, pos, n);
    proof {
        assert(line@.skip(pos as int) =~= line@.subrange(pos as int, n as int));
    }
}

/// Whether the lines of a text can be cut to a width: the width is above 0,
/// or there is nothing to cut because every line is empty.
pub open spec fn can_split(s: Seq<char>, width: int) -> bool {
    width > 0 || forall|i: int| 0 <= i < text_lines(s).len() ==> (#[trigger] text_lines(s)[i]).len() == 0
}

/// Cuts each line of a text into pieces of `width` characters.
pub fn split_chars(chars: &Vec<char>, width: usize) -> (short: Vec<char>)
    requires
        can_split(chars@, width as int),
    ensures
        short@ == split_text(chars@, width as int),
{
    let lines = lines_of(chars);
    let mut out: Vec<char> = Vec::new();
    let mut i: usize = 0;
    let ghost cut = text_lines(chars@).map_values(|line: Seq<char>| wrapped(line, width as int));
    while i < lines.len()
        invariant
            0 <= i <= lines.len(),
            can_split(chars@, width as int),
            lines_view(lines@) == text_lines(chars@),
            cut == text_lines(chars@).map_values(|line: Seq<char>| wrapped(line, width as int)),
            out@ == joined(cut.take(i as int)),
        decreases lines.len() - i,
    {
        if i > 0 {
            out.push('\n');
        }
        proof {
            assert(text_lines(chars@)[i as int] == lines@[i as int]@);
        }
        append_wrapped(&mut out, &lines[i], width);
        proof {
            let upto = cut.take(i + 1);
            assert(upto.drop_last() =~= cut.take(i as int));
            assert(lines_view(lines@)[i as int] == lines@[i as int]@);
            assert(upto.last() == wrapped(lines@[i as int]@, width as int));
            if i == 0 {
                assert(out@ =~= upto[0]);
            }
        }
        i = i + 1;
    }
    proof {
        assert(lines_view(lines@).len() == lines@.len());
        assert(cut.take(i as int) =~= cut);
    }
    out
}

/// Cuts each line of a text into pieces of `max_width` characters, so that no
/// line of the result is longer. A width of 0 cuts nothing: it is for texts
/// whose lines are all empty.
pub fn split_discription(disc: &str, max_width: usize) -> (short: String)
    requires
        can_split(disc@, max_width as int),
    ensures
        short@ == split_text(disc@, max_width as int),
        lines_within(short@, max_width as int),
{
    proof {
        lemma_split_text_within(disc@, max_width as int);
    }
    let chars = chars_of(disc);
    let short = split_chars(&chars, max_width);
    text_of(&short)
}

/// A text without the white space that it begins with.
pub open spec fn trim_start(s: Seq<char>) -> Seq<char>
    decreases s.len(),
{
    if s.len() > 0 && is_whitespace(s[0]) {
        trim_start(s.drop_first())
    } else {
        s
    }
}

/// A text without the white space that it ends with.
pub open spec fn trim_end(s: Seq<char>) -> Seq<char>
    decreases s.len(),
{
    if s.len() > 0 && is_whitespace(s.last()) {
        trim_end(s.drop_last())
    } else {
        s
    }
}

/// A text without the white space around it.
pub open spec fn trimmed(s: Seq<char>) -> Seq<char> {
    trim_end(trim_start(s))
}

/// A text without the occurrences of one character.
pub open spec fn without(s: Seq<char>, c: char) -> Seq<char> {
    s.filter(|x: char| x != c)
}

/// Whether `needle` stands somewhere in `hay`.
pub open spec fn is_infix(needle: Seq<char>, hay: Seq<char>) -> bool {
    exists|i: int| is_infix_at(needle, hay, i)
}

/// Whether `needle` stands in `hay` at position `i`.
pub open spec fn is_infix_at(needle: Seq<char>, hay: Seq<char>, i: int) -> bool {
    0 <= i && i + needle.len() <= hay.len() && hay.subrange(i, i + needle.len()) == needle
}

/// Removes the white space around a text.
pub fn trim(chars: &Vec<char>) -> (r: Vec<char>)
    ensures
        r@ == trimmed(chars@),
{
    let n = chars.len();
    let mut a: usize = 0;
    proof {
        assert(chars@.skip(0) =~= chars@);
    }
    while a < n && char_is_whitespace(chars[a])
        invariant
            n == chars.len(),
            0 <= a <= n,
            trim_start(chars@) == trim_start(chars@.skip(a as int)),
        decreases n - a,
    {
        proof {
            assert(chars@.skip(a as int).drop_first() =~= chars@.skip(a + 1));
        }
        a = a + 1;
    }
    assert(trim_start(chars@) == chars@.skip(a as int));
    let mut b: usize = n;
    proof {
        assert(chars@.skip(a as int) =~= chars@.subrange(a as int, n as int));
    }
    while b > a && char_is_whitespace(chars[b - 1])
        invariant
            n == chars.len(),
            0 <= a <= b <= n,
            trimmed(chars@) == trim_end(chars@.subrange(a as int, b as int)),
        decreases b,
    {
        proof {
            assert(chars@.subrange(a as int, b as int).drop_last() =~= chars@.subrange(
                a as int,
                b - 1,
            ));
        }
        b = b - 1;
    }
    let mut r: Vec<char> = Vec::new();
    append_range(&mut r, chars, a, b);
    r
}

/// Removes the occurrences of one character from a text.
pub fn remove_char(chars: &Vec<char>, c: char) -> (r: Vec<char>)
    ensures
        r@ == without(chars@, c),
{
    let mut r: Vec<char> = Vec::new();
    let mut i: usize = 0;
    proof {
        reveal(Seq::filter);
        assert(without(chars@.take(0), c) =~= Seq::<char>::empty());
    }
    while i < chars.len()
        invariant
            0 <= i <= chars.len(),
            r@ == without(chars@.take(i as int), c),
        decreases chars.len() - i,
    {
        proof {
            reveal(Seq::filter);
            assert(chars@.take(i + 1).drop_last() =~= chars@.take(i as int));
        }
        if chars[i] != c {
            r.push(chars[i]);
        }
        i = i + 1;
    }
    proof {
        assert(chars@.take(i as int) =~= chars@);
    }
    r
}

/// Whether `needle` stands in `hay` at position `at`.
fn matches_at(hay: &Vec<char>, needle: &Vec<char>, at: usize) -> (r: bool)
    requires
        at + needle.len() <= hay.len(),
    ensures
        r == is_infix_at(needle@, hay@, at as int),
{
    let mut k: usize = 0;
    while k < needle.len()
        invariant
            0 <= k <= needle.len(),
            at + needle.len() <= hay.len(),
            forall|j: int| 0 <= j < k ==> hay@[at + j] == needle@[j],
        decreases needle.len() - k,
    {
        if hay[at + k] != needle[k] {
            proof {
                let window = hay@.subrange(at as int, at + needle.len());
                assert(window[k as int] != needle@[k as int]);
            }
            return false;
        }
        k = k + 1;
    }
    proof {
        assert(hay@.subrange(at as int, at + needle.len()) =~= needle@);
    }
    true
}

/// Whether `needle` stands somewhere in `hay`.
pub fn contains_chars(hay: &Vec<char>, needle: &Vec<char>) -> (r: bool)
    ensures
        r == is_infix(needle@, hay@),
{
    if needle.len() > hay.len() {
        return false;
    }
    let last: usize = hay.len() - needle.len();
    let mut i: usize = 0;
    while i <= last
        invariant
            0 <= i <= last + 1,
            last == hay.len() - needle.len(),
            hay.len() <= usize::MAX,
            forall|j: int| 0 <= j < i ==> !is_infix_at(needle@, hay@, j),
        decreases last + 1 - i,
    {
        if i == last {
            return matches_at(hay, needle, i);
        }
        if matches_at(hay, needle, i) {
            return true;
        }
        i = i + 1;
    }
    false
}


/// The pieces of `s` from position `from` on, where `c` parts one piece from
/// the next. What follows the last `c` is a piece, also where it is empty.
pub open spec fn pieces_from(s: Seq<char>, c: char, from: int) -> Seq<Seq<char>>
    decreases s.len() - from,
{
    let end = find_char(s, c, from);
    if from < 0 || from > s.len() || end < from {
        Seq::empty()
    } else if end >= s.len() {
        seq![s.subrange(from, s.len() as int)]
    } else {
        seq![s.subrange(from, end)] + pieces_from(s, c, end + 1)
    }
}

/// The pieces of a text that `c` parts from each other: one more than the
/// text has occurrences of `c`.
pub open spec fn pieces(s: Seq<char>, c: char) -> Seq<Seq<char>> {
    pieces_from(s, c, 0)
}

/// Parts a text at each occurrence of `c`.
pub fn split_at(chars: &Vec<char>, c: char) -> (parts: Vec<Vec<char>>)
    ensures
        lines_view(parts@) == pieces(chars@, c),
        parts@.len() > 0,
{
    let n = chars.len();
    let mut parts: Vec<Vec<char>> = Vec::new();
    let mut start: usize = 0;
    let mut done = false;
    proof {
        assert(lines_view(parts@) =~= Seq::<Seq<char>>::empty());
    }
    while !done
        invariant
            n == chars.len(),
            0 <= start <= n,
            done ==> parts@.len() > 0,
            !done ==> pieces(chars@, c) == lines_view(parts@) + pieces_from(chars@, c, start as int),
            done ==> pieces(chars@, c) == lines_view(parts@),
        decreases n - start + (if done { 0int } else { 1int }),
    {
        let mut end: usize = start;
        while end < n && chars[end] != c
            invariant
                n == chars.len(),
                start <= end <= n,
                forall|k: int| start <= k < end ==> chars@[k] != c,
            decreases n - end,
        {
            end = end + 1;
        }
        proof {
            lemma_find_char(chars@, c, start as int, end as int);
            assert(find_char(chars@, c, end as int) == end);
        }
        let mut part: Vec<char> = Vec::new();
        append_range(&mut part, chars, start, end);
        let ghost before = lines_view(parts@);
        parts.push(part);
        proof {
            assert(part@ =~= chars@.subrange(start as int, end as int));
            assert(lines_view(parts@) =~= before.push(part@));
            if end < n {
                assert(before + (seq![part@] + pieces_from(chars@, c, end + 1)) =~= before.push(
                    part@,
                ) + pieces_from(chars@, c, end + 1));
            } else {
                assert(before + seq![part@] =~= before.push(part@));
            }
        }
        if end < n {
            start = end + 1;
        } else {
            done = true;
        }
    }
    parts
}

/// Whether a character is a decimal digit.
pub open spec fn is_digit(c: char) -> bool {
    48 <= c as u32 <= 57
}

/// Whether a text is made of decimal digits.
pub open spec fn all_digits(s: Seq<char>) -> bool {
    forall|i: int| 0 <= i < s.len() ==> is_digit(#[trigger] s[i])
}

/// The number that the decimal digits of a text write.
pub open spec fn digits_value(s: Seq<char>) -> int
    decreases s.len(),
{
    if s.len() == 0 {
        0
    } else {
        digits_value(s.drop_last()) * 10 + (s.last() as u32 - 48)
    }
}

/// A text without the plus sign that it may begin with.
pub open spec fn unsigned_part(s: Seq<char>) -> Seq<char> {
    if s.len() > 0 && s[0] == '+' {
        s.drop_first()
    } else {
        s
    }
}

/// The number that a text writes, as `usize`: decimal digits, at least one,
/// after an optional plus sign, with a value that `usize` can hold.
pub open spec fn parsed_usize(s: Seq<char>) -> Option<usize> {
    let digits = unsigned_part(s);
    if digits.len() > 0 && all_digits(digits) && digits_value(digits) <= usize::MAX {
        Some(digits_value(digits) as usize)
    } else {
        None
    }
}

/// The first digits of a number write no more than all of them.
pub proof fn lemma_digits_monotone(s: Seq<char>, k: int)
    requires
        all_digits(s),
        0 <= k <= s.len(),
    ensures
        0 <= digits_value(s.take(k)) <= digits_value(s),
    decreases s.len(),
{
    if s.len() == 0 {
        assert(s.take(k) =~= s);
    } else if k == s.len() {
        assert(s.take(k) =~= s);
        lemma_digits_monotone(s.drop_last(), k - 1);
        assert(s.drop_last().take(k - 1) =~= s.drop_last());
    } else {
        lemma_digits_monotone(s.drop_last(), k);
        assert(s.drop_last().take(k) =~= s.take(k));
        assert(is_digit(s.last()));
    }
}

/// What one more digit adds to a number.
pub proof fn lemma_digits_step(s: Seq<char>, k: int)
    requires
        0 <= k < s.len(),
    ensures
        digits_value(s.take(k + 1)) == digits_value(s.take(k)) * 10 + (s[k] as u32 - 48),
{
    assert(s.take(k + 1).drop_last() =~= s.take(k));
    assert(s.take(k + 1).last() == s[k]);
}

/// A number whose first digits overflow is too large as a whole.
pub proof fn lemma_digits_overflow(s: Seq<char>, k: int)
    requires
        0 <= k <= s.len(),
        digits_value(s.take(k)) > usize::MAX,
    ensures
        !(all_digits(s) && digits_value(s) <= usize::MAX),
{
    if all_digits(s) {
        lemma_digits_monotone(s, k);
    }
}

/// Reads a number from a text.
pub fn parse_usize(chars: &Vec<char>) -> (r: Option<usize>)
    ensures
        r == parsed_usize(chars@),
{
    let n = chars.len();
    let first: usize = if n > 0 && chars[0] == '+' {
        1
    } else {
        0
    };
    let ghost digits = unsigned_part(chars@);
    proof {
        assert(digits =~= chars@.skip(first as int));
    }
    if first == n {
        return None;
    }
    let mut value: usize = 0;
    let mut i: usize = first;
    proof {
        assert(digits.take(0) =~= Seq::<char>::empty());
    }
    while i < n
        invariant
            n == chars.len(),
            first <= i <= n,
            digits.len() == n - first,
            digits == unsigned_part(chars@),
            forall|k: int| 0 <= k < n - first ==> digits[k] == chars@[k + first],
            forall|k: int| 0 <= k < i - first ==> is_digit(#[trigger] digits[k]),
            value == digits_value(digits.take(i - first)),
        decreases n - i,
    {
        let c = chars[i];
        let code: u32 = c as u32;
        proof {
            lemma_digits_step(digits, i - first);
            assert(digits[i - first] == c);
        }
        if code < 48 || code > 57 {
            proof {
                assert(!is_digit(digits[i - first]));
            }
            assert(parsed_usize(chars@) is None);
            return None;
        }
        let d: usize = (code - 48) as usize;
        let next = match value.checked_mul(10) {
            Some(tens) => tens.checked_add(d),
            None => None,
        };
        match next {
            Some(v) => {
                value = v;
            },
            None => {
                proof {
                    lemma_digits_overflow(digits, i - first + 1);
                }
                assert(parsed_usize(chars@) is None);
                return None;
            },
        }
        i = i + 1;
    }
    proof {
        assert(digits.take(n - first) =~= digits);
    }
    Some(value)
}


/// Whether no line of a text is longer than `width`: among any `width + 1`
/// characters in a row there is a line feed.
pub open spec fn lines_within(s: Seq<char>, width: int) -> bool {
    forall|i: int| 0 <= i && i + width < s.len() ==> #[trigger] feed_within(s, i, width)
}

/// Whether one of the `width + 1` characters of `s` from position `i` on is a
/// line feed.
pub open spec fn feed_within(s: Seq<char>, i: int, width: int) -> bool {
    exists|k: int| i <= k <= i + width && #[trigger] s[k] == '\n'
}

/// Two texts without long lines, put together with a line feed between them,
/// make a text without long lines.
pub proof fn lemma_lines_within_join(a: Seq<char>, b: Seq<char>, width: int)
    requires
        width >= 0,
        lines_within(a, width),
        lines_within(b, width),
    ensures
        lines_within(a + seq!['\n'] + b, width),
{
    let whole = a + seq!['\n'] + b;
    assert forall|i: int| 0 <= i && i + width < whole.len() implies #[trigger] feed_within(
        whole,
        i,
        width,
    ) by {
        if i + width < a.len() {
            assert(feed_within(a, i, width));
            let k = choose|k: int| i <= k <= i + width && #[trigger] a[k] == '\n';
            assert(whole[k] == '\n');
        } else if i <= a.len() {
            assert(whole[a.len() as int] == '\n');
        } else {
            let j = i - a.len() - 1;
            assert(feed_within(b, j, width));
            let k = choose|k: int| j <= k <= j + width && #[trigger] b[k] == '\n';
            assert(whole[k + a.len() + 1] == '\n');
        }
    }
}

/// A line that was cut into pieces has no line longer than a piece.
pub proof fn lemma_wrapped_within(line: Seq<char>, width: int)
    requires
        width > 0,
    ensures
        lines_within(wrapped(line, width), width),
    decreases line.len(),
{
    if line.len() > width {
        lemma_wrapped_within(line.skip(width), width);
        lemma_lines_within_join(line.take(width), wrapped(line.skip(width), width), width);
    }
}

/// Lines without long lines, put together, make a text without long lines.
pub proof fn lemma_joined_within(lines: Seq<Seq<char>>, width: int)
    requires
        width >= 0,
        forall|i: int| 0 <= i < lines.len() ==> lines_within(#[trigger] lines[i], width),
    ensures
        lines_within(joined(lines), width),
    decreases lines.len(),
{
    if lines.len() > 1 {
        lemma_joined_within(lines.drop_last(), width);
        lemma_lines_within_join(joined(lines.drop_last()), lines.last(), width);
    }
}

/// Cutting the lines of a text leaves no line longer than the width.
pub proof fn lemma_split_text_within(s: Seq<char>, width: int)
    requires
        width >= 0,
        can_split(s, width),
    ensures
        lines_within(split_text(s, width), width),
{
    let cut = text_lines(s).map_values(|line: Seq<char>| wrapped(line, width));
    assert forall|i: int| 0 <= i < cut.len() implies lines_within(#[trigger] cut[i], width) by {
        if width > 0 {
            lemma_wrapped_within(text_lines(s)[i], width);
        } else {
            assert(text_lines(s)[i].len() == 0);
        }
    }
    lemma_joined_within(cut, width);
}

} // verus!
