//! Text helpers shared by every module: decimal numerals, whitespace, joining, cutting.
//!
//! Strings are modelled by their characters. Every function here says exactly which
//! characters come out.

use vstd::prelude::*;
use vstd::string::*;

verus! {

/// `String::push` appends one character to the end of the string.
pub assume_specification[ String::push ](s: &mut String, c: char)
    ensures
        final(s)@ == old(s)@.push(c),
;

/// The characters with the Unicode `White_Space` property.
pub open spec fn is_space(c: char) -> bool {
    ||| 0x09 <= c as u32 <= 0x0d
    ||| c as u32 == 0x20
    ||| c as u32 == 0x85
    ||| c as u32 == 0xa0
    ||| c as u32 == 0x1680
    ||| 0x2000 <= c as u32 <= 0x200a
    ||| c as u32 == 0x2028
    ||| c as u32 == 0x2029
    ||| c as u32 == 0x202f
    ||| c as u32 == 0x205f
    ||| c as u32 == 0x3000
}

/// True when `c` is whitespace.
pub fn is_whitespace(c: char) -> (r: bool)
    ensures
        r == is_space(c),
{
    let n: u32 = c as u32;
    (0x09 <= n && n <= 0x0d) || n == 0x20 || n == 0x85 || n == 0xa0 || n == 0x1680 || (0x2000 <= n
        && n <= 0x200a) || n == 0x2028 || n == 0x2029 || n == 0x202f || n == 0x205f || n == 0x3000
}

/// Nothing but whitespace.
pub open spec fn blank(s: Seq<char>) -> bool {
    forall|i: int| 0 <= i < s.len() ==> is_space(#[trigger] s[i])
}

/// The characters of `s`, as a vector.
pub fn chars_of(s: &str) -> (r: Vec<char>)
    ensures
        r@ == s@,
{
    let mut out: Vec<char> = Vec::new();
    for c in it: s.chars()
        invariant
            it.seq() == s@,
            out@ == s@.take(it.index() as int),
    {
        out.push(c);
    }
    out
}

/// The text made of `chars[from..to]`.
pub fn text_of(chars: &Vec<char>, from: usize, to: usize) -> (r: String)
    requires
        from <= to <= chars@.len(),
    ensures
        r@ == chars@.subrange(from as int, to as int),
{
    let mut out: String = String::new();
    let mut i: usize = from;
    while i < to
        invariant
            from <= i <= to <= chars@.len(),
            out@ == chars@.subrange(from as int, i as int),
        decreases to - i,
    {
        out.push(chars[i]);
        i += 1;
    }
    out
}

/// True when the text holds nothing but whitespace.
pub fn is_blank(s: &str) -> (r: bool)
    ensures
        r == blank(s@),
{
    let chars: Vec<char> = chars_of(s);
    let mut i: usize = 0;
    while i < chars.len()
        invariant
            i <= chars@.len(),
            chars@ == s@,
            forall|j: int| 0 <= j < i ==> is_space(#[trigger] chars@[j]),
        decreases chars@.len() - i,
    {
        if !is_whitespace(chars[i]) {
            return false;
        }
        i += 1;
    }
    true
}

/// `s` without its leading whitespace.
pub open spec fn trimmed_start(s: Seq<char>) -> Seq<char>
    decreases s.len(),
{
    if s.len() > 0 && is_space(s[0]) {
        trimmed_start(s.subrange(1, s.len() as int))
    } else {
        s
    }
}

/// `s` without its trailing whitespace.
pub open spec fn trimmed_end(s: Seq<char>) -> Seq<char>
    decreases s.len(),
{
    if s.len() > 0 && is_space(s.last()) {
        trimmed_end(s.drop_last())
    } else {
        s
    }
}

/// `s` without the whitespace around it.
pub open spec fn trimmed(s: Seq<char>) -> Seq<char> {
    trimmed_end(trimmed_start(s))
}

/// The end of `chars[from..to]` once its trailing whitespace is dropped.
pub fn trim_end_at(chars: &Vec<char>, from: usize, to: usize) -> (r: usize)
    requires
        from <= to <= chars@.len(),
    ensures
        from <= r <= to,
        trimmed_end(chars@.subrange(from as int, to as int)) == chars@.subrange(
            from as int,
            r as int,
        ),
{
    let mut end: usize = to;
    while end > from && is_whitespace(chars[end - 1])
        invariant
            from <= end <= to <= chars@.len(),
            trimmed_end(chars@.subrange(from as int, to as int)) == trimmed_end(
                chars@.subrange(from as int, end as int),
            ),
        decreases end,
    {
        assert(chars@.subrange(from as int, end as int).drop_last() == chars@.subrange(
            from as int,
            end - 1,
        ));
        assert(chars@.subrange(from as int, end as int).last() == chars@[end - 1]);
        end -= 1;
    }
    assert(end > from ==> chars@.subrange(from as int, end as int).last() == chars@[end - 1]);
    end
}

/// The start of `chars[from..to]` once its leading whitespace is dropped.
pub fn trim_start_at(chars: &Vec<char>, from: usize, to: usize) -> (r: usize)
    requires
        from <= to <= chars@.len(),
    ensures
        from <= r <= to,
        trimmed_start(chars@.subrange(from as int, to as int)) == chars@.subrange(
            r as int,
            to as int,
        ),
{
    let mut start: usize = from;
    while start < to && is_whitespace(chars[start])
        invariant
            from <= start <= to <= chars@.len(),
            trimmed_start(chars@.subrange(from as int, to as int)) == trimmed_start(
                chars@.subrange(start as int, to as int),
            ),
        decreases to - start,
    {
        let ghost rest = chars@.subrange(start as int, to as int);
        assert(rest.subrange(1, rest.len() as int) == chars@.subrange(start + 1, to as int));
        assert(rest[0] == chars@[start as int]);
        start += 1;
    }
    assert(start < to ==> chars@.subrange(start as int, to as int)[0] == chars@[start as int]);
    start
}

/// A text is blank exactly when trimming leaves nothing.
pub proof fn blank_iff_trimmed_empty(s: Seq<char>)
    ensures
        blank(s) <==> trimmed(s).len() == 0,
{
    trimmed_start_keeps_non_space(s);
    let t = trimmed_start(s);
    trimmed_end_keeps_non_space(t);
}

proof fn trimmed_start_keeps_non_space(s: Seq<char>)
    ensures
        blank(s) <==> trimmed_start(s).len() == 0,
        trimmed_start(s).len() > 0 ==> !is_space(trimmed_start(s)[0]),
    decreases s.len(),
{
    if s.len() > 0 && is_space(s[0]) {
        let rest = s.subrange(1, s.len() as int);
        trimmed_start_keeps_non_space(rest);
        assert(blank(s) <==> blank(rest)) by {
            if blank(s) {
                assert forall|i: int| 0 <= i < rest.len() implies is_space(#[trigger] rest[i]) by {
                    assert(rest[i] == s[i + 1]);
                }
            }
            if blank(rest) {
                assert forall|i: int| 0 <= i < s.len() implies is_space(#[trigger] s[i]) by {
                    if i > 0 {
                        assert(s[i] == rest[i - 1]);
                    }
                }
            }
        }
    } else if s.len() > 0 {
        assert(!is_space(s[0]));
    }
}

proof fn trimmed_end_keeps_non_space(s: Seq<char>)
    requires
        s.len() > 0 ==> !is_space(s[0]),
    ensures
        s.len() > 0 <==> trimmed_end(s).len() > 0,
    decreases s.len(),
{
    if s.len() > 0 && is_space(s.last()) {
        assert(s.len() > 1);
        assert(s.drop_last()[0] == s[0]);
        trimmed_end_keeps_non_space(s.drop_last());
    }
}

/// The decimal digit `d`.
pub open spec fn digit(d: nat) -> char {
    (48 + d) as char
}

/// The decimal numeral of `n`: no sign, no leading zero.
pub open spec fn decimal(n: nat) -> Seq<char>
    decreases n,
{
    if n < 10 {
        seq![digit(n)]
    } else {
        decimal(n / 10).push(digit(n % 10))
    }
}

/// Append the decimal numeral of `n`.
pub fn push_decimal(out: &mut String, n: u64)
    ensures
        final(out)@ == old(out)@ + decimal(n as nat),
    decreases n,
{
    if n < 10 {
        out.push((48u8 + n as u8) as char);
        assert(out@ =~= old(out)@ + decimal(n as nat));
    } else {
        push_decimal(out, n / 10);
        out.push((48u8 + (n % 10) as u8) as char);
        assert(out@ =~= old(out)@ + decimal(n as nat));
    }
}

/// The decimal numeral of `n`.
pub fn decimal_text(n: u64) -> (r: String)
    ensures
        r@ == decimal(n as nat),
{
    let mut out: String = String::new();
    push_decimal(&mut out, n);
    assert(out@ =~= decimal(n as nat));
    out
}

/// What a numeral stands for, digit by digit.
pub open spec fn decimal_value(s: Seq<char>) -> int
    decreases s.len(),
{
    if s.len() == 0 {
        0
    } else {
        decimal_value(s.drop_last()) * 10 + (s.last() as u32 - 48)
    }
}

/// A numeral is never empty, and reading it back gives the number.
pub proof fn decimal_reads_back(n: nat)
    ensures
        decimal(n).len() > 0,
        decimal_value(decimal(n)) == n,
        forall|i: int| 0 <= i < decimal(n).len() ==> 48 <= #[trigger] decimal(n)[i] as u32 <= 57,
    decreases n,
{
    reveal_with_fuel(decimal_value, 2);
    if n < 10 {
        assert(decimal(n).drop_last() =~= Seq::<char>::empty());
        assert(decimal(n).last() as u32 == 48 + n);
    } else {
        decimal_reads_back(n / 10);
        assert(decimal(n).drop_last() =~= decimal(n / 10));
        assert(decimal(n).last() as u32 == 48 + n % 10);
    }
}

/// Two numbers with the same numeral are the same number.
pub proof fn decimal_injective(a: nat, b: nat)
    requires
        decimal(a) == decimal(b),
    ensures
        a == b,
{
    decimal_reads_back(a);
    decimal_reads_back(b);
}

/// `parts` one after another with `sep` between neighbours.
pub open spec fn joined(parts: Seq<Seq<char>>, sep: Seq<char>) -> Seq<char>
    decreases parts.len(),
{
    if parts.len() == 0 {
        Seq::empty()
    } else if parts.len() == 1 {
        parts[0]
    } else {
        joined(parts.drop_last(), sep) + sep + parts.last()
    }
}

/// The characters of each text.
pub open spec fn texts(parts: Seq<String>) -> Seq<Seq<char>> {
    parts.map_values(|s: String| s@)
}

/// The characters of an optional text.
pub open spec fn opt_text(s: Option<String>) -> Option<Seq<char>> {
    match s {
        Some(t) => Some(t@),
        None => None,
    }
}

/// The characters of an optional borrowed text.
pub open spec fn opt_str(s: Option<&str>) -> Option<Seq<char>> {
    match s {
        Some(t) => Some(t@),
        None => None,
    }
}

/// A copy of an optional text.
pub fn clone_opt_text(s: &Option<String>) -> (r: Option<String>)
    ensures
        opt_text(r) == opt_text(*s),
{
    match s {
        Some(t) => Some(t.clone()),
        None => None,
    }
}

/// A copy of a list of texts.
pub fn clone_texts(parts: &Vec<String>) -> (r: Vec<String>)
    ensures
        texts(r@) == texts(parts@),
{
    let mut out: Vec<String> = Vec::new();
    let mut i: usize = 0;
    while i < parts.len()
        invariant
            i <= parts@.len(),
            texts(out@) == texts(parts@.take(i as int)),
        decreases parts@.len() - i,
    {
        let ghost before = out@;
        out.push(parts[i].clone());
        assert(texts(out@) =~= texts(before).push(parts@[i as int]@));
        assert(texts(parts@.take(i + 1)) =~= texts(parts@.take(i as int)).push(parts@[i as int]@));
        i += 1;
    }
    assert(parts@.take(parts@.len() as int) =~= parts@);
    out
}

/// Append one text to a list of texts.
pub fn push_text(parts: &mut Vec<String>, part: String)
    ensures
        texts(final(parts)@) == texts(old(parts)@).push(part@),
{
    let ghost before = parts@;
    parts.push(part);
    assert(texts(parts@) =~= texts(before).push(part@));
}

/// The numerals of a list of pages.
pub open spec fn numerals(pages: Seq<u32>) -> Seq<Seq<char>> {
    pages.map_values(|p: u32| decimal(p as nat))
}

/// The numerals of a list of pages.
pub fn numeral_texts(pages: &[u32]) -> (r: Vec<String>)
    ensures
        texts(r@) == numerals(pages@),
{
    let mut parts: Vec<String> = Vec::new();
    let mut i: usize = 0;
    assert(texts(parts@) =~= numerals(pages@.take(0)));
    while i < pages.len()
        invariant
            i <= pages@.len(),
            texts(parts@) == numerals(pages@.take(i as int)),
        decreases pages@.len() - i,
    {
        push_text(&mut parts, decimal_text(pages[i] as u64));
        assert(numerals(pages@.take(i + 1)) =~= numerals(pages@.take(i as int)).push(
            decimal(pages@[i as int] as nat),
        ));
        i += 1;
    }
    assert(pages@.take(pages@.len() as int) =~= pages@);
    parts
}

/// A list of pages in brackets, as in `[0, 2]`.
pub open spec fn bracketed(pages: Seq<u32>) -> Seq<char> {
    "["@ + joined(numerals(pages), ", "@) + "]"@
}

/// A list of pages in brackets, as in `[0, 2]`.
pub fn bracket_pages(pages: &[u32]) -> (r: String)
    ensures
        r@ == bracketed(pages@),
{
    let mut text: String = "[".to_owned();
    text.append(join(&numeral_texts(pages), ", ").as_str());
    text.append("]");
    text
}

/// Join texts with a separator.
pub fn join(parts: &Vec<String>, sep: &str) -> (r: String)
    ensures
        r@ == joined(texts(parts@), sep@),
{
    let mut out: String = String::new();
    let mut i: usize = 0;
    while i < parts.len()
        invariant
            i <= parts@.len(),
            out@ == joined(texts(parts@.take(i as int)), sep@),
        decreases parts@.len() - i,
    {
        let ghost before = texts(parts@.take(i as int));
        let ghost after = texts(parts@.take(i + 1));
        assert(after.drop_last() =~= before);
        assert(after.last() == parts@[i as int]@);
        if i > 0 {
            out.append(sep);
        }
        out.append(parts[i].as_str());
        assert(out@ =~= joined(after, sep@));
        i += 1;
    }
    assert(parts@.take(parts@.len() as int) =~= parts@);
    out
}

/// True when the two texts hold the same characters.
pub fn same_text(a: &str, b: &str) -> (r: bool)
    ensures
        r == (a@ == b@),
{
    a.to_owned() == b.to_owned()
}

/// `text` cut to its first `max` characters, with a mark when anything was cut.
pub open spec fn cut(text: Seq<char>, max: nat) -> Seq<char> {
    if text.len() <= max {
        text
    } else {
        text.take(max as int) + "…"@
    }
}

/// Clip `text` to `max` characters (not bytes), marking the cut.
pub fn truncate(text: &str, max: usize) -> (r: String)
    ensures
        r@ == cut(text@, max as nat),
{
    let chars: Vec<char> = chars_of(text);
    if chars.len() <= max {
        return text.to_owned();
    }
    let mut head: String = text_of(&chars, 0, max);
    head.append("…");
    head
}

/// How a text prints inside quotes with everything unprintable escaped.
pub uninterp spec fn quoted(text: Seq<char>) -> Seq<char>;

/// The `Debug` form of a `str`: quoted, with everything unprintable escaped.
///
/// Claimed of it: a text always prints the same way.
#[verifier::external_body]
pub(crate) fn quote(text: &str) -> (r: String)
    ensures
        r@ == quoted(text@),
{
    format!("{:?}", text)
}

/// Where the first line feed is; the length when there is none.
pub open spec fn line_end(s: Seq<char>) -> int
    decreases s.len(),
{
    if s.len() == 0 || s[0] == '\n' {
        0
    } else {
        1 + line_end(s.subrange(1, s.len() as int))
    }
}

proof fn line_end_is(s: Seq<char>, at: int)
    requires
        0 <= at <= s.len(),
        forall|i: int| 0 <= i < at ==> #[trigger] s[i] != '\n',
        at < s.len() ==> s[at] == '\n',
    ensures
        line_end(s) == at,
    decreases s.len(),
{
    if at > 0 {
        let rest = s.subrange(1, s.len() as int);
        assert(s[0] != '\n');
        assert forall|i: int| 0 <= i < at - 1 implies #[trigger] rest[i] != '\n' by {
            assert(rest[i] == s[i + 1]);
        }
        if at < s.len() {
            assert(rest[at - 1] == s[at]);
        }
        line_end_is(rest, at - 1);
    }
}

/// A line without the carriage return before its line feed.
pub open spec fn without_return(s: Seq<char>) -> Seq<char> {
    if s.len() > 0 && s.last() == '\r' {
        s.drop_last()
    } else {
        s
    }
}

/// The lines of a text: ended by a line feed, with a carriage return before it dropped; the
/// last line needs no end.
pub open spec fn lines(s: Seq<char>) -> Seq<Seq<char>>
    decreases s.len(),
{
    if s.len() == 0 {
        Seq::empty()
    } else if !(0 <= line_end(s) < s.len()) {
        seq![s]
    } else {
        seq![without_return(s.take(line_end(s)))] + lines(
            s.subrange(line_end(s) + 1, s.len() as int),
        )
    }
}

/// The lines of a text.
pub fn split_lines(s: &str) -> (r: Vec<String>)
    ensures
        texts(r@) == lines(s@),
{
    let chars: Vec<char> = chars_of(s);
    let mut out: Vec<String> = Vec::new();
    let mut start: usize = 0;
    assert(chars@.subrange(0, chars@.len() as int) =~= s@);
    assert(texts(out@) + lines(s@) =~= lines(s@));
    while start < chars.len()
        invariant
            start <= chars@.len(),
            texts(out@) + lines(chars@.subrange(start as int, chars@.len() as int)) == lines(s@),
        decreases chars@.len() - start,
    {
        let ghost rest = chars@.subrange(start as int, chars@.len() as int);
        let ghost before = texts(out@);
        let mut end: usize = start;
        while end < chars.len() && chars[end] != '\n'
            invariant
                start <= end <= chars@.len(),
                rest == chars@.subrange(start as int, chars@.len() as int),
                forall|i: int| 0 <= i < end - start ==> #[trigger] rest[i] != '\n',
            decreases chars@.len() - end,
        {
            assert(rest[end - start] == chars@[end as int]);
            end += 1;
        }
        proof {
            if end < chars@.len() {
                assert(rest[end - start] == chars@[end as int]);
            }
            line_end_is(rest, end - start);
        }
        if end == chars.len() {
            let line: String = text_of(&chars, start, end);
            out.push(line);
            proof {
                assert(texts(out@) =~= before.push(rest));
                assert(lines(rest) =~= seq![rest]);
                assert(lines(chars@.subrange(end as int, chars@.len() as int)) =~= Seq::empty());
                assert(texts(out@) + lines(chars@.subrange(end as int, chars@.len() as int))
                    =~= before + lines(rest));
            }
            start = end;
        } else {
            let stop: usize = if end > start && chars[end - 1] == '\r' {
                end - 1
            } else {
                end
            };
            let line: String = text_of(&chars, start, stop);
            out.push(line);
            proof {
                let whole = rest.take(end - start);
                if end > start {
                    assert(whole.last() == chars@[end - 1]);
                }
                assert(without_return(whole) =~= chars@.subrange(start as int, stop as int));
                assert(texts(out@) =~= before.push(without_return(whole)));
                assert(rest.subrange(end - start + 1, rest.len() as int) =~= chars@.subrange(
                    end + 1,
                    chars@.len() as int,
                ));
                assert(texts(out@) + lines(chars@.subrange(end + 1, chars@.len() as int))
                    =~= before + lines(rest));
            }
            start = end + 1;
        }
    }
    assert(lines(chars@.subrange(start as int, chars@.len() as int)) =~= Seq::empty());
    assert(texts(out@) =~= lines(s@));
    out
}

/// Append the decimal numeral of a wide `n`.
pub fn push_wide_decimal(out: &mut String, n: u128)
    ensures
        final(out)@ == old(out)@ + decimal(n as nat),
    decreases n,
{
    if n < 10 {
        out.push((48u8 + n as u8) as char);
        assert(out@ =~= old(out)@ + decimal(n as nat));
    } else {
        push_wide_decimal(out, n / 10);
        out.push((48u8 + (n % 10) as u8) as char);
        assert(out@ =~= old(out)@ + decimal(n as nat));
    }
}

/// `n` spaces.
pub open spec fn spaces(n: nat) -> Seq<char> {
    Seq::new(n, |i: int| ' ')
}

/// A text filled up with spaces behind it to at least `width` characters.
pub open spec fn left_aligned(s: Seq<char>, width: nat) -> Seq<char> {
    if s.len() < width {
        s + spaces((width - s.len()) as nat)
    } else {
        s
    }
}

/// A text filled up with spaces in front of it to at least `width` characters.
pub open spec fn right_aligned(s: Seq<char>, width: nat) -> Seq<char> {
    if s.len() < width {
        spaces((width - s.len()) as nat) + s
    } else {
        s
    }
}

/// `n` spaces.
pub fn blanks(n: usize) -> (r: String)
    ensures
        r@ == spaces(n as nat),
{
    let mut out: String = String::new();
    let mut i: usize = 0;
    assert(out@ =~= spaces(0));
    while i < n
        invariant
            i <= n,
            out@ == spaces(i as nat),
        decreases n - i,
    {
        out.push(' ');
        assert(spaces(i as nat).push(' ') =~= spaces((i + 1) as nat));
        i += 1;
    }
    out
}

/// A text filled up with spaces behind it to at least `width` characters.
pub fn align_left(s: &str, width: usize) -> (r: String)
    ensures
        r@ == left_aligned(s@, width as nat),
{
    let n: usize = s.unicode_len();
    if n < width {
        s.to_owned().concat(blanks(width - n).as_str())
    } else {
        s.to_owned()
    }
}

/// A text filled up with spaces in front of it to at least `width` characters.
pub fn align_right(s: &str, width: usize) -> (r: String)
    ensures
        r@ == right_aligned(s@, width as nat),
{
    let n: usize = s.unicode_len();
    if n < width {
        blanks(width - n).concat(s)
    } else {
        s.to_owned()
    }
}

/// A text that is cut keeps its first characters, as many as it may, and ends in a mark; one that
/// fits stays as it is.
pub proof fn cutting_keeps_the_beginning(text: Seq<char>, max: nat)
    ensures
        text.len() <= max ==> cut(text, max) == text,
        text.len() > max ==> cut(text, max).len() == max + "…"@.len() && forall|i: int|
            0 <= i < max ==> #[trigger] cut(text, max)[i] == text[i],
        text.len() > max ==> cut(text, max).subrange(max as int, cut(text, max).len() as int)
            == "…"@,
{
    if text.len() > max {
        assert(cut(text, max).subrange(max as int, cut(text, max).len() as int) =~= "…"@);
    }
}

/// Trimming takes nothing but whitespace, from both ends and nowhere else: what is left is a run
/// of the text that neither starts nor ends in whitespace, with nothing but whitespace around it.
///
/// The bounds say where in the text that run stands.
pub proof fn trimming_takes_only_the_ends(s: Seq<char>) -> (r: (int, int))
    ensures
        0 <= r.0 <= r.1 <= s.len(),
        trimmed(s) == s.subrange(r.0, r.1),
        forall|i: int| 0 <= i < r.0 ==> is_space(#[trigger] s[i]),
        forall|i: int| r.1 <= i < s.len() ==> is_space(#[trigger] s[i]),
        r.0 < r.1 ==> !is_space(s[r.0]) && !is_space(s[r.1 - 1]),
{
    let from = trimmed_start_stands(s);
    let t = trimmed_start(s);
    let to = trimmed_end_stands(t);
    assert(t.subrange(0, to) =~= s.subrange(from, from + to));
    assert forall|i: int| from + to <= i < s.len() implies is_space(#[trigger] s[i]) by {
        assert(t[i - from] == s[i]);
    }
    if to > 0 {
        assert(t[0] == s[from]);
        assert(t[to - 1] == s[from + to - 1]);
        trimmed_start_keeps_non_space(s);
    }
    (from, from + to)
}

proof fn trimmed_start_stands(s: Seq<char>) -> (from: int)
    ensures
        0 <= from <= s.len(),
        trimmed_start(s) == s.subrange(from, s.len() as int),
        forall|i: int| 0 <= i < from ==> is_space(#[trigger] s[i]),
    decreases s.len(),
{
    if s.len() > 0 && is_space(s[0]) {
        let rest = s.subrange(1, s.len() as int);
        let from = trimmed_start_stands(rest);
        assert(rest.subrange(from, rest.len() as int) =~= s.subrange(from + 1, s.len() as int));
        assert forall|i: int| 0 <= i < from + 1 implies is_space(#[trigger] s[i]) by {
            if i > 0 {
                assert(rest[i - 1] == s[i]);
            }
        }
        from + 1
    } else {
        assert(s.subrange(0, s.len() as int) =~= s);
        0
    }
}

proof fn trimmed_end_stands(s: Seq<char>) -> (to: int)
    ensures
        0 <= to <= s.len(),
        trimmed_end(s) == s.subrange(0, to),
        forall|i: int| to <= i < s.len() ==> is_space(#[trigger] s[i]),
        to > 0 ==> !is_space(s[to - 1]),
    decreases s.len(),
{
    if s.len() > 0 && is_space(s.last()) {
        let rest = s.drop_last();
        let to = trimmed_end_stands(rest);
        assert(rest.subrange(0, to) =~= s.subrange(0, to));
        assert forall|i: int| to <= i < s.len() implies is_space(#[trigger] s[i]) by {
            if i < rest.len() {
                assert(rest[i] == s[i]);
            }
        }
        to
    } else {
        assert(s.subrange(0, s.len() as int) =~= s);
        s.len() as int
    }
}

/// Joining puts the separator between neighbours and nowhere else: no part is nothing, one part
/// is itself, and one more part goes behind a separator at the end.
pub proof fn joining_puts_the_separator_between(parts: Seq<Seq<char>>, sep: Seq<char>, last: Seq<char>)
    ensures
        joined(Seq::<Seq<char>>::empty(), sep).len() == 0,
        joined(seq![last], sep) == last,
        parts.len() > 0 ==> joined(parts.push(last), sep) == joined(parts, sep) + sep + last,
{
    assert(parts.push(last).drop_last() =~= parts);
}

/// A text is split at its line feeds: what stands before the first is the first line, without a
/// carriage return right before the feed, and the lines of the rest follow. A text without a line
/// feed is one line as it is, and an empty text has none.
pub proof fn lines_end_at_line_feeds(head: Seq<char>, rest: Seq<char>)
    requires
        forall|i: int| 0 <= i < head.len() ==> #[trigger] head[i] != '\n',
    ensures
        lines(head + seq!['\n'] + rest) == seq![
            if head.len() > 0 && head.last() == '\r' {
                head.drop_last()
            } else {
                head
            },
        ] + lines(rest),
        head.len() > 0 ==> lines(head) == seq![head],
        lines(Seq::<char>::empty()).len() == 0,
{
    let all = head + seq!['\n'] + rest;
    let at = head.len() as int;
    assert(all[at] == '\n');
    assert forall|i: int| 0 <= i < at implies #[trigger] all[i] != '\n' by {
        assert(all[i] == head[i]);
    }
    line_end_is(all, at);
    line_end_is(head, at);
    assert(all.take(at) =~= head);
    assert(all.subrange(at + 1, all.len() as int) =~= rest);
}

/// Aligning fills up with spaces and changes nothing else: on the right of a text, or on its left,
/// up to the width and no further. A text that is as long already stays as it is.
pub proof fn aligning_only_adds_spaces(s: Seq<char>, width: nat)
    ensures
        ({
            let left = left_aligned(s, width);
            let right = right_aligned(s, width);
            let length = if s.len() < width {
                width
            } else {
                s.len()
            };
            &&& left.len() == length && right.len() == length
            &&& forall|i: int| 0 <= i < s.len() ==> #[trigger] left[i] == s[i]
            &&& forall|i: int| s.len() <= i < length ==> #[trigger] left[i] == ' '
            &&& forall|i: int| 0 <= i < length - s.len() ==> #[trigger] right[i] == ' '
            &&& forall|i: int|
                length - s.len() <= i < length ==> #[trigger] right[i] == s[i - (length - s.len())]
        }),
{
}

/// Which characters are whitespace: the tab, the line feed and the three controls behind it, the
/// space, and the other blanks and separators of Unicode. A text is blank exactly when it has no
/// other character.
pub proof fn which_characters_are_whitespace(c: char, found: bool, s: &str, empty: bool)
    requires
        call_ensures(is_whitespace, (c,), found),
        call_ensures(is_blank, (s,), empty),
    ensures
        found <==> c == '\t' || c == '\n' || c == '\u{000b}' || c == '\u{000c}' || c == '\r' || c
            == ' ' || c == '\u{0085}' || c == '\u{00a0}' || c == '\u{1680}' || (0x2000 <= c as u32
            <= 0x200a) || c == '\u{2028}' || c == '\u{2029}' || c == '\u{202f}' || c == '\u{205f}'
            || c == '\u{3000}',
        empty <==> forall|i: int| 0 <= i < s@.len() ==> is_space(#[trigger] s@[i]),
{
}

} // verus!
