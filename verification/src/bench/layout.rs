//! Laying out report text: words, widths and wrapping.

use crate::text::{chars_of, is_space, is_whitespace, joined, push_text, text_of, texts};
use vstd::prelude::*;
use vstd::string::*;

verus! {

/// How many bytes a character takes in UTF-8.
pub open spec fn char_bytes(c: char) -> nat {
    if (c as u32) < 0x80 {
        1
    } else if (c as u32) < 0x800 {
        2
    } else if (c as u32) < 0x1_0000 {
        3
    } else {
        4
    }
}

/// How many bytes a text takes in UTF-8.
pub open spec fn byte_count(s: Seq<char>) -> nat
    decreases s.len(),
{
    if s.len() == 0 {
        0
    } else {
        byte_count(s.drop_last()) + char_bytes(s.last())
    }
}

/// How many bytes a text takes in UTF-8.
pub fn byte_len(s: &str) -> (r: u128)
    ensures
        r == byte_count(s@),
        r <= 4 * usize::MAX,
{
    let chars: Vec<char> = chars_of(s);
    let n: usize = chars.len();
    let mut total: u128 = 0;
    let mut i: usize = 0;
    assert(chars@.take(0) =~= Seq::empty());
    while i < n
        invariant
            i <= n == chars@.len(),
            total == byte_count(chars@.take(i as int)),
            total <= 4 * i,
        decreases n - i,
    {
        let code: u32 = chars[i] as u32;
        assert(chars@.take(i + 1).drop_last() =~= chars@.take(i as int));
        let size: u128 = if code < 0x80 {
            1
        } else if code < 0x800 {
            2
        } else if code < 0x1_0000 {
            3
        } else {
            4
        };
        total = total + size;
        i += 1;
    }
    assert(chars@.take(i as int) =~= chars@);
    total
}

/// The words of a text: its maximal runs of characters that are not white space.
///
/// Read from the end: a character that is no white space belongs to the last word unless white
/// space, or nothing, stands before it.
pub open spec fn words(s: Seq<char>) -> Seq<Seq<char>>
    decreases s.len(),
{
    if s.len() == 0 {
        Seq::empty()
    } else {
        let before = words(s.drop_last());
        let c = s.last();
        if is_space(c) {
            before
        } else if s.len() > 1 && !is_space(s[s.len() - 2]) {
            before.drop_last().push(before.last().push(c))
        } else {
            before.push(seq![c])
        }
    }
}

/// A run of characters without white space at the end of a text is its last word.
proof fn last_word(s: Seq<char>, start: int)
    requires
        0 <= start < s.len(),
        start > 0 ==> is_space(s[start - 1]),
        forall|i: int| start <= i < s.len() ==> !is_space(#[trigger] s[i]),
    ensures
        words(s) == words(s.take(start)).push(s.subrange(start, s.len() as int)),
    decreases s.len(),
{
    let c = s.last();
    let rest = s.drop_last();
    assert(!is_space(s[s.len() - 1]));
    if start == s.len() - 1 {
        assert(rest =~= s.take(start));
        assert(s.subrange(start, s.len() as int) =~= seq![c]);
        if s.len() > 1 {
            assert(is_space(s[s.len() - 2]));
        }
    } else {
        assert(!is_space(s[s.len() - 2]));
        assert forall|i: int| start <= i < rest.len() implies !is_space(#[trigger] rest[i]) by {
            assert(rest[i] == s[i]);
        }
        if start > 0 {
            assert(rest[start - 1] == s[start - 1]);
        }
        last_word(rest, start);
        assert(rest.take(start) =~= s.take(start));
        let before = words(s.take(start));
        let tail = rest.subrange(start, rest.len() as int);
        assert(words(rest) == before.push(tail));
        assert(words(rest).drop_last() =~= before);
        assert(words(rest).last() == tail);
        assert(tail.push(c) =~= s.subrange(start, s.len() as int));
    }
}

/// White space at the end of a text adds no word.
proof fn trailing_space_adds_nothing(s: Seq<char>, end: int)
    requires
        0 <= end <= s.len(),
        forall|i: int| end <= i < s.len() ==> is_space(#[trigger] s[i]),
    ensures
        words(s) == words(s.take(end)),
    decreases s.len(),
{
    if end == s.len() {
        assert(s.take(end) =~= s);
    } else {
        let rest = s.drop_last();
        assert forall|i: int| end <= i < rest.len() implies is_space(#[trigger] rest[i]) by {
            assert(rest[i] == s[i]);
        }
        assert(is_space(s[s.len() - 1]));
        trailing_space_adds_nothing(rest, end);
        assert(rest.take(end) =~= s.take(end));
    }
}

/// The words of a text.
pub fn split_words(s: &str) -> (r: Vec<String>)
    ensures
        texts(r@) == words(s@),
{
    let chars: Vec<char> = chars_of(s);
    let n: usize = chars.len();
    let mut out: Vec<String> = Vec::new();
    let mut i: usize = 0;
    assert(texts(out@) =~= words(chars@.take(0)));
    while i < n
        invariant
            i <= n == chars@.len(),
            i > 0 && i < n ==> is_space(chars@[i - 1]) || is_space(chars@[i as int]),
            texts(out@) == words(chars@.take(i as int)),
        decreases n - i,
    {
        if is_whitespace(chars[i]) {
            proof {
                let now = chars@.take(i + 1);
                assert(now.take(i as int) =~= chars@.take(i as int));
                trailing_space_adds_nothing(now, i as int);
            }
            i += 1;
        } else {
            let start: usize = i;
            while i < n && !is_whitespace(chars[i])
                invariant
                    start <= i <= n == chars@.len(),
                    forall|k: int| start <= k < i ==> !is_space(#[trigger] chars@[k]),
                decreases n - i,
            {
                i += 1;
            }
            proof {
                let now = chars@.take(i as int);
                assert(!is_space(chars@[start as int]));
                assert forall|k: int| start <= k < now.len() implies !is_space(
                    #[trigger] now[k],
                ) by {
                    assert(now[k] == chars@[k]);
                }
                if start > 0 {
                    assert(now[start - 1] == chars@[start - 1]);
                }
                last_word(now, start as int);
                assert(now.take(start as int) =~= chars@.take(start as int));
                assert(now.subrange(start as int, i as int) =~= chars@.subrange(
                    start as int,
                    i as int,
                ));
            }
            push_text(&mut out, text_of(&chars, start, i));
        }
    }
    assert(chars@.take(n as int) =~= s@);
    out
}

/// Words set into lines: the finished lines, and the line that is still open.
pub open spec fn set_words(found: Seq<Seq<char>>, width: nat) -> (Seq<Seq<char>>, Seq<char>)
    decreases found.len(),
{
    if found.len() == 0 {
        (Seq::empty(), Seq::empty())
    } else {
        let (done, line) = set_words(found.drop_last(), width);
        let word = found.last();
        if line.len() == 0 {
            (done, word)
        } else if byte_count(line) + 1 + byte_count(word) > width {
            (done.push(line), word)
        } else {
            (done, line + " "@ + word)
        }
    }
}

/// Words set into lines of at most `width` bytes where the words allow it.
pub open spec fn wrapped(found: Seq<Seq<char>>, width: nat) -> Seq<Seq<char>> {
    let (done, line) = set_words(found, width);
    if line.len() == 0 {
        done
    } else {
        done.push(line)
    }
}

/// Wrap `text` on word boundaries at `width` columns.
pub fn wrap(text: &str, width: usize) -> (r: Vec<String>)
    ensures
        texts(r@) == wrapped(words(text@), width as nat),
{
    let found: Vec<String> = split_words(text);
    let ghost all = words(text@);
    let mut done: Vec<String> = Vec::new();
    let mut line: String = String::new();
    let mut i: usize = 0;
    assert(texts(done@) =~= Seq::empty());
    assert(line@ =~= Seq::empty());
    assert(all.take(0) =~= Seq::empty());
    while i < found.len()
        invariant
            i <= found@.len(),
            all == texts(found@),
            (texts(done@), line@) == set_words(all.take(i as int), width as nat),
        decreases found@.len() - i,
    {
        let word: &str = found[i].as_str();
        proof {
            assert(all.take(i + 1).drop_last() =~= all.take(i as int));
            assert(all.take(i + 1).last() == word@);
        }
        if line.as_str().unicode_len() == 0 {
            line = word.to_owned();
        } else if byte_len(line.as_str()) + 1 + byte_len(word) > width as u128 {
            push_text(&mut done, line);
            line = word.to_owned();
        } else {
            line.append(" ");
            line.append(word);
        }
        i += 1;
    }
    assert(all.take(i as int) =~= all);
    if line.as_str().unicode_len() > 0 {
        push_text(&mut done, line);
    }
    done
}

proof fn joining_on(parts: Seq<Seq<char>>, last: Seq<char>, tail: Seq<char>, sep: Seq<char>)
    ensures
        joined(parts.push(last + sep + tail), sep) == joined(parts.push(last), sep) + sep + tail,
{
    let a = parts.push(last + sep + tail);
    let b = parts.push(last);
    assert(a.drop_last() =~= parts);
    assert(b.drop_last() =~= parts);
    assert(joined(a, sep) =~= joined(b, sep) + sep + tail);
}

/// No word is empty.
proof fn words_are_not_empty(s: Seq<char>)
    ensures
        forall|i: int| 0 <= i < words(s).len() ==> (#[trigger] words(s)[i]).len() > 0,
        s.len() > 0 && !is_space(s.last()) ==> words(s).len() > 0,
    decreases s.len(),
{
    if s.len() > 0 {
        let rest = s.drop_last();
        words_are_not_empty(rest);
        if s.len() > 1 {
            assert(rest.last() == s[s.len() - 2]);
        }
        assert forall|i: int| 0 <= i < words(s).len() implies (#[trigger] words(s)[i]).len()
            > 0 by {
            if i < words(rest).len() {
                assert(words(rest)[i].len() > 0);
            }
        }
    }
}

/// Wrapping moves line ends and nothing else: the lines joined by spaces are the words joined
/// by spaces.
pub proof fn wrapping_keeps_every_word(found: Seq<Seq<char>>, width: nat)
    requires
        forall|i: int| 0 <= i < found.len() ==> (#[trigger] found[i]).len() > 0,
    ensures
        joined(wrapped(found, width), " "@) == joined(found, " "@),
        found.len() > 0 ==> set_words(found, width).1.len() > 0,
    decreases found.len(),
{
    if found.len() > 0 {
        let rest = found.drop_last();
        let word = found.last();
        assert forall|i: int| 0 <= i < rest.len() implies (#[trigger] rest[i]).len() > 0 by {
            assert(rest[i] == found[i]);
        }
        assert(found[found.len() - 1].len() > 0);
        wrapping_keeps_every_word(rest, width);
        let (done, line) = set_words(rest, width);
        assert(rest.push(word) =~= found);
        if rest.len() == 0 {
            assert(done =~= Seq::empty());
            assert(wrapped(found, width) =~= seq![word]);
            assert(found =~= seq![word]);
        } else if byte_count(line) + 1 + byte_count(word) > width {
            let lines = done.push(line);
            assert(wrapped(rest, width) == lines);
            assert(wrapped(found, width) == lines.push(word));
            assert(lines.push(word).drop_last() =~= lines);
            assert(found.drop_last() == rest);
        } else {
            joining_on(done, line, word, " "@);
            assert(found.drop_last() == rest);
        }
    }
}

/// The words of any text can be wrapped without loss.
pub proof fn wrapping_a_text_keeps_its_words(s: Seq<char>, width: nat)
    ensures
        joined(wrapped(words(s), width), " "@) == joined(words(s), " "@),
{
    words_are_not_empty(s);
    wrapping_keeps_every_word(words(s), width);
}

/// Lines with a prefix in front of each.
pub open spec fn indented(indent: Seq<char>, found: Seq<Seq<char>>) -> Seq<Seq<char>> {
    found.map_values(|line: Seq<char>| indent + line)
}

/// A text wrapped at `width`, with a prefix in front of each line.
pub open spec fn paragraph(indent: Seq<char>, text: Seq<char>, width: nat) -> Seq<Seq<char>> {
    indented(indent, wrapped(words(text), width))
}

/// Append a text wrapped at `width`, with a prefix in front of each line.
pub fn push_paragraph(out: &mut Vec<String>, indent: &str, text: &str, width: usize)
    ensures
        texts(final(out)@) == texts(old(out)@) + paragraph(indent@, text@, width as nat),
{
    let found: Vec<String> = wrap(text, width);
    let ghost start = texts(out@);
    let ghost more = paragraph(indent@, text@, width as nat);
    let mut i: usize = 0;
    assert(start + more.take(0) =~= start);
    while i < found.len()
        invariant
            i <= found@.len(),
            more == indented(indent@, texts(found@)),
            texts(out@) == start + more.take(i as int),
        decreases found@.len() - i,
    {
        push_text(out, indent.to_owned().concat(found[i].as_str()));
        assert(more[i as int] == indent@ + found@[i as int]@);
        assert(texts(out@) =~= start + more.take(i + 1));
        i += 1;
    }
    assert(more.take(more.len() as int) =~= more);
}

/// One more character joins the word it stands behind, starts a word of its own behind a space or
/// at the beginning, and adds nothing where it is a space itself.
pub proof fn one_more_character_joins_its_word(s: Seq<char>, c: char)
    ensures
        is_space(c) ==> words(s.push(c)) == words(s),
        !is_space(c) && (s.len() == 0 || is_space(s.last())) ==> words(s.push(c)) == words(s).push(
            seq![c],
        ),
        !is_space(c) && s.len() > 0 && !is_space(s.last()) ==> words(s).len() > 0 && words(
            s.push(c),
        ) == words(s).drop_last().push(words(s).last().push(c)),
        words(Seq::<char>::empty()).len() == 0,
{
    words_are_not_empty(s);
    assert(s.push(c).drop_last() =~= s);
}

/// A wrapped line is no longer than the width, unless it is a single word.
pub proof fn only_a_single_word_breaks_the_width(found: Seq<Seq<char>>, width: nat)
    ensures
        forall|i: int|
            0 <= i < wrapped(found, width).len() ==> byte_count(#[trigger] wrapped(found, width)[i])
                <= width || found.contains(wrapped(found, width)[i]),
{
    set_lines_stay_within(found, width);
}

proof fn set_lines_stay_within(found: Seq<Seq<char>>, width: nat)
    ensures
        forall|i: int|
            0 <= i < set_words(found, width).0.len() ==> byte_count(
                #[trigger] set_words(found, width).0[i],
            ) <= width || found.contains(set_words(found, width).0[i]),
        set_words(found, width).1.len() == 0 || byte_count(set_words(found, width).1) <= width
            || found.contains(set_words(found, width).1),
    decreases found.len(),
{
    if found.len() > 0 {
        let rest = found.drop_last();
        let word = found.last();
        set_lines_stay_within(rest, width);
        let (done, line) = set_words(rest, width);
        assert forall|x: Seq<char>| rest.contains(x) implies #[trigger] found.contains(x) by {
            let i = choose|i: int| 0 <= i < rest.len() && rest[i] == x;
            assert(found[i] == x);
        }
        assert(found[found.len() - 1] == word);
        assert(found.contains(word));
        if line.len() > 0 && byte_count(line) + 1 + byte_count(word) <= width {
            byte_counts_add(line, " "@);
            byte_counts_add(line + " "@, word);
            reveal_strlit(" ");
            reveal_with_fuel(byte_count, 2);
            assert(" "@.drop_last() =~= Seq::empty());
            assert(byte_count(" "@) == 1);
        }
    }
}

proof fn byte_counts_add(a: Seq<char>, b: Seq<char>)
    ensures
        byte_count(a + b) == byte_count(a) + byte_count(b),
    decreases b.len(),
{
    if b.len() == 0 {
        assert(a + b =~= a);
    } else {
        byte_counts_add(a, b.drop_last());
        assert((a + b).drop_last() =~= a + b.drop_last());
        assert((a + b).last() == b.last());
    }
}

} // verus!
