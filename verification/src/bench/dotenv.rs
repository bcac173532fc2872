//! A `.env` file: the pairs it declares, and which of them the environment lacks.
//!
//! The real environment always wins, and a malformed line is skipped, not fatal.

use crate::text::{
    chars_of, lines, same_text, split_lines, text_of, texts, trim_end_at, trim_start_at, trimmed,
    trimmed_start,
};
use vstd::prelude::*;
use vstd::string::*;

verus! {

/// True for a letter or a digit of any script.
pub uninterp spec fn alphanumeric(c: char) -> bool;

/// `char::is_alphanumeric`.
///
/// Claimed of it: a character is always classed the same way, and among the ASCII characters
/// exactly the letters and digits are alphanumeric.
#[verifier::external_body]
pub(crate) fn is_alphanumeric(c: char) -> (r: bool)
    ensures
        r == alphanumeric(c),
        (c as u32) < 128 ==> r == ('0' <= c <= '9' || 'A' <= c <= 'Z' || 'a' <= c <= 'z'),
{
    c.is_alphanumeric()
}

/// A character a variable's name may hold.
pub open spec fn name_char(c: char) -> bool {
    alphanumeric(c) || c == '_'
}

/// A usable variable name: not empty, and made of name characters.
pub open spec fn usable_key(key: Seq<char>) -> bool {
    key.len() > 0 && forall|i: int| 0 <= i < key.len() ==> name_char(#[trigger] key[i])
}

/// A value without one matching pair of surrounding quotes.
pub open spec fn unquoted(value: Seq<char>) -> Seq<char> {
    if value.len() >= 2 && value[0] == value.last() && (value[0] == '"' || value[0] == '\'') {
        value.subrange(1, value.len() - 1)
    } else {
        value
    }
}

/// What a trimmed line declares with: the line behind a leading `export `.
pub open spec fn declaration(line: Seq<char>) -> Seq<char> {
    if line.len() >= 7 && line.take(7) == "export "@ {
        trimmed_start(line.skip(7))
    } else {
        trimmed_start(line)
    }
}

/// Where the first `=` is; the length when there is none.
pub open spec fn equals_at(s: Seq<char>) -> int
    decreases s.len(),
{
    if s.len() == 0 || s[0] == '=' {
        0
    } else {
        1 + equals_at(s.subrange(1, s.len() as int))
    }
}

/// The pair a declaration stands for: the first `=` separates, every later one belongs to the
/// value.
pub open spec fn declared(s: Seq<char>) -> Option<(Seq<char>, Seq<char>)> {
    let at = equals_at(s);
    if !(0 <= at < s.len()) {
        None
    } else {
        let key = trimmed(s.take(at));
        if usable_key(key) {
            Some((key, unquoted(trimmed(s.skip(at + 1)))))
        } else {
            None
        }
    }
}

/// The pair one line of the file declares, if it declares one.
pub open spec fn line_pair(raw: Seq<char>) -> Option<(Seq<char>, Seq<char>)> {
    let line = trimmed(raw);
    if line.len() == 0 || line[0] == '#' {
        None
    } else {
        declared(declaration(line))
    }
}

/// The pairs these lines declare, in order.
pub open spec fn pairs_in(raw: Seq<Seq<char>>) -> Seq<(Seq<char>, Seq<char>)>
    decreases raw.len(),
{
    if raw.len() == 0 {
        Seq::empty()
    } else {
        match line_pair(raw.last()) {
            Some(pair) => pairs_in(raw.drop_last()).push(pair),
            None => pairs_in(raw.drop_last()),
        }
    }
}

/// The model of a pair.
pub open spec fn pair_model(pair: (String, String)) -> (Seq<char>, Seq<char>) {
    (pair.0@, pair.1@)
}

/// The models of a list of pairs.
pub open spec fn pair_models(pairs: Seq<(String, String)>) -> Seq<(Seq<char>, Seq<char>)> {
    pairs.map_values(|p: (String, String)| pair_model(p))
}

/// The model of a pair that may be missing.
pub open spec fn opt_pair(pair: Option<(String, String)>) -> Option<(Seq<char>, Seq<char>)> {
    match pair {
        Some(p) => Some(pair_model(p)),
        None => None,
    }
}

proof fn equals_at_is(s: Seq<char>, at: int)
    requires
        0 <= at <= s.len(),
        forall|i: int| 0 <= i < at ==> #[trigger] s[i] != '=',
        at < s.len() ==> s[at] == '=',
    ensures
        equals_at(s) == at,
    decreases s.len(),
{
    if at > 0 {
        let rest = s.subrange(1, s.len() as int);
        assert(s[0] != '=');
        assert forall|i: int| 0 <= i < at - 1 implies #[trigger] rest[i] != '=' by {
            assert(rest[i] == s[i + 1]);
        }
        if at < s.len() {
            assert(rest[at - 1] == s[at]);
        }
        equals_at_is(rest, at - 1);
    }
}

/// Strip one matching pair of surrounding quotes, if there is one.
fn unquote(chars: &Vec<char>, from: usize, to: usize) -> (r: String)
    requires
        from <= to <= chars@.len(),
    ensures
        r@ == unquoted(chars@.subrange(from as int, to as int)),
{
    let ghost value = chars@.subrange(from as int, to as int);
    if to - from >= 2 && chars[from] == chars[to - 1] && (chars[from] == '"' || chars[from]
        == '\'') {
        assert(value[0] == chars@[from as int] && value.last() == chars@[to - 1]);
        assert(value.subrange(1, value.len() - 1) =~= chars@.subrange(from + 1, to - 1));
        text_of(chars, from + 1, to - 1)
    } else {
        proof {
            if value.len() >= 2 {
                assert(value[0] == chars@[from as int] && value.last() == chars@[to - 1]);
            }
        }
        text_of(chars, from, to)
    }
}

fn is_usable(chars: &Vec<char>, from: usize, to: usize) -> (r: bool)
    requires
        from <= to <= chars@.len(),
    ensures
        r == usable_key(chars@.subrange(from as int, to as int)),
{
    let ghost key = chars@.subrange(from as int, to as int);
    if from == to {
        return false;
    }
    let mut i: usize = from;
    while i < to
        invariant
            from <= i <= to <= chars@.len(),
            key == chars@.subrange(from as int, to as int),
            forall|k: int| 0 <= k < i - from ==> name_char(#[trigger] key[k]),
        decreases to - i,
    {
        assert(key[i - from] == chars@[i as int]);
        if !is_alphanumeric(chars[i]) && chars[i] != '_' {
            return false;
        }
        i += 1;
    }
    true
}

/// The pair the characters `from..to` declare, if they declare one.
fn read_declaration(chars: &Vec<char>, from: usize, to: usize) -> (r: Option<(String, String)>)
    requires
        from <= to <= chars@.len(),
    ensures
        opt_pair(r) == declared(chars@.subrange(from as int, to as int)),
{
    let ghost s = chars@.subrange(from as int, to as int);
    let mut at: usize = from;
    while at < to && chars[at] != '='
        invariant
            from <= at <= to <= chars@.len(),
            s == chars@.subrange(from as int, to as int),
            forall|i: int| 0 <= i < at - from ==> #[trigger] s[i] != '=',
        decreases to - at,
    {
        assert(s[at - from] == chars@[at as int]);
        at += 1;
    }
    proof {
        if at < to {
            assert(s[at - from] == chars@[at as int]);
        }
        equals_at_is(s, at - from);
    }
    if at == to {
        return None;
    }
    let key_from: usize = trim_start_at(chars, from, at);
    let key_to: usize = trim_end_at(chars, key_from, at);
    let value_from: usize = trim_start_at(chars, at + 1, to);
    let value_to: usize = trim_end_at(chars, value_from, to);
    proof {
        assert(s.take(at - from) =~= chars@.subrange(from as int, at as int));
        assert(s.skip(at - from + 1) =~= chars@.subrange(at + 1, to as int));
    }
    if !is_usable(chars, key_from, key_to) {
        return None;
    }
    Some((text_of(chars, key_from, key_to), unquote(chars, value_from, value_to)))
}

/// The pair one line of the file declares, if it declares one.
///
/// Comments, blank lines and lines without a `=` declare none. A leading `export ` is allowed.
/// A value may be wrapped in quotes, which are stripped; anything else, a `#` and any further
/// `=` included, is part of the value.
pub fn parse_line(line: &str) -> (r: Option<(String, String)>)
    ensures
        opt_pair(r) == line_pair(line@),
{
    let chars: Vec<char> = chars_of(line);
    assert(chars@.subrange(0, chars@.len() as int) =~= line@);
    let from: usize = trim_start_at(&chars, 0, chars.len());
    let to: usize = trim_end_at(&chars, from, chars.len());
    let ghost trimmed_line = chars@.subrange(from as int, to as int);
    assert(trimmed(line@) == trimmed_line);
    if from == to || chars[from] == '#' {
        return None;
    }
    assert(trimmed_line[0] == chars@[from as int]);
    let mut start: usize = from;
    if to - from >= 7 {
        let head: String = text_of(&chars, from, from + 7);
        assert(head@ == trimmed_line.take(7)) by {
            assert(head@ =~= trimmed_line.take(7));
        }
        if same_text(head.as_str(), "export ") {
            start = from + 7;
            assert(trimmed_line.skip(7) =~= chars@.subrange(start as int, to as int));
        }
    }
    let start: usize = trim_start_at(&chars, start, to);
    read_declaration(&chars, start, to)
}

/// Every `KEY=VALUE` pair in `text`, in file order.
pub fn parse(text: &str) -> (r: Vec<(String, String)>)
    ensures
        pair_models(r@) == pairs_in(lines(text@)),
{
    let found: Vec<String> = split_lines(text);
    let ghost all = lines(text@);
    let mut out: Vec<(String, String)> = Vec::new();
    let mut i: usize = 0;
    assert(pair_models(out@) =~= pairs_in(all.take(0)));
    while i < found.len()
        invariant
            i <= found@.len(),
            all == texts(found@),
            pair_models(out@) == pairs_in(all.take(i as int)),
        decreases found@.len() - i,
    {
        let ghost before = out@;
        proof {
            assert(all.take(i + 1).drop_last() =~= all.take(i as int));
            assert(all.take(i + 1).last() == found@[i as int]@);
        }
        if let Some(pair) = parse_line(found[i].as_str()) {
            out.push(pair);
            assert(pair_models(out@) =~= pair_models(before).push(pair_model(pair)));
        }
        i += 1;
    }
    assert(all.take(all.len() as int) =~= all);
    out
}

/// The pairs whose answer is `false`, in order.
pub open spec fn unanswered(
    pairs: Seq<(Seq<char>, Seq<char>)>,
    answers: Seq<bool>,
) -> Seq<(Seq<char>, Seq<char>)>
    decreases pairs.len(),
{
    if pairs.len() == 0 {
        Seq::empty()
    } else if answers.last() {
        unanswered(pairs.drop_last(), answers.drop_last())
    } else {
        unanswered(pairs.drop_last(), answers.drop_last()).push(pairs.last())
    }
}

/// `answer` is something `is_set` may say of `key`.
pub open spec fn may_say<F: Fn(&str) -> bool>(is_set: F, key: Seq<char>, answer: bool) -> bool {
    exists|k: &str| k@ == key && #[trigger] is_set.ensures((k,), answer)
}

/// `answers` is what `is_set` said of the keys of `pairs`, one by one.
pub open spec fn asked<F: Fn(&str) -> bool>(
    is_set: F,
    pairs: Seq<(Seq<char>, Seq<char>)>,
    answers: Seq<bool>,
) -> bool {
    &&& answers.len() == pairs.len()
    &&& forall|i: int|
        0 <= i < pairs.len() ==> may_say(is_set, (#[trigger] pairs[i]).0, answers[i])
}

/// The pairs in `text` whose key `is_set` says the environment does not have.
pub fn unset_pairs<F: Fn(&str) -> bool>(text: &str, is_set: F) -> (r: Vec<(String, String)>)
    requires
        forall|key: &str| #[trigger] is_set.requires((key,)),
    ensures
        exists|answers: Seq<bool>| #[trigger]
            asked(is_set, pairs_in(lines(text@)), answers) && pair_models(r@) == unanswered(
                pairs_in(lines(text@)),
                answers,
            ),
{
    let found: Vec<(String, String)> = parse(text);
    let ghost all = pairs_in(lines(text@));
    let ghost mut answers: Seq<bool> = Seq::empty();
    let mut out: Vec<(String, String)> = Vec::new();
    let mut i: usize = 0;
    assert(pair_models(out@) =~= unanswered(all.take(0), answers));
    while i < found.len()
        invariant
            i <= found@.len(),
            all == pair_models(found@),
            forall|key: &str| #[trigger] is_set.requires((key,)),
            asked(is_set, all.take(i as int), answers),
            pair_models(out@) == unanswered(all.take(i as int), answers),
        decreases found@.len() - i,
    {
        let ghost before = out@;
        let ghost old_answers = answers;
        let key: &str = found[i].0.as_str();
        let set: bool = is_set(key);
        proof {
            answers = answers.push(set);
            let now = all.take(i + 1);
            assert(now.drop_last() =~= all.take(i as int));
            assert(answers.drop_last() =~= old_answers);
            assert(now.last() == pair_model(found@[i as int]));
            assert(may_say(is_set, key@, set));
            assert forall|k: int| 0 <= k < now.len() implies may_say(
                is_set,
                (#[trigger] now[k]).0,
                answers[k],
            ) by {
                if k < i {
                    assert(now[k] == all.take(i as int)[k]);
                    assert(answers[k] == old_answers[k]);
                }
            }
        }
        if !set {
            let pair: (String, String) = (found[i].0.clone(), found[i].1.clone());
            out.push(pair);
            assert(pair_models(out@) =~= pair_models(before).push(pair_model(pair)));
        }
        i += 1;
    }
    assert(all.take(all.len() as int) =~= all);
    out
}

/// The real environment wins over the file: a key that is set is never offered, and every
/// other pair is.
pub proof fn the_environment_wins(pairs: Seq<(Seq<char>, Seq<char>)>, answers: Seq<bool>)
    requires
        answers.len() == pairs.len(),
        forall|i: int, j: int|
            0 <= i < pairs.len() && 0 <= j < pairs.len() && (#[trigger] pairs[i]).0 == (
            #[trigger] pairs[j]).0 ==> answers[i] == answers[j],
    ensures
        forall|i: int|
            0 <= i < pairs.len() ==> (unanswered(pairs, answers).contains(#[trigger] pairs[i])
                <==> !answers[i]),
        forall|k: int|
            0 <= k < unanswered(pairs, answers).len() ==> pairs.contains(
                #[trigger] unanswered(pairs, answers)[k],
            ),
    decreases pairs.len(),
{
    if pairs.len() > 0 {
        let p = pairs.drop_last();
        let a = answers.drop_last();
        let rest = unanswered(p, a);
        let whole = unanswered(pairs, answers);
        assert forall|i: int, j: int|
            0 <= i < p.len() && 0 <= j < p.len() && (#[trigger] p[i]).0 == (#[trigger] p[j]).0
            implies a[i] == a[j] by {
            assert(p[i] == pairs[i] && p[j] == pairs[j]);
        }
        the_environment_wins(p, a);
        assert forall|k: int| 0 <= k < whole.len() implies pairs.contains(
            #[trigger] whole[k],
        ) by {
            if k < rest.len() {
                assert(whole[k] == rest[k]);
                let j = choose|j: int| 0 <= j < p.len() && p[j] == rest[k];
                assert(pairs[j] == whole[k]);
            } else {
                assert(whole[k] == pairs[pairs.len() - 1]);
            }
        }
        assert forall|i: int| 0 <= i < pairs.len() implies (whole.contains(#[trigger] pairs[i])
            <==> !answers[i]) by {
            let x = pairs[i];
            if !answers[i] {
                if i < p.len() {
                    assert(p[i] == x && rest.contains(p[i]));
                    let k = choose|k: int| 0 <= k < rest.len() && rest[k] == x;
                    assert(whole[k] == x);
                } else {
                    assert(whole[whole.len() - 1] == x);
                }
            } else if whole.contains(x) {
                let k = choose|k: int| 0 <= k < whole.len() && whole[k] == x;
                if k < rest.len() {
                    assert(rest[k] == x);
                    let j = choose|j: int| 0 <= j < p.len() && p[j] == rest[k];
                    assert(rest.contains(p[j]));
                    assert(!a[j]);
                    assert(pairs[j] == x);
                    assert(answers[i] == answers[j]);
                } else {
                    assert(x == pairs[pairs.len() - 1]);
                    assert(answers[i] == answers[pairs.len() - 1]);
                }
            }
        }
    }
}

/// One more line adds the pair it declares, at the end, or nothing.
pub proof fn one_more_line_adds_its_pair(raw: Seq<Seq<char>>, next: Seq<char>)
    ensures
        pairs_in(raw.push(next)) == (match line_pair(next) {
            Some(pair) => pairs_in(raw).push(pair),
            None => pairs_in(raw),
        }),
        pairs_in(Seq::<Seq<char>>::empty()).len() == 0,
{
    assert(raw.push(next).drop_last() =~= raw);
}

/// A blank line declares nothing, and neither does a comment or a line without an equals sign.
pub proof fn lines_that_declare_nothing(raw: Seq<char>)
    ensures
        crate::text::blank(raw) ==> line_pair(raw) is None,
        trimmed(raw).len() > 0 && trimmed(raw)[0] == '#' ==> line_pair(raw) is None,
        (forall|i: int| 0 <= i < raw.len() ==> #[trigger] raw[i] != '=') ==> line_pair(raw) is None,
{
    crate::text::blank_iff_trimmed_empty(raw);
    if forall|i: int| 0 <= i < raw.len() ==> #[trigger] raw[i] != '=' {
        let line = trimmed(raw);
        let bounds = crate::text::trimming_takes_only_the_ends(raw);
        assert forall|i: int| 0 <= i < line.len() implies #[trigger] line[i] != '=' by {
            assert(line[i] == raw[bounds.0 + i]);
        }
        let body = if line.len() >= 7 && line.take(7) == "export "@ {
            line.skip(7)
        } else {
            line
        };
        assert forall|i: int| 0 <= i < body.len() implies #[trigger] body[i] != '=' by {
            if line.len() >= 7 && line.take(7) == "export "@ {
                assert(body[i] == line[i + 7]);
            }
        }
        starts_keep_out(body);
        let s = declaration(line);
        equals_at_is(s, s.len() as int);
    }
}

proof fn starts_keep_out(s: Seq<char>)
    requires
        forall|i: int| 0 <= i < s.len() ==> #[trigger] s[i] != '=',
    ensures
        forall|i: int| 0 <= i < trimmed_start(s).len() ==> #[trigger] trimmed_start(s)[i] != '=',
    decreases s.len(),
{
    if s.len() > 0 && crate::text::is_space(s[0]) {
        let rest = s.subrange(1, s.len() as int);
        assert forall|i: int| 0 <= i < rest.len() implies #[trigger] rest[i] != '=' by {
            assert(rest[i] == s[i + 1]);
        }
        starts_keep_out(rest);
        assert(trimmed_start(s) == trimmed_start(rest));
    } else {
        assert(trimmed_start(s) == s);
    }
}

/// A declaration is split at its first equals sign: what stands before it, trimmed, is the key,
/// which is not empty and holds nothing but letters, digits and underscores; what stands behind
/// it, trimmed and without one pair of quotes around it, is the value, further equals signs and
/// all.
pub proof fn a_declaration_is_split_at_its_first_equals_sign(
    key: Seq<char>,
    value: Seq<char>,
)
    requires
        forall|i: int| 0 <= i < key.len() ==> #[trigger] key[i] != '=',
    ensures
        ({
            let found = declared(key + seq!['='] + value);
            let name = trimmed(key);
            let usable = name.len() > 0 && forall|i: int|
                0 <= i < name.len() ==> alphanumeric(#[trigger] name[i]) || name[i] == '_';
            &&& found is Some <==> usable
            &&& usable ==> found->0 == (name, unquoted(trimmed(value)))
        }),
        forall|inner: Seq<char>|
            #![trigger unquoted(seq!['"'] + inner + seq!['"'])]
            unquoted(seq!['"'] + inner + seq!['"']) == inner,
        forall|inner: Seq<char>|
            #![trigger unquoted(seq!['\''] + inner + seq!['\''])]
            unquoted(seq!['\''] + inner + seq!['\'']) == inner,
        forall|plain: Seq<char>|
            #![trigger unquoted(plain)]
            plain.len() < 2 || (plain[0] != '"' && plain[0] != '\'') || plain[0] != plain.last()
                ==> unquoted(plain) == plain,
{
    let all = key + seq!['='] + value;
    let at = key.len() as int;
    assert(all[at] == '=');
    assert forall|i: int| 0 <= i < at implies #[trigger] all[i] != '=' by {
        assert(all[i] == key[i]);
    }
    equals_at_is(all, at);
    assert(all.take(at) =~= key);
    assert(all.skip(at + 1) =~= value);
    let name = trimmed(key);
    let usable = name.len() > 0 && forall|i: int|
        0 <= i < name.len() ==> alphanumeric(#[trigger] name[i]) || name[i] == '_';
    assert(usable <==> usable_key(name)) by {
        if usable {
            assert forall|i: int| 0 <= i < name.len() implies name_char(#[trigger] name[i]) by {}
        }
        if usable_key(name) {
            assert forall|i: int| 0 <= i < name.len() implies alphanumeric(#[trigger] name[i])
                || name[i] == '_' by {
                assert(name_char(name[i]));
            }
        }
    }
    assert forall|inner: Seq<char>|
        #![trigger unquoted(seq!['"'] + inner + seq!['"'])]
        unquoted(seq!['"'] + inner + seq!['"']) == inner by {
        let all = seq!['"'] + inner + seq!['"'];
        assert(all[0] == '"' && all.last() == '"');
        assert(all.subrange(1, all.len() - 1) =~= inner);
    }
    assert forall|inner: Seq<char>|
        #![trigger unquoted(seq!['\''] + inner + seq!['\''])]
        unquoted(seq!['\''] + inner + seq!['\'']) == inner by {
        let all = seq!['\''] + inner + seq!['\''];
        assert(all[0] == '\'' && all.last() == '\'');
        assert(all.subrange(1, all.len() - 1) =~= inner);
    }
}

} // verus!
