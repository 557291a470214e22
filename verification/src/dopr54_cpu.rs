//! The galpy DOPR54 reference integrator's data: its potential handle and the
//! layout of its initial-condition dumps.
//!
//! A dump is a text of lines; each line is a key followed by values, separated
//! by whitespace. The scalar keys `dim`, `nt`, `dt_one`, `rtol`, `atol` and
//! `nargs` take the first value on their line; every such value is read, in
//! order, and the last one counts. The list keys `t`, `yo` and `args` collect
//! every value of every line they head, in order. Empty lines and unknown keys
//! are skipped.

use vstd::prelude::*;

use crate::interface::selector::same_text;
use vstd::string::StrSliceExecFns;
use vstd::std_specs::iter::IteratorSpec;

verus! {

/// Opaque handle to the potential parameters that an integrator hands, unread,
/// to its force callback.
#[allow(non_camel_case_types)]
pub struct potentialArg {
    _private: [u8; 0],
}

/// The texts of a sequence of tokens.
pub open spec fn texts(tokens: Seq<String>) -> Seq<Seq<char>> {
    tokens.map_values(|s: String| s@)
}

/// Line `k` of a dump is headed by the key `key`.
pub open spec fn line_has_key(lines: Seq<Vec<String>>, k: int, key: Seq<char>) -> bool {
    lines[k]@.len() > 0 && lines[k]@[0]@ == key
}

/// The values that the scalar key `key` is given in the first `k` lines: the
/// first value of each of those lines that it heads with at least one value,
/// in order (the last one is the key's value).
pub open spec fn scalar_values(lines: Seq<Vec<String>>, key: Seq<char>, k: int) -> Seq<Seq<char>>
    decreases k,
{
    if k <= 0 {
        Seq::empty()
    } else if line_has_key(lines, k - 1, key) && lines[k - 1]@.len() > 1 {
        scalar_values(lines, key, k - 1).push(lines[k - 1]@[1]@)
    } else {
        scalar_values(lines, key, k - 1)
    }
}

/// The values that the list key `key` collects from the first `k` lines: the
/// values of every line it heads, line by line.
pub open spec fn list_values(lines: Seq<Vec<String>>, key: Seq<char>, k: int) -> Seq<Seq<char>>
    decreases k,
{
    if k <= 0 {
        Seq::empty()
    } else if line_has_key(lines, k - 1, key) {
        list_values(lines, key, k - 1) + texts(lines[k - 1]@.skip(1))
    } else {
        list_values(lines, key, k - 1)
    }
}

/// The raw values of a DOPR54 dump, by key, before any number is read.
pub struct DumpFields {
    pub dim: Vec<String>,
    pub nt: Vec<String>,
    pub dt_one: Vec<String>,
    pub rtol: Vec<String>,
    pub atol: Vec<String>,
    pub t: Vec<String>,
    pub yo: Vec<String>,
    pub nargs: Vec<String>,
    pub args: Vec<String>,
}

/// The fields that the first `k` lines give.
pub open spec fn fields_from(f: DumpFields, lines: Seq<Vec<String>>, k: int) -> bool {
    &&& texts(f.dim@) == scalar_values(lines, "dim"@, k)
    &&& texts(f.nt@) == scalar_values(lines, "nt"@, k)
    &&& texts(f.dt_one@) == scalar_values(lines, "dt_one"@, k)
    &&& texts(f.rtol@) == scalar_values(lines, "rtol"@, k)
    &&& texts(f.atol@) == scalar_values(lines, "atol"@, k)
    &&& texts(f.nargs@) == scalar_values(lines, "nargs"@, k)
    &&& texts(f.t@) == list_values(lines, "t"@, k)
    &&& texts(f.yo@) == list_values(lines, "yo"@, k)
    &&& texts(f.args@) == list_values(lines, "args"@, k)
}

/// The dump keys are pairwise different texts.
proof fn lemma_dump_keys_differ()
    ensures
        "dim"@.len() == 3,
        "nt"@.len() == 2 && "nt"@[0] == 'n',
        "dt_one"@.len() == 6,
        "rtol"@.len() == 4 && "rtol"@[0] == 'r',
        "atol"@.len() == 4 && "atol"@[0] == 'a' && "atol"@[1] == 't',
        "t"@.len() == 1,
        "yo"@.len() == 2 && "yo"@[0] == 'y',
        "nargs"@.len() == 5,
        "args"@.len() == 4 && "args"@[0] == 'a' && "args"@[1] == 'r',
{
    reveal_strlit("dim");
    reveal_strlit("nt");
    reveal_strlit("dt_one");
    reveal_strlit("rtol");
    reveal_strlit("atol");
    reveal_strlit("t");
    reveal_strlit("yo");
    reveal_strlit("nargs");
    reveal_strlit("args");
}

fn push_first(target: &mut Vec<String>, line: &Vec<String>)
    ensures
        texts(final(target)@) == if line@.len() > 1 {
            texts(old(target)@).push(line@[1]@)
        } else {
            texts(old(target)@)
        },
{
    if line.len() > 1 {
        let ghost before = target@;
        target.push(line[1].clone());
        assert(texts(target@) =~= texts(before).push(line@[1]@));
    }
}

fn push_values(target: &mut Vec<String>, line: &Vec<String>)
    requires
        line@.len() > 0,
    ensures
        texts(final(target)@) == texts(old(target)@) + texts(line@.skip(1)),
{
    let ghost start = texts(target@);
    let mut j: usize = 1;
    while j < line.len()
        invariant
            1 <= j <= line@.len(),
            texts(target@) == start + texts(line@.subrange(1, j as int)),
        decreases line@.len() - j,
    {
        let ghost before = target@;
        let token = line[j].clone();
        target.push(token);
        assert(texts(target@) =~= texts(before).push(line@[j as int]@));
        j += 1;
        assert(texts(line@.subrange(1, j as int)) =~= texts(line@.subrange(1, j - 1)).push(line@[j - 1]@));
        assert(texts(target@) =~= start + texts(line@.subrange(1, j as int)));
    }
    assert(line@.subrange(1, line@.len() as int) =~= line@.skip(1));
}

/// Whether `c` is an ASCII decimal digit.
pub open spec fn is_digit(c: char) -> bool {
    '0' <= c && c <= '9'
}

/// Every character of `d` is an ASCII decimal digit.
pub open spec fn all_digits(d: Seq<char>) -> bool {
    forall|i: int| 0 <= i < d.len() ==> is_digit(#[trigger] d[i])
}

/// The number that the decimal digits `d` write, most significant first.
pub open spec fn digits_value(d: Seq<char>) -> int
    decreases d.len(),
{
    if d.len() == 0 {
        0
    } else {
        digits_value(d.drop_last()) * 10 + (d.last() as int - 48)
    }
}

/// The integer that `text` writes, read as Rust reads a decimal integer: an
/// optional `-` or `+`, then at least one ASCII digit and nothing else.
pub open spec fn integer_text(text: Seq<char>) -> Option<int> {
    let signed = text.len() > 0 && (text[0] == '-' || text[0] == '+');
    let digits = if signed {
        text.skip(1)
    } else {
        text
    };
    if digits.len() > 0 && all_digits(digits) {
        Some(
            if text[0] == '-' {
                -digits_value(digits)
            } else {
                digits_value(digits)
            },
        )
    } else {
        None
    }
}

/// The C `int` that `text` writes, when it writes an integer in its range.
pub open spec fn c_int_value(text: Seq<char>) -> Option<i32> {
    match integer_text(text) {
        Some(v) => if i32::MIN <= v <= i32::MAX {
            Some(v as i32)
        } else {
            None
        },
        None => None,
    }
}

proof fn lemma_digits_grow(d: Seq<char>, k: int)
    requires
        all_digits(d),
        0 <= k <= d.len(),
    ensures
        0 <= digits_value(d.take(k)) <= digits_value(d),
    decreases d.len(),
{
    if d.len() > 0 {
        if k < d.len() {
            assert(d.drop_last().take(k) =~= d.take(k));
            lemma_digits_grow(d.drop_last(), k);
        } else {
            assert(d.take(k) =~= d);
            lemma_digits_grow(d.drop_last(), d.len() - 1);
            assert(d.drop_last().take(d.len() - 1) =~= d.drop_last());
        }
    } else {
        assert(d.take(k) =~= d);
    }
}

/// Reading integers in decimal: a single digit reads as its value, one more
/// digit multiplies by ten and adds that digit, and a leading `-` negates
/// (a leading `+` changes nothing); text with any other character does not
/// read as an integer.
pub proof fn lemma_decimal_reading(d: Seq<char>, c: char)
    requires
        d.len() > 0,
        all_digits(d),
        is_digit(c),
    ensures
        integer_text(seq![c]) == Some(c as int - '0' as int),
        integer_text(d.push(c)) == Some(integer_text(d)->0 * 10 + (c as int - '0' as int)),
        integer_text(seq!['-'] + d) == Some(-integer_text(d)->0),
        integer_text(seq!['+'] + d) == integer_text(d),
        integer_text(d)->0 >= 0,
        forall|t: Seq<char>, i: int|
            0 < i < t.len() && !is_digit(#[trigger] t[i]) ==> integer_text(t) is None,
{
    assert(seq![c].drop_last() =~= Seq::<char>::empty());
    assert(all_digits(seq![c]));
    assert('0' as int == 48);
    assert(seq![c][0] != '-' && seq![c][0] != '+');
    assert(digits_value(seq![c]) == digits_value(Seq::<char>::empty()) * 10 + (c as int - 48));
    let e = d.push(c);
    assert(e.drop_last() =~= d);
    assert(all_digits(e)) by {
        assert forall|i: int| 0 <= i < e.len() implies is_digit(#[trigger] e[i]) by {
            if i < d.len() {
                assert(e[i] == d[i]);
            }
        }
    }
    assert(d[0] != '-' && d[0] != '+') by {
        assert(is_digit(d[0]));
    }
    assert(e[0] == d[0]);
    assert((seq!['-'] + d).skip(1) =~= d);
    assert((seq!['+'] + d).skip(1) =~= d);
    assert((seq!['-'] + d)[0] == '-');
    assert((seq!['+'] + d)[0] == '+');
    lemma_digits_grow(d, 0);
    assert forall|t: Seq<char>, i: int| 0 < i < t.len() && !is_digit(#[trigger] t[i]) implies integer_text(t) is None by {
        let signed = t.len() > 0 && (t[0] == '-' || t[0] == '+');
        if signed {
            assert(t.skip(1)[i - 1] == t[i]);
        } else {
            assert(!all_digits(t));
        }
    }
}

/// Reads the C `int` that `text` writes: an optional sign, then decimal digits
/// and nothing else, within the range of `int`; `None` for any other text.
pub fn parse_c_int(text: &str) -> (r: Option<i32>)
    ensures
        r == c_int_value(text@),
        r is Some ==> text@.len() > 0 && (is_digit(text@[0]) || text@[0] == '-' || text@[0] == '+'),
        r is Some ==> forall|i: int| 0 < i < text@.len() ==> is_digit(#[trigger] text@[i]),
        text@.len() == 1 && is_digit(text@[0]) ==> r == Some((text@[0] as int - '0' as int) as i32),
{
    let len = text.unicode_len();
    if len == 0 {
        return None;
    }
    let first = text.get_char(0);
    let start: usize = if first == '-' || first == '+' { 1 } else { 0 };
    let ghost digits = text@.skip(start as int);
    assert(start == 0 ==> digits =~= text@);
    if start == len {
        return None;
    }
    let mut value: i64 = 0;
    let mut i: usize = start;
    assert(digits.take(0) =~= Seq::<char>::empty());
    while i < len
        invariant
            start <= i <= len,
            start <= 1,
            len == text@.len(),
            digits == text@.skip(start as int),
            len > 0,
            first == text@[0],
            start == (if text@[0] == '-' || text@[0] == '+' { 1usize } else { 0usize }),
            start == 0 ==> digits == text@,
            all_digits(digits.take(i - start)),
            value == digits_value(digits.take(i - start)),
            0 <= value <= 2147483648,
        decreases len - i,
    {
        let c = text.get_char(i);
        assert(digits[i - start] == c);
        if !(c >= '0' && c <= '9') {
            assert(!all_digits(digits));
            assert(integer_text(text@) is None);
            return None;
        }
        let d: i64 = (c as u32 - 48) as i64;
        let ghost before = digits.take(i - start);
        let ghost after = digits.take(i - start + 1);
        assert(after.drop_last() =~= before);
        assert(after.last() == c);
        value = value * 10 + d;
        assert(all_digits(after)) by {
            assert forall|k: int| 0 <= k < after.len() implies is_digit(#[trigger] after[k]) by {
                if k < before.len() {
                    assert(after[k] == before[k]);
                }
            }
        }
        if value > 2147483648 {
            proof {
                if all_digits(digits) {
                    lemma_digits_grow(digits, i - start + 1);
                    assert(digits_value(digits) > 2147483648);
                }
            }
            return None;
        }
        i += 1;
    }
    assert(digits.take(len - start) =~= digits);
    assert forall|i: int| 0 < i < text@.len() implies is_digit(#[trigger] text@[i]) by {
        if start == 1 {
            assert(digits[i - 1] == text@[i]);
        } else {
            assert(digits[i] == text@[i]);
        }
    }
    proof {
        if text@.len() == 1 && is_digit(text@[0]) {
            assert(text@.drop_last() =~= Seq::<char>::empty());
            assert('0' as int == 48);
            assert(digits_value(text@) == text@[0] as int - 48);
        }
    }
    if first == '-' {
        Some((0 - value) as i32)
    } else if value <= 2147483647 {
        Some(value as i32)
    } else {
        None
    }
}

/// Whether `c` is white space as Rust's `char::is_whitespace` defines it: the
/// characters with the Unicode `White_Space` property.
pub open spec fn is_white_space(c: char) -> bool {
    ||| ('\u{9}' <= c && c <= '\u{d}')
    ||| c == ' '
    ||| c == '\u{85}'
    ||| c == '\u{a0}'
    ||| c == '\u{1680}'
    ||| ('\u{2000}' <= c && c <= '\u{200a}')
    ||| c == '\u{2028}'
    ||| c == '\u{2029}'
    ||| c == '\u{202f}'
    ||| c == '\u{205f}'
    ||| c == '\u{3000}'
}

fn white_space(c: char) -> (r: bool)
    ensures
        r == is_white_space(c),
{
    ('\u{9}' <= c && c <= '\u{d}') || c == ' ' || c == '\u{85}' || c == '\u{a0}' || c == '\u{1680}' || (
    '\u{2000}' <= c && c <= '\u{200a}') || c == '\u{2028}' || c == '\u{2029}' || c == '\u{202f}' || c
        == '\u{205f}' || c == '\u{3000}'
}

/// The tokens of `text`: its maximal runs of characters that are not white
/// space, in order.
pub open spec fn tokens_of(text: Seq<char>) -> Seq<Seq<char>>
    decreases text.len(),
{
    if text.len() == 0 {
        Seq::empty()
    } else {
        let before = tokens_of(text.drop_last());
        let c = text.last();
        if is_white_space(c) {
            before
        } else if text.len() >= 2 && !is_white_space(text[text.len() - 2]) {
            before.update(before.len() - 1, before.last().push(c))
        } else {
            before.push(seq![c])
        }
    }
}

/// The tokens of a text are its characters other than white space, in order,
/// cut into non-empty runs that hold no white space.
pub proof fn lemma_tokens_are_the_non_space_characters(text: Seq<char>)
    ensures
        tokens_of(text).flatten() == text.filter(|c: char| !is_white_space(c)),
        forall|i: int| 0 <= i < tokens_of(text).len() ==> (#[trigger] tokens_of(text)[i]).len() > 0,
        forall|i: int, m: int|
            0 <= i < tokens_of(text).len() && 0 <= m < tokens_of(text)[i].len() ==> !is_white_space(
                #[trigger] tokens_of(text)[i][m],
            ),
        text.len() > 0 && !is_white_space(text.last()) ==> tokens_of(text).len() > 0,
    decreases text.len(),
{
    let pred = |c: char| !is_white_space(c);
    if text.len() == 0 {
        reveal(Seq::filter);
        assert(text.filter(pred) =~= Seq::<char>::empty());
    } else {
        let rest = text.drop_last();
        let c = text.last();
        lemma_tokens_are_the_non_space_characters(rest);
        assert(rest.push(c) =~= text);
        rest.lemma_filter_push(c, pred);
        let before = tokens_of(rest);
        if is_white_space(c) {
        } else if text.len() >= 2 && !is_white_space(text[text.len() - 2]) {
            assert(rest.last() == text[text.len() - 2]);
            let init = before.drop_last();
            let last = before.last();
            assert(init.push(last) =~= before);
            let now = before.update(before.len() - 1, last.push(c));
            assert(init.push(last.push(c)) =~= now);
            init.lemma_flatten_push(last);
            init.lemma_flatten_push(last.push(c));
            assert(now.flatten() =~= before.flatten().push(c));
            assert forall|i: int, m: int|
                0 <= i < now.len() && 0 <= m < now[i].len() implies !is_white_space(#[trigger] now[i][m]) by {
                if i < before.len() - 1 {
                    assert(now[i] == before[i]);
                } else if m < last.len() {
                    assert(now[i][m] == before[i][m]);
                }
            }
            assert forall|i: int| 0 <= i < now.len() implies (#[trigger] now[i]).len() > 0 by {
                if i < before.len() - 1 {
                    assert(now[i] == before[i]);
                }
            }
        } else {
            let now = before.push(seq![c]);
            before.lemma_flatten_push(seq![c]);
            assert(now.flatten() =~= before.flatten().push(c));
            assert forall|i: int, m: int|
                0 <= i < now.len() && 0 <= m < now[i].len() implies !is_white_space(#[trigger] now[i][m]) by {
                if i < before.len() {
                    assert(now[i] == before[i]);
                }
            }
            assert forall|i: int| 0 <= i < now.len() implies (#[trigger] now[i]).len() > 0 by {
                if i < before.len() {
                    assert(now[i] == before[i]);
                }
            }
        }
    }
}

/// The characters of each token.
pub open spec fn token_texts(tokens: Seq<Vec<char>>) -> Seq<Seq<char>> {
    tokens.map_values(|t: Vec<char>| t@)
}

/// Splits a line of a dump into its tokens, the maximal runs of characters
/// that are not white space.
pub fn split_tokens(line: &str) -> (r: Vec<Vec<char>>)
    ensures
        token_texts(r@) == tokens_of(line@),
        token_texts(r@).flatten() == line@.filter(|c: char| !is_white_space(c)),
        forall|i: int| 0 <= i < r@.len() ==> (#[trigger] r@[i])@.len() > 0,
        forall|i: int, m: int| 0 <= i < r@.len() && 0 <= m < r@[i]@.len() ==> !is_white_space(#[trigger] r@[i]@[m]),
{
    let mut tokens: Vec<Vec<char>> = Vec::new();
    let mut current: Vec<char> = Vec::new();
    let mut in_token = false;
    let mut chars = line.chars();
    let ghost mut seen: Seq<char> = Seq::empty();
    assert(token_texts(tokens@) =~= Seq::<Seq<char>>::empty());
    loop
        invariant
            seen + chars.remaining() == line@,
            chars.obeys_prophetic_iter_laws(),
            chars.decrease() is Some,
            in_token ==> {
                &&& seen.len() > 0
                &&& !is_white_space(seen.last())
                &&& token_texts(tokens@).push(current@) == tokens_of(seen)
            },
            !in_token ==> {
                &&& (seen.len() == 0 || is_white_space(seen.last()))
                &&& token_texts(tokens@) == tokens_of(seen)
            },
        ensures
            seen == line@,
            in_token ==> {
                &&& seen.len() > 0
                &&& !is_white_space(seen.last())
                &&& token_texts(tokens@).push(current@) == tokens_of(seen)
            },
            !in_token ==> token_texts(tokens@) == tokens_of(seen),
        decreases chars.decrease()->0,
    {
        let ghost before_chars = chars;
        let next = chars.next();
        match next {
            None => {
                assert(seen =~= line@);
                break ;
            },
            Some(c) => {
                let ghost old_seen = seen;
                let ghost old_tokens = tokens@;
                let ghost old_current = current@;
                proof {
                    seen = seen.push(c);
                    assert(seen.drop_last() =~= old_seen);
                    assert(seen + chars.remaining() =~= line@);
                }
                if white_space(c) {
                    if in_token {
                        let token = current;
                        current = Vec::new();
                        tokens.push(token);
                        assert(token_texts(tokens@) =~= token_texts(old_tokens).push(old_current));
                        in_token = false;
                    }
                } else if in_token {
                    current.push(c);
                    assert(token_texts(tokens@).push(current@) =~= tokens_of(old_seen).update(
                        tokens_of(old_seen).len() - 1,
                        tokens_of(old_seen).last().push(c),
                    ));
                } else {
                    current = Vec::new();
                    current.push(c);
                    in_token = true;
                    assert(current@ =~= seq![c]);
                }
            },
        }
    }
    if in_token {
        let ghost old_tokens = tokens@;
        let ghost old_current = current@;
        tokens.push(current);
        assert(token_texts(tokens@) =~= token_texts(old_tokens).push(old_current));
    }
    proof {
        lemma_tokens_are_the_non_space_characters(line@);
        assert forall|i: int| 0 <= i < tokens@.len() implies (#[trigger] tokens@[i])@.len() > 0 by {
            assert(token_texts(tokens@)[i] == tokens@[i]@);
        }
        assert forall|i: int, m: int| 0 <= i < tokens@.len() && 0 <= m < tokens@[i]@.len() implies !is_white_space(
            #[trigger] tokens@[i]@[m],
        ) by {
            assert(token_texts(tokens@)[i] == tokens@[i]@);
        }
    }
    tokens
}

/// How many values the lines among the first `k` that `key` heads carry after
/// the key.
pub open spec fn values_after_key(lines: Seq<Vec<String>>, key: Seq<char>, k: int) -> int
    decreases k,
{
    if k <= 0 {
        0
    } else {
        values_after_key(lines, key, k - 1) + if line_has_key(lines, k - 1, key) {
            lines[k - 1]@.len() - 1
        } else {
            0
        }
    }
}

/// A list key collects every value of every line it heads: each of them is
/// among its values, and it has no more values than those lines carry.
pub proof fn lemma_list_key_keeps_every_value(lines: Seq<Vec<String>>, key: Seq<char>, k: int)
    requires
        0 <= k <= lines.len(),
    ensures
        list_values(lines, key, k).len() == values_after_key(lines, key, k),
        forall|i: int, m: int|
            0 <= i < k && line_has_key(lines, i, key) && 1 <= m < lines[i]@.len() ==> list_values(
                lines,
                key,
                k,
            ).contains(#[trigger] lines[i]@[m]@),
    decreases k,
{
    if k > 0 {
        lemma_list_key_keeps_every_value(lines, key, k - 1);
        let before = list_values(lines, key, k - 1);
        let now = list_values(lines, key, k);
        assert forall|i: int, m: int|
            0 <= i < k && line_has_key(lines, i, key) && 1 <= m < lines[i]@.len() implies now.contains(
            #[trigger] lines[i]@[m]@,
        ) by {
            if i < k - 1 {
                let j = choose|j: int| 0 <= j < before.len() && before[j] == lines[i]@[m]@;
                assert(now[j] == before[j]);
            } else {
                let tail = texts(lines[k - 1]@.skip(1));
                assert(tail[m - 1] == lines[i]@[m]@);
                assert(now[before.len() + m - 1] == tail[m - 1]);
            }
        }
    }
}

/// A scalar key reads the first value of every line it heads with one: each
/// of them is among its values, and it has one value per such line.
pub proof fn lemma_scalar_key_reads_every_line(lines: Seq<Vec<String>>, key: Seq<char>, k: int)
    requires
        0 <= k <= lines.len(),
    ensures
        forall|i: int|
            0 <= i < k && line_has_key(lines, i, key) && lines[i]@.len() > 1 ==> scalar_values(
                lines,
                key,
                k,
            ).contains(#[trigger] lines[i]@[1]@),
        scalar_values(lines, key, k).len() <= k,
    decreases k,
{
    if k > 0 {
        lemma_scalar_key_reads_every_line(lines, key, k - 1);
        let before = scalar_values(lines, key, k - 1);
        let now = scalar_values(lines, key, k);
        assert forall|i: int|
            0 <= i < k && line_has_key(lines, i, key) && lines[i]@.len() > 1 implies now.contains(
            #[trigger] lines[i]@[1]@,
        ) by {
            if i < k - 1 {
                let j = choose|j: int| 0 <= j < before.len() && before[j] == lines[i]@[1]@;
                assert(now[j] == before[j]);
            } else {
                assert(now[before.len() as int] == lines[i]@[1]@);
            }
        }
    }
}

/// Sorts the lines of a DOPR54 dump (each split into its whitespace-separated
/// tokens) into the raw values of its keys.
pub fn parse_dopr54_dump_fields(lines: &Vec<Vec<String>>) -> (r: DumpFields)
    ensures
        fields_from(r, lines@, lines@.len() as int),
        texts(r.t@).len() == values_after_key(lines@, "t"@, lines@.len() as int),
        forall|i: int, m: int|
            0 <= i < lines@.len() && line_has_key(lines@, i, "t"@) && 1 <= m < lines@[i]@.len() ==> texts(
                r.t@,
            ).contains(#[trigger] lines@[i]@[m]@),
        texts(r.yo@).len() == values_after_key(lines@, "yo"@, lines@.len() as int),
        forall|i: int, m: int|
            0 <= i < lines@.len() && line_has_key(lines@, i, "yo"@) && 1 <= m < lines@[i]@.len() ==> texts(
                r.yo@,
            ).contains(#[trigger] lines@[i]@[m]@),
        texts(r.args@).len() == values_after_key(lines@, "args"@, lines@.len() as int),
        forall|i: int, m: int|
            0 <= i < lines@.len() && line_has_key(lines@, i, "args"@) && 1 <= m < lines@[i]@.len() ==> texts(
                r.args@,
            ).contains(#[trigger] lines@[i]@[m]@),
        forall|i: int|
            0 <= i < lines@.len() && line_has_key(lines@, i, "dim"@) && lines@[i]@.len() > 1 ==> texts(
                r.dim@,
            ).contains(#[trigger] lines@[i]@[1]@),
        forall|i: int|
            0 <= i < lines@.len() && line_has_key(lines@, i, "nt"@) && lines@[i]@.len() > 1 ==> texts(
                r.nt@,
            ).contains(#[trigger] lines@[i]@[1]@),
        forall|i: int|
            0 <= i < lines@.len() && line_has_key(lines@, i, "dt_one"@) && lines@[i]@.len() > 1 ==> texts(
                r.dt_one@,
            ).contains(#[trigger] lines@[i]@[1]@),
        forall|i: int|
            0 <= i < lines@.len() && line_has_key(lines@, i, "rtol"@) && lines@[i]@.len() > 1 ==> texts(
                r.rtol@,
            ).contains(#[trigger] lines@[i]@[1]@),
        forall|i: int|
            0 <= i < lines@.len() && line_has_key(lines@, i, "atol"@) && lines@[i]@.len() > 1 ==> texts(
                r.atol@,
            ).contains(#[trigger] lines@[i]@[1]@),
        forall|i: int|
            0 <= i < lines@.len() && line_has_key(lines@, i, "nargs"@) && lines@[i]@.len() > 1 ==> texts(
                r.nargs@,
            ).contains(#[trigger] lines@[i]@[1]@),
{
    let mut f = DumpFields {
        dim: Vec::new(),
        nt: Vec::new(),
        dt_one: Vec::new(),
        rtol: Vec::new(),
        atol: Vec::new(),
        t: Vec::new(),
        yo: Vec::new(),
        nargs: Vec::new(),
        args: Vec::new(),
    };
    proof {
        assert(texts(f.dim@) =~= Seq::<Seq<char>>::empty());
        assert(texts(f.nt@) =~= Seq::<Seq<char>>::empty());
        assert(texts(f.dt_one@) =~= Seq::<Seq<char>>::empty());
        assert(texts(f.rtol@) =~= Seq::<Seq<char>>::empty());
        assert(texts(f.atol@) =~= Seq::<Seq<char>>::empty());
        assert(texts(f.nargs@) =~= Seq::<Seq<char>>::empty());
        assert(texts(f.t@) =~= Seq::<Seq<char>>::empty());
        assert(texts(f.yo@) =~= Seq::<Seq<char>>::empty());
        assert(texts(f.args@) =~= Seq::<Seq<char>>::empty());
    }
    let mut k: usize = 0;
    while k < lines.len()
        invariant
            k <= lines@.len(),
            fields_from(f, lines@, k as int),
        decreases lines@.len() - k,
    {
        let line = &lines[k];
        proof {
            lemma_dump_keys_differ();
        }
        if line.len() > 0 {
            let key = line[0].as_str();
            if same_text(key, "dim") {
                push_first(&mut f.dim, line);
            } else if same_text(key, "nt") {
                push_first(&mut f.nt, line);
            } else if same_text(key, "dt_one") {
                push_first(&mut f.dt_one, line);
            } else if same_text(key, "rtol") {
                push_first(&mut f.rtol, line);
            } else if same_text(key, "atol") {
                push_first(&mut f.atol, line);
            } else if same_text(key, "nargs") {
                push_first(&mut f.nargs, line);
            } else if same_text(key, "t") {
                push_values(&mut f.t, line);
            } else if same_text(key, "yo") {
                push_values(&mut f.yo, line);
            } else if same_text(key, "args") {
                push_values(&mut f.args, line);
            }
        }
        k += 1;
    }
    proof {
        lemma_list_key_keeps_every_value(lines@, "t"@, lines@.len() as int);
        lemma_list_key_keeps_every_value(lines@, "yo"@, lines@.len() as int);
        lemma_list_key_keeps_every_value(lines@, "args"@, lines@.len() as int);
        lemma_scalar_key_reads_every_line(lines@, "dim"@, lines@.len() as int);
        lemma_scalar_key_reads_every_line(lines@, "nt"@, lines@.len() as int);
        lemma_scalar_key_reads_every_line(lines@, "dt_one"@, lines@.len() as int);
        lemma_scalar_key_reads_every_line(lines@, "rtol"@, lines@.len() as int);
        lemma_scalar_key_reads_every_line(lines@, "atol"@, lines@.len() as int);
        lemma_scalar_key_reads_every_line(lines@, "nargs"@, lines@.len() as int);
    }
    f
}

} // verus!
