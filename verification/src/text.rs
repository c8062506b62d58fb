//! Small text building blocks: decimal numbers, fixed-point tenths, padding and prefixes.

use vstd::prelude::*;

verus! {

/// `String::push` of the standard library: appends one character.
pub assume_specification[ String::push ](s: &mut String, c: char)
    ensures
        final(s)@ == old(s)@.push(c),
;

/// The character of a decimal digit.
pub open spec fn digit(d: nat) -> char
    recommends
        d < 10,
{
    ('0' as nat + d) as char
}

/// A number in decimal, without sign or leading zeros.
pub open spec fn decimal(n: nat) -> Seq<char>
    decreases n,
{
    if n < 10 {
        seq![digit(n)]
    } else {
        decimal(n / 10).push(digit(n % 10))
    }
}

/// A number of tenths with one decimal place.
pub open spec fn tenths(t: nat) -> Seq<char> {
    decimal(t / 10) + "."@ + decimal(t % 10)
}

/// A number of hundredths with two decimal places.
pub open spec fn hundredths(h: nat) -> Seq<char> {
    decimal(h / 100) + "."@ + decimal(h / 10 % 10) + decimal(h % 10)
}

/// `text` right-aligned in a field of `width` characters.
pub open spec fn right_aligned(text: Seq<char>, width: nat) -> Seq<char> {
    if text.len() < width {
        Seq::new((width - text.len()) as nat, |i: int| ' ') + text
    } else {
        text
    }
}

fn push_digit(out: &mut String, d: u64)
    requires
        d < 10,
    ensures
        final(out)@ == old(out)@.push(digit(d as nat)),
{
    let code: u8 = 48 + d as u8;
    out.push(code as char);
}

/// Appends `n` in decimal.
pub(crate) fn push_decimal(out: &mut String, n: u64)
    ensures
        final(out)@ == old(out)@ + decimal(n as nat),
    decreases n,
{
    if n < 10 {
        push_digit(out, n);
        assert(out@ =~= old(out)@ + decimal(n as nat));
    } else {
        push_decimal(out, n / 10);
        push_digit(out, n % 10);
        assert(out@ =~= old(out)@ + decimal(n as nat));
    }
}

/// `n` in decimal.
pub(crate) fn decimal_text(n: u64) -> (text: String)
    ensures
        text@ == decimal(n as nat),
{
    let mut out = String::new();
    push_decimal(&mut out, n);
    assert(out@ =~= decimal(n as nat));
    out
}

/// `t` tenths with one decimal place.
pub(crate) fn tenths_text(t: u64) -> (text: String)
    ensures
        text@ == tenths(t as nat),
{
    let mut out = decimal_text(t / 10);
    out.append(".");
    push_decimal(&mut out, t % 10);
    out
}

/// `h` hundredths with two decimal places.
pub(crate) fn hundredths_text(h: u64) -> (text: String)
    ensures
        text@ == hundredths(h as nat),
{
    let mut out = decimal_text(h / 100);
    out.append(".");
    push_decimal(&mut out, h / 10 % 10);
    push_decimal(&mut out, h % 10);
    out
}

/// Right-aligns `text` in a field of `width` characters; a longer text is left as it is.
pub(crate) fn pad_left(text: &str, width: usize) -> (padded: String)
    ensures
        padded@ == right_aligned(text@, width as nat),
{
    let len = text.unicode_len();
    let mut out = String::new();
    if len < width {
        let missing: usize = width - len;
        let mut done: usize = 0;
        while done < missing
            invariant
                done <= missing,
                out@ == Seq::new(done as nat, |i: int| ' '),
            decreases missing - done,
        {
            out.push(' ');
            done = done + 1;
            assert(out@ =~= Seq::new(done as nat, |i: int| ' '));
        }
    }
    out.append(text);
    assert(len >= width ==> out@ =~= text@);
    out
}

/// The characters of `text`.
pub(crate) fn chars_of(text: &str) -> (chars: Vec<char>)
    ensures
        chars@ == text@,
{
    let mut chars: Vec<char> = Vec::new();
    for c in it: text.chars()
        invariant
            it.seq() == text@,
            chars@ == text@.take(it.index() as int),
    {
        assert(text@.take(it.index() as int).push(c) =~= text@.take(it.index() + 1));
        chars.push(c);
    }
    assert(text@.take(text@.len() as int) =~= text@);
    chars
}

/// Whether `text` begins with `prefix`.
pub open spec fn starts_with(text: Seq<char>, prefix: Seq<char>) -> bool {
    prefix.is_prefix_of(text)
}

/// Whether `text` begins with `prefix`.
pub(crate) fn has_prefix(text: &str, prefix: &str) -> (found: bool)
    ensures
        found == starts_with(text@, prefix@),
{
    let text_chars = chars_of(text);
    let prefix_chars = chars_of(prefix);
    if prefix_chars.len() > text_chars.len() {
        return false;
    }
    let mut i: usize = 0;
    while i < prefix_chars.len()
        invariant
            i <= prefix_chars@.len() <= text_chars@.len(),
            prefix_chars@ == prefix@,
            text_chars@ == text@,
            forall|j: int| 0 <= j < i ==> prefix@[j] == text@[j],
        decreases prefix_chars@.len() - i,
    {
        if prefix_chars[i] != text_chars[i] {
            assert(text@.take(prefix@.len() as int)[i as int] != prefix@[i as int]);
            return false;
        }
        i = i + 1;
    }
    assert(prefix@ =~= text@.take(prefix@.len() as int));
    true
}

/// What follows `prefix` in `text`, if `text` begins with it.
pub open spec fn stripped(text: Seq<char>, prefix: Seq<char>) -> Option<Seq<char>> {
    if starts_with(text, prefix) {
        Some(text.skip(prefix.len() as int))
    } else {
        None
    }
}

/// What follows `prefix` in `text`, if `text` begins with it.
pub(crate) fn strip(text: &str, prefix: &str) -> (rest: Option<String>)
    ensures
        rest is Some <==> stripped(text@, prefix@) is Some,
        rest matches Some(r) ==> Some(r@) == stripped(text@, prefix@),
{
    if !has_prefix(text, prefix) {
        return None;
    }
    let from = prefix.unicode_len();
    let to = text.unicode_len();
    let rest = text.substring_char(from, to);
    assert(rest@ =~= text@.skip(prefix@.len() as int));
    Some(rest.to_owned())
}

/// Whether `part` stands at `at` in `whole`.
pub open spec fn stands_at(whole: Seq<char>, part: Seq<char>, at: int) -> bool {
    0 <= at <= at + part.len() <= whole.len() && whole.subrange(at, at + part.len()) == part
}

/// Whether `part` stands somewhere in `whole`.
pub open spec fn holds(whole: Seq<char>, part: Seq<char>) -> bool {
    exists|at: int| stands_at(whole, part, at)
}

pub(crate) broadcast proof fn lemma_holds_end(head: Seq<char>, part: Seq<char>)
    ensures
        #[trigger] holds(head + part, part),
{
    assert((head + part).subrange(head.len() as int, (head.len() + part.len()) as int) =~= part);
    assert(stands_at(head + part, part, head.len() as int));
}

pub(crate) broadcast proof fn lemma_holds_before(head: Seq<char>, tail: Seq<char>, part: Seq<char>)
    requires
        holds(head, part),
    ensures
        #[trigger] holds(head + tail, part),
{
    let at = choose|at: int| stands_at(head, part, at);
    assert((head + tail).subrange(at, at + part.len()) =~= head.subrange(at, at + part.len()));
    assert(stands_at(head + tail, part, at));
}

pub(crate) proof fn lemma_holds_within(whole: Seq<char>, middle: Seq<char>, part: Seq<char>)
    requires
        holds(whole, middle),
        holds(middle, part),
    ensures
        holds(whole, part),
{
    let outer = choose|at: int| stands_at(whole, middle, at);
    let inner = choose|at: int| stands_at(middle, part, at);
    let at = outer + inner;
    assert(whole.subrange(at, at + part.len()) =~= middle.subrange(inner, inner + part.len()));
    assert(stands_at(whole, part, at));
}

/// How often `c` stands among the first `end` characters of `text`.
pub open spec fn count_before(text: Seq<char>, c: char, end: nat) -> nat
    decreases end,
{
    if end == 0 {
        0
    } else if text[end - 1] == c {
        count_before(text, c, (end - 1) as nat) + 1
    } else {
        count_before(text, c, (end - 1) as nat)
    }
}

/// How often `c` stands in `text`.
pub open spec fn count(text: Seq<char>, c: char) -> nat {
    count_before(text, c, text.len())
}

proof fn lemma_count_before_same(a: Seq<char>, b: Seq<char>, c: char, end: nat)
    requires
        end <= a.len(),
        end <= b.len(),
        forall|i: int| 0 <= i < end ==> a[i] == b[i],
    ensures
        count_before(a, c, end) == count_before(b, c, end),
    decreases end,
{
    if end > 0 {
        lemma_count_before_same(a, b, c, (end - 1) as nat);
    }
}

proof fn lemma_count_before_joined(a: Seq<char>, b: Seq<char>, c: char, end: nat)
    requires
        end <= b.len(),
    ensures
        count_before(a + b, c, a.len() + end) == count(a, c) + count_before(b, c, end),
    decreases end,
{
    if end == 0 {
        lemma_count_before_same(a + b, a, c, a.len());
    } else {
        assert((a + b)[a.len() + end - 1] == b[end - 1]);
        lemma_count_before_joined(a, b, c, (end - 1) as nat);
    }
}

pub(crate) broadcast proof fn lemma_count_joined(a: Seq<char>, b: Seq<char>, c: char)
    ensures
        #[trigger] count(a + b, c) == count(a, c) + count(b, c),
{
    lemma_count_before_joined(a, b, c, b.len());
}

pub(crate) proof fn lemma_count_absent(text: Seq<char>, c: char)
    requires
        forall|i: int| 0 <= i < text.len() ==> text[i] != c,
    ensures
        count(text, c) == 0,
{
    lemma_count_before_absent(text, c, text.len());
}

proof fn lemma_count_before_absent(text: Seq<char>, c: char, end: nat)
    requires
        end <= text.len(),
        forall|i: int| 0 <= i < text.len() ==> text[i] != c,
    ensures
        count_before(text, c, end) == 0,
    decreases end,
{
    if end > 0 {
        lemma_count_before_absent(text, c, (end - 1) as nat);
    }
}

/// A character that stands at one place only is counted once.
pub(crate) proof fn lemma_count_single(text: Seq<char>, c: char, at: int)
    requires
        0 <= at < text.len(),
        text[at] == c,
        forall|i: int| 0 <= i < text.len() && i != at ==> text[i] != c,
    ensures
        count(text, c) == 1,
{
    let head = text.take(at);
    let tail = text.skip(at + 1);
    assert(text =~= head + seq![c] + tail);
    lemma_count_joined(head + seq![c], tail, c);
    lemma_count_joined(head, seq![c], c);
    lemma_count_absent(head, c);
    lemma_count_absent(tail, c);
    reveal_with_fuel(count_before, 2);
}

/// A character that stands at two places is counted twice.
pub(crate) proof fn lemma_count_pair(text: Seq<char>, c: char, first: int, second: int)
    requires
        0 <= first < second < text.len(),
        text[first] == c,
        text[second] == c,
        forall|i: int| 0 <= i < text.len() && i != first && i != second ==> text[i] != c,
    ensures
        count(text, c) == 2,
{
    let head = text.take(second);
    let tail = text.skip(second);
    assert(text =~= head + tail);
    lemma_count_joined(head, tail, c);
    lemma_count_single(head, c, first);
    lemma_count_single(tail, c, 0);
}

/// A number in decimal is made of digits.
pub(crate) proof fn lemma_decimal_is_digits(n: nat)
    ensures
        forall|i: int| 0 <= i < decimal(n).len() ==> '0' <= #[trigger] decimal(n)[i] <= '9',
    decreases n,
{
    if n >= 10 {
        let init = decimal(n / 10);
        lemma_decimal_is_digits(n / 10);
        assert forall|i: int| 0 <= i < decimal(n).len() implies '0' <= #[trigger] decimal(n)[i]
            <= '9' by {
            assert(decimal(n)[i] == if i < init.len() {
                init[i]
            } else {
                digit(n % 10)
            });
        }
    }
}

/// The number that a text of decimal digits spells.
pub open spec fn number_read(text: Seq<char>) -> int
    decreases text.len(),
{
    if text.len() == 0 {
        0
    } else {
        10 * number_read(text.drop_last()) + (text.last() as int - '0' as int)
    }
}

/// Whether `text` is made of decimal digits.
pub open spec fn is_digits(text: Seq<char>) -> bool {
    forall|i: int| 0 <= i < text.len() ==> '0' <= #[trigger] text[i] <= '9'
}

/// A number in decimal reads back as that number. It is made of digits, and only 0 starts with a
/// zero.
pub proof fn law_decimals_read_back(n: nat)
    ensures
        number_read(decimal(n)) == n,
        is_digits(decimal(n)),
        decimal(n).len() > 0,
        decimal(n)[0] == '0' ==> n == 0 && decimal(n).len() == 1,
    decreases n,
{
    lemma_decimal_is_digits(n);
    if n < 10 {
        assert(decimal(n).drop_last() =~= seq![]);
        assert(number_read(seq![]) == 0);
    } else {
        let init = decimal(n / 10);
        law_decimals_read_back(n / 10);
        assert(decimal(n).drop_last() =~= init);
        assert(decimal(n)[0] == init[0]);
    }
}

/// A number of tenths shows its whole part, a full stop and one digit, and without the full stop
/// reads back as the number of tenths.
pub proof fn law_tenths_read_back(t: nat)
    ensures
        ({
            let shown = tenths(t);
            let point = shown.len() - 2;
            &&& point > 0
            &&& shown[point] == '.'
            &&& shown.take(point) == decimal(t / 10)
            &&& is_digits(shown.take(point) + shown.skip(point + 1))
            &&& number_read(shown.take(point) + shown.skip(point + 1)) == t
        }),
{
    reveal_strlit(".");
    law_decimals_read_back(t / 10);
    law_decimals_read_back(t % 10);
    let shown = tenths(t);
    let whole = decimal(t / 10);
    let point = shown.len() - 2;
    let rest = shown.take(point) + shown.skip(point + 1);
    assert(decimal(t % 10).len() == 1);
    assert(shown.take(point) =~= whole);
    assert(shown.skip(point + 1) =~= decimal(t % 10));
    assert(rest.drop_last() =~= whole);
    assert(rest.last() == digit(t % 10));
}

/// A number of hundredths shows its whole part, a full stop and two digits, and without the full
/// stop reads back as the number of hundredths.
pub proof fn law_hundredths_read_back(h: nat)
    ensures
        ({
            let shown = hundredths(h);
            let point = shown.len() - 3;
            &&& point > 0
            &&& shown[point] == '.'
            &&& shown.take(point) == decimal(h / 100)
            &&& is_digits(shown.take(point) + shown.skip(point + 1))
            &&& number_read(shown.take(point) + shown.skip(point + 1)) == h
        }),
{
    reveal_strlit(".");
    law_decimals_read_back(h / 100);
    law_decimals_read_back(h / 10 % 10);
    law_decimals_read_back(h % 10);
    let shown = hundredths(h);
    let whole = decimal(h / 100);
    let point = shown.len() - 3;
    let rest = shown.take(point) + shown.skip(point + 1);
    assert(decimal(h / 10 % 10).len() == 1 && decimal(h % 10).len() == 1);
    assert(shown.take(point) =~= whole);
    assert(shown.skip(point + 1) =~= decimal(h / 10 % 10) + decimal(h % 10));
    assert(rest.drop_last().drop_last() =~= whole);
    assert(rest.drop_last().last() == digit(h / 10 % 10));
    assert(rest.last() == digit(h % 10));
    let tens = rest.drop_last();
    assert(number_read(tens) == 10 * (h / 100) + h / 10 % 10);
    assert(number_read(rest) == 10 * number_read(tens) + h % 10);
    assert(is_digits(rest)) by {
        assert forall|i: int| 0 <= i < rest.len() implies '0' <= #[trigger] rest[i] <= '9' by {
            assert(i < whole.len() ==> rest[i] == whole[i]);
        }
    }
}

/// A right-aligned text ends its field, which is as wide as asked for or as the text, and has
/// only spaces before it.
pub proof fn law_right_aligned_texts_end_their_field(text: Seq<char>, width: nat)
    ensures
        ({
            let field = right_aligned(text, width);
            let blank = field.len() - text.len();
            &&& blank >= 0
            &&& field.len() == width || (text.len() > width && blank == 0)
            &&& field.skip(blank) == text
            &&& forall|i: int| 0 <= i < blank ==> #[trigger] field[i] == ' '
        }),
{
    let field = right_aligned(text, width);
    assert(field.skip(field.len() - text.len()) =~= text);
}

/// `text` split at each `c`: what stands before, between and behind them.
pub open spec fn split(text: Seq<char>, c: char) -> Seq<Seq<char>>
    decreases text.len(),
{
    if text.len() == 0 {
        seq![seq![]]
    } else if text.last() == c {
        split(text.drop_last(), c).push(seq![])
    } else {
        let init = split(text.drop_last(), c);
        init.drop_last().push(init.last().push(text.last()))
    }
}

pub(crate) proof fn lemma_split_some(text: Seq<char>, c: char)
    ensures
        split(text, c).len() > 0,
    decreases text.len(),
{
    if text.len() > 0 {
        lemma_split_some(text.drop_last(), c);
    }
}

/// Behind a `c`, splitting starts anew.
pub(crate) proof fn lemma_split_joined(a: Seq<char>, b: Seq<char>, c: char)
    requires
        a.len() == 0 || a.last() == c,
    ensures
        split(a + b, c) == split(a, c).drop_last() + split(b, c),
    decreases b.len(),
{
    lemma_split_some(a, c);
    lemma_split_some(b, c);
    if b.len() == 0 {
        assert(a + b =~= a);
        let parts = split(a, c);
        assert(parts.last() =~= Seq::<char>::empty());
        assert(parts.drop_last() + split(b, c) =~= parts);
    } else {
        lemma_split_joined(a, b.drop_last(), c);
        lemma_split_some(b.drop_last(), c);
        assert((a + b).drop_last() =~= a + b.drop_last());
        let head = split(a, c).drop_last();
        let init = split(b.drop_last(), c);
        if b.last() == c {
            assert(head + init.push(seq![]) =~= (head + init).push(seq![]));
        } else {
            let last = init.last().push(b.last());
            assert((head + init).drop_last() =~= head + init.drop_last());
            assert((head + init).last() == init.last());
            assert((head + init.drop_last()).push(last) =~= head + init.drop_last().push(last));
        }
    }
}

/// A text without `c` is not split.
pub(crate) proof fn lemma_split_absent(text: Seq<char>, c: char)
    requires
        forall|i: int| 0 <= i < text.len() ==> text[i] != c,
    ensures
        split(text, c) == seq![text],
    decreases text.len(),
{
    if text.len() == 0 {
        assert(text =~= seq![]);
    } else {
        lemma_split_absent(text.drop_last(), c);
        let init = split(text.drop_last(), c);
        assert(init.last().push(text.last()) =~= text);
        assert(init.drop_last().push(text) =~= seq![text]);
    }
}

/// What holds no `c` goes on the last part.
pub(crate) proof fn lemma_split_more(whole: Seq<char>, more: Seq<char>, c: char)
    requires
        forall|i: int| 0 <= i < more.len() ==> more[i] != c,
    ensures
        split(whole + more, c) == split(whole, c).drop_last().push(split(whole, c).last() + more),
    decreases more.len(),
{
    lemma_split_some(whole, c);
    let parts = split(whole, c);
    if more.len() == 0 {
        assert(whole + more =~= whole);
        assert(parts.last() + more =~= parts.last());
        assert(parts.drop_last().push(parts.last()) =~= parts);
    } else {
        let init = more.drop_last();
        lemma_split_more(whole, init, c);
        assert((whole + more).drop_last() =~= whole + init);
        assert((whole + more).last() == more.last());
        let before = split(whole + init, c);
        assert(before.drop_last() =~= parts.drop_last());
        assert((parts.last() + init).push(more.last()) =~= parts.last() + more);
    }
}

/// A value, and a part between two `c` behind it.
pub(crate) proof fn lemma_split_value(
    whole: Seq<char>,
    parts: Seq<Seq<char>>,
    value: Seq<char>,
    between: Seq<char>,
    middle: Seq<char>,
    c: char,
)
    requires
        split(whole, c) == parts.push(seq![]),
        forall|i: int| 0 <= i < value.len() ==> value[i] != c,
        forall|i: int| 0 <= i < middle.len() ==> middle[i] != c,
        between =~= seq![c] + middle + seq![c],
    ensures
        split(whole + value + between, c) == parts.push(value).push(middle).push(seq![]),
{
    lemma_split_more(whole, value, c);
    assert(Seq::<char>::empty() + value =~= value);
    assert(parts.push(seq![]).drop_last() =~= parts);
    let a = whole + value;
    let b = a + seq![c];
    assert(b.drop_last() =~= a);
    assert(split(b, c) == parts.push(value).push(seq![]));
    lemma_split_more(b, middle, c);
    assert(Seq::<char>::empty() + middle =~= middle);
    assert(split(b, c).drop_last() =~= parts.push(value));
    let d = b + middle;
    assert(whole + value + between =~= d.push(c));
    assert(d.push(c).drop_last() =~= d);
}

/// Whether `text` is made of these lines, each with a line feed at its end.
pub open spec fn is_lines(text: Seq<char>, lines: Seq<Seq<char>>) -> bool {
    split(text, '\n') == lines.push(seq![])
}

/// A text with one line feed, at its end, is one line.
pub(crate) proof fn lemma_one_line(line: Seq<char>)
    requires
        count(line, '\n') == 0,
    ensures
        is_lines(line.push('\n'), seq![line]),
{
    lemma_none_counted(line, '\n', line.len());
    lemma_split_absent(line, '\n');
    assert(line.push('\n').drop_last() =~= line);
}

proof fn lemma_none_counted(text: Seq<char>, c: char, end: nat)
    requires
        end <= text.len(),
        count_before(text, c, end) == 0,
    ensures
        forall|i: int| 0 <= i < end ==> text[i] != c,
    decreases end,
{
    if end > 0 {
        lemma_none_counted(text, c, (end - 1) as nat);
    }
}

/// Lines and more lines are lines.
pub(crate) proof fn lemma_lines_joined(
    a: Seq<char>,
    a_lines: Seq<Seq<char>>,
    b: Seq<char>,
    b_lines: Seq<Seq<char>>,
)
    requires
        is_lines(a, a_lines),
        is_lines(b, b_lines),
    ensures
        is_lines(a + b, a_lines + b_lines),
{
    lemma_last_part(a, '\n');
    lemma_split_joined(a, b, '\n');
    assert(split(a, '\n').drop_last() =~= a_lines);
    assert(a_lines + b_lines.push(seq![]) =~= (a_lines + b_lines).push(seq![]));
}

/// Nothing stands behind the last `c` only where the text is empty or ends in it.
pub(crate) proof fn lemma_last_part(text: Seq<char>, c: char)
    ensures
        split(text, c).last().len() == 0 ==> text.len() == 0 || text.last() == c,
{
}

} // verus!
