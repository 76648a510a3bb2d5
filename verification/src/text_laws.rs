//! What the operations on texts are, whichever way they are computed.
use vstd::prelude::*;

use crate::text::{
    decimal, digit_char, digits_value, is_digit, is_lower, is_upper, is_white, join, lemma_join_split,
    lemma_split_join, lemma_split_nonempty, lemma_split_pieces, lemma_word_end, lines, lower, lt,
    parse_number, signed_decimal, split, strip_cr, trim, trim_end, trim_start, unsigned_digits,
    upper, word_end, words, words_from, Text,
};

verus! {

/// Two texts stand in the order of the first characters in which they differ; where one
/// begins with the other, the shorter one is first.
pub proof fn law_order_is_by_the_first_difference(a: Text, b: Text, k: int)
    requires
        0 <= k <= a.len(),
        k <= b.len(),
        a.take(k) == b.take(k),
        k < a.len() && k < b.len() ==> a[k] != b[k],
    ensures
        lt(a, b) <==> k < b.len() && (k == a.len() || a[k] < b[k]),
    decreases k,
{
    if k > 0 {
        assert(a.take(k)[0] == a[0] && b.take(k)[0] == b[0]);
        let (x, y) = (a.drop_first(), b.drop_first());
        assert forall|i: int| 0 <= i < k - 1 implies x[i] == y[i] by {
            assert(a.take(k)[i + 1] == a[i + 1] && b.take(k)[i + 1] == b[i + 1]);
        }
        assert(x.take(k - 1) =~= y.take(k - 1));
        law_order_is_by_the_first_difference(x, y, k - 1);
    }
}

/// A letter keeps its place in the alphabet when its case changes, and nothing but a
/// letter changes.
pub proof fn law_case_keeps_the_letter(c: char)
    ensures
        is_upper(c) ==> is_lower(lower(c)) && lower(c) as int - 'a' as int == c as int - 'A' as int,
        is_lower(c) ==> is_upper(upper(c)) && upper(c) as int - 'A' as int == c as int - 'a' as int,
        !is_upper(c) ==> lower(c) == c,
        !is_lower(c) ==> upper(c) == c,
        is_upper(c) ==> upper(lower(c)) == c,
        is_lower(c) ==> lower(upper(c)) == c,
{
}

/// What stands before each separator, and what stands behind the last, are the pieces of
/// a text: none holds the separator, joined by it they are the text, and no other pieces
/// do that.
pub proof fn law_split_is_the_inverse_of_join(s: Text, sep: char, parts: Seq<Text>)
    requires
        parts.len() > 0,
        forall|i: int| 0 <= i < parts.len() ==> !(#[trigger] parts[i]).contains(sep),
    ensures
        split(s, sep) == parts <==> join(parts, seq![sep]) == s,
{
    lemma_join_split(s, sep);
    lemma_split_join(parts, sep);
}

proof fn lemma_trim_start(s: Text)
    ensures
        ({
            let k = s.len() - trim_start(s).len();
            &&& 0 <= k <= s.len()
            &&& trim_start(s) == s.skip(k)
            &&& forall|i: int| 0 <= i < k ==> is_white(#[trigger] s[i])
            &&& trim_start(s).len() > 0 ==> !is_white(trim_start(s)[0])
        }),
    decreases s.len(),
{
    if s.len() > 0 && is_white(s[0]) {
        lemma_trim_start(s.drop_first());
        let k = s.len() - trim_start(s).len();
        assert(s.drop_first().skip(k - 1) =~= s.skip(k));
        assert forall|i: int| 0 <= i < k implies is_white(#[trigger] s[i]) by {
            if i > 0 {
                assert(s.drop_first()[i - 1] == s[i]);
            }
        }
    } else {
        assert(s.skip(0) =~= s);
    }
}

proof fn lemma_trim_end(s: Text)
    ensures
        ({
            let k = trim_end(s).len() as int;
            &&& 0 <= k <= s.len()
            &&& trim_end(s) == s.take(k)
            &&& forall|i: int| k <= i < s.len() ==> is_white(#[trigger] s[i])
            &&& trim_end(s).len() > 0 ==> !is_white(trim_end(s).last())
        }),
    decreases s.len(),
{
    if s.len() > 0 && is_white(s.last()) {
        lemma_trim_end(s.drop_last());
        let k = trim_end(s).len() as int;
        assert(s.drop_last().take(k) =~= s.take(k));
        assert forall|i: int| k <= i < s.len() implies is_white(#[trigger] s[i]) by {
            if i < s.len() - 1 {
                assert(s.drop_last()[i] == s[i]);
            }
        }
    } else {
        assert(s.take(s.len() as int) =~= s);
    }
}

/// Whether a text is nothing but white space.
pub open spec fn blank(s: Text) -> bool {
    forall|i: int| 0 <= i < s.len() ==> is_white(#[trigger] s[i])
}

/// A text between white space comes out of trimming as it is, if it neither begins nor
/// ends with white space itself.
pub proof fn law_trim_takes_the_white_space_around(a: Text, s: Text, b: Text)
    requires
        blank(a),
        blank(b),
        s.len() > 0 ==> !is_white(s[0]) && !is_white(s.last()),
    ensures
        trim(a + s + b) == s,
{
    let all = a + s + b;
    lemma_trim_start(all);
    lemma_trim_end(trim_start(all));
    let k = all.len() - trim_start(all).len();
    let t = trim_start(all);
    let j = trim_end(t).len() as int;
    if s.len() == 0 {
        if t.len() > 0 {
            assert(t[0] == all[k]);
            assert(if k < a.len() {
                all[k] == a[k]
            } else {
                all[k] == b[k - a.len()]
            });
        }
        assert(trim(all) =~= s);
    } else {
        if k < a.len() {
            assert(t[0] == all[k] && all[k] == a[k]);
        }
        if k > a.len() {
            assert(all[a.len() as int] == s[0]);
        }
        assert(k == a.len());
        assert(t =~= s + b);
        if j > s.len() {
            assert(trim_end(t).last() == t[j - 1] && t[j - 1] == b[j - 1 - s.len()]);
        }
        if j < s.len() {
            assert(t[s.len() - 1] == s.last());
        }
        assert(trim(all) =~= s);
    }
}

/// A text that holds something else than white space is not empty when it is trimmed.
pub proof fn lemma_trim_keeps(s: Text, i: int)
    requires
        0 <= i < s.len(),
        !is_white(s[i]),
    ensures
        trim(s).len() > 0,
{
    lemma_trim_start(s);
    let k = s.len() - trim_start(s).len();
    lemma_trim_end(trim_start(s));
    if i >= k {
        assert(trim_start(s)[i - k] == s[i]);
    }
}

proof fn lemma_word_end_behind(s: Text, x: Text, i: int)
    requires
        0 <= i <= s.len(),
        x.len() > 0 ==> is_white(x[0]) || (s.len() > 0 && is_white(s.last())),
        i == s.len() ==> x.len() == 0 || is_white(x[0]),
    ensures
        word_end(s + x, i) == word_end(s, i),
    decreases s.len() - i,
{
    if i < s.len() {
        assert((s + x)[i] == s[i]);
        if !is_white(s[i]) {
            if i + 1 == s.len() {
                assert(s.last() == s[i]);
            }
            lemma_word_end_behind(s, x, i + 1);
        }
    } else {
        if x.len() > 0 {
            assert((s + x)[i] == x[0]);
        }
    }
}

proof fn lemma_words_behind(s: Text, x: Text, i: int)
    requires
        0 <= i <= s.len(),
        x.len() > 0 ==> is_white(x[0]) || s.len() == 0 || is_white(s.last()),
    ensures
        words_from(s + x, i) == words_from(s, i) + words_from(s + x, s.len() as int),
    decreases s.len() - i,
{
    let all = s + x;
    let tail = words_from(all, s.len() as int);
    if i < s.len() {
        assert(all[i] == s[i]);
        if is_white(s[i]) {
            lemma_words_behind(s, x, i + 1);
        } else {
            if i + 1 == s.len() {
                assert(s.last() == s[i]);
            }
            lemma_word_end_behind(s, x, i + 1);
            lemma_word_end(s, i + 1);
            let e = word_end(s, i + 1);
            lemma_words_behind(s, x, e);
            assert(all.subrange(i, e) =~= s.subrange(i, e));
            assert(words_from(all, i) =~= seq![s.subrange(i, e)] + (words_from(s, e) + tail));
            assert(words_from(s, i) + tail =~= seq![s.subrange(i, e)] + (words_from(s, e) + tail));
        }
    } else {
        assert(words_from(s, i) =~= Seq::<Text>::empty());
        assert(words_from(s, i) + tail =~= tail);
    }
}

proof fn lemma_word_end_plain(s: Text, i: int)
    requires
        0 <= i <= s.len(),
        forall|j: int| i <= j < s.len() ==> !is_white(#[trigger] s[j]),
    ensures
        word_end(s, i) == s.len(),
    decreases s.len() - i,
{
    if i < s.len() {
        lemma_word_end_plain(s, i + 1);
    }
}

proof fn lemma_no_words(s: Text, i: int)
    requires
        0 <= i <= s.len(),
        forall|j: int| i <= j < s.len() ==> is_white(#[trigger] s[j]),
    ensures
        words_from(s, i) == Seq::<Text>::empty(),
    decreases s.len() - i,
{
    if i < s.len() {
        lemma_no_words(s, i + 1);
    }
}

/// White space at the end of a text adds no word to it; and a text without white space
/// that stands behind white space, or alone, is one more word.
pub proof fn law_words_stand_between_white_space(s: Text, w: Text)
    ensures
        words(Seq::empty()) == Seq::<Text>::empty(),
        blank(w) ==> words(s + w) == words(s),
        w.len() > 0 && (s.len() == 0 || is_white(s.last())) && (forall|i: int|
            0 <= i < w.len() ==> !is_white(#[trigger] w[i])) ==> words(s + w) == words(s).push(w),
{
    let all = s + w;
    let n = s.len() as int;
    if blank(w) {
        if w.len() > 0 {
            assert(is_white(w[0]));
        }
        lemma_words_behind(s, w, 0);
        assert forall|j: int| n <= j < all.len() implies is_white(#[trigger] all[j]) by {
            assert(all[j] == w[j - n]);
        }
        lemma_no_words(all, n);
        assert(words(all) =~= words(s));
    }
    if w.len() > 0 && (s.len() == 0 || is_white(s.last())) && (forall|i: int|
        0 <= i < w.len() ==> !is_white(#[trigger] w[i])) {
        lemma_words_behind(s, w, 0);
        assert forall|j: int| n <= j < all.len() implies !is_white(#[trigger] all[j]) by {
            assert(all[j] == w[j - n]);
        }
        lemma_word_end_plain(all, n + 1);
        assert(all.subrange(n, all.len() as int) =~= w);
        assert(words_from(all, all.len() as int) =~= Seq::<Text>::empty());
        assert(words_from(all, n) =~= seq![w]);
        assert(words(all) =~= words(s).push(w));
    }
}

proof fn lemma_join_front(first: Text, rest: Seq<Text>, sep: Text)
    requires
        rest.len() > 0,
    ensures
        join(seq![first] + rest, sep) == first + sep + join(rest, sep),
    decreases rest.len(),
{
    let all = seq![first] + rest;
    if rest.len() == 1 {
        assert(all.drop_last() =~= seq![first]);
        assert(join(seq![first], sep) == first);
    } else {
        lemma_join_front(first, rest.drop_last(), sep);
        assert(all.drop_last() =~= seq![first] + rest.drop_last());
        let j = join(rest.drop_last(), sep);
        assert(first + sep + j + sep + rest.last() =~= first + sep + (j + sep + rest.last()));
    }
}

/// What stands before the first line feed is the first line, without the carriage return
/// before it, and the lines of what follows are the others; a text without a line feed is
/// one line, unless it is empty.
pub proof fn law_lines_end_at_line_feeds(line: Text, rest: Text)
    requires
        !line.contains('\n'),
    ensures
        lines(line + "\n"@ + rest) == seq![strip_cr(line)] + lines(rest),
        line.len() > 0 ==> lines(line) == seq![line],
        lines(Seq::empty()) == Seq::<Text>::empty(),
{
    reveal_strlit("\n");
    let nl = seq!['\n'];
    assert("\n"@ =~= nl);
    let more = split(rest, '\n');
    lemma_split_nonempty(rest, '\n');
    lemma_split_pieces(rest, '\n');
    lemma_join_split(rest, '\n');
    lemma_join_front(line, more, nl);
    let parts = seq![line] + more;
    assert forall|i: int| 0 <= i < parts.len() implies !(#[trigger] parts[i]).contains('\n') by {
        if i > 0 {
            assert(parts[i] == more[i - 1]);
        }
    }
    lemma_split_join(parts, '\n');
    assert(split(line + "\n"@ + rest, '\n') == parts);
    assert(parts.last() == more.last());
    let strip = |l: Text| strip_cr(l);
    assert(parts.drop_last().map_values(strip) =~= seq![strip_cr(line)]
        + more.drop_last().map_values(strip));
    assert(lines(line + "\n"@ + rest) =~= seq![strip_cr(line)] + lines(rest));
    lemma_split_join(seq![line], '\n');
    assert(join(seq![line], nl) == line);
    assert(seq![line].drop_last().map_values(strip) =~= Seq::<Text>::empty());
    if line.len() > 0 {
        assert(lines(line) =~= seq![line]);
    }
    let none = Seq::<char>::empty();
    assert(split(none, '\n') =~= seq![none]);
    assert(seq![none].drop_last().map_values(strip) =~= Seq::<Text>::empty());
    assert(lines(none) =~= Seq::<Text>::empty());
}

/// The digits of a number are its decimal digits: they are digits, the first is not a
/// zero unless it is the only one, and their value is the number.
pub proof fn law_decimal_is_the_number(n: nat)
    ensures
        decimal(n).len() > 0,
        forall|i: int| 0 <= i < decimal(n).len() ==> is_digit(#[trigger] decimal(n)[i]),
        decimal(n).len() > 1 ==> decimal(n)[0] != '0',
        digits_value(decimal(n)) == n,
    decreases n,
{
    if n < 10 {
        let d = decimal(n);
        assert(d =~= seq![digit_char(n)]);
        assert(d.drop_last() =~= Seq::<char>::empty());
        assert(digits_value(Seq::<char>::empty()) == 0);
    } else {
        law_decimal_is_the_number(n / 10);
        let d = decimal(n);
        let front = decimal(n / 10);
        assert(d.drop_last() =~= front);
        assert(d[0] == front[0]);
        if front.len() == 1 {
            assert(digits_value(front.drop_last()) == 0) by {
                assert(front.drop_last() =~= Seq::<char>::empty());
            }
            assert(n / 10 > 0);
            assert(front[0] != '0');
        }
        assert forall|i: int| 0 <= i < d.len() implies is_digit(#[trigger] d[i]) by {
            if i < front.len() {
                assert(d[i] == front[i]);
            }
        }
    }
}

/// A number that is written in decimal is read back, with a plus before it or without;
/// behind a minus it is no number.
pub proof fn law_numbers_are_read_back(n: u64)
    ensures
        parse_number(decimal(n as nat)) == Some(n),
        parse_number("+"@ + decimal(n as nat)) == Some(n),
        parse_number("-"@ + decimal(n as nat)) is None,
        signed_decimal(n as int) == decimal(n as nat),
        n > 0 ==> signed_decimal(-(n as int)) == "-"@ + decimal(n as nat),
{
    law_decimal_is_the_number(n as nat);
    let d = decimal(n as nat);
    reveal_strlit("+");
    reveal_strlit("-");
    assert(d[0] != '+') by {
        assert(is_digit(d[0]));
    }
    assert(unsigned_digits(d) == d);
    let p = "+"@ + d;
    assert(p.drop_first() =~= d);
    assert(unsigned_digits(p) == d);
    let m = "-"@ + d;
    assert(unsigned_digits(m) == m);
    assert(m[0] == '-');
    assert(!is_digit(m[0]));
}

/// A text that is read as a number consists of digits, behind a plus or nothing: any
/// other text is no number, and neither is the empty one.
pub proof fn law_only_digits_are_a_number(s: Text, i: int)
    ensures
        parse_number(Seq::empty()) is None,
        0 <= i < s.len() && !is_digit(s[i]) && !(i == 0 && s[0] == '+') ==> parse_number(s) is None,
        s == "+"@ ==> parse_number(s) is None,
{
    reveal_strlit("+");
    let none = Seq::<char>::empty();
    assert(unsigned_digits(none) == none);
    if 0 <= i < s.len() && !is_digit(s[i]) && !(i == 0 && s[0] == '+') {
        let d = unsigned_digits(s);
        if s.len() > 1 && s[0] == '+' {
            assert(d[i - 1] == s[i]);
            assert(!is_digit(d[i - 1]));
        } else {
            assert(d[i] == s[i]);
            assert(!is_digit(d[i]));
        }
    }
    if s == "+"@ {
        assert(s[0] == '+');
        assert(!is_digit(s[0]));
    }
}

} // verus!
