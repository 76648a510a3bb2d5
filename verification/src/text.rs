//! Text as a sequence of characters: the string operations the compiler needs,
//! each specified over `Seq<char>`.
use vstd::prelude::*;

verus! {

/// The mathematical model of a string.
pub type Text = Seq<char>;

/// `String::push_str` appends the given text.
pub assume_specification[ std::string::String::push_str ](s: &mut std::string::String, other: &str)
    ensures
        final(s)@ == old(s)@ + other@,
;

/// `String::push` appends one character.
pub assume_specification[ std::string::String::push ](s: &mut std::string::String, c: char)
    ensures
        final(s)@ == old(s)@.push(c),
;

/// Comparing two string slices compares their characters.
pub assume_specification[ <str as PartialEq>::eq ](a: &str, b: &str) -> (r: bool)
    ensures
        r == (a@ == b@),
;

/// What the `Debug` form of a string slice is: the text in double quotes, with
/// the escapes of a Rust string literal.
pub uninterp spec fn quoted(s: Text) -> Text;

/// The `Debug` form of a string slice (`format!("{:?}", s)`), which depends on
/// the text alone.
#[verifier::external_body]
pub(crate) fn quote(s: &str) -> (out: String)
    ensures
        out@ == quoted(s@),
{
    format!("{:?}", s)
}

/// The model of a result whose value and error have models.
pub open spec fn outcome<T: DeepView, E: DeepView>(r: Result<T, E>) -> Result<T::V, E::V> {
    match r {
        Ok(v) => Ok(v.deep_view()),
        Err(e) => Err(e.deep_view()),
    }
}

// ---------------------------------------------------------------------------
// Equality, order, conversion
// ---------------------------------------------------------------------------

/// Whether two slices hold the same characters.
pub fn same(a: &str, b: &str) -> (r: bool)
    ensures
        r == (a@ == b@),
{
    *a == *b
}

/// The characters of a string slice.
pub fn chars_of(s: &str) -> (out: Vec<char>)
    ensures
        out@ == s@,
{
    let mut out: Vec<char> = Vec::new();
    for c in it: s.chars()
        invariant
            out@ == it.seq().take(it.index()),
            it.seq() == s@,
    {
        out.push(c);
        proof {
            assert(it.seq().take(it.index() + 1) =~= it.seq().take(it.index()).push(c));
        }
    }
    assert(s@.take(s@.len() as int) =~= s@);
    out
}

/// The string holding the characters `chars[from..to]`.
pub fn string_of(chars: &Vec<char>, from: usize, to: usize) -> (out: String)
    requires
        from <= to <= chars.len(),
    ensures
        out@ == chars@.subrange(from as int, to as int),
{
    let mut out = String::new();
    let mut i: usize = from;
    while i < to
        invariant
            from <= i <= to <= chars.len(),
            out@ == chars@.subrange(from as int, i as int),
        decreases to - i,
    {
        out.push(chars[i]);
        i += 1;
        proof {
            assert(chars@.subrange(from as int, i as int) =~= chars@.subrange(
                from as int,
                i - 1,
            ).push(chars@[i - 1]));
        }
    }
    out
}

/// Dictionary order by code point, which is the order of `str`.
pub open spec fn lt(a: Text, b: Text) -> bool
    decreases b.len(),
{
    if b.len() == 0 {
        false
    } else if a.len() == 0 {
        true
    } else if a[0] == b[0] {
        lt(a.drop_first(), b.drop_first())
    } else {
        a[0] < b[0]
    }
}

/// No text precedes itself.
pub proof fn lemma_lt_irreflexive(a: Text)
    ensures
        !lt(a, a),
    decreases a.len(),
{
    if a.len() > 0 {
        lemma_lt_irreflexive(a.drop_first());
    }
}

/// Dictionary order is transitive.
pub proof fn lemma_lt_transitive(a: Text, b: Text, c: Text)
    requires
        lt(a, b),
        lt(b, c),
    ensures
        lt(a, c),
    decreases c.len(),
{
    if a.len() > 0 && a[0] == b[0] && b[0] == c[0] {
        lemma_lt_transitive(a.drop_first(), b.drop_first(), c.drop_first());
    }
}

/// Of two different texts one precedes the other.
pub proof fn lemma_lt_total(a: Text, b: Text)
    ensures
        lt(a, b) || lt(b, a) || a == b,
    decreases b.len(),
{
    if a.len() == 0 && b.len() == 0 {
        assert(a =~= b);
    } else if a.len() > 0 && b.len() > 0 && a[0] == b[0] {
        lemma_lt_total(a.drop_first(), b.drop_first());
        if a.drop_first() == b.drop_first() {
            assert(a =~= seq![a[0]] + a.drop_first());
            assert(b =~= seq![b[0]] + b.drop_first());
        }
    }
}

/// Whether `a` precedes `b` in dictionary order.
pub fn less(a: &str, b: &str) -> (r: bool)
    ensures
        r == lt(a@, b@),
{
    let x = chars_of(a);
    let y = chars_of(b);
    let mut i: usize = 0;
    assert(x@.skip(0) =~= x@ && y@.skip(0) =~= y@);
    while i < x.len() && i < y.len() && x[i] == y[i]
        invariant
            i <= x.len(),
            i <= y.len(),
            lt(x@, y@) == lt(x@.skip(i as int), y@.skip(i as int)),
        decreases x.len() - i,
    {
        proof {
            assert(x@.skip(i as int).drop_first() =~= x@.skip(i + 1));
            assert(y@.skip(i as int).drop_first() =~= y@.skip(i + 1));
        }
        i += 1;
    }
    if i >= y.len() {
        false
    } else if i >= x.len() {
        true
    } else {
        x[i] < y[i]
    }
}

// ---------------------------------------------------------------------------
// Searching
// ---------------------------------------------------------------------------

/// The first index of `c` in `s`, or the length of `s` when `c` is absent.
pub open spec fn find(s: Text, c: char) -> int
    decreases s.len(),
{
    if s.len() == 0 || s[0] == c {
        0
    } else {
        1 + find(s.drop_first(), c)
    }
}

/// `find` is characterised by what stands before and at the index.
pub proof fn lemma_find(s: Text, c: char)
    ensures
        0 <= find(s, c) <= s.len(),
        forall|j: int| 0 <= j < find(s, c) ==> s[j] != c,
        find(s, c) < s.len() ==> s[find(s, c)] == c,
    decreases s.len(),
{
    if s.len() > 0 && s[0] != c {
        lemma_find(s.drop_first(), c);
        assert forall|j: int| 0 <= j < find(s, c) implies s[j] != c by {
            if j > 0 {
                assert(s[j] == s.drop_first()[j - 1]);
            }
        }
    }
}

/// The index of the last `c` in `s`, or `-1` when `c` is absent.
pub open spec fn rfind(s: Text, c: char) -> int
    decreases s.len(),
{
    if s.len() == 0 {
        -1
    } else if s.last() == c {
        s.len() - 1
    } else {
        rfind(s.drop_last(), c)
    }
}

/// `rfind` is characterised by what stands at and behind the index.
pub proof fn lemma_rfind(s: Text, c: char)
    ensures
        -1 <= rfind(s, c) < s.len(),
        rfind(s, c) >= 0 ==> s[rfind(s, c)] == c,
        forall|j: int| rfind(s, c) < j < s.len() ==> s[j] != c,
    decreases s.len(),
{
    if s.len() > 0 && s.last() != c {
        lemma_rfind(s.drop_last(), c);
        assert forall|j: int| rfind(s, c) < j < s.len() implies s[j] != c by {
            if j < s.len() - 1 {
                assert(s[j] == s.drop_last()[j]);
            }
        }
    }
}

/// The first index of `c`, or the length when it is absent.
pub fn index_of(s: &Vec<char>, c: char) -> (i: usize)
    ensures
        i == find(s@, c),
        i <= s.len(),
{
    let mut i: usize = 0;
    assert(s@.skip(0) =~= s@);
    while i < s.len()
        invariant
            i <= s.len(),
            find(s@, c) == i + find(s@.skip(i as int), c),
        decreases s.len() - i,
    {
        if s[i] == c {
            return i;
        }
        proof {
            assert(s@.skip(i as int).drop_first() =~= s@.skip(i + 1));
        }
        i += 1;
    }
    i
}

/// Whether `p` starts `s`.
pub fn starts_with(s: &str, p: &str) -> (r: bool)
    ensures
        r == p@.is_prefix_of(s@),
{
    let x = chars_of(s);
    let y = chars_of(p);
    if y.len() > x.len() {
        return false;
    }
    let mut i: usize = 0;
    while i < y.len()
        invariant
            i <= y.len() <= x.len(),
            x@ == s@,
            y@ == p@,
            forall|j: int| 0 <= j < i ==> x@[j] == y@[j],
        decreases y.len() - i,
    {
        if x[i] != y[i] {
            assert(s@.subrange(0, y.len() as int)[i as int] != p@[i as int]);
            return false;
        }
        i += 1;
    }
    assert(x@.subrange(0, y.len() as int) =~= y@);
    true
}

/// Whether `p` stands somewhere in `s`.
pub open spec fn has(s: Text, p: Text) -> bool {
    exists|i: int| 0 <= i && i + p.len() <= s.len() && #[trigger] s.subrange(i, i + p.len()) == p
}

/// What stands in a text stands in every text that holds it.
pub proof fn lemma_has_inside(a: Text, b: Text, c: Text, p: Text)
    requires
        has(b, p),
    ensures
        has(a + b + c, p),
{
    let i = choose|i: int|
        0 <= i && i + p.len() <= b.len() && #[trigger] b.subrange(i, i + p.len()) == p;
    let k = a.len() + i;
    assert((a + b + c).subrange(k, k + p.len()) =~= b.subrange(i, i + p.len()));
}

/// A text stands in itself.
pub proof fn lemma_has_self(p: Text)
    ensures
        has(p, p),
{
    let i: int = 0;
    assert(p.subrange(i, i + p.len()) =~= p);
}

/// Every text of a list stands in the list joined.
pub proof fn lemma_join_has(parts: Seq<Text>, sep: Text, i: int)
    requires
        0 <= i < parts.len(),
    ensures
        has(join(parts, sep), parts[i]),
    decreases parts.len(),
{
    let none = Seq::<char>::empty();
    if parts.len() == 1 {
        lemma_has_self(parts[0]);
    } else if i < parts.len() - 1 {
        lemma_join_has(parts.drop_last(), sep, i);
        assert(parts.drop_last()[i] == parts[i]);
        let head = join(parts.drop_last(), sep);
        lemma_has_inside(none, head, sep + parts.last(), parts[i]);
        assert(none + head + (sep + parts.last()) =~= head + sep + parts.last());
    } else {
        let last = parts.last();
        let head = join(parts.drop_last(), sep) + sep;
        lemma_has_self(last);
        lemma_has_inside(head, last, none, last);
        assert(head + last + none =~= head + last);
    }
}

/// Whether `p` stands somewhere in `s`.
pub fn contains(s: &str, p: &str) -> (r: bool)
    ensures
        r == has(s@, p@),
{
    let x = chars_of(s);
    let y = chars_of(p);
    if y.len() > x.len() {
        return false;
    }
    let mut i: usize = 0;
    while i <= x.len() - y.len()
        invariant
            y.len() <= x.len(),
            x@ == s@,
            y@ == p@,
            i <= x.len() - y.len() + 1,
            forall|k: int| 0 <= k < i ==> #[trigger] x@.subrange(k, k + y.len()) != y@,
        decreases x.len() - i,
    {
        let mut j: usize = 0;
        while j < y.len() && x[i + j] == y[j]
            invariant
                j <= y.len() <= x.len(),
                i <= x.len() - y.len(),
                forall|k: int| 0 <= k < j ==> x@[i + k] == y@[k],
            decreases y.len() - j,
        {
            j += 1;
        }
        if j == y.len() {
            assert(s@.subrange(i as int, i + p@.len()) =~= p@);
            return true;
        }
        assert(x@.subrange(i as int, i + y.len())[j as int] != y@[j as int]);
        i += 1;
    }
    false
}

// ---------------------------------------------------------------------------
// Splitting and joining
// ---------------------------------------------------------------------------

/// The pieces of `s` between the separators: each separator starts a new piece.
pub open spec fn split(s: Text, sep: char) -> Seq<Text>
    decreases s.len(),
{
    if s.len() == 0 {
        seq![Seq::empty()]
    } else {
        let head = split(s.drop_last(), sep);
        if s.last() == sep {
            head.push(Seq::empty())
        } else {
            head.drop_last().push(head.last().push(s.last()))
        }
    }
}

/// The texts one after the other with `sep` between them.
pub open spec fn join(parts: Seq<Text>, sep: Text) -> Text
    decreases parts.len(),
{
    if parts.len() == 0 {
        Seq::empty()
    } else if parts.len() == 1 {
        parts[0]
    } else {
        join(parts.drop_last(), sep) + sep + parts.last()
    }
}

/// A text always splits into at least one piece.
pub proof fn lemma_split_nonempty(s: Text, sep: char)
    ensures
        split(s, sep).len() > 0,
    decreases s.len(),
{
    if s.len() > 0 {
        lemma_split_nonempty(s.drop_last(), sep);
    }
}

/// Joining the pieces of a text with the separator gives the text back.
pub proof fn lemma_join_split(s: Text, sep: char)
    ensures
        join(split(s, sep), seq![sep]) == s,
    decreases s.len(),
{
    if s.len() > 0 {
        let head = split(s.drop_last(), sep);
        lemma_split_nonempty(s.drop_last(), sep);
        lemma_join_split(s.drop_last(), sep);
        if s.last() == sep {
            assert(split(s, sep).drop_last() =~= head);
            assert(s =~= s.drop_last() + seq![sep] + Seq::<char>::empty());
        } else {
            assert(split(s, sep).drop_last() =~= head.drop_last());
            assert(s =~= s.drop_last().push(s.last()));
            if head.len() > 1 {
                assert(join(head.drop_last(), seq![sep]) + seq![sep] + head.last().push(s.last())
                    =~= (join(head.drop_last(), seq![sep]) + seq![sep] + head.last()).push(
                    s.last(),
                ));
            }
        }
    }
}

/// No piece of a split text holds the separator.
pub proof fn lemma_split_pieces(s: Text, sep: char)
    ensures
        forall|i: int| 0 <= i < split(s, sep).len() ==> !(#[trigger] split(s, sep)[i]).contains(sep),
    decreases s.len(),
{
    if s.len() > 0 {
        lemma_split_pieces(s.drop_last(), sep);
        lemma_split_nonempty(s.drop_last(), sep);
        let head = split(s.drop_last(), sep);
        assert(!head.last().contains(sep));
        assert forall|i: int| 0 <= i < split(s, sep).len() implies !(#[trigger] split(
            s,
            sep,
        )[i]).contains(sep) by {
            if i < head.len() - 1 || (s.last() == sep && i == head.len() - 1) {
                assert(split(s, sep)[i] == head[i]);
            } else if s.last() != sep {
                let grown = head.last().push(s.last());
                assert(split(s, sep)[i] == grown);
                if grown.contains(sep) {
                    let j = choose|j: int| 0 <= j < grown.len() && grown[j] == sep;
                    assert(head.last()[j] == sep);
                }
            }
        }
    }
}

/// A piece without the separator behind a text that splits into `head` lengthens
/// the last piece.
proof fn lemma_split_append(t: Text, piece: Text, sep: char)
    requires
        !piece.contains(sep),
    ensures
        ({
            let head = split(t, sep);
            split(t + piece, sep) == head.drop_last().push(head.last() + piece)
        }),
    decreases piece.len(),
{
    lemma_split_nonempty(t, sep);
    let head = split(t, sep);
    if piece.len() == 0 {
        assert(t + piece =~= t);
        assert(head.last() + piece =~= head.last());
        assert(head.drop_last().push(head.last()) =~= head);
    } else {
        let rest = piece.drop_last();
        assert forall|i: int| 0 <= i < rest.len() implies rest[i] != sep by {
            assert(piece[i] == rest[i]);
            assert(piece.contains(piece[i]));
        }
        lemma_split_append(t, rest, sep);
        assert((t + piece).drop_last() =~= t + rest);
        assert(piece.contains(piece.last()));
        assert((t + piece).last() == piece.last());
        let grown = head.drop_last().push(head.last() + rest);
        assert(grown.drop_last() =~= head.drop_last());
        assert((head.last() + rest).push(piece.last()) =~= head.last() + piece);
    }
}

/// Pieces that hold no separator come back from splitting them joined.
pub proof fn lemma_split_join(parts: Seq<Text>, sep: char)
    requires
        parts.len() > 0,
        forall|i: int| 0 <= i < parts.len() ==> !(#[trigger] parts[i]).contains(sep),
    ensures
        split(join(parts, seq![sep]), sep) == parts,
    decreases parts.len(),
{
    let last = parts.last();
    if parts.len() == 1 {
        lemma_split_append(Seq::empty(), last, sep);
        assert(Seq::<char>::empty() + last =~= last);
        assert(split(last, sep) =~= parts);
    } else {
        let front = parts.drop_last();
        assert forall|i: int| 0 <= i < front.len() implies !(#[trigger] front[i]).contains(sep) by {
            assert(front[i] == parts[i]);
        }
        lemma_split_join(front, sep);
        let t = join(front, seq![sep]) + seq![sep];
        assert(t.drop_last() =~= join(front, seq![sep]));
        assert(split(t, sep) == front.push(Seq::empty()));
        lemma_split_append(t, last, sep);
        assert(front.push(Seq::<char>::empty()).drop_last() =~= front);
        assert(Seq::<char>::empty() + last =~= last);
        assert(front.push(last) =~= parts);
    }
}

/// The pieces of `s` between the separators.
pub fn split_at_char(s: &str, sep: char) -> (out: Vec<String>)
    ensures
        out.deep_view() == split(s@, sep),
        out@.len() > 0,
{
    let chars = chars_of(s);
    let mut out: Vec<String> = Vec::new();
    let mut piece = String::new();
    let mut i: usize = 0;
    assert(out.deep_view().push(piece@) =~= split(chars@.take(0), sep));
    while i < chars.len()
        invariant
            i <= chars.len(),
            out.deep_view().push(piece@) == split(chars@.take(i as int), sep),
        decreases chars.len() - i,
    {
        let ghost before = out.deep_view().push(piece@);
        let c = chars[i];
        proof {
            assert(chars@.take(i + 1).drop_last() =~= chars@.take(i as int));
        }
        if c == sep {
            out.push(piece);
            piece = String::new();
            assert(out.deep_view() =~= before);
        } else {
            piece.push(c);
            assert(out.deep_view() =~= before.drop_last());
        }
        i += 1;
    }
    let ghost before = out.deep_view().push(piece@);
    out.push(piece);
    assert(out.deep_view() =~= before);
    assert(chars@.take(chars.len() as int) =~= s@);
    out
}

/// The texts one after the other with `sep` between them.
pub fn join_strings(parts: &Vec<String>, sep: &str) -> (out: String)
    ensures
        out@ == join(parts.deep_view(), sep@),
{
    join_upto(parts, parts.len(), sep)
}

/// The first `count` texts one after the other with `sep` between them.
pub fn join_upto(parts: &Vec<String>, count: usize, sep: &str) -> (out: String)
    requires
        count <= parts.len(),
    ensures
        out@ == join(parts.deep_view().take(count as int), sep@),
        count == parts.len() ==> out@ == join(parts.deep_view(), sep@),
{
    let mut out = String::new();
    let mut i: usize = 0;
    while i < count
        invariant
            i <= count <= parts.len(),
            out@ == join(parts.deep_view().take(i as int), sep@),
        decreases count - i,
    {
        proof {
            assert(parts.deep_view().take(i + 1).drop_last() =~= parts.deep_view().take(i as int));
            assert(out@ + sep@ + parts[i as int]@ == out@ + sep@ + parts.deep_view()[i as int]);
        }
        if i > 0 {
            out.push_str(sep);
        }
        out.push_str(parts[i].as_str());
        proof {
            if i == 0 {
                assert(out@ =~= parts.deep_view()[0]);
            }
        }
        i += 1;
    }
    assert(count == parts.len() ==> parts.deep_view().take(count as int) =~= parts.deep_view());
    out
}

// ---------------------------------------------------------------------------
// Characters
// ---------------------------------------------------------------------------

/// `A` to `Z`.
pub open spec fn is_upper(c: char) -> bool {
    'A' <= c <= 'Z'
}

/// `a` to `z`.
pub open spec fn is_lower(c: char) -> bool {
    'a' <= c <= 'z'
}

/// `0` to `9`.
pub open spec fn is_digit(c: char) -> bool {
    '0' <= c <= '9'
}

/// An ASCII letter or digit.
pub open spec fn is_alnum(c: char) -> bool {
    is_upper(c) || is_lower(c) || is_digit(c)
}

/// The ASCII lower-case form of a character.
pub open spec fn lower(c: char) -> char {
    if is_upper(c) {
        ((c as u8) + 32) as u8 as char
    } else {
        c
    }
}

/// The ASCII upper-case form of a character.
pub open spec fn upper(c: char) -> char {
    if is_lower(c) {
        ((c as u8) - 32) as u8 as char
    } else {
        c
    }
}

/// The characters with the Unicode property `White_Space`.
pub open spec fn is_white(c: char) -> bool {
    ||| 9 <= c as u32 <= 13
    ||| c as u32 == 32
    ||| c as u32 == 0x85
    ||| c as u32 == 0xA0
    ||| c as u32 == 0x1680
    ||| 0x2000 <= c as u32 <= 0x200A
    ||| c as u32 == 0x2028
    ||| c as u32 == 0x2029
    ||| c as u32 == 0x202F
    ||| c as u32 == 0x205F
    ||| c as u32 == 0x3000
}

/// `A` to `Z`.
pub fn char_is_upper(c: char) -> (r: bool)
    ensures
        r == is_upper(c),
{
    'A' <= c && c <= 'Z'
}

/// `a` to `z`.
pub fn char_is_lower(c: char) -> (r: bool)
    ensures
        r == is_lower(c),
{
    'a' <= c && c <= 'z'
}

/// `0` to `9`.
pub fn char_is_digit(c: char) -> (r: bool)
    ensures
        r == is_digit(c),
{
    '0' <= c && c <= '9'
}

/// An ASCII letter or digit.
pub fn char_is_alnum(c: char) -> (r: bool)
    ensures
        r == is_alnum(c),
{
    char_is_upper(c) || char_is_lower(c) || char_is_digit(c)
}

/// The ASCII lower-case form of a character.
pub fn char_lower(c: char) -> (r: char)
    ensures
        r == lower(c),
{
    if char_is_upper(c) {
        (c as u8 + 32) as char
    } else {
        c
    }
}

/// The ASCII upper-case form of a character.
pub fn char_upper(c: char) -> (r: char)
    ensures
        r == upper(c),
{
    if char_is_lower(c) {
        (c as u8 - 32) as char
    } else {
        c
    }
}

/// Whether a character is white space.
pub fn char_is_white(c: char) -> (r: bool)
    ensures
        r == is_white(c),
{
    let u: u32 = c as u32;
    (9 <= u && u <= 13) || u == 32 || u == 0x85 || u == 0xA0 || u == 0x1680 || (0x2000 <= u && u
        <= 0x200A) || u == 0x2028 || u == 0x2029 || u == 0x202F || u == 0x205F || u == 0x3000
}

/// Every ASCII letter in lower case.
pub open spec fn ascii_lower(s: Text) -> Text {
    s.map_values(|c: char| lower(c))
}

/// Every ASCII letter in lower case.
pub fn to_ascii_lower(s: &str) -> (out: String)
    ensures
        out@ == ascii_lower(s@),
{
    let chars = chars_of(s);
    let mut out = String::new();
    let mut i: usize = 0;
    while i < chars.len()
        invariant
            i <= chars.len(),
            out@ =~= ascii_lower(chars@.take(i as int)),
        decreases chars.len() - i,
    {
        out.push(char_lower(chars[i]));
        i += 1;
    }
    assert(chars@.take(chars.len() as int) =~= s@);
    out
}

// ---------------------------------------------------------------------------
// White space and lines
// ---------------------------------------------------------------------------

/// `s` without leading white space.
pub open spec fn trim_start(s: Text) -> Text
    decreases s.len(),
{
    if s.len() > 0 && is_white(s[0]) {
        trim_start(s.drop_first())
    } else {
        s
    }
}

/// `s` without trailing white space.
pub open spec fn trim_end(s: Text) -> Text
    decreases s.len(),
{
    if s.len() > 0 && is_white(s.last()) {
        trim_end(s.drop_last())
    } else {
        s
    }
}

/// `s` without white space at either end.
pub open spec fn trim(s: Text) -> Text {
    trim_end(trim_start(s))
}

/// `s` without white space at either end.
pub fn trimmed(s: &str) -> (out: String)
    ensures
        out@ == trim(s@),
{
    let chars = chars_of(s);
    let mut from: usize = 0;
    assert(chars@.skip(0) =~= chars@);
    while from < chars.len() && char_is_white(chars[from])
        invariant
            from <= chars.len(),
            trim_start(chars@) == trim_start(chars@.skip(from as int)),
        decreases chars.len() - from,
    {
        proof {
            assert(chars@.skip(from as int).drop_first() =~= chars@.skip(from + 1));
        }
        from += 1;
    }
    trimmed_end_from(&chars, from)
}

/// `s` without trailing white space.
pub fn trimmed_end(s: &str) -> (out: String)
    ensures
        out@ == trim_end(s@),
{
    let chars = chars_of(s);
    assert(chars@.skip(0) =~= chars@);
    trimmed_end_from(&chars, 0)
}

/// The characters from `from` on, without trailing white space.
fn trimmed_end_from(chars: &Vec<char>, from: usize) -> (out: String)
    requires
        from <= chars.len(),
    ensures
        out@ == trim_end(chars@.skip(from as int)),
{
    let mut to: usize = chars.len();
    assert(chars@.subrange(from as int, to as int) =~= chars@.skip(from as int));
    while from < to && char_is_white(chars[to - 1])
        invariant
            from <= to <= chars.len(),
            trim_end(chars@.skip(from as int)) == trim_end(
                chars@.subrange(from as int, to as int),
            ),
        decreases to,
    {
        proof {
            assert(chars@.subrange(from as int, to as int).drop_last() =~= chars@.subrange(
                from as int,
                to - 1,
            ));
        }
        to -= 1;
    }
    string_of(chars, from, to)
}

/// The first position from `i` on that holds white space; the length if there is
/// none.
pub open spec fn word_end(s: Text, i: int) -> int
    decreases s.len() - i,
{
    if i >= s.len() || is_white(s[i]) {
        i
    } else {
        word_end(s, i + 1)
    }
}

/// The end of a word is not before its start, nor behind the end of the text.
pub proof fn lemma_word_end(s: Text, i: int)
    ensures
        word_end(s, i) >= i,
        i <= s.len() ==> word_end(s, i) <= s.len(),
    decreases s.len() - i,
{
    if !(i >= s.len() || is_white(s[i])) {
        lemma_word_end(s, i + 1);
    }
}

/// The words from position `i` on: what stands between white space.
pub open spec fn words_from(s: Text, i: int) -> Seq<Text>
    decreases s.len() - i,
{
    if i >= s.len() {
        Seq::empty()
    } else if is_white(s[i]) {
        words_from(s, i + 1)
    } else {
        proof {
            lemma_word_end(s, i + 1);
        }
        seq![s.subrange(i, word_end(s, i + 1))] + words_from(s, word_end(s, i + 1))
    }
}

/// The words of a text.
pub open spec fn words(s: Text) -> Seq<Text> {
    words_from(s, 0)
}

/// The words of a text.
pub fn words_of(s: &str) -> (out: Vec<String>)
    ensures
        out.deep_view() == words(s@),
{
    let chars = chars_of(s);
    let mut out: Vec<String> = Vec::new();
    let mut i: usize = 0;
    assert(out.deep_view() =~= Seq::<Text>::empty());
    assert(Seq::<Text>::empty() + words(s@) =~= words(s@));
    while i < chars.len()
        invariant
            i <= chars.len(),
            chars@ == s@,
            words(s@) == out.deep_view() + words_from(s@, i as int),
        decreases chars.len() - i,
    {
        if char_is_white(chars[i]) {
            i += 1;
        } else {
            let start = i;
            i += 1;
            while i < chars.len() && !char_is_white(chars[i])
                invariant
                    start < i <= chars.len(),
                    chars@ == s@,
                    word_end(s@, start + 1) == word_end(s@, i as int),
                decreases chars.len() - i,
            {
                i += 1;
            }
            let ghost before = out.deep_view();
            let word = string_of(&chars, start, i);
            out.push(word);
            proof {
                assert(out.deep_view() =~= before.push(word@));
                let rest = words_from(s@, i as int);
                assert(before + (seq![word@] + rest) =~= before.push(word@) + rest);
            }
        }
    }
    assert(out.deep_view() + Seq::<Text>::empty() =~= out.deep_view());
    out
}

/// A line without the carriage return that ends it.
pub open spec fn strip_cr(line: Text) -> Text {
    if line.len() > 0 && line.last() == '\r' {
        line.drop_last()
    } else {
        line
    }
}

/// The lines of a text: what stands before each line feed, and what follows the
/// last one unless it is empty. A carriage return before a line feed is dropped.
pub open spec fn lines(s: Text) -> Seq<Text> {
    let pieces = split(s, '\n');
    let ended = pieces.drop_last().map_values(|l: Text| strip_cr(l));
    if pieces.last().len() == 0 {
        ended
    } else {
        ended.push(pieces.last())
    }
}

/// The lines of a text.
pub fn lines_of(s: &str) -> (out: Vec<String>)
    ensures
        out.deep_view() == lines(s@),
{
    let mut pieces = split_at_char(s, '\n');
    let ghost all = split(s@, '\n');
    let last = pieces.pop().unwrap();
    assert(pieces.deep_view() =~= all.drop_last());
    assert(last@ == all.last());
    let mut out: Vec<String> = Vec::new();
    let mut i: usize = 0;
    while i < pieces.len()
        invariant
            i <= pieces.len(),
            out.deep_view() =~= pieces.deep_view().take(i as int).map_values(
                |l: Text| strip_cr(l),
            ),
        decreases pieces.len() - i,
    {
        let chars = chars_of(pieces[i].as_str());
        let n: usize = chars.len();
        assert(pieces.deep_view()[i as int] == chars@);
        let line = if n > 0 && chars[n - 1] == '\r' {
            string_of(&chars, 0, n - 1)
        } else {
            string_of(&chars, 0, n)
        };
        proof {
            assert(chars@.subrange(0, n as int) =~= chars@);
            if n > 0 {
                assert(chars@.subrange(0, n - 1) =~= chars@.drop_last());
            }
        }
        let ghost before = out.deep_view();
        out.push(line);
        assert(out.deep_view() =~= before.push(line@));
        i += 1;
    }
    assert(pieces.deep_view().take(pieces.len() as int) =~= pieces.deep_view());
    if last.as_str().is_empty() {
        out
    } else {
        let ghost before = out.deep_view();
        out.push(last);
        assert(out.deep_view() =~= before.push(last@));
        out
    }
}

// ---------------------------------------------------------------------------
// Numbers
// ---------------------------------------------------------------------------

/// The character of a decimal digit.
pub open spec fn digit_char(d: nat) -> char {
    (48 + d) as u8 as char
}

/// A number in decimal.
pub open spec fn decimal(n: nat) -> Text
    decreases n,
{
    if n < 10 {
        seq![digit_char(n)]
    } else {
        decimal(n / 10).push(digit_char(n % 10))
    }
}

/// A number in decimal.
pub fn decimal_of(n: u64) -> (out: String)
    ensures
        out@ == decimal(n as nat),
    decreases n,
{
    if n < 10 {
        let mut out = String::new();
        out.push((48u8 + n as u8) as char);
        assert(out@ =~= decimal(n as nat));
        out
    } else {
        let mut out = decimal_of(n / 10);
        out.push((48u8 + (n % 10) as u8) as char);
        out
    }
}

/// An integer in decimal, with a sign if it is negative.
pub open spec fn signed_decimal(n: int) -> Text {
    if n < 0 {
        "-"@ + decimal((-n) as nat)
    } else {
        decimal(n as nat)
    }
}

/// An integer in decimal, with a sign if it is negative.
pub fn signed_decimal_of(n: i64) -> (out: String)
    ensures
        out@ == signed_decimal(n as int),
{
    if n == i64::MIN {
        let mut out = "-".to_string();
        out.push_str(decimal_of(9223372036854775808u64).as_str());
        out
    } else if n < 0 {
        let mut out = "-".to_string();
        out.push_str(decimal_of((-n) as u64).as_str());
        out
    } else {
        decimal_of(n as u64)
    }
}

/// The value of a text of decimal digits.
pub open spec fn digits_value(s: Text) -> nat
    decreases s.len(),
{
    if s.len() == 0 {
        0
    } else {
        digits_value(s.drop_last()) * 10 + ((s.last() as u32 - '0' as u32) as nat)
    }
}

/// The digits of an unsigned number: a leading `+` before further characters is
/// skipped.
pub open spec fn unsigned_digits(s: Text) -> Text {
    if s.len() > 1 && s[0] == '+' {
        s.drop_first()
    } else {
        s
    }
}

/// The number an unsigned 64-bit decimal text stands for, if it is one.
pub open spec fn parse_number(s: Text) -> Option<u64> {
    let d = unsigned_digits(s);
    if d.len() > 0 && (forall|i: int| 0 <= i < d.len() ==> is_digit(#[trigger] d[i]))
        && digits_value(d) <= u64::MAX {
        Some(digits_value(d) as u64)
    } else {
        None
    }
}

/// Longer texts of digits stand for numbers at least as large.
proof fn lemma_digits_value_grows(s: Text, n: int)
    requires
        0 <= n <= s.len(),
        forall|i: int| 0 <= i < s.len() ==> is_digit(#[trigger] s[i]),
    ensures
        digits_value(s.take(n)) <= digits_value(s),
    decreases s.len() - n,
{
    if n < s.len() {
        lemma_digits_value_grows(s, n + 1);
        assert(s.take(n + 1).drop_last() =~= s.take(n));
    } else {
        assert(s.take(n) =~= s);
    }
}

/// The number a decimal text stands for, if it is an unsigned 64-bit one.
pub fn parse_u64(s: &str) -> (r: Option<u64>)
    ensures
        r == parse_number(s@),
{
    let chars = chars_of(s);
    let from: usize = if chars.len() > 1 && chars[0] == '+' {
        1
    } else {
        0
    };
    let ghost d = unsigned_digits(s@);
    assert(d =~= chars@.skip(from as int));
    if from == chars.len() {
        return None;
    }
    let mut i: usize = from;
    let mut value: u64 = 0;
    assert(d.take(0) =~= Seq::<char>::empty());
    while i < chars.len()
        invariant
            from <= i <= chars.len(),
            d == chars@.skip(from as int),
            forall|j: int| 0 <= j < i - from ==> is_digit(#[trigger] d[j]),
            value == digits_value(d.take(i - from)),
            d == unsigned_digits(s@),
        decreases chars.len() - i,
    {
        let c = chars[i];
        assert(d[i - from] == c);
        if !char_is_digit(c) {
            return None;
        }
        let digit: u64 = (c as u32 - 48) as u64;
        proof {
            assert(d.take(i - from + 1).drop_last() =~= d.take(i - from));
            assert(digits_value(d.take(i - from + 1)) == value * 10 + digit);
        }
        if value > (u64::MAX - digit) / 10 {
            proof {
                assert(value * 10 + digit > u64::MAX) by (nonlinear_arith)
                    requires
                        value > (u64::MAX - digit) / 10,
                        digit <= 9,
                ;
                if forall|k: int| 0 <= k < d.len() ==> is_digit(#[trigger] d[k]) {
                    lemma_digits_value_grows(d, i - from + 1);
                }
            }
            return None;
        }
        value = value * 10 + digit;
        i += 1;
    }
    assert(d.take(d.len() as int) =~= d);
    Some(value)
}

} // verus!
