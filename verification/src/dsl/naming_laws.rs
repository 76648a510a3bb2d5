//! How names are made of words.
use vstd::prelude::*;

use crate::dsl::loader::{is_mapping_file, slug_upto, strip_underscores};
use crate::dsl::source_model::synth::{
    camel, camel_upto, element_path_of, item_struct, scope_base, snake, snake_upto, word_break,
};
use crate::engine::registry::pascal_upto;
use crate::text::{
    ascii_lower, is_alnum, is_digit, is_lower, is_upper, join, lemma_rfind, lemma_split_join, lower,
    rfind, upper, Text,
};

verus! {

/// Whether a text is letters and digits alone.
pub open spec fn one_word(s: Text) -> bool {
    s.len() > 0 && forall|i: int| 0 <= i < s.len() ==> is_alnum(#[trigger] s[i])
}

/// Whether a text has neither letters nor digits.
pub open spec fn no_word(s: Text) -> bool {
    s.len() > 0 && forall|i: int| 0 <= i < s.len() ==> !is_alnum(#[trigger] s[i])
}

// ---------------------------------------------------------------------------
// Names of spokes
// ---------------------------------------------------------------------------

proof fn lemma_slug_front(a: Text, b: Text, n: int)
    requires
        0 <= n <= a.len(),
    ensures
        slug_upto(a + b, n) == slug_upto(a, n),
    decreases n,
{
    if n > 0 {
        lemma_slug_front(a, b, n - 1);
        assert((a + b)[n - 1] == a[n - 1]);
        if n > 1 {
            assert((a + b)[n - 2] == a[n - 2]);
        }
    }
}

proof fn lemma_slug_gap(a: Text, gap: Text, n: int)
    requires
        a.len() > 0,
        is_alnum(a.last()),
        no_word(gap),
        0 < n <= gap.len(),
    ensures
        slug_upto(a + gap, a.len() + n) == slug_upto(a, a.len() as int).push('_'),
    decreases n,
{
    let all = a + gap;
    assert(all[a.len() + n - 1] == gap[n - 1]);
    assert(!is_alnum(gap[n - 1]));
    if n == 1 {
        lemma_slug_front(a, gap, a.len() as int);
        assert(all[a.len() - 1] == a.last());
    } else {
        lemma_slug_gap(a, gap, n - 1);
        assert(all[a.len() + n - 2] == gap[n - 2]);
        assert(!is_alnum(gap[n - 2]));
    }
}

proof fn lemma_slug_word(a: Text, word: Text, n: int)
    requires
        one_word(word),
        0 <= n <= word.len(),
    ensures
        slug_upto(a + word, a.len() + n) == slug_upto(a, a.len() as int) + ascii_lower(
            word.take(n),
        ),
    decreases n,
{
    if n == 0 {
        lemma_slug_front(a, word, a.len() as int);
        assert(slug_upto(a, a.len() as int) + ascii_lower(word.take(0)) =~= slug_upto(
            a,
            a.len() as int,
        ));
    } else {
        lemma_slug_word(a, word, n - 1);
        assert((a + word)[a.len() + n - 1] == word[n - 1]);
        assert(ascii_lower(word.take(n)) =~= ascii_lower(word.take(n - 1)).push(
            lower(word[n - 1]),
        ));
        let x = slug_upto(a, a.len() as int) + ascii_lower(word.take(n - 1));
        assert(x.push(lower(word[n - 1])) =~= slug_upto(a, a.len() as int) + ascii_lower(
            word.take(n - 1),
        ).push(lower(word[n - 1])));
    }
}

/// The name of a spoke has the words of its format in small letters, with one underscore
/// between two of them, whatever stands there in the format; and none at its ends.
pub proof fn law_slugs_join_words(a: Text, gap: Text, word: Text)
    requires
        a.len() > 0,
        is_alnum(a.last()),
        no_word(gap),
        one_word(word),
    ensures
        slug_upto(word, word.len() as int) == ascii_lower(word),
        slug_upto(a + gap + word, (a + gap + word).len() as int) == slug_upto(a, a.len() as int)
            + seq!['_'] + ascii_lower(word),
        strip_underscores(seq!['_'] + ascii_lower(word) + seq!['_']) == ascii_lower(word),
        strip_underscores(ascii_lower(word)) == ascii_lower(word),
{
    let none = Seq::<char>::empty();
    lemma_slug_word(none, word, word.len() as int);
    assert(none + word =~= word);
    assert(word.take(word.len() as int) =~= word);
    assert(slug_upto(none, 0) + ascii_lower(word) =~= ascii_lower(word));
    lemma_slug_gap(a, gap, gap.len() as int);
    lemma_slug_word(a + gap, word, word.len() as int);
    let x = slug_upto(a, a.len() as int);
    assert((a + gap).len() == a.len() + gap.len());
    assert(x.push('_') + ascii_lower(word) =~= x + seq!['_'] + ascii_lower(word));
    let small = ascii_lower(word);
    assert(is_alnum(word[0]) && is_alnum(word[word.len() - 1]));
    assert(small[0] == lower(word[0]) && small.last() == lower(word[word.len() - 1]));
    assert(small[0] != '_' && small.last() != '_');
    let framed = seq!['_'] + small + seq!['_'];
    assert(framed.drop_first() =~= small + seq!['_']);
    assert((small + seq!['_']).drop_last() =~= small);
}

// ---------------------------------------------------------------------------
// Names of enum variants
// ---------------------------------------------------------------------------

proof fn lemma_pascal_front(a: Text, b: Text, n: int)
    requires
        0 <= n <= a.len(),
    ensures
        pascal_upto(a + b, n) == pascal_upto(a, n),
    decreases n,
{
    if n > 0 {
        lemma_pascal_front(a, b, n - 1);
        assert((a + b)[n - 1] == a[n - 1]);
        if n > 1 {
            assert((a + b)[n - 2] == a[n - 2]);
        }
    }
}

proof fn lemma_pascal_behind(a: Text, b: Text, n: int)
    requires
        a.len() == 0 || !is_alnum(a.last()),
        0 <= n <= b.len(),
    ensures
        pascal_upto(a + b, a.len() + n) == pascal_upto(a, a.len() as int) + pascal_upto(b, n),
    decreases n,
{
    let x = pascal_upto(a, a.len() as int);
    if n == 0 {
        lemma_pascal_front(a, b, a.len() as int);
        assert(x + pascal_upto(b, 0) =~= x);
    } else {
        lemma_pascal_behind(a, b, n - 1);
        let all = a + b;
        assert(all[a.len() + n - 1] == b[n - 1]);
        if n > 1 {
            assert(all[a.len() + n - 2] == b[n - 2]);
        } else if a.len() > 0 {
            assert(all[a.len() - 1] == a.last());
        }
        assert(pascal_upto(all, a.len() + n) =~= x + pascal_upto(b, n));
    }
}

proof fn lemma_pascal_gap(a: Text, gap: Text, n: int)
    requires
        no_word(gap),
        0 <= n <= gap.len(),
    ensures
        pascal_upto(a + gap, a.len() + n) == pascal_upto(a, a.len() as int),
    decreases n,
{
    if n == 0 {
        lemma_pascal_front(a, gap, a.len() as int);
    } else {
        lemma_pascal_gap(a, gap, n - 1);
        assert((a + gap)[a.len() + n - 1] == gap[n - 1]);
        assert(!is_alnum(gap[n - 1]));
    }
}

proof fn lemma_pascal_word(word: Text, n: int)
    requires
        one_word(word),
        0 < n <= word.len(),
    ensures
        pascal_upto(word, n) == seq![upper(word[0])] + word.subrange(1, n),
    decreases n,
{
    assert(is_alnum(word[n - 1]));
    if n == 1 {
        assert(pascal_upto(word, 0) =~= Seq::<char>::empty());
        assert(pascal_upto(word, 1) =~= seq![upper(word[0])] + word.subrange(1, 1));
    } else {
        assert(is_alnum(word[n - 2]));
        lemma_pascal_word(word, n - 1);
        assert(pascal_upto(word, n) =~= seq![upper(word[0])] + word.subrange(1, n));
    }
}

/// The variant of a spoke has the words of its format one behind the other, each with its
/// first letter capital and otherwise as it is.
pub proof fn law_variants_join_capitalised_words(a: Text, gap: Text, word: Text)
    requires
        no_word(gap),
        one_word(word),
    ensures
        pascal_upto(word, word.len() as int) == seq![upper(word[0])] + word.skip(1),
        pascal_upto(a + gap + word, (a + gap + word).len() as int) == pascal_upto(
            a,
            a.len() as int,
        ) + seq![upper(word[0])] + word.skip(1),
{
    lemma_pascal_word(word, word.len() as int);
    assert(word.subrange(1, word.len() as int) =~= word.skip(1));
    lemma_pascal_gap(a, gap, gap.len() as int);
    assert((a + gap).last() == gap.last());
    assert(!is_alnum(gap[gap.len() - 1]));
    lemma_pascal_behind(a + gap, word, word.len() as int);
    let x = pascal_upto(a, a.len() as int);
    assert((a + gap).len() == a.len() + gap.len());
    assert(x + (seq![upper(word[0])] + word.skip(1)) =~= x + seq![upper(word[0])] + word.skip(1));
}

// ---------------------------------------------------------------------------
// Names of structs
// ---------------------------------------------------------------------------

proof fn lemma_camel_front(a: Text, b: Text, n: int)
    requires
        0 <= n <= a.len(),
    ensures
        camel_upto(a + b, n) == camel_upto(a, n),
    decreases n,
{
    if n > 0 {
        lemma_camel_front(a, b, n - 1);
        assert((a + b)[n - 1] == a[n - 1]);
        if n > 1 {
            assert((a + b)[n - 2] == a[n - 2]);
        }
    }
}

proof fn lemma_camel_behind(a: Text, b: Text, n: int)
    requires
        a.len() > 0,
        a.last() == '_',
        0 <= n <= b.len(),
    ensures
        camel_upto(a + b, a.len() + n) == camel(a) + camel_upto(b, n),
    decreases n,
{
    if n == 0 {
        lemma_camel_front(a, b, a.len() as int);
        assert(camel(a) + camel_upto(b, 0) =~= camel(a));
    } else {
        lemma_camel_behind(a, b, n - 1);
        let all = a + b;
        assert(all[a.len() + n - 1] == b[n - 1]);
        if n > 1 {
            assert(all[a.len() + n - 2] == b[n - 2]);
        } else {
            assert(all[a.len() - 1] == a.last());
        }
        assert(camel_upto(all, a.len() + n) =~= camel(a) + camel_upto(b, n));
    }
}

proof fn lemma_camel_word(word: Text, n: int)
    requires
        !word.contains('_'),
        0 < n <= word.len(),
    ensures
        camel_upto(word, n) == seq![upper(word[0])] + word.subrange(1, n),
    decreases n,
{
    assert(word.contains(word[n - 1]));
    if n == 1 {
        assert(camel_upto(word, 0) =~= Seq::<char>::empty());
        assert(camel_upto(word, 1) =~= seq![upper(word[0])] + word.subrange(1, 1));
    } else {
        assert(word.contains(word[n - 2]));
        lemma_camel_word(word, n - 1);
        assert(camel_upto(word, n) =~= seq![upper(word[0])] + word.subrange(1, n));
    }
}

/// The struct of an element has the words between underscores one behind the other, each
/// with its first letter capital and otherwise as it is.
pub proof fn law_structs_join_capitalised_words(a: Text, word: Text)
    requires
        word.len() > 0,
        !word.contains('_'),
    ensures
        camel(word) == seq![upper(word[0])] + word.skip(1),
        camel(a + seq!['_'] + word) == camel(a) + seq![upper(word[0])] + word.skip(1),
{
    lemma_camel_word(word, word.len() as int);
    assert(word.subrange(1, word.len() as int) =~= word.skip(1));
    let front = a + seq!['_'];
    lemma_camel_front(a, seq!['_'], a.len() as int);
    assert(front[a.len() as int] == '_');
    assert(camel(front) == camel(a));
    lemma_camel_behind(front, word, word.len() as int);
    assert((front + word).len() == front.len() + word.len());
    assert(camel(a) + (seq![upper(word[0])] + word.skip(1)) =~= camel(a) + seq![upper(word[0])]
        + word.skip(1));
}

// ---------------------------------------------------------------------------
// Names of fields
// ---------------------------------------------------------------------------

proof fn lemma_snake_front(a: Text, b: Text, n: int)
    requires
        0 <= n <= a.len(),
        a.len() == 0 || b.len() == 0 || !is_lower(b[0]) || !is_upper(a.last()),
    ensures
        snake_upto(a + b, n) == snake_upto(a, n),
    decreases n,
{
    if n > 0 {
        lemma_snake_front(a, b, n - 1);
        let all = a + b;
        assert(all[n - 1] == a[n - 1]);
        if n > 1 {
            assert(all[n - 2] == a[n - 2]);
        }
        if n < a.len() {
            assert(all[n] == a[n]);
        } else if b.len() > 0 {
            assert(all[n] == b[0]);
            assert(a[n - 1] == a.last());
        }
        assert(word_break(all, n - 1) == word_break(a, n - 1));
    }
}

proof fn lemma_snake_behind(a: Text, b: Text, gap: Text, n: int)
    requires
        a.len() > 0,
        b.len() > 0,
        !is_lower(b[0]) || !is_upper(a.last()),
        gap == (if word_break(a + b, a.len() as int) {
            seq!['_']
        } else {
            Seq::<char>::empty()
        }),
        0 < n <= b.len(),
    ensures
        snake_upto(a + b, a.len() + n) == snake(a) + gap + snake_upto(b, n),
    decreases n,
{
    let all = a + b;
    assert(all[a.len() + n - 1] == b[n - 1]);
    if n == 1 {
        lemma_snake_front(a, b, a.len() as int);
        assert(snake_upto(b, 0) =~= Seq::<char>::empty());
        assert(!word_break(b, 0));
        assert(snake_upto(b, 1) =~= seq![lower(b[0])]);
        assert(snake_upto(all, a.len() as int + 1) =~= snake(a) + gap + snake_upto(b, 1));
    } else {
        lemma_snake_behind(a, b, gap, n - 1);
        assert(all[a.len() + n - 2] == b[n - 2]);
        if n < b.len() {
            assert(all[a.len() + n] == b[n]);
        }
        assert(word_break(all, a.len() + n - 1) == word_break(b, n - 1));
        assert(snake_upto(all, a.len() + n) =~= snake(a) + gap + snake_upto(b, n));
    }
}

/// A word of an element's name begins at a capital behind a small letter or a digit, and
/// at the last capital of an acronym that a small letter follows: there, and nowhere else,
/// the field's name has an underscore.
pub proof fn law_fields_part_words(a: Text, b: Text)
    requires
        a.len() > 0,
        b.len() > 0,
        !is_lower(b[0]) || !is_upper(a.last()),
    ensures
        is_upper(b[0]) && (is_lower(a.last()) || is_digit(a.last())) ==> snake(a + b) == snake(a)
            + seq!['_'] + snake(b),
        is_upper(b[0]) && b.len() > 1 && is_lower(b[1]) ==> snake(a + b) == snake(a) + seq!['_']
            + snake(b),
        !is_upper(b[0]) ==> snake(a + b) == snake(a) + snake(b),
        is_upper(b[0]) && !is_lower(a.last()) && !is_digit(a.last()) && (b.len() == 1 || !is_lower(
            b[1],
        )) ==> snake(a + b) == snake(a) + snake(b),
{
    let all = a + b;
    let k = a.len() as int;
    assert(all[k] == b[0] && all[k - 1] == a.last());
    if b.len() > 1 {
        assert(all[k + 1] == b[1]);
    }
    let gap = if word_break(all, k) {
        seq!['_']
    } else {
        Seq::<char>::empty()
    };
    lemma_snake_behind(a, b, gap, b.len() as int);
    assert(all.len() == a.len() + b.len());
    if !word_break(all, k) {
        assert(snake(a) + gap + snake(b) =~= snake(a) + snake(b));
    }
}

/// A single character is a field's name in small letters.
pub proof fn law_single_letters_are_fields(c: char)
    ensures
        snake(seq![c]) == seq![lower(c)],
        snake(Seq::empty()) == Seq::<char>::empty(),
{
    let s = seq![c];
    assert(snake_upto(s, 0) =~= Seq::<char>::empty());
    assert(!word_break(s, 0));
    assert(snake(s) =~= seq![lower(c)]);
}

// ---------------------------------------------------------------------------
// Places of nodes
// ---------------------------------------------------------------------------

/// The elements of a node below its scope are the parts of its id behind those of the
/// scope; at the root they are all its parts, but for the root itself. Its fields start
/// from the root's struct, or from the struct that is named after the last part of the
/// collection's id.
pub proof fn law_elements_stand_below_the_scope(
    outer: Seq<Text>,
    inner: Seq<Text>,
    root: Text,
)
    requires
        outer.len() > 0,
        inner.len() > 0,
        forall|i: int| 0 <= i < outer.len() ==> !(#[trigger] outer[i]).contains('.'),
        forall|i: int| 0 <= i < inner.len() ==> !(#[trigger] inner[i]).contains('.'),
    ensures
        ({
            let coll = join(outer, "."@);
            let id = join(outer + inner, "."@);
            &&& element_path_of(id, Some(coll), root) == inner
            &&& outer[0] == root ==> element_path_of(id, None, root) == outer.skip(1) + inner
            &&& outer[0] != root ==> element_path_of(id, None, root) == outer + inner
            &&& scope_base(Some(coll), root) == camel(outer.last())
            &&& scope_base(None, root) == root
            &&& item_struct(coll) == camel(outer.last())
        }),
{
    reveal_strlit(".");
    assert("."@ =~= seq!['.']);
    let all = outer + inner;
    assert forall|i: int| 0 <= i < all.len() implies !(#[trigger] all[i]).contains('.') by {
        if i < outer.len() {
            assert(all[i] == outer[i]);
        } else {
            assert(all[i] == inner[i - outer.len()]);
        }
    }
    lemma_split_join(all, '.');
    lemma_split_join(outer, '.');
    assert(all.skip(outer.len() as int) =~= inner);
    assert(all.skip(1) =~= outer.skip(1) + inner);
    assert(all[0] == outer[0]);
}

/// A file holds a mapping if its name is something, a dot and `toml`.
pub proof fn law_mapping_files_end_in_toml(stem: Text, extension: Text)
    requires
        !extension.contains('.'),
    ensures
        is_mapping_file(stem + "."@ + extension) <==> stem.len() > 0 && extension == "toml"@,
        !is_mapping_file(extension),
{
    reveal_strlit(".");
    let name = stem + "."@ + extension;
    lemma_rfind(name, '.');
    let k = rfind(name, '.');
    assert(name[stem.len() as int] == '.');
    if k > stem.len() {
        assert(name[k] == extension[k - stem.len() - 1]);
        assert(extension.contains(extension[k - stem.len() - 1]));
    }
    assert(name.skip(k + 1) =~= extension);
    lemma_rfind(extension, '.');
    let j = rfind(extension, '.');
    if j >= 0 {
        assert(extension.contains(extension[j]));
    }
}

} // verus!
