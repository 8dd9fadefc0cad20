//! Text as sequences of characters: splitting, trimming and padding.
use vstd::prelude::*;

verus! {

/// `String::push` appends one character.
pub assume_specification[ String::push ](s: &mut String, c: char)
    ensures
        final(s)@ == old(s)@.push(c),
;

/// The characters of a sequence of strings.
pub open spec fn texts(v: Seq<String>) -> Seq<Seq<char>> {
    Seq::new(v.len(), |i: int| v[i]@)
}

/// The Unicode property `White_Space`.
pub open spec fn is_white(c: char) -> bool {
    ||| '\u{9}' <= c <= '\u{d}'
    ||| c == ' '
    ||| c == '\u{85}'
    ||| c == '\u{a0}'
    ||| c == '\u{1680}'
    ||| '\u{2000}' <= c <= '\u{200a}'
    ||| c == '\u{2028}'
    ||| c == '\u{2029}'
    ||| c == '\u{202f}'
    ||| c == '\u{205f}'
    ||| c == '\u{3000}'
}

/// Tells whether a character is white space.
pub fn white(c: char) -> (r: bool)
    ensures
        r == is_white(c),
{
    ('\u{9}' <= c && c <= '\u{d}') || c == ' ' || c == '\u{85}' || c == '\u{a0}' || c
        == '\u{1680}' || ('\u{2000}' <= c && c <= '\u{200a}') || c == '\u{2028}' || c
        == '\u{2029}' || c == '\u{202f}' || c == '\u{205f}' || c == '\u{3000}'
}

/// The maximal runs of characters that are not white space, in order.
pub open spec fn words_of(s: Seq<char>) -> Seq<Seq<char>>
    decreases s.len(),
{
    if s.len() == 0 {
        seq![]
    } else {
        let before = words_of(s.drop_last());
        if is_white(s.last()) {
            before
        } else if s.len() == 1 || is_white(s[s.len() - 2]) {
            before.push(seq![s.last()])
        } else {
            before.drop_last().push(before.last().push(s.last()))
        }
    }
}

/// Splits a text at white space.
pub fn words(s: &str) -> (out: Vec<String>)
    ensures
        texts(out@) == words_of(s@),
{
    let mut out: Vec<String> = Vec::new();
    let mut cur: String = String::new();
    let mut inside: bool = false;
    let ghost mut seen: Seq<char> = seq![];
    for c in it: s.chars()
        invariant
            seen == s@.take(it.index()),
            it.seq() == s@,
            inside == (seen.len() > 0 && !is_white(seen.last())),
            inside ==> words_of(seen) == texts(out@).push(cur@),
            !inside ==> words_of(seen) == texts(out@) && cur@.len() == 0,
    {
        proof {
            assert(s@.take(it.index() + 1).drop_last() =~= seen);
            assert(s@.take(it.index() + 1).last() == c);
            seen = s@.take(it.index() + 1);
        }
        if white(c) {
            if inside {
                let ghost t = texts(out@);
                out.push(cur);
                assert(texts(out@) =~= t.push(cur@));
                cur = String::new();
                inside = false;
            }
        } else {
            let ghost t = texts(out@);
            let ghost w = cur@;
            cur.push(c);
            proof {
                if inside {
                    assert(t.push(w).drop_last() =~= t);
                } else {
                    assert(cur@ =~= seq![c]);
                }
            }
            inside = true;
        }
    }
    if inside {
        let ghost t = texts(out@);
        out.push(cur);
        assert(texts(out@) =~= t.push(cur@));
    }
    assert(seen =~= s@);
    out
}

/// The pieces of a text between the occurrences of a separator; an empty text
/// is one empty piece.
pub open spec fn pieces(s: Seq<char>, sep: char) -> Seq<Seq<char>>
    decreases s.len(),
{
    if s.len() == 0 {
        seq![seq![]]
    } else {
        let before = pieces(s.drop_last(), sep);
        if s.last() == sep {
            before.push(seq![])
        } else {
            before.drop_last().push(before.last().push(s.last()))
        }
    }
}

/// Splits a text at every occurrence of a separator.
pub fn split(s: &str, sep: char) -> (out: Vec<String>)
    ensures
        texts(out@) == pieces(s@, sep),
        out@.len() > 0,
{
    let mut out: Vec<String> = Vec::new();
    let mut cur: String = String::new();
    let ghost mut seen: Seq<char> = seq![];
    assert(texts(out@).push(cur@) =~= seq![seq![]]);
    for c in it: s.chars()
        invariant
            seen == s@.take(it.index()),
            it.seq() == s@,
            pieces(seen, sep) == texts(out@).push(cur@),
    {
        proof {
            assert(s@.take(it.index() + 1).drop_last() =~= seen);
            assert(s@.take(it.index() + 1).last() == c);
            seen = s@.take(it.index() + 1);
        }
        let ghost t = texts(out@);
        let ghost w = cur@;
        if c == sep {
            out.push(cur);
            cur = String::new();
            assert(texts(out@) =~= t.push(w));
            assert(cur@ =~= seq![]);
        } else {
            cur.push(c);
            assert(t.push(w).drop_last() =~= t);
        }
    }
    let ghost t = texts(out@);
    let ghost w = cur@;
    out.push(cur);
    assert(texts(out@) =~= t.push(w));
    assert(seen =~= s@);
    out
}

/// A line without the carriage return that its line ending may begin with.
pub open spec fn strip_cr(s: Seq<char>) -> Seq<char> {
    if s.len() > 0 && s.last() == '\r' {
        s.drop_last()
    } else {
        s
    }
}

/// The lines of a text: each ends in a line feed or in a carriage return and a
/// line feed, and the last line ending is optional.
pub open spec fn lines_of(s: Seq<char>) -> Seq<Seq<char>> {
    let p = pieces(s, '\n');
    let ended = Seq::new((p.len() - 1) as nat, |i: int| strip_cr(p[i]));
    if p.last().len() == 0 {
        ended
    } else {
        ended.push(p.last())
    }
}

/// Splits a text into lines.
pub fn lines(s: &str) -> (out: Vec<String>)
    ensures
        texts(out@) == lines_of(s@),
{
    let parts = split(s, '\n');
    let ghost p = pieces(s@, '\n');
    let n: usize = parts.len() - 1;
    let mut out: Vec<String> = Vec::new();
    for i in 0..n
        invariant
            n + 1 == parts@.len(),
            texts(parts@) == p,
            texts(out@) == Seq::new(i as nat, |j: int| strip_cr(p[j])),
    {
        let ghost t = texts(out@);
        assert(texts(parts@)[i as int] == parts@[i as int]@);
        let l = without_cr(parts[i].as_str());
        out.push(l);
        assert(texts(out@) =~= t.push(l@));
        assert(texts(out@) =~= Seq::new((i + 1) as nat, |j: int| strip_cr(p[j])));
    }
    assert(texts(parts@)[n as int] == parts@[n as int]@);
    if !parts[n].as_str().is_empty() {
        let ghost t = texts(out@);
        let l = parts[n].clone();
        out.push(l);
        assert(texts(out@) =~= t.push(l@));
    }
    out
}

fn without_cr(s: &str) -> (r: String)
    ensures
        r@ == strip_cr(s@),
{
    let v = chars(s);
    if v.len() > 0 && v[v.len() - 1] == '\r' {
        string(&v, 0, v.len() - 1)
    } else {
        string(&v, 0, v.len())
    }
}

/// The characters of a text.
pub fn chars(s: &str) -> (v: Vec<char>)
    ensures
        v@ == s@,
{
    let mut v: Vec<char> = Vec::new();
    for c in it: s.chars()
        invariant
            v@ == s@.take(it.index()),
            it.seq() == s@,
    {
        v.push(c);
        assert(v@ =~= s@.take(it.index() + 1));
    }
    assert(s@.take(s@.len() as int) =~= s@);
    v
}

/// The text made of the characters of `v` from `from` up to `to`.
pub fn string(v: &Vec<char>, from: usize, to: usize) -> (s: String)
    requires
        from <= to <= v@.len(),
    ensures
        s@ == v@.subrange(from as int, to as int),
{
    let mut s: String = String::new();
    assert(s@ =~= v@.subrange(from as int, from as int));
    for i in from..to
        invariant
            from <= to <= v@.len(),
            s@ == v@.subrange(from as int, i as int),
    {
        s.push(v[i]);
        assert(s@ =~= v@.subrange(from as int, i + 1));
    }
    s
}

/// A text without the white space at its two ends.
pub open spec fn trim_of(s: Seq<char>) -> Seq<char>
    decreases s.len(),
{
    if s.len() > 0 && is_white(s[0]) {
        trim_of(s.drop_first())
    } else if s.len() > 0 && is_white(s.last()) {
        trim_of(s.drop_last())
    } else {
        s
    }
}

/// Removes the white space at the two ends of a text.
pub fn trim(s: &str) -> (r: String)
    ensures
        r@ == trim_of(s@),
{
    let v = chars(s);
    let mut a: usize = 0;
    let mut b: usize = v.len();
    assert(v@.subrange(0, v@.len() as int) =~= v@);
    while a < b && white(v[a])
        invariant
            a <= b == v@.len(),
            trim_of(v@.subrange(a as int, b as int)) == trim_of(v@),
        decreases b - a,
    {
        assert(v@.subrange(a as int, b as int).drop_first() =~= v@.subrange(a + 1, b as int));
        a = a + 1;
    }
    while a < b && white(v[b - 1])
        invariant
            a <= b <= v@.len(),
            a < b ==> !is_white(v@[a as int]),
            trim_of(v@.subrange(a as int, b as int)) == trim_of(v@),
        decreases b - a,
    {
        assert(v@.subrange(a as int, b as int).drop_last() =~= v@.subrange(a as int, b - 1));
        b = b - 1;
    }
    string(&v, a, b)
}

/// A text without the run of `c` at its end.
pub open spec fn trim_end_of(s: Seq<char>, c: char) -> Seq<char>
    decreases s.len(),
{
    if s.len() > 0 && s.last() == c {
        trim_end_of(s.drop_last(), c)
    } else {
        s
    }
}

/// Removes every `c` at the end of a text.
pub fn trim_end(s: &str, c: char) -> (r: String)
    ensures
        r@ == trim_end_of(s@, c),
{
    let v = chars(s);
    let mut b: usize = v.len();
    assert(v@.subrange(0, v@.len() as int) =~= v@);
    while b > 0 && v[b - 1] == c
        invariant
            b <= v@.len(),
            trim_end_of(v@.subrange(0, b as int), c) == trim_end_of(v@, c),
        decreases b,
    {
        assert(v@.subrange(0, b as int).drop_last() =~= v@.subrange(0, b - 1));
        b = b - 1;
    }
    string(&v, 0, b)
}

/// Tells whether the characters of `v` from `at` on begin with those of `w`.
pub fn matches_at(v: &Vec<char>, at: usize, w: &Vec<char>) -> (r: bool)
    requires
        at <= v@.len(),
    ensures
        r == (at + w@.len() <= v@.len() && v@.subrange(at as int, at + w@.len()) == w@),
{
    if v.len() - at < w.len() {
        return false;
    }
    for i in 0..w.len()
        invariant
            at + w@.len() <= v.len(),
            forall|j: int| 0 <= j < i ==> v@[at + j] == w@[j],
    {
        if v[at + i] != w[i] {
            assert(v@.subrange(at as int, at + w@.len())[i as int] != w@[i as int]);
            return false;
        }
    }
    assert(v@.subrange(at as int, at + w@.len()) =~= w@);
    true
}

/// Tells whether two texts are the same.
pub fn same(a: &str, b: &str) -> (r: bool)
    ensures
        r == (a@ == b@),
{
    let v = chars(a);
    let w = chars(b);
    assert(v@.subrange(0, v@.len() as int) =~= v@);
    v.len() == w.len() && matches_at(&v, 0, &w)
}

/// `p` is what `s` begins with.
pub open spec fn has_prefix(s: Seq<char>, p: Seq<char>) -> bool {
    p.len() <= s.len() && s.subrange(0, p.len() as int) == p
}

/// Tells whether a text begins with another.
pub fn starts_with(s: &str, p: &str) -> (r: bool)
    ensures
        r == has_prefix(s@, p@),
{
    matches_at(&chars(s), 0, &chars(p))
}

/// `needle` occurs in `hay`.
pub open spec fn has_part(hay: Seq<char>, needle: Seq<char>) -> bool {
    exists|i: int|
        0 <= i && i + needle.len() <= hay.len() && #[trigger] hay.subrange(i, i + needle.len())
            == needle
}

/// Tells whether a text occurs in another.
pub fn contains(hay: &str, needle: &str) -> (r: bool)
    ensures
        r == has_part(hay@, needle@),
{
    let h = chars(hay);
    let n = chars(needle);
    if h.len() < n.len() {
        return false;
    }
    let last: usize = h.len() - n.len();
    for i in 0..last
        invariant
            h@ == hay@,
            n@ == needle@,
            last + n@.len() == h@.len(),
            forall|j: int| 0 <= j < i ==> #[trigger] hay@.subrange(j, j + needle@.len()) != needle@,
    {
        if matches_at(&h, i, &n) {
            return true;
        }
    }
    matches_at(&h, last, &n)
}

/// At most the first `n` characters of a text.
pub open spec fn take_of(s: Seq<char>, n: int) -> Seq<char> {
    if s.len() <= n {
        s
    } else {
        s.take(n)
    }
}

/// The first `n` characters of a text, or all of it where it has fewer.
pub fn take(s: &str, n: usize) -> (r: String)
    ensures
        r@ == take_of(s@, n as int),
{
    let v = chars(s);
    assert(v@.subrange(0, v@.len() as int) =~= v@);
    if v.len() <= n {
        string(&v, 0, v.len())
    } else {
        string(&v, 0, n)
    }
}

/// `n` times the same character.
pub open spec fn run(c: char, n: int) -> Seq<char> {
    Seq::new((if n > 0 { n } else { 0 }) as nat, |i: int| c)
}

/// A text followed by the spaces that bring it to `n` characters.
pub open spec fn left_of(s: Seq<char>, n: int) -> Seq<char> {
    s + run(' ', n - s.len())
}

/// A text after the spaces that bring it to `n` characters.
pub open spec fn right_of(s: Seq<char>, n: int) -> Seq<char> {
    run(' ', n - s.len()) + s
}

fn fill(c: char, n: usize) -> (s: String)
    ensures
        s@ == run(c, n as int),
{
    let mut s: String = String::new();
    assert(s@ =~= run(c, 0));
    for i in 0..n
        invariant
            s@ == run(c, i as int),
    {
        s.push(c);
        assert(s@ =~= run(c, i + 1));
    }
    s
}

/// Aligns a text to the left in a field of `n` characters.
pub fn left(s: &str, n: usize) -> (r: String)
    ensures
        r@ == left_of(s@, n as int),
{
    let len: usize = s.unicode_len();
    let mut r = s.to_owned();
    let pad = fill(' ', if len < n { n - len } else { 0 });
    r.append(pad.as_str());
    r
}

/// Aligns a text to the right in a field of `n` characters.
pub fn right(s: &str, n: usize) -> (r: String)
    ensures
        r@ == right_of(s@, n as int),
{
    let len: usize = s.unicode_len();
    let mut r = fill(' ', if len < n { n - len } else { 0 });
    r.append(s);
    r
}

/// How many bytes a character takes in UTF-8.
pub open spec fn width(c: char) -> nat {
    if (c as u32) <= 0x7f {
        1
    } else if (c as u32) <= 0x7ff {
        2
    } else if (c as u32) <= 0xffff {
        3
    } else {
        4
    }
}

/// How many bytes a text takes in UTF-8.
pub open spec fn byte_len(s: Seq<char>) -> nat
    decreases s.len(),
{
    if s.len() == 0 {
        0
    } else {
        byte_len(s.drop_last()) + width(s.last())
    }
}

pub(crate) fn char_width(c: char) -> (n: u128)
    ensures
        n == width(c),
{
    if (c as u32) <= 0x7f {
        1
    } else if (c as u32) <= 0x7ff {
        2
    } else if (c as u32) <= 0xffff {
        3
    } else {
        4
    }
}

/// How many bytes a text takes in UTF-8.
pub fn utf8_len(s: &str) -> (n: u128)
    ensures
        n == byte_len(s@),
{
    let v = chars(s);
    let mut n: u128 = 0;
    for i in 0..v.len()
        invariant
            n == byte_len(v@.take(i as int)),
            n <= 4 * i,
    {
        assert(v@.take(i + 1).drop_last() =~= v@.take(i as int));
        n = n + char_width(v[i]);
    }
    assert(v@.take(v@.len() as int) =~= v@);
    n
}

/// Tells whether a character occurs in a text.
pub fn has_char(s: &str, c: char) -> (r: bool)
    ensures
        r == s@.contains(c),
{
    let v = chars(s);
    for i in 0..v.len()
        invariant
            v@ == s@,
            forall|j: int| 0 <= j < i ==> v@[j] != c,
    {
        if v[i] == c {
            assert(s@[i as int] == c);
            return true;
        }
    }
    false
}

/// The bytes that a text takes are those of its encoding.
pub proof fn law_byte_len_is_the_encoded_length(s: Seq<char>)
    ensures
        byte_len(s) == vstd::utf8::encode_utf8(s).len(),
    decreases s.len(),
{
    if s.len() > 0 {
        law_byte_len_is_the_encoded_length(s.drop_last());
        lemma_encode_push(s.drop_last(), s.last());
        assert(s.drop_last().push(s.last()) =~= s);
    }
}

proof fn lemma_encode_push(s: Seq<char>, c: char)
    ensures
        vstd::utf8::encode_utf8(s.push(c)).len() == vstd::utf8::encode_utf8(s).len() + width(c),
    decreases s.len(),
{
    let t = s.push(c);
    vstd::utf8::char_is_scalar(c);
    if s.len() == 0 {
        assert(t.drop_first() =~= seq![]);
        assert(vstd::utf8::encode_utf8(t.drop_first()).len() == 0);
    } else {
        assert(t.drop_first() =~= s.drop_first().push(c));
        lemma_encode_push(s.drop_first(), c);
    }
}


/// White space by its code points.
pub proof fn law_white_space(c: char)
    ensures
        is_white(c) <==> {
            let n = c as int;
            9 <= n <= 13 || n == 32 || n == 0x85 || n == 0xa0 || n == 0x1680 || 0x2000 <= n
                <= 0x200a || n == 0x2028 || n == 0x2029 || n == 0x202f || n == 0x205f || n
                == 0x3000
        },
{
}

proof fn lemma_ends_in_a_word(s: Seq<char>)
    requires
        s.len() > 0,
        !is_white(s.last()),
    ensures
        words_of(s).len() > 0,
{
}

/// White space parts words: the words of a text are those before it and those
/// behind it.
pub proof fn law_white_space_parts_words(a: Seq<char>, c: char, b: Seq<char>)
    requires
        is_white(c),
    ensures
        words_of(a.push(c) + b) == words_of(a) + words_of(b),
    decreases b.len(),
{
    let s = a.push(c) + b;
    if b.len() == 0 {
        assert(s =~= a.push(c));
        assert(a.push(c).drop_last() =~= a);
        assert(words_of(a) + words_of(b) =~= words_of(a));
    } else {
        let d = b.drop_last();
        law_white_space_parts_words(a, c, d);
        assert(s.drop_last() =~= a.push(c) + d);
        assert(s.last() == b.last());
        if is_white(b.last()) {
        } else if b.len() == 1 {
            assert(s[s.len() - 2] == c);
            assert(words_of(a) + words_of(d) =~= words_of(a));
            assert(words_of(b) =~= seq![seq![b.last()]]);
            assert(words_of(s) =~= words_of(a) + words_of(b));
        } else {
            assert(s[s.len() - 2] == b[b.len() - 2]);
            if !is_white(b[b.len() - 2]) {
                lemma_ends_in_a_word(d);
            }
            assert(words_of(s) =~= words_of(a) + words_of(b));
        }
    }
}

/// A text without white space is one word, unless it is empty.
pub proof fn law_word_without_white_space(s: Seq<char>)
    requires
        forall|i: int| 0 <= i < s.len() ==> !is_white(#[trigger] s[i]),
    ensures
        s.len() == 0 ==> words_of(s).len() == 0,
        s.len() > 0 ==> words_of(s) == seq![s],
    decreases s.len(),
{
    if s.len() > 0 {
        let d = s.drop_last();
        assert forall|i: int| 0 <= i < d.len() implies !is_white(#[trigger] d[i]) by {
            assert(!is_white(s[i]));
        }
        law_word_without_white_space(d);
        assert(!is_white(s[s.len() - 1]));
        if s.len() == 1 {
            assert(words_of(d) =~= seq![]);
            assert(seq![s.last()] =~= s);
        } else {
            assert(!is_white(s[s.len() - 2]));
            assert(d.push(s.last()) =~= s);
            assert(words_of(s) =~= seq![s]);
        }
    }
}

proof fn lemma_some_piece(s: Seq<char>, sep: char)
    ensures
        pieces(s, sep).len() > 0,
    decreases s.len(),
{
    if s.len() > 0 {
        lemma_some_piece(s.drop_last(), sep);
    }
}

/// A separator parts pieces: the pieces of a text are those before it and those
/// behind it.
pub proof fn law_separators_part_pieces(a: Seq<char>, sep: char, b: Seq<char>)
    ensures
        pieces(a.push(sep) + b, sep) == pieces(a, sep) + pieces(b, sep),
    decreases b.len(),
{
    let s = a.push(sep) + b;
    if b.len() == 0 {
        assert(s =~= a.push(sep));
        assert(a.push(sep).drop_last() =~= a);
        assert(pieces(s, sep) =~= pieces(a, sep) + pieces(b, sep));
    } else {
        let d = b.drop_last();
        law_separators_part_pieces(a, sep, d);
        lemma_some_piece(d, sep);
        assert(s.drop_last() =~= a.push(sep) + d);
        assert(s.last() == b.last());
        assert(pieces(s, sep) =~= pieces(a, sep) + pieces(b, sep));
    }
}

/// A text without the separator is one piece.
pub proof fn law_piece_without_separators(s: Seq<char>, sep: char)
    requires
        forall|i: int| 0 <= i < s.len() ==> #[trigger] s[i] != sep,
    ensures
        pieces(s, sep) == seq![s],
    decreases s.len(),
{
    if s.len() > 0 {
        let d = s.drop_last();
        assert forall|i: int| 0 <= i < d.len() implies #[trigger] d[i] != sep by {
            assert(s[i] != sep);
        }
        law_piece_without_separators(d, sep);
        assert(s[s.len() - 1] != sep);
        assert(d.push(s.last()) =~= s);
        assert(pieces(s, sep) =~= seq![s]);
    } else {
        assert(s =~= seq![]);
    }
}

/// A line feed ends a line, without the carriage return that may stand before
/// it; what follows are further lines.
pub proof fn law_line_feeds_end_lines(a: Seq<char>, b: Seq<char>)
    requires
        forall|i: int| 0 <= i < a.len() ==> #[trigger] a[i] != '\n',
    ensures
        lines_of(a.push('\n') + b).len() == lines_of(b).len() + 1,
        forall|i: int|
            0 <= i < lines_of(b).len() ==> lines_of(a.push('\n') + b)[i + 1]
                == #[trigger] lines_of(b)[i],
        a.len() > 0 && a.last() == '\r' ==> lines_of(a.push('\n') + b)[0] == a.drop_last(),
        a.len() == 0 || a.last() != '\r' ==> lines_of(a.push('\n') + b)[0] == a,
{
    law_separators_part_pieces(a, '\n', b);
    law_piece_without_separators(a, '\n');
    lemma_some_piece(b, '\n');
    let p = pieces(a.push('\n') + b, '\n');
    let q = pieces(b, '\n');
    assert(p =~= seq![a] + q);
    assert(p.last() == q.last());
    assert forall|i: int| 0 <= i < lines_of(b).len() implies lines_of(a.push('\n') + b)[i + 1]
        == #[trigger] lines_of(b)[i] by {
        assert(p[i + 1] == q[i]);
    }
}

/// A text without a line feed is one line, unless it is empty.
pub proof fn law_line_without_line_feeds(s: Seq<char>)
    requires
        forall|i: int| 0 <= i < s.len() ==> #[trigger] s[i] != '\n',
    ensures
        s.len() == 0 ==> lines_of(s).len() == 0,
        s.len() > 0 ==> lines_of(s) == seq![s],
{
    law_piece_without_separators(s, '\n');
    if s.len() > 0 {
        assert(lines_of(s) =~= seq![s]);
    }
}

/// What is left of a text without the white space at its ends: nothing but
/// white space is taken off, and no white space is left at the ends.
pub proof fn law_trim_takes_white_space(s: Seq<char>) -> (ends: (int, int))
    ensures
        0 <= ends.0 <= ends.1 <= s.len(),
        trim_of(s) == s.subrange(ends.0, ends.1),
        forall|i: int| 0 <= i < ends.0 ==> is_white(#[trigger] s[i]),
        forall|i: int| ends.1 <= i < s.len() ==> is_white(#[trigger] s[i]),
        ends.0 < ends.1 ==> !is_white(s[ends.0]) && !is_white(s[ends.1 - 1]),
    decreases s.len(),
{
    if s.len() > 0 && is_white(s[0]) {
        let t = s.drop_first();
        let (a, b) = law_trim_takes_white_space(t);
        assert(t.subrange(a, b) =~= s.subrange(a + 1, b + 1));
        assert forall|i: int| 0 <= i < a + 1 implies is_white(#[trigger] s[i]) by {
            if i > 0 {
                assert(is_white(t[i - 1]));
            }
        }
        assert forall|i: int| b + 1 <= i < s.len() implies is_white(#[trigger] s[i]) by {
            assert(is_white(t[i - 1]));
        }
        (a + 1, b + 1)
    } else if s.len() > 0 && is_white(s.last()) {
        let t = s.drop_last();
        let (a, b) = law_trim_takes_white_space(t);
        assert(t.subrange(a, b) =~= s.subrange(a, b));
        assert forall|i: int| 0 <= i < a implies is_white(#[trigger] s[i]) by {
            assert(is_white(t[i]));
        }
        assert forall|i: int| b <= i < s.len() implies is_white(#[trigger] s[i]) by {
            if i < s.len() - 1 {
                assert(is_white(t[i]));
            }
        }
        (a, b)
    } else {
        assert(s.subrange(0, s.len() as int) =~= s);
        (0, s.len() as int)
    }
}

/// What is left of a text without a character at its end: nothing else is taken
/// off, and the character is not left at the end.
pub proof fn law_trim_end_takes_the_character(s: Seq<char>, c: char)
    ensures
        trim_end_of(s, c).len() <= s.len(),
        trim_end_of(s, c) == s.take(trim_end_of(s, c).len() as int),
        forall|i: int| trim_end_of(s, c).len() <= i < s.len() ==> #[trigger] s[i] == c,
        trim_end_of(s, c).len() > 0 ==> trim_end_of(s, c).last() != c,
    decreases s.len(),
{
    if s.len() > 0 && s.last() == c {
        let t = s.drop_last();
        law_trim_end_takes_the_character(t, c);
        let r = trim_end_of(s, c);
        assert(t.take(r.len() as int) =~= s.take(r.len() as int));
        assert forall|i: int| r.len() <= i < s.len() implies #[trigger] s[i] == c by {
            if i < s.len() - 1 {
                assert(t[i] == c);
            }
        }
    } else {
        assert(s.take(s.len() as int) =~= s);
    }
}

/// A text that is brought to a length keeps its characters in their order, on
/// the side that it stands on, and the rest is spaces; a longer one stays as it
/// is. One that is cut keeps its beginning.
pub proof fn law_padding_and_cutting(s: Seq<char>, n: int, i: int)
    requires
        0 <= n,
    ensures
        left_of(s, n).len() == (if s.len() < n { n } else { s.len() as int }),
        right_of(s, n).len() == (if s.len() < n { n } else { s.len() as int }),
        take_of(s, n).len() == (if s.len() < n { s.len() as int } else { n }),
        0 <= i < s.len() ==> left_of(s, n)[i] == s[i],
        s.len() <= i < n ==> left_of(s, n)[i] == ' ',
        0 <= i < s.len() ==> right_of(s, n)[right_of(s, n).len() - s.len() + i] == s[i],
        0 <= i < n - s.len() ==> right_of(s, n)[i] == ' ',
        0 <= i < s.len() && i < n ==> take_of(s, n)[i] == s[i],
{
}

/// A text begins with another where they agree on every character of that.
pub proof fn law_prefix_is_the_beginning(s: Seq<char>, p: Seq<char>)
    ensures
        has_prefix(s, p) <==> p.len() <= s.len() && forall|i: int|
            0 <= i < p.len() ==> #[trigger] p[i] == s[i],
        has_prefix(p + s, p),
{
    if p.len() <= s.len() {
        if forall|i: int| 0 <= i < p.len() ==> #[trigger] p[i] == s[i] {
            assert(s.subrange(0, p.len() as int) =~= p);
        }
        if has_prefix(s, p) {
            assert forall|i: int| 0 <= i < p.len() implies #[trigger] p[i] == s[i] by {
                assert(s.subrange(0, p.len() as int)[i] == s[i]);
            }
        }
    }
    assert((p + s).subrange(0, p.len() as int) =~= p);
}

} // verus!
