//! Text: the few string operations that the rest of the library is built on, each stated over
//! the sequence of characters that a string holds.

use vstd::prelude::*;
use vstd::utf8::*;

verus! {

/// `String::push` appends one character and leaves the rest of the string as it was.
pub assume_specification[ String::push ](s: &mut String, c: char)
    ensures
        final(s)@ == old(s)@.push(c),
;

// ---------------------------------------------------------------------------------------------
// Strings in structures
// ---------------------------------------------------------------------------------------------

/// The characters of each string of a sequence of strings.
pub open spec fn texts(v: Seq<String>) -> Seq<Seq<char>> {
    Seq::new(v.len(), |i: int| v[i]@)
}

/// The characters of an optional string.
pub open spec fn opt_text(o: Option<String>) -> Option<Seq<char>> {
    match o {
        Some(s) => Some(s@),
        None => None,
    }
}

/// `before`, `middle` and `after` in one string.
pub fn around(before: &str, middle: &str, after: &str) -> (r: String)
    ensures
        r@ == before@ + middle@ + after@,
{
    let mut r = before.to_string();
    r.append(middle);
    r.append(after);
    r
}

/// Whether two strings hold the same characters.
pub fn same(a: &str, b: &str) -> (r: bool)
    ensures
        r == (a@ == b@),
{
    let x = a.to_string();
    let y = b.to_string();
    x == y
}

/// Whether an optional string is there and holds the characters of `b`.
pub fn opt_same(a: &Option<String>, b: &str) -> (r: bool)
    ensures
        r == (opt_text(*a) == Some(b@)),
{
    match a {
        Some(s) => same(s.as_str(), b),
        None => false,
    }
}

/// Whether a string is in a list of strings.
pub fn has(list: &Vec<String>, name: &str) -> (r: bool)
    ensures
        r == texts(list@).contains(name@),
{
    let mut i: usize = 0;
    while i < list.len()
        invariant
            i <= list@.len(),
            forall|j: int| 0 <= j < i ==> (#[trigger] list@[j])@ != name@,
        decreases list@.len() - i,
    {
        if same(list[i].as_str(), name) {
            assert(texts(list@)[i as int] == name@);
            return true;
        }
        i += 1;
    }
    proof {
        if texts(list@).contains(name@) {
            let k = choose|k: int| 0 <= k < texts(list@).len() && texts(list@)[k] == name@;
            assert(list@[k]@ == name@);
        }
    }
    false
}

/// What a sequence holds once one more item is appended.
pub proof fn lemma_contains_push<A>(s: Seq<A>, a: A, b: A)
    ensures
        s.push(a).contains(b) <==> s.contains(b) || a == b,
{
    if s.contains(b) {
        let i = choose|i: int| 0 <= i < s.len() && s[i] == b;
        assert(s.push(a)[i] == b);
    }
    if a == b {
        assert(s.push(a)[s.len() as int] == b);
    }
    if s.push(a).contains(b) {
        let i = choose|i: int| 0 <= i < s.push(a).len() && s.push(a)[i] == b;
        if i < s.len() {
            assert(s[i] == b);
        }
    }
}

/// The characters of a string, one by one.
pub fn chars_of(s: &str) -> (r: Vec<char>)
    ensures
        r@ == s@,
{
    let mut r: Vec<char> = Vec::new();
    for c in it: s.chars()
        invariant
            r@ == it.seq().take(it.index() as int),
            it.seq() == s@,
    {
        r.push(c);
    }
    r
}

/// The string of the characters `from..to` of `v`.
pub fn text_between(v: &Vec<char>, from: usize, to: usize) -> (r: String)
    requires
        from <= to <= v@.len(),
    ensures
        r@ == v@.subrange(from as int, to as int),
{
    let mut r = String::new();
    let mut i: usize = from;
    while i < to
        invariant
            from <= i <= to <= v@.len(),
            r@ == v@.subrange(from as int, i as int),
        decreases to - i,
    {
        r.push(v[i]);
        i += 1;
    }
    r
}

// ---------------------------------------------------------------------------------------------
// White space
// ---------------------------------------------------------------------------------------------

/// The characters with the Unicode property `White_Space`.
pub open spec fn is_white_space(c: char) -> bool {
    let u = c as u32;
    ||| 0x09 <= u <= 0x0d
    ||| u == 0x20
    ||| u == 0x85
    ||| u == 0xa0
    ||| u == 0x1680
    ||| 0x2000 <= u <= 0x200a
    ||| u == 0x2028
    ||| u == 0x2029
    ||| u == 0x202f
    ||| u == 0x205f
    ||| u == 0x3000
}

/// Whether a character is white space.
pub fn white_space(c: char) -> (r: bool)
    ensures
        r == is_white_space(c),
{
    let u: u32 = c as u32;
    (0x09 <= u && u <= 0x0d) || u == 0x20 || u == 0x85 || u == 0xa0 || u == 0x1680 || (0x2000 <= u
        && u <= 0x200a) || u == 0x2028 || u == 0x2029 || u == 0x202f || u == 0x205f || u == 0x3000
}

/// `s` without the white space it starts with.
pub open spec fn without_leading_space(s: Seq<char>) -> Seq<char>
    decreases s.len(),
{
    if s.len() > 0 && is_white_space(s[0]) {
        without_leading_space(s.drop_first())
    } else {
        s
    }
}

/// `s` without the white space it ends with.
pub open spec fn without_trailing_space(s: Seq<char>) -> Seq<char>
    decreases s.len(),
{
    if s.len() > 0 && is_white_space(s.last()) {
        without_trailing_space(s.drop_last())
    } else {
        s
    }
}

/// `s` without the white space on either side.
pub open spec fn trimmed(s: Seq<char>) -> Seq<char> {
    without_trailing_space(without_leading_space(s))
}

/// Whether `s` holds nothing but white space.
pub open spec fn is_blank(s: Seq<char>) -> bool {
    forall|i: int| 0 <= i < s.len() ==> is_white_space(#[trigger] s[i])
}

/// Where the white space that `v` has from `from` on ends.
fn skip_space(v: &Vec<char>, from: usize) -> (r: usize)
    requires
        from <= v@.len(),
    ensures
        from <= r <= v@.len(),
        without_leading_space(v@.skip(from as int)) == v@.skip(r as int),
        r < v@.len() ==> !is_white_space(v@[r as int]),
{
    let mut i: usize = from;
    while i < v.len() && white_space(v[i])
        invariant
            from <= i <= v@.len(),
            without_leading_space(v@.skip(from as int)) == without_leading_space(
                v@.skip(i as int),
            ),
        decreases v@.len() - i,
    {
        proof {
            assert(v@.skip(i as int).drop_first() =~= v@.skip(i + 1));
        }
        i += 1;
    }
    i
}

/// The string without the white space on either side.
pub fn trim(s: &str) -> (r: String)
    ensures
        r@ == trimmed(s@),
{
    let v = chars_of(s);
    assert(v@.skip(0) =~= v@);
    let start = skip_space(&v, 0);
    let mut end: usize = v.len();
    assert(v@.subrange(start as int, end as int) =~= v@.skip(start as int));
    while end > start && white_space(v[end - 1])
        invariant
            start <= end <= v@.len(),
            trimmed(v@) == without_trailing_space(v@.subrange(start as int, end as int)),
        decreases end,
    {
        proof {
            assert(v@.subrange(start as int, end as int).drop_last() =~= v@.subrange(
                start as int,
                end - 1,
            ));
        }
        end -= 1;
    }
    text_between(&v, start, end)
}

/// Nothing is left of a text when it is trimmed exactly when it holds nothing but white space.
pub proof fn lemma_trimmed_empty(s: Seq<char>)
    ensures
        trimmed(s).len() == 0 <==> is_blank(s),
    decreases s.len(),
{
    let t = without_leading_space(s);
    if s.len() > 0 && is_white_space(s[0]) {
        lemma_trimmed_empty(s.drop_first());
        let d = s.drop_first();
        if is_blank(d) {
            assert forall|i: int| 0 <= i < s.len() implies is_white_space(#[trigger] s[i]) by {
                if i > 0 {
                    assert(s[i] == d[i - 1]);
                }
            }
        }
        if is_blank(s) {
            assert forall|i: int| 0 <= i < d.len() implies is_white_space(#[trigger] d[i]) by {
                assert(d[i] == s[i + 1]);
            }
        }
    } else if s.len() > 0 {
        lemma_kept_front(s);
    }
}

proof fn lemma_kept_front(s: Seq<char>)
    requires
        s.len() > 0,
        !is_white_space(s[0]),
    ensures
        without_trailing_space(s).len() > 0,
    decreases s.len(),
{
    if is_white_space(s.last()) {
        lemma_kept_front(s.drop_last());
    }
}

/// A text that holds no white space is left as it is when it is trimmed.
pub proof fn lemma_trimmed_dark(s: Seq<char>)
    requires
        forall|i: int| 0 <= i < s.len() ==> !is_white_space(#[trigger] s[i]),
    ensures
        trimmed(s) == s,
{
}

/// Whether the string holds nothing but white space.
pub fn blank(s: &str) -> (r: bool)
    ensures
        r == is_blank(s@),
{
    let t = trim(s);
    proof {
        lemma_trimmed_empty(s@);
    }
    t.as_str().is_empty()
}

// ---------------------------------------------------------------------------------------------
// Words, lines, prefixes
// ---------------------------------------------------------------------------------------------

/// How many characters `s` has before its first white space.
pub open spec fn word_len(s: Seq<char>) -> nat
    decreases s.len(),
{
    if s.len() == 0 || is_white_space(s[0]) {
        0
    } else {
        1 + word_len(s.drop_first())
    }
}

proof fn lemma_word_len(s: Seq<char>)
    ensures
        word_len(s) <= s.len(),
    decreases s.len(),
{
    if s.len() > 0 && !is_white_space(s[0]) {
        lemma_word_len(s.drop_first());
    }
}

/// The words of `s`: its longest runs of characters other than white space.
pub open spec fn words(s: Seq<char>) -> Seq<Seq<char>>
    decreases s.len(),
    via words_decreases
{
    if s.len() == 0 {
        seq![]
    } else if is_white_space(s[0]) {
        words(s.drop_first())
    } else {
        seq![s.take(word_len(s) as int)] + words(s.skip(word_len(s) as int))
    }
}

#[via_fn]
proof fn words_decreases(s: Seq<char>) {
    lemma_word_len(s);
}

/// The words of a string, in order.
pub fn split_words(s: &str) -> (r: Vec<String>)
    ensures
        texts(r@) == words(s@),
{
    let v = chars_of(s);
    let mut r: Vec<String> = Vec::new();
    let mut i: usize = 0;
    proof {
        assert(v@.skip(0) =~= v@);
        assert(texts(r@) + words(v@) =~= words(v@));
    }
    while i < v.len()
        invariant
            i <= v@.len(),
            texts(r@) + words(v@.skip(i as int)) == words(v@),
        decreases v@.len() - i,
    {
        let ghost rest = v@.skip(i as int);
        if white_space(v[i]) {
            proof {
                assert(rest.drop_first() =~= v@.skip(i + 1));
            }
            i += 1;
        } else {
            let start: usize = i;
            while i < v.len() && !white_space(v[i])
                invariant
                    start <= i <= v@.len(),
                    rest == v@.skip(start as int),
                    word_len(rest) == (i - start) + word_len(v@.skip(i as int)),
                decreases v@.len() - i,
            {
                proof {
                    assert(v@.skip(i as int).drop_first() =~= v@.skip(i + 1));
                }
                i += 1;
            }
            let w = text_between(&v, start, i);
            proof {
                assert(word_len(v@.skip(i as int)) == 0);
                assert(rest.take(i - start) =~= w@);
                assert(rest.skip(i - start) =~= v@.skip(i as int));
                let before = texts(r@);
                assert(texts(r@.push(w)) =~= before.push(w@));
                assert(before + (seq![w@] + words(v@.skip(i as int))) =~= before.push(w@) + words(
                    v@.skip(i as int),
                ));
            }
            r.push(w);
        }
    }
    assert(words(v@.skip(i as int)) =~= seq![]);
    assert(texts(r@) + words(v@.skip(i as int)) =~= texts(r@));
    r
}

/// How many characters `s` has before its first line feed.
pub open spec fn line_len(s: Seq<char>) -> nat
    decreases s.len(),
{
    if s.len() == 0 || s[0] == '\n' {
        0
    } else {
        1 + line_len(s.drop_first())
    }
}

/// A line ends at the first line feed behind it, or with the text.
pub proof fn lemma_line_len(s: Seq<char>)
    ensures
        line_len(s) <= s.len(),
        line_len(s) < s.len() ==> s[line_len(s) as int] == '\n',
        forall|i: int| 0 <= i < line_len(s) ==> #[trigger] s[i] != '\n',
    decreases s.len(),
{
    if s.len() > 0 && s[0] != '\n' {
        let d = s.drop_first();
        lemma_line_len(d);
        assert forall|i: int| 0 <= i < line_len(s) implies #[trigger] s[i] != '\n' by {
            if i > 0 {
                assert(s[i] == d[i - 1]);
            }
        }
    }
}

/// `s` without the one carriage return that it may end with.
pub open spec fn without_return(s: Seq<char>) -> Seq<char> {
    if s.len() > 0 && s.last() == '\r' {
        s.drop_last()
    } else {
        s
    }
}

/// The lines of `s`. A line ends with a line feed, with or without a carriage return before it;
/// the last line may end with the text.
pub open spec fn lines(s: Seq<char>) -> Seq<Seq<char>>
    decreases s.len(),
{
    if s.len() == 0 {
        seq![]
    } else if line_len(s) >= s.len() {
        seq![s]
    } else {
        seq![without_return(s.take(line_len(s) as int))] + lines(s.skip(line_len(s) as int + 1))
    }
}

/// No line holds a line feed.
pub proof fn lemma_lines_hold_no_feed(s: Seq<char>)
    ensures
        forall|k: int, i: int|
            0 <= k < lines(s).len() && 0 <= i < lines(s)[k].len() ==> #[trigger] lines(s)[k][i]
                != '\n',
    decreases s.len(),
{
    if s.len() > 0 {
        lemma_line_len(s);
        let n = line_len(s) as int;
        if n < s.len() {
            let rest = s.skip(n + 1);
            lemma_lines_hold_no_feed(rest);
            assert forall|k: int, i: int|
                0 <= k < lines(s).len() && 0 <= i < lines(s)[k].len() implies #[trigger] lines(
                s,
            )[k][i] != '\n' by {
                if k > 0 {
                    assert(lines(s)[k] == lines(rest)[k - 1]);
                    assert(lines(rest)[k - 1][i] != '\n');
                } else {
                    assert(lines(s)[0] == without_return(s.take(n)));
                    assert(lines(s)[0][i] == s[i]);
                }
            }
        }
    }
}

/// The first line of a text ends at its first line feed.
pub proof fn lemma_first_line(line: Seq<char>, after: Seq<char>)
    requires
        forall|i: int| 0 <= i < line.len() ==> #[trigger] line[i] != '\n',
    ensures
        line_len(line.push('\n') + after) == line.len(),
    decreases line.len(),
{
    let s = line.push('\n') + after;
    if line.len() > 0 {
        let d = line.drop_first();
        assert forall|i: int| 0 <= i < d.len() implies #[trigger] d[i] != '\n' by {
            assert(d[i] == line[i + 1]);
        }
        lemma_first_line(d, after);
        assert(s.drop_first() =~= d.push('\n') + after);
        assert(s[0] == line[0]);
    }
}

/// The lines of a string, in order.
pub fn split_lines(s: &str) -> (r: Vec<String>)
    ensures
        texts(r@) == lines(s@),
{
    let v = chars_of(s);
    let mut r: Vec<String> = Vec::new();
    let mut i: usize = 0;
    proof {
        assert(v@.skip(0) =~= v@);
        assert(texts(r@) + lines(v@) =~= lines(v@));
    }
    while i < v.len()
        invariant
            i <= v@.len(),
            texts(r@) + lines(v@.skip(i as int)) == lines(v@),
        decreases v@.len() - i,
    {
        let ghost rest = v@.skip(i as int);
        let start: usize = i;
        while i < v.len() && v[i] != '\n'
            invariant
                start <= i <= v@.len(),
                rest == v@.skip(start as int),
                line_len(rest) == (i - start) + line_len(v@.skip(i as int)),
            decreases v@.len() - i,
        {
            proof {
                assert(v@.skip(i as int).drop_first() =~= v@.skip(i + 1));
            }
            i += 1;
        }
        assert(line_len(v@.skip(i as int)) == 0);
        let ghost before = texts(r@);
        if i == v.len() {
            let w = text_between(&v, start, i);
            proof {
                assert(w@ =~= rest);
                assert(texts(r@.push(w)) =~= before.push(w@));
                assert(before + seq![w@] =~= before.push(w@));
                assert(before.push(w@) + lines(v@.skip(i as int)) =~= before.push(w@));
            }
            r.push(w);
        } else {
            let end: usize = if i > start && v[i - 1] == '\r' {
                i - 1
            } else {
                i
            };
            let w = text_between(&v, start, end);
            proof {
                let n = i - start;
                assert(rest.take(n) =~= v@.subrange(start as int, i as int));
                if end < i {
                    assert(rest.take(n).drop_last() =~= w@);
                }
                assert(w@ =~= without_return(rest.take(n)));
                assert(rest.skip(n + 1) =~= v@.skip(i + 1));
                assert(texts(r@.push(w)) =~= before.push(w@));
                assert(before + (seq![w@] + lines(v@.skip(i + 1))) =~= before.push(w@) + lines(
                    v@.skip(i + 1),
                ));
            }
            r.push(w);
            i += 1;
        }
    }
    assert(lines(v@.skip(i as int)) =~= seq![]);
    assert(texts(r@) + lines(v@.skip(i as int)) =~= texts(r@));
    r
}

/// What follows `prefix` in `s`, if `s` starts with it.
pub open spec fn after_prefix(s: Seq<char>, prefix: Seq<char>) -> Option<Seq<char>> {
    if prefix.is_prefix_of(s) {
        Some(s.skip(prefix.len() as int))
    } else {
        None
    }
}

/// What follows `prefix` in a string, if the string starts with it.
pub fn strip_prefix(s: &str, prefix: &str) -> (r: Option<String>)
    ensures
        opt_text(r) == after_prefix(s@, prefix@),
{
    let v = chars_of(s);
    let p = chars_of(prefix);
    if v.len() < p.len() {
        return None;
    }
    let mut i: usize = 0;
    while i < p.len()
        invariant
            i <= p@.len() <= v@.len(),
            p@ == prefix@,
            v@ == s@,
            forall|j: int| 0 <= j < i ==> #[trigger] v@[j] == p@[j],
        decreases p@.len() - i,
    {
        if v[i] != p[i] {
            proof {
                assert(s@.subrange(0, prefix@.len() as int)[i as int] != prefix@[i as int]);
            }
            return None;
        }
        i += 1;
    }
    proof {
        assert(prefix@ =~= s@.subrange(0, prefix@.len() as int));
        assert(v@.subrange(i as int, v@.len() as int) =~= s@.skip(i as int));
    }
    Some(text_between(&v, i, v.len()))
}

/// Whether a string starts with the character `c`.
pub fn starts_with_char(s: &str, c: char) -> (r: bool)
    ensures
        r == (s@.len() > 0 && s@[0] == c),
{
    let v = chars_of(s);
    v.len() > 0 && v[0] == c
}

// ---------------------------------------------------------------------------------------------
// Length in bytes
// ---------------------------------------------------------------------------------------------

/// How many bytes `s` takes in UTF-8.
pub open spec fn utf8_len(s: Seq<char>) -> nat {
    encode_utf8(s).len()
}

/// How many bytes `c` takes in UTF-8.
pub open spec fn width(c: char) -> nat {
    encode_scalar(c as u32).len()
}

/// How many bytes a character takes in UTF-8.
pub fn char_width(c: char) -> (r: usize)
    ensures
        r == width(c),
        1 <= r <= 4,
{
    let u: u32 = c as u32;
    if u < 0x80 {
        1
    } else if u < 0x800 {
        2
    } else if u < 0x10000 {
        3
    } else {
        4
    }
}

/// The length of two texts in one is the sum of their lengths.
pub proof fn lemma_utf8_len_concat(a: Seq<char>, b: Seq<char>)
    ensures
        utf8_len(a + b) == utf8_len(a) + utf8_len(b),
    decreases a.len(),
{
    if a.len() == 0 {
        assert(a + b =~= b);
    } else {
        assert((a + b).drop_first() =~= a.drop_first() + b);
        lemma_utf8_len_concat(a.drop_first(), b);
    }
}

/// A text of one more character is longer by the width of that character.
pub proof fn lemma_utf8_len_push(a: Seq<char>, c: char)
    ensures
        utf8_len(a.push(c)) == utf8_len(a) + width(c),
{
    lemma_utf8_len_concat(a, seq![c]);
    assert(a + seq![c] =~= a.push(c));
    assert(seq![c].drop_first() =~= Seq::<char>::empty());
    assert(encode_utf8(seq![c]) =~= encode_scalar(c as u32)) by {
        reveal_with_fuel(encode_utf8, 2);
    }
}

/// The bytes of a string in UTF-8.
pub fn utf8_bytes(s: &str) -> (r: Vec<u8>)
    ensures
        r@ == encode_utf8(s@),
{
    s.as_bytes_vec()
}

/// How many bytes a string takes in UTF-8.
pub fn byte_len(s: &str) -> (r: usize)
    ensures
        r == utf8_len(s@),
{
    s.as_bytes().len()
}

// ---------------------------------------------------------------------------------------------
// Paths
// ---------------------------------------------------------------------------------------------

/// The path of `name` inside the directory `dir`.
pub open spec fn joined(dir: Seq<char>, name: Seq<char>) -> Seq<char> {
    if dir.len() == 0 || dir.last() == '/' {
        dir + name
    } else {
        dir.push('/') + name
    }
}

/// The path of a name that is not an absolute path, inside a directory.
pub fn join_path(dir: &str, name: &str) -> (r: String)
    ensures
        r@ == joined(dir@, name@),
{
    let v = chars_of(dir);
    let mut r = dir.to_string();
    if v.len() > 0 && v[v.len() - 1] != '/' {
        r.push('/');
    }
    r.append(name);
    r
}

// ---------------------------------------------------------------------------------------------
// What trimming, splitting and joining do
// ---------------------------------------------------------------------------------------------

proof fn lemma_leading(s: Seq<char>) -> (a: Seq<char>)
    ensures
        s == a + without_leading_space(s),
        forall|i: int| 0 <= i < a.len() ==> is_white_space(#[trigger] a[i]),
        without_leading_space(s).len() > 0 ==> !is_white_space(without_leading_space(s)[0]),
    decreases s.len(),
{
    if s.len() > 0 && is_white_space(s[0]) {
        let d = lemma_leading(s.drop_first());
        let a = seq![s[0]] + d;
        assert(s =~= a + without_leading_space(s)) by {
            assert(s =~= seq![s[0]] + s.drop_first());
        }
        a
    } else {
        assert(s =~= Seq::<char>::empty() + s);
        Seq::empty()
    }
}

proof fn lemma_trailing(s: Seq<char>) -> (b: Seq<char>)
    ensures
        s == without_trailing_space(s) + b,
        forall|i: int| 0 <= i < b.len() ==> is_white_space(#[trigger] b[i]),
        without_trailing_space(s).len() > 0 ==> !is_white_space(without_trailing_space(s).last()),
    decreases s.len(),
{
    if s.len() > 0 && is_white_space(s.last()) {
        let d = lemma_trailing(s.drop_last());
        let b = d.push(s.last());
        assert(s =~= without_trailing_space(s) + b) by {
            assert(s =~= s.drop_last().push(s.last()));
        }
        b
    } else {
        assert(s =~= s + Seq::<char>::empty());
        Seq::empty()
    }
}

/// A trimmed text is what is left of the text between white space at its front and white space at
/// its end, and neither starts nor ends with white space itself.
pub proof fn trimmed_is_the_middle(s: Seq<char>) -> (around: (Seq<char>, Seq<char>))
    ensures
        s == around.0 + trimmed(s) + around.1,
        forall|i: int| 0 <= i < around.0.len() ==> is_white_space(#[trigger] around.0[i]),
        forall|i: int| 0 <= i < around.1.len() ==> is_white_space(#[trigger] around.1[i]),
        trimmed(s).len() > 0 ==> !is_white_space(trimmed(s)[0]) && !is_white_space(
            trimmed(s).last(),
        ),
{
    let a = lemma_leading(s);
    let t = without_leading_space(s);
    let b = lemma_trailing(t);
    if t.len() > 0 {
        lemma_kept_front(t);
        assert(t[0] == (trimmed(s) + b)[0]);
    }
    assert(s =~= a + trimmed(s) + b);
    (a, b)
}

proof fn lemma_space_before(a: Seq<char>, m: Seq<char>)
    requires
        forall|i: int| 0 <= i < a.len() ==> is_white_space(#[trigger] a[i]),
        m.len() > 0,
        !is_white_space(m[0]),
    ensures
        without_leading_space(a + m) == m,
    decreases a.len(),
{
    if a.len() == 0 {
        assert(a + m =~= m);
    } else {
        let d = a.drop_first();
        assert forall|i: int| 0 <= i < d.len() implies is_white_space(#[trigger] d[i]) by {
            assert(d[i] == a[i + 1]);
        }
        lemma_space_before(d, m);
        assert((a + m).drop_first() =~= d + m);
        assert((a + m)[0] == a[0]);
    }
}

proof fn lemma_space_behind(m: Seq<char>, b: Seq<char>)
    requires
        forall|i: int| 0 <= i < b.len() ==> is_white_space(#[trigger] b[i]),
        m.len() > 0,
        !is_white_space(m.last()),
    ensures
        without_trailing_space(m + b) == m,
    decreases b.len(),
{
    if b.len() == 0 {
        assert(m + b =~= m);
    } else {
        let d = b.drop_last();
        assert forall|i: int| 0 <= i < d.len() implies is_white_space(#[trigger] d[i]) by {
            assert(d[i] == b[i]);
        }
        lemma_space_behind(m, d);
        assert((m + b).drop_last() =~= m + d);
        assert((m + b).last() == b[b.len() - 1]);
    }
}

/// White space round a text is cut off, whatever the text holds inside.
pub proof fn space_around_is_cut_off(a: Seq<char>, m: Seq<char>, b: Seq<char>)
    requires
        forall|i: int| 0 <= i < a.len() ==> is_white_space(#[trigger] a[i]),
        forall|i: int| 0 <= i < b.len() ==> is_white_space(#[trigger] b[i]),
        m.len() > 0,
        !is_white_space(m[0]),
        !is_white_space(m.last()),
    ensures
        trimmed(a + m + b) == m,
        !is_blank(a + m + b),
{
    assert(a + m + b =~= a + (m + b));
    lemma_space_before(a, m + b);
    lemma_space_behind(m, b);
    lemma_trimmed_empty(a + m + b);
}

/// A text is blank exactly when it holds no character other than white space.
pub proof fn blank_is_all_space(s: Seq<char>)
    ensures
        is_blank(s) <==> !exists|i: int| 0 <= i < s.len() && !is_white_space(#[trigger] s[i]),
{
}

proof fn lemma_word_len_kept(a: Seq<char>, c: char, b: Seq<char>)
    requires
        is_white_space(c),
    ensures
        word_len(a) <= a.len(),
        word_len(a.push(c) + b) == word_len(a),
    decreases a.len(),
{
    let s = a.push(c) + b;
    if a.len() > 0 && !is_white_space(a[0]) {
        lemma_word_len_kept(a.drop_first(), c, b);
        assert(s.drop_first() =~= a.drop_first().push(c) + b);
        assert(s[0] == a[0]);
    } else if a.len() > 0 {
        assert(s[0] == a[0]);
    } else {
        assert(s[0] == c);
    }
}

/// White space parts words: the words of two texts with white space between them are the words of
/// the first one and then those of the second one.
pub proof fn words_are_parted_by_space(a: Seq<char>, c: char, b: Seq<char>)
    requires
        is_white_space(c),
    ensures
        words(a.push(c) + b) == words(a) + words(b),
    decreases a.len(),
{
    let s = a.push(c) + b;
    if a.len() == 0 {
        assert(s[0] == c);
        assert(s.drop_first() =~= b);
        assert(words(a) + words(b) =~= words(b));
    } else if is_white_space(a[0]) {
        assert(s[0] == a[0]);
        words_are_parted_by_space(a.drop_first(), c, b);
        assert(s.drop_first() =~= a.drop_first().push(c) + b);
    } else {
        let n = word_len(a) as int;
        lemma_word_len_kept(a, c, b);
        assert(s[0] == a[0]);
        assert(n > 0);
        words_are_parted_by_space(a.skip(n), c, b);
        assert(s.skip(n) =~= a.skip(n).push(c) + b);
        assert(s.take(n) =~= a.take(n));
        assert(seq![a.take(n)] + (words(a.skip(n)) + words(b)) =~= seq![a.take(n)] + words(
            a.skip(n),
        ) + words(b));
    }
}

proof fn lemma_dark_word(s: Seq<char>)
    requires
        forall|i: int| 0 <= i < s.len() ==> !is_white_space(#[trigger] s[i]),
    ensures
        word_len(s) == s.len(),
    decreases s.len(),
{
    if s.len() > 0 {
        let d = s.drop_first();
        assert forall|i: int| 0 <= i < d.len() implies !is_white_space(#[trigger] d[i]) by {
            assert(d[i] == s[i + 1]);
        }
        lemma_dark_word(d);
    }
}

/// A text without white space is one word, and a text without characters has no word.
pub proof fn dark_text_is_one_word(s: Seq<char>)
    requires
        forall|i: int| 0 <= i < s.len() ==> !is_white_space(#[trigger] s[i]),
    ensures
        words(s) == if s.len() > 0 {
            seq![s]
        } else {
            seq![]
        },
{
    lemma_dark_word(s);
    if s.len() > 0 {
        let n = s.len() as int;
        assert(s.take(n) =~= s);
        assert(s.skip(n).len() == 0);
        assert(words(s.skip(n)) =~= seq![]);
        assert(words(s) =~= seq![s]);
    }
}

/// Line feeds part lines: what stands before the first line feed is the first line, without the one
/// carriage return that it may end with, and the other lines are those of what stands behind.
pub proof fn lines_are_parted_by_feeds(line: Seq<char>, after: Seq<char>)
    requires
        forall|i: int| 0 <= i < line.len() ==> #[trigger] line[i] != '\n',
    ensures
        lines(line.push('\n') + after) == seq![
            if line.len() > 0 && line[line.len() - 1] == '\r' {
                line.take(line.len() - 1)
            } else {
                line
            },
        ] + lines(after),
        lines(line) == if line.len() > 0 {
            seq![line]
        } else {
            seq![]
        },
{
    let s = line.push('\n') + after;
    let n = line.len() as int;
    lemma_first_line(line, after);
    assert(s.take(n) =~= line);
    assert(s.skip(n + 1) =~= after);
    if n > 0 {
        assert(line.drop_last() =~= line.take(n - 1));
    }
    lemma_line_len(line);
    if line_len(line) < line.len() {
        assert(line[line_len(line) as int] != '\n');
    }
}

/// What follows a prefix is what the prefix has to be put before to give the text.
pub proof fn prefix_and_rest(s: Seq<char>, prefix: Seq<char>, rest: Seq<char>)
    ensures
        after_prefix(s, prefix) == Some(rest) <==> s == prefix + rest,
        after_prefix(s, prefix) is None <==> !exists|t: Seq<char>| s == #[trigger] (prefix + t),
{
    if after_prefix(s, prefix) is Some {
        let t = s.skip(prefix.len() as int);
        assert(s =~= prefix + t);
        if s == prefix + rest {
            assert(rest =~= t);
        }
    }
    assert forall|t: Seq<char>| s == #[trigger] (prefix + t) implies after_prefix(s, prefix)
        is Some by {
        assert(s.subrange(0, prefix.len() as int) =~= prefix);
    }
    if s == prefix + rest {
        assert(s.subrange(0, prefix.len() as int) =~= prefix);
        assert(s.skip(prefix.len() as int) =~= rest);
    }
}

/// A path leads from a directory to a name: it starts with the directory and ends with the name, and
/// exactly one slash is put between them where the directory does not end with one.
pub proof fn paths_lead_inside(dir: Seq<char>, name: Seq<char>)
    ensures
        dir.is_prefix_of(joined(dir, name)),
        name.is_suffix_of(joined(dir, name)),
        joined(dir, name).len() == dir.len() + name.len() + if dir.len() > 0 && dir[dir.len() - 1]
            != '/' {
            1int
        } else {
            0
        },
        dir.len() > 0 ==> joined(dir, name)[joined(dir, name).len() - name.len() - 1] == '/',
{
    let j = joined(dir, name);
    assert(dir =~= j.subrange(0, dir.len() as int));
    assert(name =~= j.subrange(j.len() - name.len(), j.len() as int));
}

/// A character takes one byte up to 0x7f, two up to 0x7ff, three up to 0xffff, and four beyond; a
/// text takes as many as its characters.
pub proof fn widths(s: Seq<char>, c: char)
    ensures
        width(c) == if (c as u32) < 0x80 {
            1nat
        } else if (c as u32) < 0x800 {
            2nat
        } else if (c as u32) < 0x10000 {
            3nat
        } else {
            4nat
        },
        utf8_len(s.push(c)) == utf8_len(s) + width(c),
        utf8_len(Seq::<char>::empty()) == 0,
{
    lemma_utf8_len_push(s, c);
}

/// The texts of strings are what the strings hold, one for each of them, in their order.
pub proof fn texts_of_strings(v: Seq<String>, i: int)
    requires
        0 <= i < v.len(),
    ensures
        texts(v).len() == v.len(),
        texts(v)[i] == v[i]@,
        opt_text(Some(v[i])) == Some(v[i]@),
        opt_text(None) is None,
{
}

} // verus!
