//! Text primitives: searching, splitting, ASCII classes and decimal numbers.
//!
//! Everything here is stated over sequences of characters, so that the parsers built on top can
//! describe their grammar without referring to UTF-8 positions.
use vstd::prelude::*;

verus! {

/// `String::push` appends one character.
pub assume_specification[ String::push ](s: &mut String, c: char)
    ensures
        final(s)@ == old(s)@.push(c),
;

/// The number of leading elements of `s` that differ from `x`: the index of the first `x`, or
/// the length of `s` if there is none.
pub open spec fn span<T>(s: Seq<T>, x: T) -> int
    decreases s.len(),
{
    if s.len() == 0 || s[0] == x {
        0
    } else {
        1 + span(s.drop_first(), x)
    }
}

pub proof fn lemma_span<T>(s: Seq<T>, x: T)
    ensures
        0 <= span(s, x) <= s.len(),
        forall|i: int| 0 <= i < span(s, x) ==> s[i] != x,
        span(s, x) < s.len() ==> s[span(s, x)] == x,
    decreases s.len(),
{
    if s.len() != 0 && s[0] != x {
        let t = s.drop_first();
        lemma_span(t, x);
        assert forall|i: int| 0 <= i < span(s, x) implies s[i] != x by {
            if i > 0 {
                assert(t[i - 1] == s[i]);
            }
        }
    }
}

pub proof fn lemma_span_unique<T>(s: Seq<T>, x: T, n: int)
    requires
        0 <= n <= s.len(),
        forall|i: int| 0 <= i < n ==> s[i] != x,
        n < s.len() ==> s[n] == x,
    ensures
        span(s, x) == n,
{
    lemma_span(s, x);
    if span(s, x) < n {
        assert(s[span(s, x)] == x);
    }
    if n < span(s, x) {
        assert(s[n] == x);
    }
}

/// The pieces of `s` between occurrences of `sep`. There is always at least one piece.
pub open spec fn split<T>(s: Seq<T>, sep: T) -> Seq<Seq<T>>
    decreases s.len(),
{
    let n = span(s, sep);
    if 0 <= n < s.len() {
        seq![s.take(n)] + split(s.skip(n + 1), sep)
    } else {
        seq![s]
    }
}

/// The characters of a string, as a vector.
pub fn chars(s: &str) -> (v: Vec<char>)
    ensures
        v@ == s@,
{
    let mut v: Vec<char> = Vec::new();
    for c in it: s.chars()
        invariant
            v@ == it.seq().take(it.index() as int),
            it.seq() == s@,
    {
        v.push(c);
    }
    v
}

/// The string made of the characters in `v[from..to]`.
pub fn string(v: &[char], from: usize, to: usize) -> (s: String)
    requires
        from <= to <= v@.len(),
    ensures
        s@ == v@.subrange(from as int, to as int),
{
    let mut s = String::new();
    let mut i: usize = from;
    while i < to
        invariant
            from <= i <= to <= v@.len(),
            s@ == v@.subrange(from as int, i as int),
        decreases to - i,
    {
        s.push(v[i]);
        i = i + 1;
    }
    s
}


/// Append `tail` to `s`.
pub fn push_str(s: &mut String, tail: &str)
    ensures
        final(s)@ == old(s)@ + tail@,
{
    let v = chars(tail);
    let ghost head = s@;
    let mut i: usize = 0;
    assert(head + tail@.take(0) =~= head);
    while i < v.len()
        invariant
            i <= v@.len(),
            v@ == tail@,
            s@ == head + tail@.take(i as int),
        decreases v@.len() - i,
    {
        s.push(v[i]);
        assert(tail@.take(i + 1) == tail@.take(i as int).push(v@[i as int]));
        assert(s@ =~= head + tail@.take(i + 1));
        i = i + 1;
    }
    assert(tail@.take(i as int) == tail@);
}

/// `before`, `middle` and `after`, one behind the other.
pub fn concat3(before: &str, middle: &str, after: &str) -> (r: String)
    ensures
        r@ == before@ + middle@ + after@,
{
    let mut r = String::new();
    push_str(&mut r, before);
    push_str(&mut r, middle);
    push_str(&mut r, after);
    assert(r@ =~= before@ + middle@ + after@);
    r
}

/// Whether two strings hold the same characters.
pub fn same(a: &str, b: &str) -> (r: bool)
    ensures
        r == (a@ == b@),
{
    let x = chars(a);
    let y = chars(b);
    if x.len() != y.len() {
        return false;
    }
    let mut i: usize = 0;
    while i < x.len()
        invariant
            i <= x.len(),
            x.len() == y.len(),
            x@ == a@,
            y@ == b@,
            x@.take(i as int) == y@.take(i as int),
        decreases x.len() - i,
    {
        if x[i] != y[i] {
            return false;
        }
        assert(x@.take(i + 1) == x@.take(i as int).push(x@[i as int]));
        assert(y@.take(i + 1) == y@.take(i as int).push(y@[i as int]));
        i = i + 1;
    }
    assert(x@.take(i as int) == x@ && y@.take(i as int) == y@);
    true
}

/// Whether `s` begins with `prefix`.
pub fn starts_with(s: &str, prefix: &str) -> (r: bool)
    ensures
        r == prefix@.is_prefix_of(s@),
{
    let x = chars(s);
    let y = chars(prefix);
    if x.len() < y.len() {
        return false;
    }
    let mut i: usize = 0;
    while i < y.len()
        invariant
            i <= y.len() <= x.len(),
            x@ == s@,
            y@ == prefix@,
            forall|j: int| 0 <= j < i ==> x@[j] == y@[j],
        decreases y.len() - i,
    {
        if x[i] != y[i] {
            assert(s@.subrange(0, prefix@.len() as int)[i as int] == x@[i as int]);
            return false;
        }
        i = i + 1;
    }
    assert(prefix@ =~= s@.subrange(0, prefix@.len() as int));
    true
}

/// Whether the last character of `s` is `c`.
pub fn ends_with(s: &str, c: char) -> (r: bool)
    ensures
        r == (s@.len() > 0 && s@.last() == c),
{
    let x = chars(s);
    x.len() > 0 && x[x.len() - 1] == c
}

/// What follows `prefix` in `s`, if `s` begins with it.
pub fn strip_prefix(s: &str, prefix: &str) -> (r: Option<String>)
    ensures
        r is Some <==> prefix@.is_prefix_of(s@),
        r matches Some(rest) ==> rest@ == s@.skip(prefix@.len() as int),
{
    if starts_with(s, prefix) {
        let x = chars(s);
        let y = chars(prefix);
        let rest = string(x.as_slice(), y.len(), x.len());
        assert(s@.subrange(prefix@.len() as int, s@.len() as int) == s@.skip(prefix@.len() as int));
        Some(rest)
    } else {
        None
    }
}

/// The index of the first `c` in `v`, or the length of `v`.
pub fn find(v: &[char], c: char) -> (n: usize)
    ensures
        n == span(v@, c),
{
    let mut i: usize = 0;
    while i < v.len()
        invariant
            i <= v@.len(),
            forall|j: int| 0 <= j < i ==> v@[j] != c,
        decreases v@.len() - i,
    {
        if v[i] == c {
            proof {
                lemma_span_unique(v@, c, i as int);
            }
            return i;
        }
        i = i + 1;
    }
    proof {
        lemma_span_unique(v@, c, i as int);
    }
    i
}

/// The two sides of the first `sep` in `s`, if it has one.
pub fn split_once(s: &str, sep: char) -> (r: Option<(String, String)>)
    ensures
        r is Some <==> s@.contains(sep),
        r matches Some((a, b)) ==> {
            &&& a@ == s@.take(span(s@, sep))
            &&& b@ == s@.skip(span(s@, sep) + 1)
        },
{
    let v = chars(s);
    let n = find(v.as_slice(), sep);
    proof {
        lemma_span(s@, sep);
    }
    if n < v.len() {
        assert(s@[n as int] == sep);
        let a = string(v.as_slice(), 0, n);
        let b = string(v.as_slice(), n + 1, v.len());
        assert(a@ == s@.take(n as int));
        assert(b@ == s@.skip(n + 1));
        Some((a, b))
    } else {
        assert(!s@.contains(sep)) by {
            if s@.contains(sep) {
                let i = choose|i: int| 0 <= i < s@.len() && s@[i] == sep;
                assert(s@[i] != sep);
            }
        }
        None
    }
}

/// Dropping a prefix and then splitting is what remains of splitting: one step of [`split`].
pub proof fn lemma_split_step<T>(s: Seq<T>, sep: T)
    ensures
        span(s, sep) < s.len() ==> split(s, sep) == seq![s.take(span(s, sep))] + split(
            s.skip(span(s, sep) + 1),
            sep,
        ),
        span(s, sep) >= s.len() ==> split(s, sep) == seq![s],
{
    lemma_span(s, sep);
}

/// Splitting what a separator joins gives the pieces of both sides.
pub proof fn lemma_split_join<T>(a: Seq<T>, sep: T, b: Seq<T>)
    ensures
        split(a.push(sep) + b, sep) == split(a, sep) + split(b, sep),
    decreases a.len(),
{
    let s = a.push(sep) + b;
    lemma_span(a, sep);
    let n = span(a, sep);
    assert forall|i: int| 0 <= i < n implies s[i] != sep by {
        assert(s[i] == a[i]);
    }
    lemma_span_unique(s, sep, n);
    lemma_split_step(s, sep);
    lemma_split_step(a, sep);
    if n < a.len() {
        let rest = a.skip(n + 1);
        lemma_split_join(rest, sep, b);
        assert(s.skip(n + 1) == rest.push(sep) + b);
        assert(s.take(n) == a.take(n));
        assert(seq![a.take(n)] + (split(rest, sep) + split(b, sep)) == (seq![a.take(n)]
            + split(rest, sep)) + split(b, sep));
    } else {
        assert(s.take(n) == a);
        assert(s.skip(n + 1) == b);
    }
}

/// No piece of a split holds the separator.
pub proof fn lemma_split_free<T>(s: Seq<T>, sep: T)
    ensures
        split(s, sep).len() > 0,
        forall|i: int, j: int|
            0 <= i < split(s, sep).len() && 0 <= j < split(s, sep)[i].len()
                ==> #[trigger] split(s, sep)[i][j] != sep,
    decreases s.len(),
{
    lemma_span(s, sep);
    lemma_split_step(s, sep);
    let n = span(s, sep);
    let pieces = split(s, sep);
    if n < s.len() {
        let rest = split(s.skip(n + 1), sep);
        lemma_split_free(s.skip(n + 1), sep);
        assert forall|i: int, j: int|
            0 <= i < pieces.len() && 0 <= j < pieces[i].len() implies #[trigger] pieces[i][j]
            != sep by {
            if i > 0 {
                assert(pieces[i] == rest[i - 1]);
                assert(rest[i - 1][j] != sep);
            }
        }
    }
}

/// A text without the separator is its own only piece.
pub proof fn lemma_split_none<T>(s: Seq<T>, sep: T)
    requires
        forall|i: int| 0 <= i < s.len() ==> s[i] != sep,
    ensures
        split(s, sep) == seq![s],
{
    lemma_span_unique(s, sep, s.len() as int);
    lemma_split_step(s, sep);
}

/// The pieces of `s` between occurrences of `sep`.
pub fn split_str(s: &str, sep: char) -> (r: Vec<String>)
    ensures
        r.deep_view() == split(s@, sep),
        r@.len() >= 1,
{
    let v = chars(s);
    let mut r: Vec<String> = Vec::new();
    let mut from: usize = 0;
    let mut i: usize = 0;
    assert(s@.skip(0) == s@);
    assert(r.deep_view() + split(s@, sep) == split(s@, sep));
    while i < v.len()
        invariant
            from <= i <= v@.len(),
            v@ == s@,
            forall|j: int| from <= j < i ==> v@[j] != sep,
            r.deep_view() + split(s@.skip(from as int), sep) == split(s@, sep),
        decreases v@.len() - i,
    {
        if v[i] == sep {
            let piece = string(v.as_slice(), from, i);
            let ghost rest = s@.skip(from as int);
            let ghost before = r.deep_view();
            proof {
                lemma_span_unique(rest, sep, i - from);
                lemma_split_step(rest, sep);
                assert(rest.take(i - from) == piece@);
                assert(rest.skip(i - from + 1) == s@.skip(i + 1));
            }
            r.push(piece);
            assert(r.deep_view() == before.push(piece@));
            assert(before + (seq![piece@] + split(s@.skip(i + 1), sep)) == before.push(piece@)
                + split(s@.skip(i + 1), sep));
            from = i + 1;
        }
        i = i + 1;
    }
    let piece = string(v.as_slice(), from, v.len());
    let ghost rest = s@.skip(from as int);
    let ghost before = r.deep_view();
    proof {
        lemma_span_unique(rest, sep, rest.len() as int);
        lemma_split_step(rest, sep);
        assert(rest == piece@);
    }
    r.push(piece);
    assert(r.deep_view() == before.push(piece@));
    assert(before + seq![piece@] == before.push(piece@));
    r
}

pub open spec fn is_digit(c: char) -> bool {
    '0' <= c <= '9'
}

pub open spec fn is_hex_digit(c: char) -> bool {
    is_digit(c) || 'a' <= c <= 'f' || 'A' <= c <= 'F'
}

pub open spec fn is_alphanumeric(c: char) -> bool {
    is_digit(c) || 'a' <= c <= 'z' || 'A' <= c <= 'Z'
}

/// The ASCII lower case of a character; any other character is its own.
pub open spec fn lower(c: char) -> char {
    if 'A' <= c <= 'Z' {
        (c as u32 + 32) as char
    } else {
        c
    }
}

/// Whether every character is an ASCII decimal digit.
pub open spec fn digits(s: Seq<char>) -> bool {
    forall|i: int| 0 <= i < s.len() ==> is_digit(#[trigger] s[i])
}

/// Whether every character is an ASCII letter or digit.
pub open spec fn alphanumeric(s: Seq<char>) -> bool {
    forall|i: int| 0 <= i < s.len() ==> is_alphanumeric(#[trigger] s[i])
}

/// Whether `s` is a number of exactly four hexadecimal digits.
pub open spec fn hex4(s: Seq<char>) -> bool {
    &&& s.len() == 4
    &&& forall|i: int| 0 <= i < s.len() ==> is_hex_digit(#[trigger] s[i])
}

pub fn is_hex4(val: &str) -> (r: bool)
    ensures
        r == hex4(val@),
{
    let v = chars(val);
    if v.len() != 4 {
        return false;
    }
    let mut i: usize = 0;
    while i < v.len()
        invariant
            i <= v@.len(),
            v@ == val@,
            v@.len() == 4,
            forall|j: int| 0 <= j < i ==> is_hex_digit(#[trigger] v@[j]),
        decreases v@.len() - i,
    {
        let c = v[i];
        if !(('0' <= c && c <= '9') || ('a' <= c && c <= 'f') || ('A' <= c && c <= 'F')) {
            assert(!is_hex_digit(val@[i as int]));
            return false;
        }
        i = i + 1;
    }
    true
}

pub fn is_alphanumeric_str(val: &str) -> (r: bool)
    ensures
        r == alphanumeric(val@),
{
    let v = chars(val);
    let mut i: usize = 0;
    while i < v.len()
        invariant
            i <= v@.len(),
            v@ == val@,
            forall|j: int| 0 <= j < i ==> is_alphanumeric(#[trigger] v@[j]),
        decreases v@.len() - i,
    {
        let c = v[i];
        if !(('0' <= c && c <= '9') || ('a' <= c && c <= 'z') || ('A' <= c && c <= 'Z')) {
            assert(!is_alphanumeric(val@[i as int]));
            return false;
        }
        i = i + 1;
    }
    true
}

pub fn is_digits(val: &str) -> (r: bool)
    ensures
        r == digits(val@),
{
    let v = chars(val);
    let mut i: usize = 0;
    while i < v.len()
        invariant
            i <= v@.len(),
            v@ == val@,
            forall|j: int| 0 <= j < i ==> is_digit(#[trigger] v@[j]),
        decreases v@.len() - i,
    {
        let c = v[i];
        if !('0' <= c && c <= '9') {
            assert(!is_digit(val@[i as int]));
            return false;
        }
        i = i + 1;
    }
    true
}

/// The string with its ASCII letters in lower case.
pub fn to_ascii_lowercase(val: &str) -> (r: String)
    ensures
        r@ == val@.map_values(|c: char| lower(c)),
{
    let v = chars(val);
    let mut r = String::new();
    let mut i: usize = 0;
    while i < v.len()
        invariant
            i <= v@.len(),
            v@ == val@,
            r@ == val@.take(i as int).map_values(|c: char| lower(c)),
        decreases v@.len() - i,
    {
        let c = v[i];
        let d: char = if 'A' <= c && c <= 'Z' {
            (c as u8 + 32) as char
        } else {
            c
        };
        assert(d == lower(c));
        r.push(d);
        assert(val@.take(i + 1) == val@.take(i as int).push(c));
        assert(r@ == val@.take(i + 1).map_values(|c: char| lower(c)));
        i = i + 1;
    }
    assert(val@.take(i as int) == val@);
    r
}


/// The characters with the Unicode `White_Space` property.
pub open spec fn is_white_space(c: char) -> bool {
    ||| 0x09 <= c as u32 <= 0x0d
    ||| c as u32 == 0x20
    ||| c as u32 == 0x85
    ||| c as u32 == 0xa0
    ||| c as u32 == 0x1680
    ||| 0x2000 <= c as u32 <= 0x200a
    ||| c as u32 == 0x2028
    ||| c as u32 == 0x2029
    ||| c as u32 == 0x202f
    ||| c as u32 == 0x205f
    ||| c as u32 == 0x3000
}

fn white_space(c: char) -> (r: bool)
    ensures
        r == is_white_space(c),
{
    let u: u32 = c as u32;
    (0x09 <= u && u <= 0x0d) || u == 0x20 || u == 0x85 || u == 0xa0 || u == 0x1680 || (0x2000 <= u
        && u <= 0x200a) || u == 0x2028 || u == 0x2029 || u == 0x202f || u == 0x205f || u == 0x3000
}

pub open spec fn trim_start(s: Seq<char>) -> Seq<char>
    decreases s.len(),
{
    if s.len() > 0 && is_white_space(s[0]) {
        trim_start(s.drop_first())
    } else {
        s
    }
}

pub open spec fn trim_end(s: Seq<char>) -> Seq<char>
    decreases s.len(),
{
    if s.len() > 0 && is_white_space(s.last()) {
        trim_end(s.drop_last())
    } else {
        s
    }
}

/// `s` without its leading and trailing white space.
pub fn trim(s: &str) -> (r: String)
    ensures
        r@ == trim_end(trim_start(s@)),
{
    let v = chars(s);
    let mut from: usize = 0;
    assert(s@.skip(0) == s@);
    while from < v.len() && white_space(v[from])
        invariant
            from <= v@.len(),
            v@ == s@,
            trim_start(s@) == trim_start(s@.skip(from as int)),
        decreases v@.len() - from,
    {
        assert(s@.skip(from as int)[0] == v@[from as int]);
        assert(s@.skip(from as int).drop_first() == s@.skip(from + 1));
        from = from + 1;
    }
    let ghost start = s@.skip(from as int);
    assert(trim_start(s@) == start) by {
        if start.len() > 0 {
            assert(start[0] == v@[from as int]);
        }
    }
    let mut to: usize = v.len();
    assert(s@.subrange(from as int, to as int) == start);
    while from < to && white_space(v[to - 1])
        invariant
            from <= to <= v@.len(),
            v@ == s@,
            trim_end(start) == trim_end(s@.subrange(from as int, to as int)),
        decreases to,
    {
        let ghost now = s@.subrange(from as int, to as int);
        assert(now.last() == v@[to - 1]);
        assert(now.drop_last() == s@.subrange(from as int, to - 1));
        to = to - 1;
    }
    assert(trim_end(start) == s@.subrange(from as int, to as int)) by {
        let now = s@.subrange(from as int, to as int);
        if now.len() > 0 {
            assert(now.last() == v@[to - 1]);
        }
    }
    string(v.as_slice(), from, to)
}

/// A line without the carriage return in front of its line feed.
pub open spec fn without_cr(s: Seq<char>) -> Seq<char> {
    if s.len() > 0 && s.last() == '\r' {
        s.drop_last()
    } else {
        s
    }
}

/// The lines of `s`, each ended by a line feed or by a carriage return and a line feed. The ending
/// of the last line may be missing.
pub open spec fn lines(s: Seq<char>) -> Seq<Seq<char>> {
    let pieces = split(s, '\n');
    let ended = pieces.drop_last().map_values(|l: Seq<char>| without_cr(l));
    if pieces.last().len() == 0 {
        ended
    } else {
        ended.push(pieces.last())
    }
}

fn strip_cr(s: &str) -> (r: String)
    ensures
        r@ == without_cr(s@),
{
    let v = chars(s);
    if v.len() > 0 && v[v.len() - 1] == '\r' {
        let r = string(v.as_slice(), 0, v.len() - 1);
        assert(r@ == s@.drop_last());
        r
    } else {
        string(v.as_slice(), 0, v.len())
    }
}

/// The lines of `s`.
pub fn to_lines(s: &str) -> (r: Vec<String>)
    ensures
        r.deep_view() == lines(s@),
{
    let pieces = split_str(s, '\n');
    let ghost want = split(s@, '\n');
    let ghost f = |l: Seq<char>| without_cr(l);
    let n: usize = pieces.len() - 1;
    let mut r: Vec<String> = Vec::new();
    let mut i: usize = 0;
    assert(want.take(0).map_values(f) =~= r.deep_view());
    while i < n
        invariant
            i <= n == pieces@.len() - 1,
            pieces.deep_view() == want,
            f == (|l: Seq<char>| without_cr(l)),
            r.deep_view() == want.take(i as int).map_values(f),
        decreases n - i,
    {
        let ghost before = r.deep_view();
        let l = strip_cr(pieces[i].as_str());
        assert(pieces.deep_view()[i as int] == pieces@[i as int]@);
        r.push(l);
        assert(r.deep_view() == before.push(l@));
        assert(want.take(i + 1) == want.take(i as int).push(want[i as int]));
        assert(r.deep_view() =~= want.take(i + 1).map_values(f));
        i = i + 1;
    }
    assert(want.take(n as int) == want.drop_last());
    assert(pieces.deep_view()[n as int] == pieces@[n as int]@);
    let last = pieces[n].clone();
    if chars(last.as_str()).len() > 0 {
        let ghost before = r.deep_view();
        r.push(last);
        assert(r.deep_view() == before.push(last@));
    }
    r
}

/// The characters that separate words.
pub open spec fn is_ascii_white_space(c: char) -> bool {
    c == ' ' || c == '\t' || c == '\n' || c as u32 == 0x0c || c == '\r'
}

fn ascii_white_space(c: char) -> (r: bool)
    ensures
        r == is_ascii_white_space(c),
{
    c == ' ' || c == '\t' || c == '\n' || c as u32 == 0x0c || c == '\r'
}

/// The length of the word at the start of `s`.
pub open spec fn word_len(s: Seq<char>) -> nat
    decreases s.len(),
{
    if s.len() == 0 || is_ascii_white_space(s[0]) {
        0
    } else {
        1 + word_len(s.drop_first())
    }
}

proof fn lemma_word_len(s: Seq<char>, n: int)
    requires
        0 <= n <= s.len(),
        forall|i: int| 0 <= i < n ==> !is_ascii_white_space(#[trigger] s[i]),
        n < s.len() ==> is_ascii_white_space(s[n]),
    ensures
        word_len(s) == n,
    decreases s.len(),
{
    if n > 0 {
        assert(!is_ascii_white_space(s[0]));
        let t = s.drop_first();
        assert forall|i: int| 0 <= i < n - 1 implies !is_ascii_white_space(#[trigger] t[i]) by {
            assert(t[i] == s[i + 1]);
        }
        lemma_word_len(t, n - 1);
    }
}

/// The words of `s`: its runs of characters other than ASCII white space.
pub open spec fn words(s: Seq<char>) -> Seq<Seq<char>>
    decreases s.len(),
{
    if s.len() == 0 {
        seq![]
    } else if is_ascii_white_space(s[0]) {
        words(s.drop_first())
    } else {
        let n = word_len(s) as int;
        if 0 < n <= s.len() {
            seq![s.take(n)] + words(s.skip(n))
        } else {
            seq![]
        }
    }
}

/// The words of `s`.
pub fn to_words(s: &str) -> (r: Vec<String>)
    ensures
        r.deep_view() == words(s@),
{
    let v = chars(s);
    let mut r: Vec<String> = Vec::new();
    let mut i: usize = 0;
    assert(s@.skip(0) == s@);
    assert(r.deep_view() + words(s@) =~= words(s@));
    while i < v.len()
        invariant
            i <= v@.len(),
            v@ == s@,
            r.deep_view() + words(s@.skip(i as int)) == words(s@),
        decreases v@.len() - i,
    {
        let ghost rest = s@.skip(i as int);
        assert(rest[0] == v@[i as int]);
        if ascii_white_space(v[i]) {
            assert(rest.drop_first() == s@.skip(i + 1));
            i = i + 1;
        } else {
            let from = i;
            i = i + 1;
            while i < v.len() && !ascii_white_space(v[i])
                invariant
                    from < i <= v@.len(),
                    forall|j: int| from <= j < i ==> !is_ascii_white_space(#[trigger] v@[j]),
                decreases v@.len() - i,
            {
                i = i + 1;
            }
            let word = string(v.as_slice(), from, i);
            let ghost before = r.deep_view();
            proof {
                assert forall|j: int| 0 <= j < i - from implies !is_ascii_white_space(
                    #[trigger] rest[j],
                ) by {
                    assert(rest[j] == v@[from + j]);
                }
                lemma_word_len(rest, i - from);
                assert(rest.take(i - from) == word@);
                assert(rest.skip(i - from) == s@.skip(i as int));
            }
            r.push(word);
            assert(r.deep_view() == before.push(word@));
            assert(before + (seq![word@] + words(s@.skip(i as int))) == before.push(word@) + words(
                s@.skip(i as int),
            ));
        }
    }
    assert(r.deep_view() + words(s@.skip(i as int)) =~= r.deep_view());
    r
}

/// `String::from_utf8` accepts exactly the valid UTF-8 sequences and decodes them.
#[verifier::external_body]
pub(crate) fn from_utf8(bytes: Vec<u8>) -> (r: Option<String>)
    ensures
        r is Some <==> vstd::utf8::valid_utf8(bytes@),
        r matches Some(s) ==> s@ == vstd::utf8::decode_utf8(bytes@),
{
    String::from_utf8(bytes).ok()
}

/// What `String::from_utf8_lossy` makes of bytes that are not valid UTF-8.
pub uninterp spec fn lossy(bytes: Seq<u8>) -> Seq<char>;

/// The text shown for a sequence of bytes.
pub open spec fn displayed(bytes: Seq<u8>) -> Seq<char> {
    if vstd::utf8::valid_utf8(bytes) {
        vstd::utf8::decode_utf8(bytes)
    } else {
        lossy(bytes)
    }
}

/// `String::from_utf8_lossy` decodes valid UTF-8 as it is; what it makes of anything else is only
/// given a name.
#[verifier::external_body]
pub(crate) fn from_utf8_lossy(bytes: &Vec<u8>) -> (r: String)
    ensures
        r@ == if vstd::utf8::valid_utf8(bytes@) {
            vstd::utf8::decode_utf8(bytes@)
        } else {
            lossy(bytes@)
        },
{
    String::from_utf8_lossy(bytes).into_owned()
}

/// The digits are the ten characters from `0` to `9`, each one above the one before.
pub proof fn ten_digits(c: char)
    ensures
        is_digit(c) <==> exists|d: u32| d < 10 && #[trigger] (48 + d) == c as u32,
{
    if is_digit(c) {
        let d = (c as u32 - 48) as u32;
        assert(48 + d == c as u32);
    }
}

/// A hexadecimal digit is one of sixteen, in either case.
pub proof fn sixteen_hex_digits(c: char)
    ensures
        is_hex_digit(c) <==> seq![
            '0', '1', '2', '3', '4', '5', '6', '7', '8', '9', 'a', 'b', 'c', 'd', 'e', 'f', 'A',
            'B', 'C', 'D', 'E', 'F',
        ].contains(c),
{
    let all = seq![
        '0', '1', '2', '3', '4', '5', '6', '7', '8', '9', 'a', 'b', 'c', 'd', 'e', 'f', 'A', 'B',
        'C', 'D', 'E', 'F',
    ];
    if is_hex_digit(c) {
        let u = c as u32;
        let i: int = if u <= 57 {
            u - 48
        } else if u >= 97 {
            u - 87
        } else {
            u - 49
        };
        assert(all[i] == c);
    }
    if all.contains(c) {
        let i = choose|i: int| 0 <= i < all.len() && all[i] == c;
        assert(all[i] == c);
    }
}

/// Lower case moves the capital letters, and them alone, to the small letters.
pub proof fn lower_case_is_of_capitals(c: char)
    ensures
        lower(lower(c)) == lower(c),
        lower(c) != c <==> 'A' <= c <= 'Z',
        'A' <= c <= 'Z' ==> 'a' <= lower(c) <= 'z' && lower(c) as u32 - 'a' as u32 == c as u32
            - 'A' as u32,
        is_alphanumeric(c) <==> is_digit(c) || 'a' <= lower(c) <= 'z',
        is_hex_digit(c) <==> is_digit(c) || 'a' <= lower(c) <= 'f',
{
}

/// A number of four hexadecimal digits is just that, character by character.
pub proof fn four_hex_digits(a: char, b: char, c: char, d: char, s: Seq<char>)
    ensures
        hex4(seq![a, b, c, d]) <==> is_hex_digit(a) && is_hex_digit(b) && is_hex_digit(c)
            && is_hex_digit(d),
        hex4(s) ==> s.len() == 4,
{
    let t = seq![a, b, c, d];
    if hex4(t) {
        assert(is_hex_digit(t[0]) && is_hex_digit(t[1]) && is_hex_digit(t[2]) && is_hex_digit(t[3]));
    }
}

/// A text is made of digits, or of letters and digits, just if both halves of it are, wherever it is
/// cut.
pub proof fn every_character_counts(s: Seq<char>, t: Seq<char>, c: char)
    ensures
        digits(s + t) <==> digits(s) && digits(t),
        alphanumeric(s + t) <==> alphanumeric(s) && alphanumeric(t),
        digits(seq![c]) <==> is_digit(c),
        alphanumeric(seq![c]) <==> is_alphanumeric(c),
        digits(Seq::<char>::empty()),
        alphanumeric(Seq::<char>::empty()),
{
    let u = s + t;
    if digits(u) {
        assert forall|i: int| 0 <= i < s.len() implies is_digit(#[trigger] s[i]) by {
            assert(u[i] == s[i]);
        }
        assert forall|i: int| 0 <= i < t.len() implies is_digit(#[trigger] t[i]) by {
            assert(u[s.len() + i] == t[i]);
        }
    }
    if alphanumeric(u) {
        assert forall|i: int| 0 <= i < s.len() implies is_alphanumeric(#[trigger] s[i]) by {
            assert(u[i] == s[i]);
        }
        assert forall|i: int| 0 <= i < t.len() implies is_alphanumeric(#[trigger] t[i]) by {
            assert(u[s.len() + i] == t[i]);
        }
    }
    if digits(s) && digits(t) {
        assert forall|i: int| 0 <= i < u.len() implies is_digit(#[trigger] u[i]) by {
            if i >= s.len() {
                assert(u[i] == t[i - s.len()]);
            }
        }
    }
    if alphanumeric(s) && alphanumeric(t) {
        assert forall|i: int| 0 <= i < u.len() implies is_alphanumeric(#[trigger] u[i]) by {
            if i >= s.len() {
                assert(u[i] == t[i - s.len()]);
            }
        }
    }
    if digits(seq![c]) {
        assert(is_digit(seq![c][0]));
    }
    if alphanumeric(seq![c]) {
        assert(is_alphanumeric(seq![c][0]));
    }
}

/// The pieces of a text, with the separator put between them again.
pub open spec fn unsplit<T>(pieces: Seq<Seq<T>>, sep: T) -> Seq<T>
    decreases pieces.len(),
{
    if pieces.len() == 0 {
        seq![]
    } else if pieces.len() == 1 {
        pieces[0]
    } else {
        pieces[0].push(sep) + unsplit(pieces.drop_first(), sep)
    }
}

/// Splitting takes a text apart without losing anything: the pieces hold no separator, and put
/// together again they are the text.
pub proof fn pieces_make_up_the_text<T>(s: Seq<T>, sep: T)
    ensures
        unsplit(split(s, sep), sep) == s,
        split(s, sep).len() >= 1,
        forall|i: int| 0 <= i < split(s, sep).len() ==> !(#[trigger] split(s, sep)[i]).contains(sep),
    decreases s.len(),
{
    lemma_span(s, sep);
    lemma_split_step(s, sep);
    lemma_split_free(s, sep);
    let n = span(s, sep);
    let pieces = split(s, sep);
    assert forall|i: int| 0 <= i < pieces.len() implies !(#[trigger] pieces[i]).contains(sep) by {
        if pieces[i].contains(sep) {
            let j = choose|j: int| 0 <= j < pieces[i].len() && pieces[i][j] == sep;
            assert(pieces[i][j] != sep);
        }
    }
    if n < s.len() {
        let rest = s.skip(n + 1);
        pieces_make_up_the_text(rest, sep);
        assert(pieces.drop_first() =~= split(rest, sep));
        assert(s.take(n).push(sep) + rest =~= s);
    }
}

/// Pieces without a separator are what splitting them, once put together, gives.
pub proof fn pieces_come_apart_again<T>(pieces: Seq<Seq<T>>, sep: T)
    requires
        pieces.len() >= 1,
        forall|i: int| 0 <= i < pieces.len() ==> !(#[trigger] pieces[i]).contains(sep),
    ensures
        split(unsplit(pieces, sep), sep) == pieces,
    decreases pieces.len(),
{
    let first = pieces[0];
    assert(!first.contains(sep));
    assert forall|i: int| 0 <= i < first.len() implies first[i] != sep by {
        if first[i] == sep {
            assert(first.contains(sep));
        }
    }
    lemma_split_none(first, sep);
    if pieces.len() > 1 {
        let rest = pieces.drop_first();
        assert forall|i: int| 0 <= i < rest.len() implies !(#[trigger] rest[i]).contains(sep) by {
            assert(rest[i] == pieces[i + 1]);
        }
        pieces_come_apart_again(rest, sep);
        lemma_split_join(first, sep, unsplit(rest, sep));
        assert(seq![first] + rest =~= pieces);
    } else {
        assert(seq![first] =~= pieces);
    }
}

proof fn lemma_trim_start(s: Seq<char>) -> (n: int)
    ensures
        0 <= n <= s.len(),
        trim_start(s) == s.skip(n),
        forall|i: int| 0 <= i < n ==> is_white_space(#[trigger] s[i]),
        n < s.len() ==> !is_white_space(s[n]),
    decreases s.len(),
{
    if s.len() > 0 && is_white_space(s[0]) {
        let t = s.drop_first();
        let n = lemma_trim_start(t);
        assert(t.skip(n) =~= s.skip(n + 1));
        assert forall|i: int| 0 <= i < n + 1 implies is_white_space(#[trigger] s[i]) by {
            if i > 0 {
                assert(t[i - 1] == s[i]);
            }
        }
        n + 1
    } else {
        assert(s.skip(0) =~= s);
        0
    }
}

proof fn lemma_trim_end(s: Seq<char>) -> (n: int)
    ensures
        0 <= n <= s.len(),
        trim_end(s) == s.take(n),
        forall|i: int| n <= i < s.len() ==> is_white_space(#[trigger] s[i]),
        n > 0 ==> !is_white_space(s[n - 1]),
    decreases s.len(),
{
    if s.len() > 0 && is_white_space(s.last()) {
        let t = s.drop_last();
        let n = lemma_trim_end(t);
        assert(t.take(n) =~= s.take(n));
        assert forall|i: int| n <= i < s.len() implies is_white_space(#[trigger] s[i]) by {
            if i < t.len() {
                assert(t[i] == s[i]);
            }
        }
        n
    } else {
        assert(s.take(s.len() as int) =~= s);
        s.len() as int
    }
}

/// Trimming takes white space off both ends, all of it and nothing else: there is white space around
/// what is left, which neither starts nor ends with any.
pub proof fn trimming_takes_white_space_off(s: Seq<char>) -> (ends: (int, int))
    ensures
        0 <= ends.0 <= ends.1 <= s.len(),
        trim_end(trim_start(s)) == s.subrange(ends.0, ends.1),
        forall|i: int|
            0 <= i < s.len() && !(ends.0 <= i < ends.1) ==> is_white_space(#[trigger] s[i]),
        ends.0 < ends.1 ==> !is_white_space(s[ends.0]) && !is_white_space(s[ends.1 - 1]),
{
    let a = lemma_trim_start(s);
    let t = s.skip(a);
    let n = lemma_trim_end(t);
    let b = a + n;
    assert(t.take(n) =~= s.subrange(a, b));
    assert forall|i: int| 0 <= i < s.len() && !(a <= i < b) implies is_white_space(
        #[trigger] s[i],
    ) by {
        if i >= b {
            assert(t[i - a] == s[i]);
        }
    }
    if n > 0 {
        assert(t[n - 1] == s[b - 1]);
        assert(t[0] == s[a]);
    }
    (a, b)
}

/// White space is the space and what moves the carriage, a few of the controls and spaces beyond ASCII,
/// and nothing else. Of the former, all but the vertical tab separate words.
pub proof fn white_space_is_a_short_list(c: char)
    ensures
        is_ascii_white_space(c) <==> seq![9u32, 10, 12, 13, 32].contains(c as u32),
        is_white_space(c) <==> seq![
            9u32, 10, 11, 12, 13, 32, 0x85, 0xa0, 0x1680, 0x2000, 0x2001, 0x2002, 0x2003, 0x2004,
            0x2005, 0x2006, 0x2007, 0x2008, 0x2009, 0x200a, 0x2028, 0x2029, 0x202f, 0x205f, 0x3000,
        ].contains(c as u32),
{
    let u = c as u32;
    let short = seq![9u32, 10, 12, 13, 32];
    let long = seq![
        9u32, 10, 11, 12, 13, 32, 0x85, 0xa0, 0x1680, 0x2000, 0x2001, 0x2002, 0x2003, 0x2004, 0x2005,
        0x2006, 0x2007, 0x2008, 0x2009, 0x200a, 0x2028, 0x2029, 0x202f, 0x205f, 0x3000,
    ];
    if short.contains(u) {
        let i = choose|i: int| 0 <= i < short.len() && short[i] == u;
        assert(short[i] == u);
    }
    if long.contains(u) {
        let i = choose|i: int| 0 <= i < long.len() && long[i] == u;
        assert(long[i] == u);
    }
    assert(short[0] == 9 && short[1] == 10 && short[2] == 12 && short[3] == 13 && short[4] == 32);
    assert(c == '\t' <==> u == 9);
    assert(c == '\n' <==> u == 10);
    assert(c == '\r' <==> u == 13);
    assert(c == ' ' <==> u == 32);
    if is_white_space(c) {
        let i: int = if u <= 13 {
            u - 9
        } else if u == 0x20 {
            5
        } else if u == 0x85 {
            6
        } else if u == 0xa0 {
            7
        } else if u == 0x1680 {
            8
        } else if u <= 0x200a {
            u - 0x2000 + 9
        } else if u == 0x2028 {
            20
        } else if u == 0x2029 {
            21
        } else if u == 0x202f {
            22
        } else if u == 0x205f {
            23
        } else {
            24
        };
        assert(long[i] == u);
    }
}

/// A line feed ends a line, and so does one behind a carriage return. What comes behind is lines of
/// its own.
pub proof fn line_feeds_end_lines(line: Seq<char>, rest: Seq<char>)
    requires
        !line.contains('\n'),
    ensures
        lines(line.push('\n') + rest) == seq![
            if line.len() > 0 && line.last() == '\r' {
                line.drop_last()
            } else {
                line
            },
        ] + lines(rest),
        lines(line) == if line.len() == 0 {
            seq![]
        } else {
            seq![line]
        },
{
    assert forall|i: int| 0 <= i < line.len() implies line[i] != '\n' by {
        if line[i] == '\n' {
            assert(line.contains('\n'));
        }
    }
    let f = |l: Seq<char>| without_cr(l);
    lemma_split_none(line, '\n');
    lemma_split_join(line, '\n', rest);
    lemma_split_free(rest, '\n');
    let s = line.push('\n') + rest;
    let a = split(s, '\n');
    let b = split(rest, '\n');
    assert(a =~= seq![line] + b);
    assert(a.last() == b.last());
    assert(a.drop_last() =~= seq![line] + b.drop_last());
    assert(a.drop_last().map_values(f) =~= seq![without_cr(line)] + b.drop_last().map_values(f));
    assert(lines(s) =~= seq![without_cr(line)] + lines(rest));
    assert(split(line, '\n').drop_last() =~= seq![]);
    assert(lines(line) =~= if line.len() == 0 {
        seq![]
    } else {
        seq![line]
    });
}

/// White space in front of a text does not matter to its words, and what stands between white space
/// is a word.
pub proof fn words_stand_between_white_space(word: Seq<char>, space: char, rest: Seq<char>)
    requires
        is_ascii_white_space(space),
        word.len() > 0,
        forall|i: int| 0 <= i < word.len() ==> !is_ascii_white_space(#[trigger] word[i]),
    ensures
        words(seq![space] + rest) == words(rest),
        words(word.push(space) + rest) == seq![word] + words(rest),
        words(word) == seq![word],
        words(Seq::<char>::empty()) == Seq::<Seq<char>>::empty(),
{
    assert((seq![space] + rest).drop_first() =~= rest);
    let n = word.len() as int;
    let s = word.push(space) + rest;
    assert forall|i: int| 0 <= i < n implies !is_ascii_white_space(#[trigger] s[i]) by {
        assert(s[i] == word[i]);
    }
    assert(!is_ascii_white_space(word[0]));
    lemma_word_len(s, n);
    lemma_word_len(word, n);
    assert(s[0] == word[0]);
    assert(s.take(n) =~= word);
    assert(s.skip(n) =~= seq![space] + rest);
    assert(words(s) == seq![word] + words(s.skip(n)));
    assert(word.take(n) =~= word);
    assert(word.skip(n) =~= Seq::<char>::empty());
    assert(words(word.skip(n)) =~= Seq::<Seq<char>>::empty());
    assert(seq![word] + Seq::<Seq<char>>::empty() =~= seq![word]);
}

/// Text that is turned into bytes is shown as it was.
pub proof fn text_is_shown_as_it_is(s: Seq<char>)
    ensures
        displayed(vstd::utf8::encode_utf8(s)) == s,
{
    vstd::utf8::encode_utf8_valid_utf8(s);
    vstd::utf8::encode_utf8_decode_utf8(s);
}

/// The bytes of a text are those of its parts, one after the other.
pub proof fn bytes_come_one_after_the_other(a: Seq<char>, b: Seq<char>)
    ensures
        vstd::utf8::encode_utf8(a + b) == vstd::utf8::encode_utf8(a) + vstd::utf8::encode_utf8(b),
    decreases a.len(),
{
    if a.len() == 0 {
        assert(a + b =~= b);
        assert(vstd::utf8::encode_utf8(a) =~= Seq::<u8>::empty());
        assert(Seq::<u8>::empty() + vstd::utf8::encode_utf8(b) =~= vstd::utf8::encode_utf8(b));
    } else {
        bytes_come_one_after_the_other(a.drop_first(), b);
        assert((a + b).drop_first() =~= a.drop_first() + b);
        assert((a + b)[0] == a[0]);
        assert(vstd::utf8::encode_utf8(a + b) =~= vstd::utf8::encode_utf8(a)
            + vstd::utf8::encode_utf8(b));
    }
}

} // verus!
