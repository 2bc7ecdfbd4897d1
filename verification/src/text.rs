//! Character-level helpers: splitting, joining, comparing and formatting
//! text, all specified over `Seq<char>`.

use vstd::prelude::*;
use vstd::string::StringExecFns;

verus! {

/// Whether `c` is a whitespace character: one of the twenty-five code
/// points with the Unicode property `White_Space`.
pub open spec fn char_is_whitespace(c: char) -> bool {
    ||| '\u{9}' <= c <= '\u{d}'
    ||| c == ' '
    ||| c == '\u{85}'
    ||| c == '\u{a0}'
    ||| c == '\u{1680}'
    ||| '\u{2000}' <= c <= '\u{200a}'
    ||| c == '\u{2028}'
    ||| c == '\u{2029}'
    ||| c == '\u{202f}'
    ||| c == '\u{205f}'
    ||| c == '\u{3000}'
}

/// `char::is_whitespace` of std, which std documents as the Unicode
/// property `White_Space`.  The contract claims that the result is
/// [`char_is_whitespace`], which lists the code points of that property.
#[verifier::external_body]
pub(crate) fn is_whitespace(c: char) -> (b: bool)
    ensures
        b == char_is_whitespace(c),
{
    c.is_whitespace()
}

/// `String::push` of std.  The contract claims that the character is
/// appended at the end and nothing else changes.
#[verifier::external_body]
pub(crate) fn push_char(s: &mut String, c: char)
    ensures
        final(s)@ == old(s)@.push(c),
{
    s.push(c)
}

/// What separates the pieces of a split.
#[derive(Clone, Copy, Debug, PartialEq, Eq, Structural)]
pub enum Separator {
    /// Any single whitespace character.
    Whitespace,
    /// One given character.
    Char(char),
}

impl Separator {
    /// Whether `c` is a separator.
    pub open spec fn matches(self, c: char) -> bool {
        match self {
            Separator::Whitespace => char_is_whitespace(c),
            Separator::Char(d) => c == d,
        }
    }

    /// Executable form of [`Separator::matches`].
    pub fn test(&self, c: char) -> (b: bool)
        ensures
            b == self.matches(c),
    {
        match self {
            Separator::Whitespace => is_whitespace(c),
            Separator::Char(d) => c == *d,
        }
    }
}

/// Index of the first separator in `s`, or `s.len()` if there is none.
pub open spec fn find(s: Seq<char>, sep: Separator) -> int
    decreases s.len(),
{
    if s.len() == 0 {
        0
    } else if sep.matches(s[0]) {
        0
    } else {
        1 + find(s.drop_first(), sep)
    }
}

/// Index of the last separator in `s`, or `-1` if there is none.
pub open spec fn rfind(s: Seq<char>, sep: Separator) -> int
    decreases s.len(),
{
    if s.len() == 0 {
        -1
    } else if sep.matches(s.last()) {
        s.len() - 1
    } else {
        rfind(s.drop_last(), sep)
    }
}

/// The pieces of `s` between separators.  Every separator ends one piece, so
/// `n` separators give `n + 1` pieces, empty ones included.
pub open spec fn split(s: Seq<char>, sep: Separator) -> Seq<Seq<char>>
    decreases s.len(),
    via split_decreases
{
    let i = find(s, sep);
    if i >= s.len() {
        seq![s]
    } else {
        seq![s.take(i)].add(split(s.skip(i + 1), sep))
    }
}

#[via_fn]
proof fn split_decreases(s: Seq<char>, sep: Separator) {
    lemma_find(s, sep);
}

/// `find` returns an index within bounds, nothing before it is a separator,
/// and the character at it is one unless the index is the length.
pub proof fn lemma_find(s: Seq<char>, sep: Separator)
    ensures
        0 <= find(s, sep) <= s.len(),
        forall|j: int| 0 <= j < find(s, sep) ==> !sep.matches(#[trigger] s[j]),
        find(s, sep) < s.len() ==> sep.matches(s[find(s, sep)]),
    decreases s.len(),
{
    if s.len() > 0 && !sep.matches(s[0]) {
        let t = s.drop_first();
        lemma_find(t, sep);
        assert forall|j: int| 0 <= j < find(s, sep) implies !sep.matches(#[trigger] s[j]) by {
            if j > 0 {
                assert(s[j] == t[j - 1]);
            }
        }
        if find(s, sep) < s.len() {
            assert(s[find(s, sep)] == t[find(t, sep)]);
        }
    }
}

/// If nothing before `i` is a separator and `i` is one or the end, `find` is `i`.
pub proof fn lemma_find_unique(s: Seq<char>, sep: Separator, i: int)
    requires
        0 <= i <= s.len(),
        forall|j: int| 0 <= j < i ==> !sep.matches(#[trigger] s[j]),
        i < s.len() ==> sep.matches(s[i]),
    ensures
        find(s, sep) == i,
{
    lemma_find(s, sep);
    let f = find(s, sep);
    if f < i {
        assert(sep.matches(s[f]));
    } else if f > i {
        assert(!sep.matches(s[i]));
    }
}

/// `rfind` returns `-1` or an index of a separator after which none follows.
pub proof fn lemma_rfind(s: Seq<char>, sep: Separator)
    ensures
        -1 <= rfind(s, sep) < s.len(),
        forall|j: int| rfind(s, sep) < j < s.len() ==> !sep.matches(#[trigger] s[j]),
        rfind(s, sep) >= 0 ==> sep.matches(s[rfind(s, sep)]),
    decreases s.len(),
{
    if s.len() > 0 && !sep.matches(s.last()) {
        let t = s.drop_last();
        lemma_rfind(t, sep);
        assert forall|j: int| rfind(s, sep) < j < s.len() implies !sep.matches(#[trigger] s[j]) by {
            if j < s.len() - 1 {
                assert(s[j] == t[j]);
            }
        }
        if rfind(s, sep) >= 0 {
            assert(s[rfind(s, sep)] == t[rfind(t, sep)]);
        }
    }
}

/// If `i` is `-1` or a separator, and nothing after `i` is one, `rfind` is `i`.
pub proof fn lemma_rfind_unique(s: Seq<char>, sep: Separator, i: int)
    requires
        -1 <= i < s.len(),
        forall|j: int| i < j < s.len() ==> !sep.matches(#[trigger] s[j]),
        i >= 0 ==> sep.matches(s[i]),
    ensures
        rfind(s, sep) == i,
{
    lemma_rfind(s, sep);
    let f = rfind(s, sep);
    if f > i {
        assert(sep.matches(s[f]));
    } else if f < i {
        assert(!sep.matches(s[i]));
    }
}

/// The characters of a string slice.
pub fn to_chars(s: &str) -> (v: Vec<char>)
    ensures
        v@ == s@,
{
    let mut v: Vec<char> = Vec::new();
    for c in it: s.chars()
        invariant
            it.seq() == s@,
            v@ == it.seq().take(it.index() as int),
    {
        v.push(c);
    }
    v
}

/// The string made of the characters `v[from..to]`.
pub fn from_chars(v: &Vec<char>, from: usize, to: usize) -> (s: String)
    requires
        from <= to <= v.len(),
    ensures
        s@ == v@.subrange(from as int, to as int),
{
    let mut s = String::new();
    let mut i: usize = from;
    while i < to
        invariant
            from <= i <= to <= v.len(),
            s@ == v@.subrange(from as int, i as int),
        decreases to - i,
    {
        push_char(&mut s, v[i]);
        i += 1;
    }
    s
}

/// Whether two string slices hold the same characters.
pub fn str_eq(a: &str, b: &str) -> (r: bool)
    ensures
        r == (a@ == b@),
{
    let x = to_chars(a);
    let y = to_chars(b);
    if x.len() != y.len() {
        return false;
    }
    let mut i: usize = 0;
    while i < x.len()
        invariant
            i <= x.len(),
            x.len() == y.len(),
            x@ == a@,
            y@ == b@,
            x@.take(i as int) == y@.take(i as int),
        decreases x.len() - i,
    {
        if x[i] != y[i] {
            assert(x@[i as int] != y@[i as int]);
            return false;
        }
        assert(x@.take(i + 1) == x@.take(i as int).push(x@[i as int]));
        assert(y@.take(i + 1) == y@.take(i as int).push(y@[i as int]));
        i += 1;
    }
    assert(x@ == x@.take(x.len() as int));
    assert(y@ == y@.take(y.len() as int));
    true
}

/// Whether two byte strings are equal.
pub fn bytes_eq(a: &Vec<u8>, b: &Vec<u8>) -> (r: bool)
    ensures
        r == (a@ == b@),
{
    if a.len() != b.len() {
        return false;
    }
    let mut i: usize = 0;
    while i < a.len()
        invariant
            i <= a.len(),
            a.len() == b.len(),
            a@.take(i as int) == b@.take(i as int),
        decreases a.len() - i,
    {
        if a[i] != b[i] {
            assert(a@[i as int] != b@[i as int]);
            return false;
        }
        assert(a@.take(i + 1) == a@.take(i as int).push(a@[i as int]));
        assert(b@.take(i + 1) == b@.take(i as int).push(b@[i as int]));
        i += 1;
    }
    assert(a@ == a@.take(a.len() as int));
    assert(b@ == b@.take(b.len() as int));
    true
}

/// The views of a sequence of strings.
pub open spec fn views(v: Seq<String>) -> Seq<Seq<char>> {
    v.map_values(|s: String| s@)
}

/// Splits `text` at every separator; see [`split`].
pub fn split_text(text: &str, sep: Separator) -> (parts: Vec<String>)
    ensures
        views(parts@) == split(text@, sep),
{
    let chars = to_chars(text);
    let mut parts: Vec<String> = Vec::new();
    let mut start: usize = 0;
    let mut i: usize = 0;
    proof {
        assert(chars@.skip(0) == chars@);
        assert(views(parts@).add(split(chars@, sep)) == split(chars@, sep));
    }
    while i < chars.len()
        invariant
            start <= i <= chars.len(),
            chars@ == text@,
            forall|j: int| start <= j < i ==> !sep.matches(#[trigger] chars@[j]),
            split(text@, sep) == views(parts@).add(split(chars@.skip(start as int), sep)),
        decreases chars.len() - i,
    {
        if sep.test(chars[i]) {
            let piece = from_chars(&chars, start, i);
            proof {
                let rest = chars@.skip(start as int);
                assert forall|j: int| 0 <= j < i - start implies !sep.matches(#[trigger] rest[j]) by {
                    assert(rest[j] == chars@[start + j]);
                }
                lemma_find_unique(rest, sep, i - start);
                assert(rest.take(i - start) == chars@.subrange(start as int, i as int));
                assert(rest.skip(i - start + 1) == chars@.skip(i + 1));
                assert(views(parts@.push(piece)) == views(parts@).push(piece@));
                assert(views(parts@).add(seq![piece@].add(split(chars@.skip(i + 1), sep)))
                    == views(parts@).push(piece@).add(split(chars@.skip(i + 1), sep)));
            }
            parts.push(piece);
            start = i + 1;
        }
        i += 1;
    }
    let piece = from_chars(&chars, start, chars.len());
    proof {
        let rest = chars@.skip(start as int);
        assert forall|j: int| 0 <= j < rest.len() implies !sep.matches(#[trigger] rest[j]) by {
            assert(rest[j] == chars@[start + j]);
        }
        lemma_find_unique(rest, sep, rest.len() as int);
        assert(rest == chars@.subrange(start as int, chars.len() as int));
        assert(views(parts@.push(piece)) == views(parts@).push(piece@));
        assert(views(parts@).add(seq![piece@]) == views(parts@).push(piece@));
    }
    parts.push(piece);
    parts
}

/// A line without the carriage return that a CRLF ending leaves behind.
pub open spec fn strip_cr(line: Seq<char>) -> Seq<char> {
    if line.len() > 0 && line.last() == '\r' {
        line.drop_last()
    } else {
        line
    }
}

/// The lines of a text.  A line ends at `\n` or `\r\n`; the ending is not
/// part of the line.  The last line need not be ended, and an empty text
/// has no lines.
pub open spec fn lines(s: Seq<char>) -> Seq<Seq<char>>
    decreases s.len(),
    via lines_decreases
{
    if s.len() == 0 {
        seq![]
    } else {
        let i = find(s, Separator::Char('\n'));
        if i >= s.len() {
            seq![s]
        } else {
            seq![strip_cr(s.take(i))].add(lines(s.skip(i + 1)))
        }
    }
}

#[via_fn]
proof fn lines_decreases(s: Seq<char>) {
    lemma_find(s, Separator::Char('\n'));
}

/// Splits `text` into its lines; see [`lines`].
pub fn split_lines(text: &str) -> (parts: Vec<String>)
    ensures
        views(parts@) == lines(text@),
{
    let sep = Separator::Char('\n');
    let chars = to_chars(text);
    let mut parts: Vec<String> = Vec::new();
    let mut start: usize = 0;
    let mut i: usize = 0;
    proof {
        assert(chars@.skip(0) == chars@);
        assert(views(parts@).add(lines(chars@)) == lines(chars@));
    }
    while i < chars.len()
        invariant
            start <= i <= chars.len(),
            chars@ == text@,
            sep == Separator::Char('\n'),
            forall|j: int| start <= j < i ==> !sep.matches(#[trigger] chars@[j]),
            lines(text@) == views(parts@).add(lines(chars@.skip(start as int))),
        decreases chars.len() - i,
    {
        if chars[i] == '\n' {
            let end = if start < i && chars[i - 1] == '\r' {
                i - 1
            } else {
                i
            };
            let piece = from_chars(&chars, start, end);
            proof {
                let rest = chars@.skip(start as int);
                assert forall|j: int| 0 <= j < i - start implies !sep.matches(#[trigger] rest[j]) by {
                    assert(rest[j] == chars@[start + j]);
                }
                lemma_find_unique(rest, sep, i - start);
                assert(rest.take(i - start) == chars@.subrange(start as int, i as int));
                assert(strip_cr(rest.take(i - start)) == piece@);
                assert(rest.skip(i - start + 1) == chars@.skip(i + 1));
                assert(views(parts@.push(piece)) == views(parts@).push(piece@));
                assert(views(parts@).add(seq![piece@].add(lines(chars@.skip(i + 1))))
                    == views(parts@).push(piece@).add(lines(chars@.skip(i + 1))));
            }
            parts.push(piece);
            start = i + 1;
        }
        i += 1;
    }
    if start < chars.len() {
        let piece = from_chars(&chars, start, chars.len());
        proof {
            let rest = chars@.skip(start as int);
            assert forall|j: int| 0 <= j < rest.len() implies !sep.matches(#[trigger] rest[j]) by {
                assert(rest[j] == chars@[start + j]);
            }
            lemma_find_unique(rest, sep, rest.len() as int);
            assert(rest == chars@.subrange(start as int, chars.len() as int));
            assert(views(parts@.push(piece)) == views(parts@).push(piece@));
            assert(views(parts@).add(seq![piece@]) == views(parts@).push(piece@));
        }
        parts.push(piece);
    } else {
        assert(views(parts@).add(seq![]) == views(parts@));
    }
    parts
}

/// Whether `line` is one line of a file: not empty, and without a line
/// feed or a carriage return.
pub open spec fn is_single_line(line: Seq<char>) -> bool {
    &&& line.len() > 0
    &&& forall|i: int| 0 <= i < line.len() ==> (#[trigger] line[i]) != '\n' && line[i] != '\r'
}

/// Whether `line` is one line of a file; see [`is_single_line`].
pub fn single_line(line: &str) -> (b: bool)
    ensures
        b == is_single_line(line@),
{
    let chars = to_chars(line);
    if chars.len() == 0 {
        return false;
    }
    let mut i: usize = 0;
    while i < chars.len()
        invariant
            i <= chars.len(),
            chars@ == line@,
            forall|j: int| 0 <= j < i ==> (#[trigger] chars@[j]) != '\n' && chars@[j] != '\r',
        decreases chars.len() - i,
    {
        if chars[i] == '\n' || chars[i] == '\r' {
            return false;
        }
        i += 1;
    }
    true
}

/// The pieces put together with `sep` between neighbours.
pub open spec fn join(parts: Seq<Seq<char>>, sep: Seq<char>) -> Seq<char>
    decreases parts.len(),
{
    if parts.len() == 0 {
        seq![]
    } else if parts.len() == 1 {
        parts[0]
    } else {
        join(parts.drop_last(), sep) + sep + parts.last()
    }
}

/// Joins `parts` with `sep` between neighbours; see [`join`].
pub fn join_text(parts: &Vec<String>, sep: &str) -> (text: String)
    ensures
        text@ == join(views(parts@), sep@),
{
    let mut text = String::new();
    let mut i: usize = 0;
    while i < parts.len()
        invariant
            i <= parts.len(),
            text@ == join(views(parts@).take(i as int), sep@),
        decreases parts.len() - i,
    {
        if i > 0 {
            text.append(sep);
        }
        text.append(parts[i].as_str());
        proof {
            let done = views(parts@).take(i + 1);
            assert(done.drop_last() == views(parts@).take(i as int));
            assert(done.last() == parts@[i as int]@);
            if i == 0 {
                assert(seq![].add(parts@[0]@) == parts@[0]@);
            }
        }
        i += 1;
    }
    assert(views(parts@).take(parts.len() as int) == views(parts@));
    text
}

/// `a` followed by `b`.
pub fn chain(a: &str, b: &str) -> (text: String)
    ensures
        text@ == a@ + b@,
{
    let mut text = String::from_str(a);
    text.append(b);
    text
}

/// The character of one decimal digit.
pub open spec fn digit(d: int) -> char {
    if d == 0 {
        '0'
    } else if d == 1 {
        '1'
    } else if d == 2 {
        '2'
    } else if d == 3 {
        '3'
    } else if d == 4 {
        '4'
    } else if d == 5 {
        '5'
    } else if d == 6 {
        '6'
    } else if d == 7 {
        '7'
    } else if d == 8 {
        '8'
    } else {
        '9'
    }
}

/// The decimal numeral of `n`, without sign or leading zeros.
pub open spec fn decimal(n: nat) -> Seq<char>
    decreases n,
{
    if n < 10 {
        seq![digit(n as int)]
    } else {
        decimal(n / 10).push(digit((n % 10) as int))
    }
}

fn digit_char(d: usize) -> (c: char)
    requires
        d < 10,
    ensures
        c == digit(d as int),
{
    if d == 0 {
        '0'
    } else if d == 1 {
        '1'
    } else if d == 2 {
        '2'
    } else if d == 3 {
        '3'
    } else if d == 4 {
        '4'
    } else if d == 5 {
        '5'
    } else if d == 6 {
        '6'
    } else if d == 7 {
        '7'
    } else if d == 8 {
        '8'
    } else {
        '9'
    }
}

/// Writes `n` as a decimal numeral; see [`decimal`].
pub fn decimal_text(n: usize) -> (text: String)
    ensures
        text@ == decimal(n as nat),
{
    // Digits come out lowest first; `low` holds them in that order.
    let mut low: Vec<char> = Vec::new();
    let mut rest: usize = n;
    while rest >= 10
        invariant
            decimal(n as nat) == decimal(rest as nat) + low@.reverse(),
        decreases rest,
    {
        let d = digit_char(rest % 10);
        proof {
            let r = rest as nat;
            assert(decimal(r) == decimal(r / 10).push(d));
            assert(low@.push(d).reverse() == seq![d] + low@.reverse());
            assert(decimal(r / 10).push(d) + low@.reverse() == decimal(r / 10) + (seq![d]
                + low@.reverse()));
        }
        low.push(d);
        rest = rest / 10;
    }
    let d = digit_char(rest);
    let mut text = String::new();
    push_char(&mut text, d);
    let mut i: usize = low.len();
    while i > 0
        invariant
            i <= low.len(),
            text@ == seq![d] + low@.reverse().take(low.len() - i),
        decreases i,
    {
        i -= 1;
        push_char(&mut text, low[i]);
        proof {
            let rev = low@.reverse();
            let k = low.len() - i - 1;
            assert(rev[k] == low@[i as int]);
            assert(rev.take(k + 1) == rev.take(k).push(rev[k]));
            assert((seq![d] + rev.take(k)).push(rev[k]) == seq![d] + rev.take(k).push(rev[k]));
        }
    }
    proof {
        assert(low@.reverse().take(low.len() as int) == low@.reverse());
        assert(decimal(rest as nat) == seq![d]);
    }
    text
}

/// What `{:?}` prints for a string: the text between double quotes, with
/// quotes, backslashes and unprintable characters escaped.
pub uninterp spec fn debug_quoted(s: Seq<char>) -> Seq<char>;

/// `<str as core::fmt::Debug>::fmt` of std, through `format!`.  The
/// contract claims that the result depends on the characters of `s` alone,
/// and gives it the name [`debug_quoted`].
#[verifier::external_body]
pub(crate) fn quote(s: &str) -> (text: String)
    ensures
        text@ == debug_quoted(s@),
{
    format!("{:?}", s)
}

} // verus!
