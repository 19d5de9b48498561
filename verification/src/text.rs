//! Character and string primitives shared by the whole library.
//!
//! Strings are modelled as `Seq<char>`. The Unicode tables behind the
//! classification and case-mapping functions of `std` are not restated
//! here: each such function gets a name, and contracts speak of the name.

use vstd::prelude::*;

verus! {

// ---------------------------------------------------------------------
// What `std` says of a character
// ---------------------------------------------------------------------

/// Whether a character beyond ASCII has Unicode's `White_Space` property,
/// as `char::is_whitespace` answers.
pub uninterp spec fn unicode_whitespace(c: char) -> bool;

/// Whether a character beyond ASCII has Unicode's `Alphabetic` property, as
/// `char::is_alphabetic` answers.
pub uninterp spec fn unicode_alphabetic(c: char) -> bool;

/// Whether a character beyond ASCII has Unicode's `Uppercase` property, as
/// `char::is_uppercase` answers.
pub uninterp spec fn unicode_uppercase(c: char) -> bool;

/// Whether a character beyond ASCII has Unicode's `Lowercase` property, as
/// `char::is_lowercase` answers.
pub uninterp spec fn unicode_lowercase(c: char) -> bool;

/// The characters that `char::to_lowercase` yields for a character beyond
/// ASCII.
pub uninterp spec fn unicode_lower(c: char) -> Seq<char>;

/// The text that `str::to_lowercase` returns for one that is not all ASCII
/// and holds a character with another lowercase.
pub uninterp spec fn unicode_lowered(s: Seq<char>) -> Seq<char>;

/// Whether `c` is an ASCII character.
pub open spec fn ascii(c: char) -> bool {
    (c as u32) < 128
}

/// Whether every character of `s` is an ASCII character.
pub open spec fn all_ascii(s: Seq<char>) -> bool {
    forall|i: int| 0 <= i < s.len() ==> ascii(#[trigger] s[i])
}

/// Whether `c` is whitespace.
pub open spec fn whitespace(c: char) -> bool {
    if ascii(c) {
        c == ' ' || 9 <= c as u32 <= 13
    } else {
        unicode_whitespace(c)
    }
}

/// Whether `c` is a letter.
pub open spec fn alphabetic(c: char) -> bool {
    if ascii(c) {
        'a' <= c <= 'z' || 'A' <= c <= 'Z'
    } else {
        unicode_alphabetic(c)
    }
}

/// Whether `c` is a capital.
pub open spec fn uppercase(c: char) -> bool {
    if ascii(c) {
        'A' <= c <= 'Z'
    } else {
        unicode_uppercase(c)
    }
}

/// Whether `c` is a small letter.
pub open spec fn lowercase(c: char) -> bool {
    if ascii(c) {
        'a' <= c <= 'z'
    } else {
        unicode_lowercase(c)
    }
}

/// The lowercase of a character, which may be several characters.
pub open spec fn lower_of(c: char) -> Seq<char> {
    if ascii(c) {
        seq![ascii_lower(c)]
    } else {
        unicode_lower(c)
    }
}

/// Whether `c` is its own lowercase.
pub open spec fn own_lower(c: char) -> bool {
    lower_of(c) == seq![c]
}

/// Whether every character of `s` is its own lowercase.
pub open spec fn all_own_lower(s: Seq<char>) -> bool {
    forall|i: int| 0 <= i < s.len() ==> own_lower(#[trigger] s[i])
}

/// Whether `c` lies in the block of combining diacritical marks.
pub open spec fn combining_mark(c: char) -> bool {
    0x300 <= c as u32 <= 0x36F
}

/// Whether every combining mark of `r` is one of `s` too, or `s` holds the
/// capital I with a dot.
pub open spec fn marks_from(s: Seq<char>, r: Seq<char>) -> bool {
    forall|i: int|
        0 <= i < r.len() && combining_mark(#[trigger] r[i]) ==> s.contains(r[i]) || s.contains(
            '\u{130}',
        )
}

/// The lowercase of a text.
pub open spec fn lowercased(s: Seq<char>) -> Seq<char> {
    if all_ascii(s) {
        ascii_lowered(s)
    } else if all_own_lower(s) {
        s
    } else {
        unicode_lowered(s)
    }
}

/// `char::is_whitespace`: of the ASCII characters, the space and the five
/// controls from tab to carriage return; beyond ASCII, the `White_Space`
/// property of Unicode's tables.
pub assume_specification[ char::is_whitespace ](c: char) -> (b: bool)
    ensures
        ascii(c) ==> b == (c == ' ' || 9 <= c as u32 <= 13),
        !ascii(c) ==> b == unicode_whitespace(c),
;

/// `char::is_alphabetic`: of the ASCII characters, the letters; beyond
/// ASCII, the `Alphabetic` property of Unicode's tables.
pub assume_specification[ char::is_alphabetic ](c: char) -> (b: bool)
    ensures
        ascii(c) ==> b == ('a' <= c <= 'z' || 'A' <= c <= 'Z'),
        !ascii(c) ==> b == unicode_alphabetic(c),
;

/// `char::is_uppercase`: of the ASCII characters, `A` to `Z`; beyond ASCII,
/// the `Uppercase` property of Unicode's tables.
pub assume_specification[ char::is_uppercase ](c: char) -> (b: bool)
    ensures
        ascii(c) ==> b == ('A' <= c <= 'Z'),
        !ascii(c) ==> b == unicode_uppercase(c),
;

/// `char::is_lowercase`: of the ASCII characters, `a` to `z`; beyond ASCII,
/// the `Lowercase` property of Unicode's tables.
pub assume_specification[ char::is_lowercase ](c: char) -> (b: bool)
    ensures
        ascii(c) ==> b == ('a' <= c <= 'z'),
        !ascii(c) ==> b == unicode_lowercase(c),
;

/// `str::to_lowercase`: the Unicode lowercase of a whole text, which the
/// standard library computes from its case tables. A text of ASCII
/// characters alone has its capitals replaced by small letters, and one
/// whose characters are all their own lowercase is kept. Every character of
/// the lowercase is its own, and the one character whose lowercase brings a
/// combining mark is the capital I with a dot.
pub assume_specification[ str::to_lowercase ](s: &str) -> (r: String)
    ensures
        all_ascii(s@) ==> r@ == ascii_lowered(s@),
        !all_ascii(s@) && all_own_lower(s@) ==> r@ == s@,
        !all_ascii(s@) && !all_own_lower(s@) ==> r@ == unicode_lowered(s@),
        all_own_lower(r@),
        marks_from(s@, r@),
;

/// Whether `s` holds no whitespace, and no ASCII character but letters.
pub open spec fn lettered(s: Seq<char>) -> bool {
    forall|i: int|
        0 <= i < s.len() ==> !whitespace(#[trigger] s[i]) && (ascii(s[i]) ==> alphabetic(s[i]))
}

/// `char::to_lowercase`: the lowercase of one character, which may be
/// several characters. An ASCII character has exactly its ASCII lowercase.
/// Any other one yields itself, where Unicode gives no lowercase for it, or
/// letters and marks: whitespace only where it is whitespace itself, and no
/// ASCII character but a letter.
#[verifier::external_body]
pub(crate) fn char_lower(c: char) -> (r: Vec<char>)
    ensures
        ascii(c) ==> r@ == seq![ascii_lower(c)],
        !ascii(c) ==> r@ == unicode_lower(c),
        !ascii(c) && !unicode_whitespace(c) ==> lettered(r@),
{
    c.to_lowercase().collect()
}

/// `String::push`: appends one character.
pub assume_specification[ String::push ](s: &mut String, c: char)
    ensures
        final(s)@ == old(s)@.push(c),
;

/// `String::push_str`: appends a text.
pub assume_specification[ String::push_str ](s: &mut String, t: &str)
    ensures
        final(s)@ == old(s)@ + t@,
;

// ---------------------------------------------------------------------
// Conversions
// ---------------------------------------------------------------------

/// The characters of a text, one by one.
pub fn to_chars(s: &str) -> (r: Vec<char>)
    ensures
        r@ == s@,
{
    let mut out: Vec<char> = Vec::new();
    for c in it: s.chars()
        invariant
            it.seq() == s@,
            out@ == s@.take(it.index() as int),
    {
        out.push(c);
        proof {
            assert(s@.take(it.index() + 1) =~= s@.take(it.index() as int).push(c));
        }
    }
    proof {
        assert(s@.take(s@.len() as int) =~= s@);
    }
    out
}

/// The text made of the given characters.
pub fn from_chars(v: &[char]) -> (r: String)
    ensures
        r@ == v@,
{
    let mut out = String::new();
    let mut i: usize = 0;
    while i < v.len()
        invariant
            i <= v.len(),
            out@ == v@.take(i as int),
        decreases v.len() - i,
    {
        out.push(v[i]);
        proof {
            assert(v@.take(i + 1) =~= v@.take(i as int).push(v@[i as int]));
        }
        i = i + 1;
    }
    proof {
        assert(v@.take(v@.len() as int) =~= v@);
    }
    out
}

/// The characters from `from` up to, not including, `to`.
pub fn cut(v: &[char], from: usize, to: usize) -> (r: Vec<char>)
    requires
        from <= to <= v@.len(),
    ensures
        r@ == v@.subrange(from as int, to as int),
{
    let mut out: Vec<char> = Vec::new();
    let mut i: usize = from;
    while i < to
        invariant
            from <= i <= to <= v@.len(),
            out@ == v@.subrange(from as int, i as int),
        decreases to - i,
    {
        out.push(v[i]);
        proof {
            assert(v@.subrange(from as int, i + 1) =~= v@.subrange(from as int, i as int).push(
                v@[i as int],
            ));
        }
        i = i + 1;
    }
    out
}

/// Appends `tail` to `v`.
pub fn append_chars(v: &mut Vec<char>, tail: &[char])
    ensures
        final(v)@ == old(v)@ + tail@,
{
    let mut i: usize = 0;
    let ghost start = v@;
    while i < tail.len()
        invariant
            i <= tail@.len(),
            v@ == start + tail@.take(i as int),
        decreases tail@.len() - i,
    {
        v.push(tail[i]);
        proof {
            assert(start + tail@.take(i + 1) =~= (start + tail@.take(i as int)).push(
                tail@[i as int],
            ));
        }
        i = i + 1;
    }
    proof {
        assert(tail@.take(tail@.len() as int) =~= tail@);
    }
}

// ---------------------------------------------------------------------
// Comparison
// ---------------------------------------------------------------------

/// Whether two character sequences are the same.
pub fn chars_eq(a: &[char], b: &[char]) -> (r: bool)
    ensures
        r == (a@ == b@),
{
    if a.len() != b.len() {
        return false;
    }
    let mut i: usize = 0;
    while i < a.len()
        invariant
            i <= a@.len(),
            a@.len() == b@.len(),
            a@.take(i as int) == b@.take(i as int),
        decreases a@.len() - i,
    {
        if a[i] != b[i] {
            proof {
                assert(a@[i as int] != b@[i as int]);
            }
            return false;
        }
        proof {
            assert(a@.take(i + 1) =~= a@.take(i as int).push(a@[i as int]));
            assert(b@.take(i + 1) =~= b@.take(i as int).push(b@[i as int]));
        }
        i = i + 1;
    }
    proof {
        assert(a@.take(a@.len() as int) =~= a@);
        assert(b@.take(b@.len() as int) =~= b@);
    }
    true
}

/// Whether two texts are the same.
pub fn text_eq(a: &str, b: &str) -> (r: bool)
    ensures
        r == (a@ == b@),
{
    let x = to_chars(a);
    let y = to_chars(b);
    chars_eq(&x, &y)
}

/// Whether `s` begins with `p`.
pub fn chars_start_with(s: &[char], p: &[char]) -> (r: bool)
    ensures
        r == p@.is_prefix_of(s@),
{
    if p.len() > s.len() {
        return false;
    }
    let head = cut(s, 0, p.len());
    chars_eq(&head, p)
}

/// Whether `s` ends with `p`.
pub fn chars_end_with(s: &[char], p: &[char]) -> (r: bool)
    ensures
        r == p@.is_suffix_of(s@),
{
    if p.len() > s.len() {
        return false;
    }
    let tail = cut(s, s.len() - p.len(), s.len());
    proof {
        assert(s@.subrange(s@.len() - p@.len(), s@.len() as int) =~= s@.skip(
            s@.len() - p@.len(),
        ));
    }
    chars_eq(&tail, p)
}

/// Whether the text `s` begins with the text `p`.
pub fn text_starts_with(s: &str, p: &str) -> (r: bool)
    ensures
        r == p@.is_prefix_of(s@),
{
    let x = to_chars(s);
    let y = to_chars(p);
    chars_start_with(&x, &y)
}

// ---------------------------------------------------------------------
// ASCII case
// ---------------------------------------------------------------------

/// The ASCII lowercase of one character; others are kept.
pub open spec fn ascii_lower(c: char) -> char {
    if 'A' <= c && c <= 'Z' {
        ((c as u8) + 32) as u8 as char
    } else {
        c
    }
}

/// The ASCII lowercase of a text.
pub open spec fn ascii_lowered(s: Seq<char>) -> Seq<char> {
    Seq::new(s.len(), |i: int| ascii_lower(s[i]))
}

/// `s` with every ASCII capital replaced by its small letter.
pub fn to_ascii_lower(s: &[char]) -> (r: Vec<char>)
    ensures
        r@ == ascii_lowered(s@),
{
    let mut out: Vec<char> = Vec::new();
    let mut i: usize = 0;
    while i < s.len()
        invariant
            i <= s@.len(),
            out@.len() == i,
            forall|k: int| 0 <= k < i ==> out@[k] == ascii_lower(s@[k]),
        decreases s@.len() - i,
    {
        let c: char = s[i];
        if 'A' <= c && c <= 'Z' {
            out.push((c as u8 + 32) as char);
        } else {
            out.push(c);
        }
        i = i + 1;
    }
    out
}

// ---------------------------------------------------------------------
// Trimming
// ---------------------------------------------------------------------

/// `s` without its leading whitespace.
pub open spec fn trim_start(s: Seq<char>) -> Seq<char>
    decreases s.len(),
{
    if s.len() > 0 && whitespace(s[0]) {
        trim_start(s.drop_first())
    } else {
        s
    }
}

/// `s` without its trailing whitespace.
pub open spec fn trim_end(s: Seq<char>) -> Seq<char>
    decreases s.len(),
{
    if s.len() > 0 && whitespace(s.last()) {
        trim_end(s.drop_last())
    } else {
        s
    }
}

/// `s` without leading and trailing whitespace.
pub open spec fn trimmed(s: Seq<char>) -> Seq<char> {
    trim_end(trim_start(s))
}

/// Strips leading and trailing whitespace.
pub fn trim(s: &[char]) -> (r: Vec<char>)
    ensures
        r@ == trimmed(s@),
{
    let mut a: usize = 0;
    proof {
        assert(s@.skip(0) =~= s@);
    }
    while a < s.len() && s[a].is_whitespace()
        invariant
            a <= s@.len(),
            trim_start(s@) == trim_start(s@.skip(a as int)),
        decreases s@.len() - a,
    {
        proof {
            assert(s@.skip(a as int).drop_first() =~= s@.skip(a + 1));
        }
        a = a + 1;
    }
    let ghost body = s@.skip(a as int);
    proof {
        assert(trim_start(s@) == body);
    }
    let mut b: usize = s.len();
    proof {
        assert(body.take(body.len() as int) =~= body);
    }
    while a < b && s[b - 1].is_whitespace()
        invariant
            a <= b <= s@.len(),
            body == s@.skip(a as int),
            trim_end(body) == trim_end(body.take(b - a)),
        decreases b,
    {
        proof {
            assert(body.take(b - a).last() == s@[b - 1]);
            assert(body.take(b - a).drop_last() =~= body.take(b - a - 1));
        }
        b = b - 1;
    }
    proof {
        if a < b {
            assert(body.take(b - a).last() == s@[b - 1]);
        }
        assert(s@.subrange(a as int, b as int) =~= body.take(b - a));
    }
    cut(s, a, b)
}

// ---------------------------------------------------------------------
// Words
// ---------------------------------------------------------------------

/// The views of a list of character vectors.
pub open spec fn texts(v: Seq<Vec<char>>) -> Seq<Seq<char>> {
    Seq::new(v.len(), |i: int| v[i]@)
}

/// The maximal runs of non-whitespace characters, in order.
pub open spec fn words(s: Seq<char>) -> Seq<Seq<char>>
    decreases s.len(),
{
    if s.len() == 0 {
        Seq::empty()
    } else {
        let before = words(s.drop_last());
        if whitespace(s.last()) {
            before
        } else if s.len() == 1 || whitespace(s[s.len() - 2]) {
            before.push(seq![s.last()])
        } else {
            before.drop_last().push(before.last().push(s.last()))
        }
    }
}

/// The parts of `parts` with `sep` between each two.
pub open spec fn joined(parts: Seq<Seq<char>>, sep: Seq<char>) -> Seq<char>
    decreases parts.len(),
{
    if parts.len() == 0 {
        Seq::empty()
    } else if parts.len() == 1 {
        parts[0]
    } else {
        joined(parts.drop_last(), sep) + sep + parts.last()
    }
}

/// Splits at whitespace, dropping empty pieces.
pub fn split_words(s: &[char]) -> (r: Vec<Vec<char>>)
    ensures
        texts(r@) == words(s@),
{
    let mut out: Vec<Vec<char>> = Vec::new();
    let mut current: Vec<char> = Vec::new();
    let mut i: usize = 0;
    while i < s.len()
        invariant
            i <= s@.len(),
            (current@.len() > 0) == (i > 0 && !whitespace(s@[i - 1])),
            words(s@.take(i as int)) == if current@.len() > 0 {
                texts(out@).push(current@)
            } else {
                texts(out@)
            },
        decreases s@.len() - i,
    {
        let c: char = s[i];
        let ghost pre = s@.take(i as int);
        let ghost now = s@.take(i + 1);
        let ghost done = texts(out@);
        let ghost held = current@;
        proof {
            assert(now.drop_last() =~= pre);
            assert(now.last() == c);
            if i > 0 {
                assert(now[now.len() - 2] == s@[i - 1]);
            }
        }
        if c.is_whitespace() {
            if current.len() > 0 {
                out.push(current);
                current = Vec::new();
                proof {
                    assert(texts(out@) =~= done.push(held));
                }
            }
        } else {
            current.push(c);
            proof {
                if held.len() > 0 {
                    assert(words(pre).drop_last() =~= done);
                } else {
                    assert(current@ =~= seq![c]);
                }
            }
        }
        i = i + 1;
    }
    let ghost done = texts(out@);
    let ghost held = current@;
    proof {
        assert(s@.take(s@.len() as int) =~= s@);
    }
    if current.len() > 0 {
        out.push(current);
        proof {
            assert(texts(out@) =~= done.push(held));
        }
    }
    out
}

/// Joins `parts` with a single space.
pub fn join_spaced(parts: &Vec<Vec<char>>) -> (r: Vec<char>)
    ensures
        r@ == joined(texts(parts@), seq![' ']),
{
    let mut out: Vec<char> = Vec::new();
    let mut i: usize = 0;
    while i < parts.len()
        invariant
            i <= parts@.len(),
            out@ == joined(texts(parts@).take(i as int), seq![' ']),
        decreases parts@.len() - i,
    {
        let ghost next = texts(parts@).take(i + 1);
        proof {
            assert(next.drop_last() =~= texts(parts@).take(i as int));
        }
        if i > 0 {
            out.push(' ');
        }
        append_chars(&mut out, &parts[i]);
        proof {
            assert(out@ =~= joined(next, seq![' ']));
        }
        i = i + 1;
    }
    proof {
        assert(texts(parts@).take(parts@.len() as int) =~= texts(parts@));
    }
    out
}

// ---------------------------------------------------------------------
// Numerals
// ---------------------------------------------------------------------

/// The decimal digit `d`.
pub open spec fn digit(d: nat) -> char {
    ((48 + d) as u8) as char
}

/// The decimal numeral of `n`, without leading zeros.
pub open spec fn decimal(n: nat) -> Seq<char>
    decreases n,
{
    if n < 10 {
        seq![digit(n)]
    } else {
        decimal(n / 10).push(digit(n % 10))
    }
}

/// The decimal numeral of an integer, with a minus sign where it is negative.
pub open spec fn decimal_int(n: int) -> Seq<char> {
    if n < 0 {
        seq!['-'] + decimal((-n) as nat)
    } else {
        decimal(n as nat)
    }
}

/// Writes `n` in decimal.
pub fn decimal_u128(n: u128) -> (r: String)
    ensures
        r@ == decimal(n as nat),
    decreases n,
{
    if n < 10 {
        let mut s = String::new();
        s.push((48 + n as u8) as char);
        proof {
            assert(s@ =~= seq![digit(n as nat)]);
        }
        s
    } else {
        let mut s = decimal_u128(n / 10);
        s.push((48 + (n % 10) as u8) as char);
        s
    }
}

/// Writes `n` in decimal.
pub fn decimal_u64(n: u64) -> (r: String)
    ensures
        r@ == decimal(n as nat),
{
    decimal_u128(n as u128)
}

/// Writes a possibly negative `n` in decimal.
pub fn decimal_i64(n: i64) -> (r: String)
    ensures
        r@ == decimal_int(n as int),
{
    if n >= 0 {
        decimal_u64(n as u64)
    } else {
        let magnitude: u64 = if n == i64::MIN {
            9223372036854775808u64
        } else {
            (-n) as u64
        };
        let mut s = String::new();
        s.push('-');
        let d = decimal_u64(magnitude);
        s.push_str(d.as_str());
        proof {
            assert(s@ =~= seq!['-'] + decimal((-n) as nat));
        }
        s
    }
}

/// The lowercase hexadecimal digit `d`.
pub open spec fn hex_digit(d: int) -> char {
    if d < 10 {
        ((48 + d) as u8) as char
    } else {
        ((87 + d) as u8) as char
    }
}

/// Writes one hexadecimal digit.
pub fn hex_char(d: u8) -> (c: char)
    requires
        d < 16,
    ensures
        c == hex_digit(d as int),
{
    if d < 10 {
        (48 + d) as char
    } else {
        (87 + d) as char
    }
}

/// The lines of `s`: the stretches between line feeds.
pub open spec fn lines(s: Seq<char>) -> Seq<Seq<char>>
    decreases s.len(),
{
    if s.len() == 0 {
        seq![Seq::empty()]
    } else {
        let before = lines(s.drop_last());
        if s.last() == '\n' {
            before.push(Seq::empty())
        } else {
            before.drop_last().push(before.last().push(s.last()))
        }
    }
}

/// Splits a text into its lines.
pub fn split_lines(s: &[char]) -> (r: Vec<Vec<char>>)
    ensures
        texts(r@) == lines(s@),
{
    let mut out: Vec<Vec<char>> = Vec::new();
    let mut current: Vec<char> = Vec::new();
    let mut i: usize = 0;
    proof {
        assert(texts(out@).push(current@) =~= lines(s@.take(0)));
    }
    while i < s.len()
        invariant
            i <= s@.len(),
            lines(s@.take(i as int)) == texts(out@).push(current@),
        decreases s@.len() - i,
    {
        let ghost done = texts(out@);
        let ghost held = current@;
        proof {
            assert(s@.take(i + 1).drop_last() =~= s@.take(i as int));
            assert(done.push(held).drop_last() =~= done);
        }
        if s[i] == '\n' {
            out.push(current);
            current = Vec::new();
            proof {
                assert(texts(out@) =~= done.push(held));
                assert(current@ =~= Seq::<char>::empty());
            }
        } else {
            current.push(s[i]);
        }
        i = i + 1;
    }
    let ghost done = texts(out@);
    let ghost held = current@;
    out.push(current);
    proof {
        assert(s@.take(s@.len() as int) =~= s@);
        assert(texts(out@) =~= done.push(held));
    }
    out
}

// ---------------------------------------------------------------------
// Laws of words
// ---------------------------------------------------------------------

/// Whether a text is one word: not empty, and without whitespace.
pub open spec fn one_word(w: Seq<char>) -> bool {
    w.len() > 0 && forall|i: int| 0 <= i < w.len() ==> !whitespace(#[trigger] w[i])
}

/// Whether each of `parts` is one word.
pub open spec fn each_one_word(parts: Seq<Seq<char>>) -> bool {
    forall|k: int| 0 <= k < parts.len() ==> one_word(#[trigger] parts[k])
}

/// The ASCII lowercase of each of `parts`.
pub open spec fn each_ascii_lowered(parts: Seq<Seq<char>>) -> Seq<Seq<char>> {
    Seq::new(parts.len(), |k: int| ascii_lowered(parts[k]))
}

/// Law: each of the words of a text is one word.
pub proof fn law_words_are_words(s: Seq<char>)
    ensures
        each_one_word(words(s)),
        s.len() > 0 && !whitespace(s.last()) ==> words(s).len() > 0,
    decreases s.len(),
{
    if s.len() > 0 {
        let before = words(s.drop_last());
        law_words_are_words(s.drop_last());
        if s.len() >= 2 {
            assert(s.drop_last().last() == s[s.len() - 2]);
        }
        if !whitespace(s.last()) && s.len() >= 2 && !whitespace(s[s.len() - 2]) {
            assert(one_word(before[before.len() - 1]));
            assert(one_word(before.last().push(s.last())));
        }
    }
}

proof fn lemma_single_word(w: Seq<char>)
    requires
        one_word(w),
    ensures
        words(w) == seq![w],
    decreases w.len(),
{
    if w.len() == 1 {
        assert(w =~= seq![w.last()]);
        assert(words(w.drop_last()) =~= Seq::<Seq<char>>::empty());
        assert(words(w) =~= seq![w]);
    } else {
        let v = w.drop_last();
        assert forall|i: int| 0 <= i < v.len() implies !whitespace(#[trigger] v[i]) by {
            assert(!whitespace(w[i]));
        }
        lemma_single_word(v);
        assert(v.push(w.last()) =~= w);
        assert(!whitespace(w[w.len() - 2]));
        assert(words(w) =~= seq![w]);
    }
}

/// Law: whitespace and a word, put after a text, add that word.
pub proof fn law_word_after_whitespace(a: Seq<char>, c: char, w: Seq<char>)
    requires
        whitespace(c),
        one_word(w),
    ensures
        words(a.push(c) + w) == words(a).push(w),
    decreases w.len(),
{
    let s = a.push(c) + w;
    let v = w.drop_last();
    assert(s.drop_last() =~= a.push(c) + v);
    assert(s.last() == w[w.len() - 1]);
    assert(!whitespace(w[w.len() - 1]));
    if w.len() == 1 {
        assert(v =~= Seq::<char>::empty());
        assert(s.drop_last() =~= a.push(c));
        assert(a.push(c).drop_last() =~= a);
        assert(words(a.push(c)) == words(a));
        assert(s[s.len() - 2] == c);
        assert(w =~= seq![w.last()]);
    } else {
        assert forall|i: int| 0 <= i < v.len() implies !whitespace(#[trigger] v[i]) by {
            assert(!whitespace(w[i]));
        }
        law_word_after_whitespace(a, c, v);
        assert(s[s.len() - 2] == w[w.len() - 2]);
        assert(words(a).push(v).drop_last() =~= words(a));
        assert(v.push(w.last()) =~= w);
    }
}

/// Law: words joined by spaces are split into the same words again.
pub proof fn law_joined_words_split_again(parts: Seq<Seq<char>>)
    requires
        each_one_word(parts),
    ensures
        words(joined(parts, seq![' '])) == parts,
    decreases parts.len(),
{
    if parts.len() == 0 {
        assert(words(joined(parts, seq![' '])) =~= parts);
    } else if parts.len() == 1 {
        lemma_single_word(parts[0]);
        assert(parts =~= seq![parts[0]]);
    } else {
        let lead = parts.drop_last();
        assert forall|k: int| 0 <= k < lead.len() implies one_word(#[trigger] lead[k]) by {
            assert(one_word(parts[k]));
        }
        law_joined_words_split_again(lead);
        let a = joined(lead, seq![' ']);
        assert(one_word(parts[parts.len() - 1]));
        law_word_after_whitespace(a, ' ', parts.last());
        assert(a + seq![' '] + parts.last() =~= a.push(' ') + parts.last());
        assert(lead.push(parts.last()) =~= parts);
    }
}

proof fn lemma_leading_whitespace(c: char, u: Seq<char>)
    requires
        whitespace(c),
    ensures
        words(seq![c] + u) == words(u),
    decreases u.len(),
{
    let s = seq![c] + u;
    if u.len() == 0 {
        assert(s.last() == c);
        assert(s.drop_last() =~= u);
    } else {
        lemma_leading_whitespace(c, u.drop_last());
        assert(s.drop_last() =~= seq![c] + u.drop_last());
        assert(s.last() == u.last());
        if u.len() >= 2 {
            assert(s[s.len() - 2] == u[u.len() - 2]);
        } else {
            assert(s[s.len() - 2] == c);
        }
    }
}

/// Law: trimming a text keeps its words.
pub proof fn law_trimming_keeps_words(s: Seq<char>)
    ensures
        words(trimmed(s)) == words(s),
{
    lemma_trim_start(s);
    lemma_trim_end(trim_start(s));
}

proof fn lemma_trim_start(s: Seq<char>)
    ensures
        words(trim_start(s)) == words(s),
        trim_start(s).len() > 0 ==> !whitespace(trim_start(s)[0]),
    decreases s.len(),
{
    if s.len() > 0 && whitespace(s[0]) {
        lemma_trim_start(s.drop_first());
        lemma_leading_whitespace(s[0], s.drop_first());
        assert(seq![s[0]] + s.drop_first() =~= s);
    }
}

proof fn lemma_trim_end(s: Seq<char>)
    ensures
        words(trim_end(s)) == words(s),
        trim_end(s).len() > 0 ==> !whitespace(trim_end(s).last()) && trim_end(s)[0] == s[0],
        trim_end(s).len() <= s.len(),
    decreases s.len(),
{
    if s.len() > 0 && whitespace(s.last()) {
        lemma_trim_end(s.drop_last());
    }
}

/// Law: a trimmed text neither begins nor ends with whitespace.
pub proof fn law_trimmed_ends(s: Seq<char>)
    ensures
        trimmed(s).len() > 0 ==> !whitespace(trimmed(s)[0]) && !whitespace(trimmed(s).last()),
{
    lemma_trim_start(s);
    lemma_trim_end(trim_start(s));
}

/// Law: the ASCII lowercase of a character is whitespace where the
/// character is, and no capital; it is ASCII where the character is, and
/// its own ASCII lowercase.
pub proof fn law_ascii_lower(c: char)
    ensures
        whitespace(ascii_lower(c)) == whitespace(c),
        ascii(ascii_lower(c)) == ascii(c),
        ascii(c) ==> !uppercase(ascii_lower(c)),
        ascii_lower(ascii_lower(c)) == ascii_lower(c),
{
}

/// Law: lowercasing a text in ASCII lowercases its words.
pub proof fn law_words_of_ascii_lowered(s: Seq<char>)
    ensures
        words(ascii_lowered(s)) == each_ascii_lowered(words(s)),
    decreases s.len(),
{
    let low = ascii_lowered(s);
    if s.len() == 0 {
        assert(words(low) =~= each_ascii_lowered(words(s)));
    } else {
        law_words_of_ascii_lowered(s.drop_last());
        law_words_are_words(s.drop_last());
        law_ascii_lower(s.last());
        assert(low.drop_last() =~= ascii_lowered(s.drop_last()));
        let before = words(s.drop_last());
        if s.len() >= 2 {
            law_ascii_lower(s[s.len() - 2]);
            assert(s.drop_last().last() == s[s.len() - 2]);
        }
        if whitespace(s.last()) {
        } else if s.len() == 1 || whitespace(s[s.len() - 2]) {
            assert(ascii_lowered(seq![s.last()]) =~= seq![low.last()]);
            assert(words(low) =~= each_ascii_lowered(words(s)));
        } else {
            assert(ascii_lowered(before.last().push(s.last())) =~= ascii_lowered(
                before.last(),
            ).push(low.last()));
            assert(words(low) =~= each_ascii_lowered(words(s)));
        }
    }
}

/// Law: the words of an ASCII text are ASCII.
pub proof fn law_words_of_ascii(s: Seq<char>)
    requires
        all_ascii(s),
    ensures
        forall|k: int| 0 <= k < words(s).len() ==> all_ascii(#[trigger] words(s)[k]),
    decreases s.len(),
{
    if s.len() > 0 {
        assert(ascii(s[s.len() - 1]));
        assert forall|i: int| 0 <= i < s.drop_last().len() implies ascii(
            #[trigger] s.drop_last()[i],
        ) by {
            assert(ascii(s[i]));
        }
        law_words_of_ascii(s.drop_last());
        law_words_are_words(s.drop_last());
        if s.len() >= 2 {
            assert(s.drop_last().last() == s[s.len() - 2]);
        }
        let before = words(s.drop_last());
        if before.len() > 0 {
            assert(all_ascii(before[before.len() - 1]));
        }
    }
}

/// Law: whitespace parts the words: those of a text stand in turn before
/// and after it.
pub proof fn law_whitespace_parts_words(a: Seq<char>, c: char, b: Seq<char>)
    requires
        whitespace(c),
    ensures
        words(a.push(c) + b) == words(a) + words(b),
    decreases b.len(),
{
    let s = a.push(c) + b;
    if b.len() == 0 {
        assert(s =~= a.push(c));
        assert(s.drop_last() =~= a);
        assert(words(a) + words(b) =~= words(a));
    } else {
        law_whitespace_parts_words(a, c, b.drop_last());
        assert(s.drop_last() =~= a.push(c) + b.drop_last());
        assert(s.last() == b.last());
        if whitespace(b.last()) {
        } else if b.len() == 1 {
            assert(s[s.len() - 2] == c);
            assert(words(a) + words(b) =~= words(a).push(seq![b.last()]));
            assert(words(b.drop_last()) =~= Seq::empty());
            assert(words(s.drop_last()) =~= words(a));
        } else {
            assert(s[s.len() - 2] == b[b.len() - 2]);
            let before = words(b.drop_last());
            if whitespace(b[b.len() - 2]) {
                assert(words(a) + words(b) =~= (words(a) + before).push(seq![b.last()]));
            } else {
                lemma_a_word_stands_last(b.drop_last());
                assert((words(a) + before).drop_last() =~= words(a) + before.drop_last());
                assert(words(a) + words(b) =~= (words(a) + before.drop_last()).push(
                    before.last().push(b.last()),
                ));
            }
        }
    }
}

/// A text that does not end in whitespace has a word.
proof fn lemma_a_word_stands_last(s: Seq<char>)
    requires
        s.len() > 0,
        !whitespace(s.last()),
    ensures
        words(s).len() > 0,
{
}

/// Law: joining two runs of parts is joining all of them.
pub proof fn law_joining_in_two_steps(a: Seq<Seq<char>>, b: Seq<Seq<char>>, sep: Seq<char>)
    requires
        a.len() > 0,
        b.len() > 0,
    ensures
        joined(a + b, sep) == joined(a, sep) + sep + joined(b, sep),
    decreases b.len(),
{
    assert((a + b).drop_last() =~= a + b.drop_last());
    assert((a + b).last() == b.last());
    if b.len() == 1 {
        assert(a + b.drop_last() =~= a);
    } else {
        law_joining_in_two_steps(a, b.drop_last(), sep);
        assert(joined(a + b, sep) =~= joined(a, sep) + sep + joined(b, sep));
    }
}

/// The number that decimal digits stand for.
pub open spec fn number_of(digits: Seq<char>) -> int
    decreases digits.len(),
{
    if digits.len() == 0 {
        0
    } else {
        10 * number_of(digits.drop_last()) + (digits.last() as int - '0' as int)
    }
}

/// Law: a decimal numeral stands for its number. It holds digits alone, and
/// does not start with a zero unless it is the zero.
pub proof fn law_numerals_stand_for_numbers(n: nat)
    ensures
        number_of(decimal(n)) == n,
        decimal(n).len() > 0,
        forall|i: int| 0 <= i < decimal(n).len() ==> '0' <= #[trigger] decimal(n)[i] <= '9',
        n > 0 ==> decimal(n)[0] != '0',
        n > 0 ==> decimal_int(-(n as int)) == seq!['-'] + decimal(n),
        decimal_int(n as int) == decimal(n),
    decreases n,
{
    if n < 10 {
        assert(decimal(n).drop_last() =~= Seq::empty());
        assert(number_of(decimal(n).drop_last()) == 0);
    } else {
        law_numerals_stand_for_numbers(n / 10);
        assert(decimal(n).drop_last() =~= decimal(n / 10));
        assert(decimal(n).last() == digit(n % 10));
    }
}

/// Law: the lines of a text hold no line feed, and one between each two
/// gives the text back.
pub proof fn law_lines_make_up_the_text(s: Seq<char>)
    ensures
        joined(lines(s), seq!['\n']) == s,
        lines(s).len() > 0,
        forall|k: int| 0 <= k < lines(s).len() ==> !(#[trigger] lines(s)[k]).contains('\n'),
    decreases s.len(),
{
    if s.len() == 0 {
    } else {
        law_lines_make_up_the_text(s.drop_last());
        let before = lines(s.drop_last());
        let now = lines(s);
        if s.last() == '\n' {
            assert(now.drop_last() =~= before);
            assert(joined(now, seq!['\n']) =~= s);
        } else {
            assert(now.drop_last() =~= before.drop_last());
            assert(s.drop_last().push(s.last()) =~= s);
            if before.len() == 1 {
                assert(before =~= seq![before[0]]);
                assert(joined(now, seq!['\n']) =~= s);
            } else {
                assert(joined(now, seq!['\n']) =~= joined(before, seq!['\n']).push(s.last()));
            }
            assert forall|k: int| 0 <= k < now.len() implies !(#[trigger] now[k]).contains(
                '\n',
            ) by {
                if k == now.len() - 1 {
                    let last = before.last();
                    assert(!last.contains('\n'));
                    if now[k].contains('\n') {
                        let j = choose|j: int| 0 <= j < now[k].len() && now[k][j] == '\n';
                        assert(last[j] == '\n');
                    }
                } else {
                    assert(now[k] == before[k]);
                }
            }
        }
    }
}

} // verus!
