//! HTML laid out as text.

use vstd::prelude::*;

use crate::model;
use crate::text;

verus! {

/// Greatest number of characters of HTML that are laid out.
pub const MAX_HTML_CHARS: usize = 8388608;

/// Greatest number of digits of the columns that a table cell spans: the
/// spans of all cells together fit in 32 bits.
pub const MAX_SPAN_DIGITS: usize = 5;

/// Greatest number of digits of the number that a list starts with.
pub const MAX_START_DIGITS: usize = 9;

/// Greatest number of description lists in HTML that is laid out.
pub const MAX_DESCRIPTION_LISTS: usize = 128;

/// Greatest number of start tags in HTML that is laid out.
pub const MAX_TAGS: usize = 20000;

/// Greatest number of columns that HTML is laid out in.
pub const MAX_COLUMNS: usize = 65535;

/// What HTML laid out in so many columns is as text, where it fits.
pub uninterp spec fn laid_out(html: Seq<char>, columns: usize) -> Option<Seq<char>>;

/// Whether `part` stands in `s` at `i`.
pub open spec fn stands_at(s: Seq<char>, part: Seq<char>, i: int) -> bool {
    0 <= i <= s.len() - part.len() && s.subrange(i, i + part.len()) == part
}

/// How often `part` stands in `s`, at `i` or later.
pub open spec fn times_from(s: Seq<char>, part: Seq<char>, i: int) -> nat
    decreases s.len() - i,
{
    if i < 0 || i >= s.len() {
        0
    } else {
        (if stands_at(s, part, i) {
            1nat
        } else {
            0nat
        }) + times_from(s, part, i + 1)
    }
}

/// Whether `c` may stand between the name of an attribute and a number
/// that is its value.
pub open spec fn before_number(c: char) -> bool {
    c <= ' ' || c == '=' || c == '"' || c == '\'' || c == '+' || c == '-'
}

/// Whether `c` is an ASCII digit.
pub open spec fn is_digit(c: char) -> bool {
    '0' <= c && c <= '9'
}

/// Where the characters at `i` and later that satisfy `f` end.
pub open spec fn run_end(s: Seq<char>, i: int, f: spec_fn(char) -> bool) -> int
    decreases s.len() - i,
{
    if 0 <= i < s.len() && f(s[i]) {
        run_end(s, i + 1, f)
    } else {
        i
    }
}

/// Whether a number that is the value of an attribute, whose name ends at
/// `i`, has at most so many digits, none of them written as a character
/// reference.
pub open spec fn modest_number(s: Seq<char>, i: int, most: usize) -> bool {
    let from = run_end(s, i, |c: char| before_number(c));
    let to = run_end(s, from, |c: char| is_digit(c));
    &&& to - from <= most
    &&& !(0 <= to < s.len() && s[to] == '&')
}

/// Whether the numbers of every attribute `name` have at most so many
/// digits; `s` is in small letters.
pub open spec fn modest_attribute(s: Seq<char>, name: Seq<char>, most: usize) -> bool {
    forall|i: int| #[trigger] stands_at(s, name, i) ==> modest_number(s, i + name.len(), most)
}

/// Whether a start tag stands at `i`; `s` is in small letters.
pub open spec fn start_tag(s: Seq<char>, i: int) -> bool {
    0 <= i && i + 1 < s.len() && s[i] == '<' && 'a' <= s[i + 1] && s[i + 1] <= 'z'
}

/// How many start tags stand at `i` or later.
pub open spec fn start_tags_from(s: Seq<char>, i: int) -> nat
    decreases s.len() - i,
{
    if i < 0 || i >= s.len() {
        0
    } else {
        (if start_tag(s, i) {
            1nat
        } else {
            0nat
        }) + start_tags_from(s, i + 1)
    }
}

/// Whether `part` stands anywhere in `s`.
pub open spec fn has(s: Seq<char>, part: Seq<char>) -> bool {
    exists|i: int| #[trigger] stands_at(s, part, i)
}

/// Whether `c` is whitespace of ASCII.
pub open spec fn is_space(c: char) -> bool {
    c == ' ' || c == '\t' || c == '\n' || c == '\r' || c == '\u{c}'
}

/// Whether `c` is a hexadecimal digit; `c` is in small letters.
pub open spec fn is_hex_digit(c: char) -> bool {
    is_digit(c) || ('a' <= c && c <= 'f')
}

/// Whether a character reference stands at `i` that begins with `opening`
/// and whose number, zeros ahead of it aside, is `number`; `hex` says which
/// digits it is made of.
pub open spec fn reference_at(
    s: Seq<char>,
    opening: Seq<char>,
    number: Seq<char>,
    hex: bool,
    i: int,
) -> bool {
    let from = run_end(s, i + opening.len(), |c: char| c == '0');
    let to = from + number.len();
    &&& stands_at(s, opening, i)
    &&& stands_at(s, number, from)
    &&& !(to < s.len() && (if hex {
        is_hex_digit(s[to])
    } else {
        is_digit(s[to])
    }))
}

/// Whether such a character reference stands anywhere in `s`.
pub open spec fn has_reference(
    s: Seq<char>,
    opening: Seq<char>,
    number: Seq<char>,
    hex: bool,
) -> bool {
    exists|i: int| #[trigger] reference_at(s, opening, number, hex, i)
}

/// Whether HTML holds the selector of emoji presentation, as itself or as a
/// character reference.
pub open spec fn selects_emoji(html: Seq<char>) -> bool {
    let low = text::ascii_lowered(html);
    ||| html.contains('\u{fe0f}')
    ||| has_reference(low, "&#x"@, "fe0f"@, true)
    ||| has_reference(low, "&#"@, "65039"@, false)
}

/// Whether the tag that stands at `i` is that of a paragraph, a division or
/// a line break, without attributes; `s` is in small letters.
pub open spec fn plain_tag(s: Seq<char>, i: int) -> bool {
    ||| stands_at(s, "<p>"@, i)
    ||| stands_at(s, "</p>"@, i)
    ||| stands_at(s, "<div>"@, i)
    ||| stands_at(s, "</div>"@, i)
    ||| stands_at(s, "<br>"@, i)
}

/// Whether a character ends a word or begins a tag.
pub open spec fn ends_word(c: char) -> bool {
    is_space(c) || c == '<'
}

/// How many characters stand directly ahead of `i` with no end of a word
/// among them.
pub open spec fn word_before(s: Seq<char>, i: int) -> nat
    decreases i,
{
    if i <= 0 || i > s.len() || ends_word(s[i - 1]) {
        0
    } else {
        word_before(s, i - 1) + 1
    }
}

/// Whether HTML has only tags of paragraphs, divisions and line breaks, and
/// no word is too wide for a line, however wide its characters are.
pub open spec fn unbroken_words(html: Seq<char>, columns: usize) -> bool {
    let low = text::ascii_lowered(html);
    &&& forall|i: int| 0 <= i < low.len() && #[trigger] low[i] == '<' ==> plain_tag(low, i)
    &&& forall|i: int| 0 <= i <= html.len() ==> 2 * #[trigger] word_before(html, i) <= columns
}

/// Whether the first character at `i` or later that is no whitespace is a
/// letter, digit or mark of ASCII that is part of a text.
pub open spec fn visible_next(s: Seq<char>, i: int) -> bool
    decreases s.len() - i,
{
    if i < 0 || i >= s.len() {
        false
    } else if is_space(s[i]) {
        visible_next(s, i + 1)
    } else {
        '!' <= s[i] && s[i] <= '~' && s[i] != '<' && s[i] != '&'
    }
}

/// Whether a tab stands at `i` with nothing visible behind it in the text
/// that it is part of.
pub open spec fn bare_tab(s: Seq<char>, i: int) -> bool {
    0 <= i < s.len() && s[i] == '\t' && !visible_next(s, i)
}

/// Whether HTML holds a tab with nothing visible behind it, as itself or as
/// a character reference; `s` is in small letters.
pub open spec fn has_bare_tab(s: Seq<char>) -> bool {
    ||| exists|i: int| #[trigger] bare_tab(s, i)
    ||| has(s, "&tab"@)
    ||| has_reference(s, "&#x"@, "9"@, true)
    ||| has_reference(s, "&#"@, "9"@, false)
}

/// Whether HTML holds a tag whose text is laid out behind a prefix; `s` is
/// in small letters.
pub open spec fn has_prefixed(s: Seq<char>) -> bool {
    ||| has(s, "<ul"@)
    ||| has(s, "<ol"@)
    ||| has(s, "<dd"@)
    ||| has(s, "<blockquote"@)
    ||| has(s, "<h1"@)
    ||| has(s, "<h2"@)
    ||| has(s, "<h3"@)
    ||| has(s, "<h4"@)
}

/// Whether HTML can be laid out in so many columns: it is not too long,
/// spans of table cells and starts of lists are modest numbers, it has not
/// too many start tags and few description lists, emoji presentation is
/// selected in it only where no word is broken over lines, and no
/// preformatted text that may stand behind a prefix can be a tab alone.
pub open spec fn layable(html: Seq<char>, columns: usize) -> bool {
    let low = text::ascii_lowered(html);
    &&& html.len() <= MAX_HTML_CHARS
    &&& modest_attribute(low, "colspan"@, MAX_SPAN_DIGITS)
    &&& modest_attribute(low, "start"@, MAX_START_DIGITS)
    &&& start_tags_from(low, 0) <= MAX_TAGS
    &&& times_from(low, "<dl"@, 0) <= MAX_DESCRIPTION_LISTS
    &&& !selects_emoji(html) || unbroken_words(html, columns)
    &&& !(has(low, "<pre"@) && has_bare_tab(low) && has_prefixed(low))
}

/// HTML as it is laid out: `None` where it does not fit or cannot be laid
/// out.
pub open spec fn layout(html: Seq<char>, columns: usize) -> Option<Seq<char>> {
    if layable(html, columns) {
        laid_out(html, columns)
    } else {
        None
    }
}

/// `string_from_read` of `html2text::config::plain`: HTML as text of at
/// most so many columns, unless it does not fit. Asked only of HTML for
/// which its sums of spans and of item numbers do not overflow, its
/// recursion, over the tree that it gives up where the text does not fit and
/// over description lists, is not deep, and its wrapping ends: a word whose
/// width as a whole is more than that of its characters one by one, as emoji
/// presentation makes it, may be split for ever, and a tab in preformatted
/// text may be filled for ever where a prefix has used up the line.
#[verifier::external_body]
fn lay_out(html: &str, columns: usize) -> (r: Option<String>)
    requires
        layable(html@, columns),
        columns <= MAX_COLUMNS,
    ensures
        model::opt_view(r) == laid_out(html@, columns),
{
    html2text::config::plain().string_from_read(html.as_bytes(), columns).ok()
}

fn stands(s: &[char], part: &[char], i: usize) -> (r: bool)
    requires
        i <= s@.len(),
    ensures
        r == stands_at(s@, part@, i as int),
{
    let n: usize = s.len();
    if n - i < part.len() {
        return false;
    }
    let mut k: usize = 0;
    while k < part.len()
        invariant
            k <= part@.len(),
            i + part@.len() <= n,
            n == s@.len(),
            forall|j: int| 0 <= j < k ==> s@[i + j] == part@[j],
        decreases part@.len() - k,
    {
        if s[i + k] != part[k] {
            proof {
                assert(s@.subrange(i as int, i + part@.len())[k as int] != part@[k as int]);
            }
            return false;
        }
        k = k + 1;
    }
    proof {
        assert(s@.subrange(i as int, i + part@.len()) =~= part@);
    }
    true
}

fn number_is_modest(s: &[char], i: usize, most: usize) -> (r: bool)
    requires
        i <= s@.len(),
    ensures
        r == modest_number(s@, i as int, most),
{
    let ghost before = |c: char| before_number(c);
    let ghost digit = |c: char| is_digit(c);
    let mut from: usize = i;
    while from < s.len() && (s[from] <= ' ' || s[from] == '=' || s[from] == '"' || s[from] == '\''
        || s[from] == '+' || s[from] == '-')
        invariant
            from <= s@.len(),
            before == (|c: char| before_number(c)),
            run_end(s@, i as int, before) == run_end(s@, from as int, before),
        decreases s@.len() - from,
    {
        from = from + 1;
    }
    let mut to: usize = from;
    while to < s.len() && '0' <= s[to] && s[to] <= '9'
        invariant
            from <= to <= s@.len(),
            digit == (|c: char| is_digit(c)),
            run_end(s@, from as int, digit) == run_end(s@, to as int, digit),
        decreases s@.len() - to,
    {
        to = to + 1;
    }
    to - from <= most && !(to < s.len() && s[to] == '&')
}

fn attribute_is_modest(s: &[char], name: &[char], most: usize) -> (r: bool)
    ensures
        r == modest_attribute(s@, name@, most),
{
    let mut i: usize = 0;
    while i <= s.len()
        invariant
            i <= s@.len() + 1,
            forall|j: int|
                j < i && #[trigger] stands_at(s@, name@, j) ==> modest_number(
                    s@,
                    j + name@.len(),
                    most,
                ),
        decreases s@.len() + 1 - i,
    {
        if stands(s, name, i) && !number_is_modest(s, i + name.len(), most) {
            return false;
        }
        if i == s.len() {
            return true;
        }
        i = i + 1;
    }
    true
}

fn holds(s: &[char], part: &[char]) -> (r: bool)
    ensures
        r == has(s@, part@),
{
    let mut i: usize = 0;
    while i <= s.len()
        invariant
            i <= s@.len() + 1,
            forall|j: int| j < i ==> !#[trigger] stands_at(s@, part@, j),
        decreases s@.len() + 1 - i,
    {
        if stands(s, part, i) {
            return true;
        }
        if i == s.len() {
            return false;
        }
        i = i + 1;
    }
    false
}

fn count_of(s: &[char], part: &[char]) -> (r: usize)
    ensures
        r == times_from(s@, part@, 0),
{
    let mut n: usize = 0;
    let mut i: usize = 0;
    while i < s.len()
        invariant
            n <= i <= s@.len(),
            n + times_from(s@, part@, i as int) == times_from(s@, part@, 0),
        decreases s@.len() - i,
    {
        if stands(s, part, i) {
            n = n + 1;
        }
        i = i + 1;
    }
    n
}

fn count_start_tags(s: &[char]) -> (r: usize)
    ensures
        r == start_tags_from(s@, 0),
{
    let mut n: usize = 0;
    let mut i: usize = 0;
    let len: usize = s.len();
    while i < len
        invariant
            len == s@.len(),
            n <= i <= len,
            n + start_tags_from(s@, i as int) == start_tags_from(s@, 0),
        decreases len - i,
    {
        if len - i > 1 && s[i] == '<' && 'a' <= s[i + 1] && s[i + 1] <= 'z' {
            n = n + 1;
        }
        i = i + 1;
    }
    n
}

fn holds_reference(s: &[char], opening: &[char], number: &[char], hex: bool) -> (r: bool)
    ensures
        r == has_reference(s@, opening@, number@, hex),
{
    let ghost zero = |c: char| c == '0';
    let mut i: usize = 0;
    let len: usize = s.len();
    while i <= len
        invariant
            len == s@.len(),
            i <= len + 1,
            zero == (|c: char| c == '0'),
            forall|j: int| j < i ==> !#[trigger] reference_at(s@, opening@, number@, hex, j),
        decreases len + 1 - i,
    {
        if stands(s, opening, i) {
            let mut from: usize = i + opening.len();
            while from < len && s[from] == '0'
                invariant
                    len == s@.len(),
                    i + opening@.len() <= from <= len,
                    zero == (|c: char| c == '0'),
                    run_end(s@, i + opening@.len(), zero) == run_end(s@, from as int, zero),
                decreases len - from,
            {
                from = from + 1;
            }
            if stands(s, number, from) {
                let to: usize = from + number.len();
                let more = to < len && (('0' <= s[to] && s[to] <= '9') || (hex && 'a' <= s[to]
                    && s[to] <= 'f'));
                if !more {
                    proof {
                        assert(reference_at(s@, opening@, number@, hex, i as int));
                    }
                    return true;
                }
            }
        }
        if i == len {
            return false;
        }
        i = i + 1;
    }
    false
}

fn space(c: char) -> (r: bool)
    ensures
        r == is_space(c),
{
    c == ' ' || c == '\t' || c == '\n' || c == '\r' || c == '\u{c}'
}

fn holds_emoji(html: &[char], low: &[char]) -> (r: bool)
    requires
        low@ == text::ascii_lowered(html@),
    ensures
        r == selects_emoji(html@),
{
    let mut i: usize = 0;
    while i < html.len()
        invariant
            i <= html@.len(),
            forall|k: int| 0 <= k < i ==> html@[k] != '\u{fe0f}',
        decreases html@.len() - i,
    {
        if html[i] == '\u{fe0f}' {
            proof {
                assert(html@.contains(html@[i as int]));
            }
            return true;
        }
        i = i + 1;
    }
    holds_reference(low, &text::to_chars("&#x"), &text::to_chars("fe0f"), true) || holds_reference(
        low,
        &text::to_chars("&#"),
        &text::to_chars("65039"),
        false,
    )
}

fn has_unbroken_words(html: &[char], low: &[char], columns: usize) -> (r: bool)
    requires
        low@ == text::ascii_lowered(html@),
    ensures
        r == unbroken_words(html@, columns),
{
    let open = text::to_chars("<p>");
    let close = text::to_chars("</p>");
    let open_div = text::to_chars("<div>");
    let close_div = text::to_chars("</div>");
    let line = text::to_chars("<br>");
    let mut word: usize = 0;
    let mut i: usize = 0;
    while i < html.len()
        invariant
            low@ == text::ascii_lowered(html@),
            open@ == "<p>"@,
            close@ == "</p>"@,
            open_div@ == "<div>"@,
            close_div@ == "</div>"@,
            line@ == "<br>"@,
            word <= i <= html@.len(),
            word == word_before(html@, i as int),
            2 * word <= columns,
            forall|k: int| 0 <= k < i && #[trigger] low@[k] == '<' ==> plain_tag(low@, k),
            forall|k: int| 0 <= k <= i ==> 2 * #[trigger] word_before(html@, k) <= columns,
        decreases html@.len() - i,
    {
        if low[i] == '<' && !(stands(low, &open, i) || stands(low, &close, i) || stands(
            low,
            &open_div,
            i,
        ) || stands(low, &close_div, i) || stands(low, &line, i)) {
            proof {
                assert(!plain_tag(low@, i as int));
            }
            return false;
        }
        let c: char = html[i];
        if c == '<' || space(c) {
            word = 0;
        } else {
            if columns - word < word + 2 {
                proof {
                    assert(word_before(html@, i + 1) == word + 1);
                }
                return false;
            }
            word = word + 1;
        }
        i = i + 1;
        proof {
            assert(word == word_before(html@, i as int));
        }
    }
    true
}

fn holds_bare_tab(s: &[char]) -> (r: bool)
    ensures
        r == has_bare_tab(s@),
{
    let mut visible = false;
    let mut i: usize = s.len();
    while i > 0
        invariant
            i <= s@.len(),
            visible == visible_next(s@, i as int),
            forall|j: int| i <= j ==> !#[trigger] bare_tab(s@, j),
        decreases i,
    {
        i = i - 1;
        let c: char = s[i];
        if !space(c) {
            visible = '!' <= c && c <= '~' && c != '<' && c != '&';
        }
        if c == '\t' && !visible {
            proof {
                assert(bare_tab(s@, i as int));
            }
            return true;
        }
    }
    holds(s, &text::to_chars("&tab")) || holds_reference(
        s,
        &text::to_chars("&#x"),
        &text::to_chars("9"),
        true,
    ) || holds_reference(s, &text::to_chars("&#"), &text::to_chars("9"), false)
}

fn holds_prefixed(s: &[char]) -> (r: bool)
    ensures
        r == has_prefixed(s@),
{
    holds(s, &text::to_chars("<ul")) || holds(s, &text::to_chars("<ol")) || holds(
        s,
        &text::to_chars("<dd"),
    ) || holds(s, &text::to_chars("<blockquote")) || holds(s, &text::to_chars("<h1")) || holds(
        s,
        &text::to_chars("<h2"),
    ) || holds(s, &text::to_chars("<h3")) || holds(s, &text::to_chars("<h4"))
}

/// Whether HTML can be laid out in so many columns.
pub fn can_lay_out(html: &str, columns: usize) -> (r: bool)
    ensures
        r == layable(html@, columns),
{
    let chars = text::to_chars(html);
    if chars.len() > MAX_HTML_CHARS {
        return false;
    }
    let low = text::to_ascii_lower(&chars);
    attribute_is_modest(&low, &text::to_chars("colspan"), MAX_SPAN_DIGITS) && attribute_is_modest(
        &low,
        &text::to_chars("start"),
        MAX_START_DIGITS,
    ) && count_start_tags(&low) <= MAX_TAGS && count_of(&low, &text::to_chars("<dl"))
        <= MAX_DESCRIPTION_LISTS && (!holds_emoji(&chars, &low) || has_unbroken_words(
        &chars,
        &low,
        columns,
    )) && !(holds(&low, &text::to_chars("<pre")) && holds_bare_tab(&low) && holds_prefixed(&low))
}

/// HTML as text of at most so many columns; `None` where it does not fit
/// or cannot be laid out.
pub fn lay_out_html(html: &str, columns: usize) -> (r: Option<String>)
    requires
        columns <= MAX_COLUMNS,
    ensures
        model::opt_view(r) == layout(html@, columns),
{
    if can_lay_out(html, columns) {
        lay_out(html, columns)
    } else {
        None
    }
}

/// Where nothing stands, it stands no times.
proof fn lemma_never_stands(s: Seq<char>, part: Seq<char>, i: int)
    requires
        forall|j: int| !#[trigger] stands_at(s, part, j),
    ensures
        times_from(s, part, i) == 0,
    decreases s.len() - i,
{
    if 0 <= i < s.len() {
        lemma_never_stands(s, part, i + 1);
    }
}

/// Without tags there is no start tag.
proof fn lemma_no_start_tags(s: Seq<char>, i: int)
    requires
        forall|j: int| 0 <= j < s.len() ==> #[trigger] s[j] != '<',
    ensures
        start_tags_from(s, i) == 0,
    decreases s.len() - i,
{
    if 0 <= i < s.len() {
        lemma_no_start_tags(s, i + 1);
    }
}

/// What begins with a character that a text lacks does not stand in it.
proof fn lemma_absent(s: Seq<char>, part: Seq<char>, c: char)
    requires
        part.len() > 0,
        part[0] == c,
        forall|j: int| 0 <= j < s.len() ==> #[trigger] s[j] != c,
    ensures
        forall|j: int| !#[trigger] stands_at(s, part, j),
        !(has(s, part)),
{
    assert forall|j: int| !#[trigger] stands_at(s, part, j) by {
        if stands_at(s, part, j) {
            assert(s.subrange(j, j + part.len())[0] == part[0]);
        }
    }
}

/// Law: plain text, without tags, character references, digits and the
/// selector of emoji presentation, can always be laid out.
pub proof fn law_plain_text_can_be_laid_out(html: Seq<char>, columns: usize)
    requires
        html.len() <= MAX_HTML_CHARS,
        forall|i: int|
            0 <= i < html.len() ==> #[trigger] html[i] != '<' && html[i] != '&' && !is_digit(
                html[i],
            ) && html[i] != '\u{fe0f}',
    ensures
        layable(html, columns),
        layout(html, columns) == laid_out(html, columns),
{
    let low = text::ascii_lowered(html);
    assert forall|i: int| 0 <= i < low.len() implies #[trigger] low[i] != '<' && low[i] != '&'
        && !is_digit(low[i]) by {
        text::law_ascii_lower(html[i]);
        assert(html[i] != '<');
    }
    reveal_strlit("<dl");
    reveal_strlit("<pre");
    reveal_strlit("&#x");
    reveal_strlit("&#");
    lemma_absent(low, "<dl"@, '<');
    lemma_absent(low, "<pre"@, '<');
    lemma_absent(low, "&#x"@, '&');
    lemma_absent(low, "&#"@, '&');
    lemma_never_stands(low, "<dl"@, 0);
    lemma_no_start_tags(low, 0);
    assert(!has_reference(low, "&#x"@, "fe0f"@, true)) by {
        assert forall|i: int| !#[trigger] reference_at(low, "&#x"@, "fe0f"@, true, i) by {
            assert(!stands_at(low, "&#x"@, i));
        }
    }
    assert(!has_reference(low, "&#"@, "65039"@, false)) by {
        assert forall|i: int| !#[trigger] reference_at(low, "&#"@, "65039"@, false, i) by {
            assert(!stands_at(low, "&#"@, i));
        }
    }
    assert(!selects_emoji(html));
    assert forall|name: Seq<char>, i: int, most: usize| #[trigger]
        stands_at(low, name, i) implies #[trigger] modest_number(low, i + name.len(), most) by {
        let from = run_end(low, i + name.len(), |c: char| before_number(c));
        let to = run_end(low, from, |c: char| is_digit(c));
        assert(to == from);
    }
    assert(modest_attribute(low, "colspan"@, MAX_SPAN_DIGITS));
    assert(modest_attribute(low, "start"@, MAX_START_DIGITS));
}

} // verus!
