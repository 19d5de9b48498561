//! Title signals for ranking: initials, prefixes, and when a title matches
//! a query by them. The weights are floating point numbers and are applied
//! by the caller.

use vstd::prelude::*;

use crate::model::Category;
use crate::normalize;
use crate::text;
use crate::tokenizer;

verus! {

/// Shortest prefix that is indexed.
pub const MIN_PREFIX_LEN: usize = 2;

/// Longest prefix that is indexed.
pub const MAX_PREFIX_LEN: usize = 12;

/// Whether `c` separates the words of a title.
pub open spec fn separator(c: char) -> bool {
    text::whitespace(c) || c == '_' || c == '-' || c == '.' || c == '/'
}

/// Whether `s[i]` is an initial: the first letter of a word, or a capital
/// in a word that follows a small letter, or that follows a letter and
/// precedes a small one.
pub open spec fn initial_at(s: Seq<char>, i: int) -> bool {
    &&& 0 <= i < s.len()
    &&& !separator(s[i])
    &&& text::alphabetic(s[i])
    &&& {
        ||| i == 0
        ||| separator(s[i - 1])
        ||| text::uppercase(s[i]) && text::alphabetic(s[i - 1]) && (text::lowercase(s[i - 1]) || (i
            + 1 < s.len() && !separator(s[i + 1]) && text::alphabetic(s[i + 1])
            && text::lowercase(s[i + 1])))
    }
}

/// The initials among the first `n` characters of `s`, lowercased.
pub open spec fn initials_upto(s: Seq<char>, n: nat) -> Seq<char>
    decreases n,
{
    if n == 0 {
        Seq::empty()
    } else if initial_at(s, n - 1) {
        initials_upto(s, (n - 1) as nat) + text::lower_of(s[n - 1])
    } else {
        initials_upto(s, (n - 1) as nat)
    }
}

/// The initials of a title.
pub open spec fn initials_of(s: Seq<char>) -> Seq<char> {
    initials_upto(s, s.len())
}

/// Check if a character separates the words of a title.
pub fn is_separator(ch: char) -> (r: bool)
    ensures
        r == separator(ch),
{
    ch.is_whitespace() || ch == '_' || ch == '-' || ch == '.' || ch == '/'
}

fn initials(v: &[char]) -> (r: Vec<char>)
    ensures
        r@ == initials_of(v@),
        unbroken(r@),
{
    let mut out: Vec<char> = Vec::new();
    let mut i: usize = 0;
    while i < v.len()
        invariant
            i <= v@.len(),
            out@ == initials_upto(v@, i as nat),
            unbroken(out@),
        decreases v@.len() - i,
    {
        let ch: char = v[i];
        if !is_separator(ch) && ch.is_alphabetic() {
            let starts = if i == 0 || is_separator(v[i - 1]) {
                true
            } else {
                let prev: char = v[i - 1];
                let small_next = i + 1 < v.len() && !is_separator(v[i + 1])
                    && v[i + 1].is_alphabetic() && v[i + 1].is_lowercase();
                ch.is_uppercase() && prev.is_alphabetic() && (prev.is_lowercase() || small_next)
            };
            if starts {
                let low = text::char_lower(ch);
                proof {
                    lemma_lower_unbroken(ch, low@);
                }
                text::append_chars(&mut out, &low);
            }
        }
        i = i + 1;
    }
    out
}

/// The initials of a title's words and camel-case parts, lowercased, with
/// nothing between them: no separator is among them.
pub fn acronym_initials(title: &str) -> (r: String)
    ensures
        r@ == initials_of(title@),
        unbroken(r@),
{
    let v = text::to_chars(title);
    let out = initials(&v);
    text::from_chars(&out)
}

// ---------------------------------------------------------------------
// Prefixes
// ---------------------------------------------------------------------

/// The length of the longest indexed prefix of a word.
pub open spec fn longest_prefix(w: Seq<char>) -> nat {
    if w.len() < MAX_PREFIX_LEN {
        w.len()
    } else {
        MAX_PREFIX_LEN as nat
    }
}

/// The indexed prefixes of a word, the shortest first.
pub open spec fn word_prefixes(w: Seq<char>) -> Seq<Seq<char>> {
    if longest_prefix(w) < MIN_PREFIX_LEN {
        Seq::empty()
    } else {
        Seq::new(
            (longest_prefix(w) - MIN_PREFIX_LEN + 1) as nat,
            |k: int| w.take(k + MIN_PREFIX_LEN),
        )
    }
}

/// The indexed prefixes of words, word by word.
pub open spec fn prefixes_of(ws: Seq<Seq<char>>) -> Seq<Seq<char>>
    decreases ws.len(),
{
    if ws.len() == 0 {
        Seq::empty()
    } else {
        prefixes_of(ws.drop_last()) + word_prefixes(ws.last())
    }
}

/// The prefix tokens of a title that splits into `split`.
pub open spec fn prefix_tokens(split: Seq<char>) -> Seq<char> {
    text::joined(prefixes_of(text::words(split)), seq![' '])
}

/// The prefix tokens of a title, given how it splits into words, with one
/// space between them.
pub fn prefixes_of_split(split: &str) -> (r: String)
    ensures
        r@ == prefix_tokens(split@),
{
    let pieces = text::split_words(&text::to_chars(split));
    let ghost ws = text::words(split@);
    let mut tokens: Vec<Vec<char>> = Vec::new();
    let mut i: usize = 0;
    proof {
        assert(text::texts(tokens@) =~= prefixes_of(ws.take(0)));
    }
    while i < pieces.len()
        invariant
            i <= pieces@.len(),
            ws == text::texts(pieces@),
            text::texts(tokens@) == prefixes_of(ws.take(i as int)),
        decreases pieces@.len() - i,
    {
        let word = &pieces[i];
        let ghost done = prefixes_of(ws.take(i as int));
        let ghost more = word_prefixes(word@);
        proof {
            assert(ws.take(i + 1).drop_last() =~= ws.take(i as int));
            assert(ws.take(i + 1).last() == word@);
        }
        let max_len: usize = if word.len() < MAX_PREFIX_LEN {
            word.len()
        } else {
            MAX_PREFIX_LEN
        };
        if max_len >= MIN_PREFIX_LEN {
            let mut len: usize = MIN_PREFIX_LEN;
            proof {
                assert(done + more.take(0) =~= done);
            }
            while len <= max_len
                invariant
                    MIN_PREFIX_LEN <= len <= max_len + 1,
                    max_len <= word@.len(),
                    max_len <= MAX_PREFIX_LEN,
                    max_len == longest_prefix(word@),
                    more == word_prefixes(word@),
                    more.len() == max_len - MIN_PREFIX_LEN + 1,
                    text::texts(tokens@) == done + more.take(len - MIN_PREFIX_LEN),
                decreases max_len + 1 - len,
            {
                let ghost before = text::texts(tokens@);
                let token = text::cut(word, 0, len);
                proof {
                    assert(token@ =~= more[len - MIN_PREFIX_LEN]);
                }
                tokens.push(token);
                proof {
                    assert(text::texts(tokens@) =~= before.push(more[len - MIN_PREFIX_LEN]));
                    assert(done + more.take(len + 1 - MIN_PREFIX_LEN) =~= (done + more.take(
                        len - MIN_PREFIX_LEN,
                    )).push(more[len - MIN_PREFIX_LEN]));
                }
                len = len + 1;
            }
            proof {
                assert(more.take(more.len() as int) =~= more);
            }
        } else {
            proof {
                assert(done + more =~= done);
            }
        }
        i = i + 1;
    }
    proof {
        assert(ws.take(ws.len() as int) =~= ws);
        assert(ws.len() == pieces@.len());
    }
    let out = text::join_spaced(&tokens);
    text::from_chars(&out)
}

/// Builds the token stream that makes a title found by the first letters of
/// its words: every prefix of length 2 to 12 of every word.
pub fn compute_title_prefixes(title: &str) -> (r: String)
    ensures
        r@ == prefix_tokens(tokenizer::split_of(title@)),
{
    let split = tokenizer::split_identifiers(title);
    prefixes_of_split(split.as_str())
}

// ---------------------------------------------------------------------
// Indexed initials
// ---------------------------------------------------------------------

/// The non-empty initials of each word.
pub open spec fn word_initials(ws: Seq<Seq<char>>) -> Seq<Seq<char>>
    decreases ws.len(),
{
    if ws.len() == 0 {
        Seq::empty()
    } else {
        let before = word_initials(ws.drop_last());
        if initials_of(ws.last()).len() == 0 {
            before
        } else {
            before.push(initials_of(ws.last()))
        }
    }
}

/// The tokens `per_word` followed by `whole`, unless it is empty or one of
/// them already.
pub open spec fn with_whole(per_word: Seq<char>, whole: Seq<char>) -> Seq<char> {
    if whole.len() == 0 || text::words(per_word).contains(whole) {
        per_word
    } else if per_word.len() == 0 {
        whole
    } else {
        per_word.push(' ') + whole
    }
}

/// The initials tokens of a title that splits into `split`.
pub open spec fn initials_tokens(split: Seq<char>, title: Seq<char>) -> Seq<char> {
    with_whole(
        text::joined(word_initials(text::words(split)), seq![' ']),
        initials_of(title),
    )
}

fn has_word(s: &[char], w: &[char]) -> (r: bool)
    ensures
        r == text::words(s@).contains(w@),
{
    let pieces = text::split_words(s);
    let mut i: usize = 0;
    while i < pieces.len()
        invariant
            i <= pieces@.len(),
            text::texts(pieces@) == text::words(s@),
            forall|k: int| 0 <= k < i ==> text::words(s@)[k] != w@,
        decreases pieces@.len() - i,
    {
        proof {
            assert(text::texts(pieces@)[i as int] == pieces@[i as int]@);
        }
        if text::chars_eq(&pieces[i], w) {
            proof {
                assert(text::words(s@)[i as int] == w@);
            }
            return true;
        }
        i = i + 1;
    }
    proof {
        assert(text::texts(pieces@).len() == pieces@.len());
    }
    false
}

/// The initials tokens of a title, given how it splits into words: the
/// initials of each word, then those of the whole title where they are not
/// among them, with one space between each two. So the initials of the
/// whole title, where there are any, are always a token.
pub fn initials_of_split(split: &str, title: &str) -> (r: String)
    ensures
        r@ == initials_tokens(split@, title@),
        r@ == text::joined(
            listed(word_initials(text::words(split@)), initials_of(title@)),
            seq![' '],
        ),
        text::words(r@) == listed(word_initials(text::words(split@)), initials_of(title@)),
        initials_of(title@).len() > 0 ==> text::words(r@).contains(initials_of(title@)),
{
    let pieces = text::split_words(&text::to_chars(split));
    let ghost ws = text::words(split@);
    let mut per_word: Vec<Vec<char>> = Vec::new();
    let mut i: usize = 0;
    proof {
        assert(text::texts(per_word@) =~= word_initials(ws.take(0)));
    }
    while i < pieces.len()
        invariant
            i <= pieces@.len(),
            ws == text::texts(pieces@),
            text::texts(per_word@) == word_initials(ws.take(i as int)),
            forall|k: int| 0 <= k < i ==> unbroken(initials_of(#[trigger] ws[k])),
        decreases pieces@.len() - i,
    {
        let ghost before = text::texts(per_word@);
        proof {
            assert(ws.take(i + 1).drop_last() =~= ws.take(i as int));
            assert(ws.take(i + 1).last() == pieces@[i as int]@);
        }
        let ini = initials(&pieces[i]);
        if ini.len() > 0 {
            let ghost x = ini@;
            per_word.push(ini);
            proof {
                assert(text::texts(per_word@) =~= before.push(x));
            }
        }
        i = i + 1;
    }
    proof {
        assert(ws.take(ws.len() as int) =~= ws);
        assert(ws.len() == pieces@.len());
    }
    let whole = initials(&text::to_chars(title));
    proof {
        law_initials_tokens(split@, title@);
    }
    let mut out = text::join_spaced(&per_word);
    if whole.len() > 0 && !has_word(&out, &whole) {
        if out.len() > 0 {
            out.push(' ');
        }
        let ghost lead = out@;
        text::append_chars(&mut out, &whole);
        proof {
            if lead.len() == 0 {
                assert(out@ =~= whole@);
            }
        }
    }
    text::from_chars(&out)
}

/// Builds the token stream that makes a title found by its initials, single
/// ones and the whole acronym.
pub fn acronym_initials_indexed(title: &str) -> (r: String)
    ensures
        r@ == initials_tokens(tokenizer::split_of(title@), title@),
        r@ == text::joined(
            listed(word_initials(text::words(tokenizer::split_of(title@))), initials_of(title@)),
            seq![' '],
        ),
        text::words(r@) == listed(
            word_initials(text::words(tokenizer::split_of(title@))),
            initials_of(title@),
        ),
        initials_of(title@).len() > 0 ==> text::words(r@).contains(initials_of(title@)),
{
    let split = tokenizer::split_identifiers(title);
    initials_of_split(split.as_str(), title)
}

// ---------------------------------------------------------------------
// Matches
// ---------------------------------------------------------------------

/// Whether a normalized title earns the prefix weight for a normalized
/// query: the query leads it and is not empty.
pub fn prefix_match(title_norm: &str, q_norm: &str) -> (r: bool)
    ensures
        r == (q_norm@.len() > 0 && q_norm@.is_prefix_of(title_norm@)),
{
    !q_norm.is_empty() && text::text_starts_with(title_norm, q_norm)
}

/// Whether a title earns the acronym weight for a normalized query: the
/// query leads its normalized initials and is not empty.
pub fn acronym_match(title: &str, q_norm: &str) -> (r: bool)
    ensures
        r == (q_norm@.len() > 0 && q_norm@.is_prefix_of(
            normalize::normalized(initials_of(title@)),
        )),
{
    if q_norm.is_empty() {
        return false;
    }
    let ini = acronym_initials(title);
    let norm = normalize::normalize_for_match(ini.as_str());
    text::text_starts_with(norm.as_str(), q_norm)
}

/// The age in seconds that the recency weight of a document decays with;
/// `None` for categories that have none. A time in the future counts as
/// now.
pub fn recency_age_secs(category: Category, mtime_secs: i64, now_secs: i64) -> (r: Option<u64>)
    ensures
        r == recency_age(category, mtime_secs, now_secs),
{
    match category {
        Category::File | Category::Mail => {
            if now_secs > mtime_secs {
                Some((now_secs as i128 - mtime_secs as i128) as u64)
            } else {
                Some(0)
            }
        },
        _ => None,
    }
}

/// The age of a document for its recency weight, where its category has
/// one.
pub open spec fn recency_age(category: Category, mtime_secs: i64, now_secs: i64) -> Option<u64> {
    if category != Category::File && category != Category::Mail {
        None
    } else if now_secs > mtime_secs {
        Some((now_secs - mtime_secs) as u64)
    } else {
        Some(0)
    }
}

/// Law: every prefix token of a word is a prefix of it, at least two and at
/// most twelve characters long.
pub proof fn law_prefix_lengths(w: Seq<char>, k: int)
    requires
        0 <= k < word_prefixes(w).len(),
    ensures
        2 <= word_prefixes(w)[k].len() <= 12,
        word_prefixes(w)[k].is_prefix_of(w),
{
    let t = word_prefixes(w)[k];
    assert(t == w.take(k + MIN_PREFIX_LEN));
    assert(t =~= w.subrange(0, t.len() as int));
}

/// Law: every prefix of a word with two to twelve characters is indexed.
pub proof fn law_every_prefix_is_indexed(w: Seq<char>, n: int)
    requires
        2 <= n <= 12,
        n <= w.len(),
    ensures
        word_prefixes(w).contains(w.take(n)),
{
    assert(word_prefixes(w)[n - MIN_PREFIX_LEN] == w.take(n));
}

proof fn lemma_prefixes_of(ws: Seq<Seq<char>>, k: int, n: int)
    requires
        0 <= k < ws.len(),
        2 <= n <= 12,
        n <= ws[k].len(),
    ensures
        prefixes_of(ws).contains(ws[k].take(n)),
    decreases ws.len(),
{
    let lead = prefixes_of(ws.drop_last());
    let more = word_prefixes(ws.last());
    let t = ws[k].take(n);
    if k == ws.len() - 1 {
        law_every_prefix_is_indexed(ws.last(), n);
        let j = choose|j: int| 0 <= j < more.len() && more[j] == t;
        assert((lead + more)[lead.len() + j] == t);
    } else {
        lemma_prefixes_of(ws.drop_last(), k, n);
        let j = choose|j: int| 0 <= j < lead.len() && lead[j] == t;
        assert((lead + more)[j] == t);
    }
}

proof fn lemma_prefixes_are_words(ws: Seq<Seq<char>>)
    requires
        text::each_one_word(ws),
    ensures
        text::each_one_word(prefixes_of(ws)),
        forall|i: int|
            0 <= i < prefixes_of(ws).len() ==> 2 <= (#[trigger] prefixes_of(ws)[i]).len() <= 12
                && exists|k: int| 0 <= k < ws.len() && prefixes_of(ws)[i].is_prefix_of(ws[k]),
    decreases ws.len(),
{
    if ws.len() > 0 {
        let lead = prefixes_of(ws.drop_last());
        let more = word_prefixes(ws.last());
        lemma_prefixes_are_words(ws.drop_last());
        assert(text::one_word(ws[ws.len() - 1]));
        assert forall|i: int| 0 <= i < prefixes_of(ws).len() implies text::one_word(
            #[trigger] prefixes_of(ws)[i],
        ) && 2 <= prefixes_of(ws)[i].len() <= 12 && exists|k: int|
            0 <= k < ws.len() && prefixes_of(ws)[i].is_prefix_of(ws[k]) by {
            if i < lead.len() {
                assert(prefixes_of(ws)[i] == lead[i]);
                assert(text::one_word(lead[i]));
                let k = choose|k: int|
                    0 <= k < ws.drop_last().len() && lead[i].is_prefix_of(ws.drop_last()[k]);
                assert(prefixes_of(ws)[i].is_prefix_of(ws[k]));
            } else {
                let j: int = i - lead.len();
                assert(prefixes_of(ws)[i] == more[j]);
                law_prefix_lengths(ws.last(), j);
                assert(more[j] == ws.last().take(j + 2));
                assert(more[j].is_prefix_of(ws[ws.len() - 1]));
                assert forall|x: int| 0 <= x < more[j].len() implies !text::whitespace(
                    #[trigger] more[j][x],
                ) by {
                    assert(more[j][x] == ws.last()[x]);
                }
            }
        }
    }
}

/// Law: a title is found by the beginnings of its words: whatever words it
/// splits into, every beginning of one with two to twelve characters is a
/// token, and nothing else is.
pub proof fn law_a_word_is_found_by_its_beginnings(split: Seq<char>, k: int, n: int)
    requires
        0 <= k < text::words(split).len(),
        2 <= n <= 12,
        n <= text::words(split)[k].len(),
    ensures
        text::words(prefix_tokens(split)).contains(text::words(split)[k].take(n)),
        forall|i: int|
            0 <= i < text::words(prefix_tokens(split)).len() ==> 2 <= (
            #[trigger] text::words(prefix_tokens(split))[i]).len() <= 12 && exists|j: int|
                0 <= j < text::words(split).len() && text::words(prefix_tokens(
                    split,
                ))[i].is_prefix_of(text::words(split)[j]),
{
    let ws = text::words(split);
    text::law_words_are_words(split);
    lemma_prefixes_are_words(ws);
    lemma_prefixes_of(ws, k, n);
    text::law_joined_words_split_again(prefixes_of(ws));
}

// ---------------------------------------------------------------------
// Laws of initials
// ---------------------------------------------------------------------

proof fn lemma_initials_before(a: Seq<char>, sep: char, b: Seq<char>, n: nat)
    requires
        separator(sep),
        n <= a.len(),
    ensures
        initials_upto(a.push(sep) + b, n) == initials_upto(a, n),
    decreases n,
{
    let t = a.push(sep) + b;
    if n > 0 {
        lemma_initials_before(a, sep, b, (n - 1) as nat);
        assert(t[n - 1] == a[n - 1]);
        if n >= 2 {
            assert(t[n - 2] == a[n - 2]);
        }
        if n < a.len() {
            assert(t[n as int] == a[n as int]);
        } else {
            assert(t[n as int] == sep);
        }
        assert(initial_at(t, n - 1) == initial_at(a, n - 1));
    }
}

proof fn lemma_initials_after(a: Seq<char>, sep: char, b: Seq<char>, n: nat)
    requires
        separator(sep),
        n <= b.len(),
    ensures
        initials_upto(a.push(sep) + b, a.len() + 1 + n) == initials_of(a) + initials_upto(b, n),
    decreases n,
{
    let t = a.push(sep) + b;
    let m: int = a.len() as int + 1;
    if n == 0 {
        lemma_initials_before(a, sep, b, a.len());
        assert(t[m - 1] == sep);
        assert(!initial_at(t, m - 1));
        assert(initials_of(a) + initials_upto(b, 0) =~= initials_of(a));
    } else {
        lemma_initials_after(a, sep, b, (n - 1) as nat);
        let i: int = m + n - 1;
        assert(t[i] == b[n - 1]);
        if n >= 2 {
            assert(t[i - 1] == b[n - 2]);
        } else {
            assert(t[i - 1] == sep);
        }
        if n < b.len() {
            assert(t[i + 1] == b[n as int]);
        }
        assert(initial_at(t, i) == initial_at(b, n - 1));
        assert(initials_upto(t, (m + n) as nat) =~= initials_of(a) + initials_upto(b, n));
    }
}

/// Law: the initials of two titles with a separator between them are those
/// of the one and those of the other in turn; an empty title has none.
pub proof fn law_initials_of_two(a: Seq<char>, sep: char, b: Seq<char>)
    requires
        separator(sep),
    ensures
        initials_of(a.push(sep) + b) == initials_of(a) + initials_of(b),
        initials_of(Seq::<char>::empty()) == Seq::<char>::empty(),
{
    lemma_initials_after(a, sep, b, b.len());
}

/// Whether a text holds no separator.
pub open spec fn unbroken(s: Seq<char>) -> bool {
    forall|i: int| 0 <= i < s.len() ==> !separator(#[trigger] s[i])
}

proof fn lemma_lower_unbroken(c: char, low: Seq<char>)
    requires
        !separator(c),
        text::alphabetic(c),
        text::ascii(c) ==> low == seq![text::ascii_lower(c)],
        !text::ascii(c) ==> text::lettered(low),
    ensures
        unbroken(low),
{
    if text::ascii(c) {
        text::law_ascii_lower(c);
    }
}

/// The tokens of a title: the initials of its words, then those of the
/// whole title, unless there are none or they are among the others.
pub open spec fn listed(per_word: Seq<Seq<char>>, whole: Seq<char>) -> Seq<Seq<char>> {
    if whole.len() == 0 || per_word.contains(whole) {
        per_word
    } else {
        per_word.push(whole)
    }
}

proof fn lemma_unbroken_is_word(w: Seq<char>)
    requires
        unbroken(w),
        w.len() > 0,
    ensures
        text::one_word(w),
{
    assert forall|i: int| 0 <= i < w.len() implies !text::whitespace(#[trigger] w[i]) by {
        assert(!separator(w[i]));
    }
}

proof fn lemma_word_initials(ws: Seq<Seq<char>>)
    requires
        forall|k: int| 0 <= k < ws.len() ==> unbroken(initials_of(#[trigger] ws[k])),
    ensures
        text::each_one_word(word_initials(ws)),
    decreases ws.len(),
{
    if ws.len() > 0 {
        let lead = ws.drop_last();
        assert forall|k: int| 0 <= k < lead.len() implies unbroken(
            initials_of(#[trigger] lead[k]),
        ) by {
            assert(unbroken(initials_of(ws[k])));
        }
        lemma_word_initials(lead);
        assert(unbroken(initials_of(ws[ws.len() - 1])));
        if initials_of(ws.last()).len() > 0 {
            lemma_unbroken_is_word(initials_of(ws.last()));
        }
    }
}

proof fn lemma_joined_empty(parts: Seq<Seq<char>>)
    requires
        text::each_one_word(parts),
    ensures
        text::joined(parts, seq![' ']).len() == 0 <==> parts.len() == 0,
{
    if parts.len() > 0 {
        assert(text::one_word(parts[0]));
    }
}

/// Law: the tokens of a title are the initials of its words, in order, then
/// those of the whole title unless they are among the others, with one
/// space between each two; so the initials of the whole title, where there
/// are any, are always a token. It holds where no initials hold a separator.
pub proof fn law_initials_tokens(split: Seq<char>, title: Seq<char>)
    requires
        unbroken(initials_of(title)),
        forall|k: int|
            0 <= k < text::words(split).len() ==> unbroken(
                initials_of(#[trigger] text::words(split)[k]),
            ),
    ensures
        initials_tokens(split, title) == text::joined(
            listed(word_initials(text::words(split)), initials_of(title)),
            seq![' '],
        ),
        text::words(initials_tokens(split, title)) == listed(
            word_initials(text::words(split)),
            initials_of(title),
        ),
        initials_of(title).len() > 0 ==> text::words(initials_tokens(split, title)).contains(
            initials_of(title),
        ),
{
    let per_word = word_initials(text::words(split));
    let whole = initials_of(title);
    let all = listed(per_word, whole);
    lemma_word_initials(text::words(split));
    text::law_joined_words_split_again(per_word);
    lemma_joined_empty(per_word);
    let lead = text::joined(per_word, seq![' ']);
    if whole.len() > 0 {
        lemma_unbroken_is_word(whole);
        if !per_word.contains(whole) {
            assert(all.drop_last() =~= per_word);
            assert(all.last() == whole);
            if per_word.len() > 0 {
                assert(lead + seq![' '] + whole =~= lead.push(' ') + whole);
            }
            assert(all[all.len() - 1] == whole);
        }
    }
    text::law_joined_words_split_again(all);
}

/// The initials of a text are those of its two parts in turn, where each
/// initial of a part is one of the text and the other way round.
proof fn lemma_initials_of_parts(a: Seq<char>, b: Seq<char>, n: nat)
    requires
        n <= b.len(),
        forall|i: int| 0 <= i < a.len() ==> initial_at(a + b, i) == #[trigger] initial_at(a, i),
        forall|i: int|
            0 <= i < b.len() ==> initial_at(a + b, a.len() + i) == #[trigger] initial_at(b, i),
    ensures
        initials_upto(a + b, a.len() + n) == initials_of(a) + initials_upto(b, n),
    decreases n,
{
    let s = a + b;
    if n == 0 {
        lemma_initials_of_start(a, s, a.len());
        assert(initials_of(a) + initials_upto(b, 0) =~= initials_of(a));
    } else {
        lemma_initials_of_parts(a, b, (n - 1) as nat);
        assert(initial_at(b, n - 1) == initial_at(s, a.len() + n - 1));
        assert(s[a.len() + n - 1] == b[n - 1]);
        assert((a.len() + n - 1) as nat == a.len() + ((n - 1) as nat));
        assert(initials_upto(s, a.len() + n) =~= initials_of(a) + initials_upto(b, n));
    }
}

/// The initials of the start of a text are those of the text so far.
proof fn lemma_initials_of_start(a: Seq<char>, s: Seq<char>, n: nat)
    requires
        n <= a.len() <= s.len(),
        forall|i: int| 0 <= i < a.len() ==> #[trigger] s[i] == a[i],
        forall|i: int| 0 <= i < a.len() ==> initial_at(s, i) == #[trigger] initial_at(a, i),
    ensures
        initials_upto(s, n) == initials_upto(a, n),
    decreases n,
{
    if n > 0 {
        lemma_initials_of_start(a, s, (n - 1) as nat);
        assert(initial_at(a, n - 1) == initial_at(s, n - 1));
        assert(s[n - 1] == a[n - 1]);
    }
}

/// A stretch without initials adds none.
proof fn lemma_initials_gap(s: Seq<char>, from: nat, n: nat)
    requires
        forall|i: int| from <= i < from + n ==> !#[trigger] initial_at(s, i),
    ensures
        initials_upto(s, from + n) == initials_upto(s, from),
    decreases n,
{
    if n > 0 {
        lemma_initials_gap(s, from, (n - 1) as nat);
        assert(!initial_at(s, from + n - 1));
        assert((from + n - 1) as nat == from + ((n - 1) as nat));
    }
}

/// Law: a title has the initials of its words, which spaces, underscores,
/// hyphens, dots and slashes part.
pub proof fn law_separated_words_have_their_initials(a: Seq<char>, c: char, b: Seq<char>)
    requires
        c == ' ' || c == '_' || c == '-' || c == '.' || c == '/',
    ensures
        initials_of(a.push(c) + b) == initials_of(a) + initials_of(b),
{
    law_initials_of_two(a, c, b);
}

/// Law: a word in a run starts at a capital: behind a small letter, and as
/// the last of several capitals that a small letter follows.
pub proof fn law_words_in_a_run_have_their_initials(a: Seq<char>, b: Seq<char>)
    requires
        a.len() > 0,
        b.len() > 0,
        !separator(b[0]),
        text::alphabetic(a.last()),
        text::alphabetic(b[0]),
        text::uppercase(b[0]),
        !text::lowercase(b[0]),
        ({
            ||| text::lowercase(a.last()) && !text::uppercase(a.last())
            ||| b.len() > 1 && !separator(b[1]) && text::alphabetic(b[1]) && text::lowercase(b[1])
        }),
    ensures
        initials_of(a + b) == initials_of(a) + initials_of(b),
{
    let s = a + b;
    assert forall|i: int| 0 <= i < a.len() implies initial_at(s, i) == initial_at(a, i) by {
        assert(s[i] == a[i]);
        if i > 0 {
            assert(s[i - 1] == a[i - 1]);
        }
        if i + 1 < a.len() {
            assert(s[i + 1] == a[i + 1]);
        } else {
            assert(s[i + 1] == b[0]);
        }
    }
    assert forall|i: int| 0 <= i < b.len() implies initial_at(s, a.len() + i)
        == #[trigger] initial_at(b, i) by {
        let k: int = a.len() + i;
        assert(s[k] == b[i]);
        if i > 0 {
            assert(s[k - 1] == b[i - 1]);
        } else {
            assert(s[k - 1] == a.last());
        }
        if i + 1 < b.len() {
            assert(s[k + 1] == b[i + 1]);
        }
    }
    lemma_initials_of_parts(a, b, b.len());
}

/// Law: a word without a capital behind its first letter has that letter
/// for its initial, lowercased.
pub proof fn law_a_word_has_one_initial(w: Seq<char>)
    requires
        w.len() > 0,
        !separator(w[0]),
        text::alphabetic(w[0]),
        forall|i: int| 0 < i < w.len() ==> !separator(#[trigger] w[i]) && !text::uppercase(w[i]),
    ensures
        initials_of(w) == text::lower_of(w[0]),
{
    assert forall|i: int| 1 <= i < 1 + (w.len() - 1) as nat implies !#[trigger] initial_at(
        w,
        i,
    ) by {
        assert(!text::uppercase(w[i]));
        if i > 1 {
            assert(!separator(w[i - 1]));
        }
    }
    lemma_initials_gap(w, 1, (w.len() - 1) as nat);
    assert(initial_at(w, 0));
    assert(initials_upto(w, 0) =~= Seq::empty());
    assert(initials_upto(w, 1) =~= text::lower_of(w[0]));
}

/// Law: a file or a message ages with time, by a second a second from its
/// last change on, and has no age before; nothing else ages.
pub proof fn law_files_and_messages_age(category: Category, mtime_secs: i64, now_secs: i64)
    ensures
        recency_age(category, mtime_secs, now_secs) is Some <==> (category is File
            || category is Mail),
        recency_age(category, mtime_secs, now_secs) matches Some(age) ==> {
            &&& now_secs >= mtime_secs ==> mtime_secs + age == now_secs
            &&& now_secs <= mtime_secs ==> age == 0
        },
{
}

} // verus!
