//! Query normalization for prefix and acronym matching, and for latch keys.

use unicode_normalization::UnicodeNormalization;
use vstd::prelude::*;

use crate::text;

verus! {

/// The text that `UnicodeNormalization::nfkd` yields for one that is not all
/// ASCII: the compatibility decomposition of Unicode.
pub uninterp spec fn unicode_nfkd(s: Seq<char>) -> Seq<char>;

/// The compatibility decomposition of a text.
pub open spec fn nfkd_of(s: Seq<char>) -> Seq<char> {
    if text::all_ascii(s) {
        s
    } else {
        unicode_nfkd(s)
    }
}

/// `UnicodeNormalization::nfkd` of the crate `unicode-normalization`,
/// collected: the compatibility decomposition of `q`. A text of ASCII
/// characters alone is its own; otherwise it follows the Unicode tables of
/// that crate, in which the capital I with a dot has a decomposition, so
/// that it is left in none. It depends on `q` alone.
#[verifier::external_body]
fn nfkd(q: &str) -> (r: String)
    ensures
        text::all_ascii(q@) ==> r@ == q@,
        !text::all_ascii(q@) ==> r@ == unicode_nfkd(q@),
        !r@.contains('\u{130}'),
{
    q.nfkd().collect()
}

/// `s` without its combining marks.
pub open spec fn without_marks(s: Seq<char>) -> Seq<char>
    decreases s.len(),
{
    if s.len() == 0 {
        s
    } else if text::combining_mark(s.last()) {
        without_marks(s.drop_last())
    } else {
        without_marks(s.drop_last()).push(s.last())
    }
}

/// `s` with every run of whitespace replaced by one space.
pub open spec fn collapsed(s: Seq<char>) -> Seq<char>
    decreases s.len(),
{
    if s.len() == 0 {
        s
    } else {
        let before = collapsed(s.drop_last());
        if !text::whitespace(s.last()) {
            before.push(s.last())
        } else if s.len() >= 2 && text::whitespace(s[s.len() - 2]) {
            before
        } else {
            before.push(' ')
        }
    }
}

/// What follows the decomposition: marks stripped, lowercased, trimmed,
/// whitespace collapsed.
pub open spec fn folded(decomposed: Seq<char>) -> Seq<char> {
    collapsed(text::trimmed(text::lowercased(without_marks(decomposed))))
}

/// The normal form of a query or title.
pub open spec fn normalized(q: Seq<char>) -> Seq<char> {
    folded(nfkd_of(q))
}

/// Whether `c` is a query operator that a latch key sheds at its ends.
pub open spec fn latch_operator(c: char) -> bool {
    c == '-' || c == '+' || c == '"'
}

/// `s` without its leading latch operators.
pub open spec fn shed_start(s: Seq<char>) -> Seq<char>
    decreases s.len(),
{
    if s.len() > 0 && latch_operator(s[0]) {
        shed_start(s.drop_first())
    } else {
        s
    }
}

/// `s` without its trailing latch operators.
pub open spec fn shed_end(s: Seq<char>) -> Seq<char>
    decreases s.len(),
{
    if s.len() > 0 && latch_operator(s.last()) {
        shed_end(s.drop_last())
    } else {
        s
    }
}

/// `s` without its quotation marks.
pub open spec fn unquoted(s: Seq<char>) -> Seq<char>
    decreases s.len(),
{
    if s.len() == 0 {
        s
    } else if s.last() == '"' {
        unquoted(s.drop_last())
    } else {
        unquoted(s.drop_last()).push(s.last())
    }
}

/// The latch key that belongs to the normal form `n`.
pub open spec fn latch_key(n: Seq<char>) -> Seq<char> {
    unquoted(shed_end(shed_start(n)))
}

/// Check if a character is a combining mark (U+0300..=U+036F).
pub fn is_combining_mark(c: char) -> (r: bool)
    ensures
        r == text::combining_mark(c),
{
    '\u{0300}' <= c && c <= '\u{036F}'
}

/// Drops the combining marks of `s`.
fn strip_marks(s: &str) -> (r: String)
    ensures
        r@ == without_marks(s@),
{
    let v = text::to_chars(s);
    let mut out = String::new();
    let mut i: usize = 0;
    while i < v.len()
        invariant
            i <= v@.len(),
            out@ == without_marks(v@.take(i as int)),
        decreases v@.len() - i,
    {
        proof {
            assert(v@.take(i + 1).drop_last() =~= v@.take(i as int));
        }
        if !is_combining_mark(v[i]) {
            out.push(v[i]);
        }
        i = i + 1;
    }
    proof {
        assert(v@.take(v@.len() as int) =~= v@);
    }
    out
}

/// Collapse runs of whitespace to a single ASCII space.
pub fn collapse_whitespace(v: &[char]) -> (r: String)
    ensures
        r@ == collapsed(v@),
{
    let mut out = String::new();
    let mut i: usize = 0;
    let mut prev_was_whitespace = false;
    while i < v.len()
        invariant
            i <= v@.len(),
            prev_was_whitespace == (i > 0 && text::whitespace(v@[i - 1])),
            out@ == collapsed(v@.take(i as int)),
        decreases v@.len() - i,
    {
        let c: char = v[i];
        proof {
            let now = v@.take(i + 1);
            assert(now.drop_last() =~= v@.take(i as int));
            if i > 0 {
                assert(now[now.len() - 2] == v@[i - 1]);
            }
        }
        if c.is_whitespace() {
            if !prev_was_whitespace {
                out.push(' ');
            }
            prev_was_whitespace = true;
        } else {
            out.push(c);
            prev_was_whitespace = false;
        }
        i = i + 1;
    }
    proof {
        assert(v@.take(v@.len() as int) =~= v@);
    }
    out
}

/// Folds an already decomposed text: strips combining marks, lowercases,
/// trims and collapses whitespace.
pub fn fold_decomposed(decomposed: &str) -> (r: String)
    ensures
        r@ == folded(decomposed@),
        text::all_own_lower(r@),
        !decomposed@.contains('\u{130}') ==> unmarked(r@),
{
    let filtered = strip_marks(decomposed);
    let lowered = filtered.as_str().to_lowercase();
    proof {
        lemma_folded(decomposed@, lowered@);
    }
    let trimmed_text = text::trim(&text::to_chars(lowered.as_str()));
    collapse_whitespace(&trimmed_text)
}

/// Normalize a query string for matching against document titles.
///
/// Steps: compatibility decomposition, combining marks stripped, lowercase,
/// trim, runs of whitespace collapsed to one space. The query operators
/// `-`, `|`, `"` and `+` are preserved.
///
/// The result holds no combining mark, and its only whitespace are single
/// spaces between other characters. Normalizing it again changes nothing
/// where it is its own decomposition.
pub fn normalize_for_match(q: &str) -> (r: String)
    ensures
        r@ == normalized(q@),
        unmarked(r@),
        text::all_own_lower(r@),
        r@ == text::joined(text::words(r@), seq![' ']),
        nfkd_of(r@) == r@ ==> normalized(r@) == r@,
{
    let decomposed = nfkd(q);
    let r = fold_decomposed(decomposed.as_str());
    proof {
        law_normal_form_is_words(q@);
        if nfkd_of(r@) == r@ {
            lemma_own_lowercase(r@);
            law_normal_form_is_stable(q@);
        }
    }
    r
}

/// The latch key of an already normalized query.
pub fn latch_key_of_normalized(n: &str) -> (r: String)
    ensures
        r@ == latch_key(n@),
{
    let v = text::to_chars(n);
    let mut a: usize = 0;
    proof {
        assert(v@.skip(0) =~= v@);
    }
    while a < v.len() && (v[a] == '-' || v[a] == '+' || v[a] == '"')
        invariant
            a <= v@.len(),
            shed_start(v@) == shed_start(v@.skip(a as int)),
        decreases v@.len() - a,
    {
        proof {
            assert(v@.skip(a as int).drop_first() =~= v@.skip(a + 1));
        }
        a = a + 1;
    }
    let ghost body = v@.skip(a as int);
    let mut b: usize = v.len();
    proof {
        assert(shed_start(v@) == body);
        assert(body.take(body.len() as int) =~= body);
    }
    while a < b && (v[b - 1] == '-' || v[b - 1] == '+' || v[b - 1] == '"')
        invariant
            a <= b <= v@.len(),
            body == v@.skip(a as int),
            shed_end(body) == shed_end(body.take(b - a)),
        decreases b,
    {
        proof {
            assert(body.take(b - a).last() == v@[b - 1]);
            assert(body.take(b - a).drop_last() =~= body.take(b - a - 1));
        }
        b = b - 1;
    }
    let ghost kept = body.take(b - a);
    proof {
        if a < b {
            assert(kept.last() == v@[b - 1]);
        }
        assert(shed_end(body) == kept);
    }
    let mut out = String::new();
    let mut i: usize = a;
    while i < b
        invariant
            a <= i <= b <= v@.len(),
            kept == v@.subrange(a as int, b as int),
            out@ == unquoted(kept.take(i - a)),
        decreases b - i,
    {
        proof {
            assert(kept.take(i + 1 - a).drop_last() =~= kept.take(i - a));
        }
        if v[i] != '"' {
            out.push(v[i]);
        }
        i = i + 1;
    }
    proof {
        assert(kept.take(b - a) =~= kept);
    }
    out
}

/// Normalize a query string for use as a latch key.
///
/// The normal form of [`normalize_for_match`] without leading and trailing
/// runs of `-`, `+` and `"`, and without any `"` inside. Word order is kept.
pub fn normalize_for_latch_key(q: &str) -> (r: String)
    ensures
        r@ == latch_key(normalized(q@)),
{
    let n = normalize_for_match(q);
    latch_key_of_normalized(n.as_str())
}

/// Law: a latch key holds no quotation mark.
pub proof fn law_latch_key_has_no_quotes(n: Seq<char>)
    ensures
        !latch_key(n).contains('"'),
{
    lemma_unquoted(shed_end(shed_start(n)));
}

proof fn lemma_unquoted(s: Seq<char>)
    ensures
        !unquoted(s).contains('"'),
    decreases s.len(),
{
    if s.len() > 0 {
        lemma_unquoted(s.drop_last());
    }
}

/// Law: in a normal form no two neighbours are both whitespace.
pub proof fn law_no_double_whitespace(q: Seq<char>, i: int)
    requires
        0 <= i < normalized(q).len() - 1,
    ensures
        !(text::whitespace(normalized(q)[i]) && text::whitespace(normalized(q)[i + 1])),
{
    lemma_collapsed(text::trimmed(text::lowercased(without_marks(nfkd_of(q)))));
}

proof fn lemma_collapsed(s: Seq<char>)
    ensures
        collapsed(s).len() > 0 <==> s.len() > 0,
        s.len() > 0 ==> text::whitespace(collapsed(s).last()) == text::whitespace(s.last()),
        forall|i: int|
            0 <= i < collapsed(s).len() - 1 ==> !(text::whitespace(#[trigger] collapsed(s)[i])
                && text::whitespace(collapsed(s)[i + 1])),
    decreases s.len(),
{
    if s.len() > 0 {
        lemma_collapsed(s.drop_last());
        if s.len() >= 2 {
            assert(s.drop_last().last() == s[s.len() - 2]);
        }
    }
}

proof fn lemma_joined_grows(p: Seq<Seq<char>>, c: char)
    requires
        p.len() > 0,
    ensures
        text::joined(p.drop_last().push(p.last().push(c)), seq![' ']) == text::joined(
            p,
            seq![' '],
        ).push(c),
{
    let q = p.drop_last().push(p.last().push(c));
    if p.len() == 1 {
        assert(q[0] =~= p[0].push(c));
    } else {
        assert(q.drop_last() =~= p.drop_last());
        let lead = text::joined(p.drop_last(), seq![' ']) + seq![' '];
        assert(lead + p.last().push(c) =~= (lead + p.last()).push(c));
    }
}

proof fn lemma_collapsed_joins(t: Seq<char>)
    requires
        t.len() > 0 ==> !text::whitespace(t[0]),
    ensures
        t.len() > 0 ==> text::words(t).len() > 0,
        collapsed(t) == text::joined(text::words(t), seq![' ']) + if t.len() > 0
            && text::whitespace(t.last()) {
            seq![' ']
        } else {
            Seq::empty()
        },
    decreases t.len(),
{
    let space = seq![' '];
    if t.len() == 0 {
        assert(collapsed(t) =~= text::joined(text::words(t), space) + Seq::<char>::empty());
    } else {
        let a = t.drop_last();
        let c = t.last();
        lemma_collapsed_joins(a);
        let before = text::joined(text::words(a), space);
        if a.len() > 0 {
            assert(a.last() == t[t.len() - 2]);
        }
        if text::whitespace(c) {
            assert(a.len() > 0);
            assert(collapsed(t) =~= before + space);
        } else if a.len() == 0 {
            assert(text::words(t) =~= seq![seq![c]]);
            assert(collapsed(t) =~= seq![c]);
            assert(text::joined(text::words(t), space) =~= seq![c]);
            assert(collapsed(t) =~= text::joined(text::words(t), space) + Seq::<char>::empty());
        } else if text::whitespace(a.last()) {
            let ws = text::words(a).push(seq![c]);
            assert(text::words(t) =~= ws);
            assert(ws.drop_last() =~= text::words(a));
            assert(text::joined(ws, space) =~= before + space + seq![c]);
            assert(collapsed(t) =~= text::joined(ws, space) + Seq::<char>::empty());
        } else {
            lemma_joined_grows(text::words(a), c);
            assert(collapsed(t) =~= before.push(c));
            assert(collapsed(t) =~= text::joined(text::words(t), space) + Seq::<char>::empty());
        }
    }
}

/// Law: trimmed and with its whitespace collapsed, a text is its words with
/// one space between each two.
pub proof fn law_collapsed_is_words(s: Seq<char>)
    ensures
        collapsed(text::trimmed(s)) == text::joined(text::words(s), seq![' ']),
{
    text::law_trimmed_ends(s);
    text::law_trimming_keeps_words(s);
    lemma_collapsed_joins(text::trimmed(s));
    assert(collapsed(text::trimmed(s)) =~= text::joined(text::words(s), seq![' ']));
}

/// Law: a normal form is words with one space between each two, and no
/// other whitespace: none at its ends, none doubled.
pub proof fn law_normal_form_is_words(q: Seq<char>)
    ensures
        text::each_one_word(text::words(normalized(q))),
        normalized(q) == text::joined(text::words(normalized(q)), seq![' ']),
{
    let low = text::lowercased(without_marks(nfkd_of(q)));
    law_collapsed_is_words(low);
    text::law_words_are_words(low);
    text::law_joined_words_split_again(text::words(low));
}

/// Whether a text holds no combining mark.
pub open spec fn unmarked(s: Seq<char>) -> bool {
    forall|i: int| 0 <= i < s.len() ==> !text::combining_mark(#[trigger] s[i])
}

/// Law: stripping combining marks leaves none, and changes nothing where
/// there is none.
pub proof fn law_marks_are_stripped(s: Seq<char>)
    ensures
        unmarked(without_marks(s)),
        unmarked(s) ==> without_marks(s) == s,
    decreases s.len(),
{
    if s.len() > 0 {
        law_marks_are_stripped(s.drop_last());
        if unmarked(s) {
            assert(!text::combining_mark(s[s.len() - 1]));
            assert forall|i: int| 0 <= i < s.drop_last().len() implies !text::combining_mark(
                #[trigger] s.drop_last()[i],
            ) by {
                assert(!text::combining_mark(s[i]));
            }
            assert(s.drop_last().push(s.last()) =~= s);
        }
    }
}

/// Law: an ASCII text has as its normal form its words in small letters,
/// with one space between each two; every other character is kept.
pub proof fn law_normal_form_of_ascii(q: Seq<char>)
    requires
        text::all_ascii(q),
    ensures
        normalized(q) == text::joined(text::words(text::ascii_lowered(q)), seq![' ']),
        text::all_ascii(normalized(q)),
        unmarked(normalized(q)),
{
    lemma_ascii_is_unmarked(q);
    law_marks_are_stripped(q);
    law_collapsed_is_words(text::ascii_lowered(q));
    let low = text::ascii_lowered(q);
    assert forall|i: int| 0 <= i < low.len() implies text::ascii(#[trigger] low[i]) by {
        assert(text::ascii(q[i]));
        text::law_ascii_lower(q[i]);
    }
    text::law_words_of_ascii(low);
    lemma_joined_ascii(text::words(low));
    lemma_ascii_is_unmarked(normalized(q));
}

proof fn lemma_ascii_is_unmarked(s: Seq<char>)
    requires
        text::all_ascii(s),
    ensures
        unmarked(s),
{
    assert forall|i: int| 0 <= i < s.len() implies !text::combining_mark(#[trigger] s[i]) by {
        assert(text::ascii(s[i]));
    }
}

proof fn lemma_joined_ascii(parts: Seq<Seq<char>>)
    requires
        forall|k: int| 0 <= k < parts.len() ==> text::all_ascii(#[trigger] parts[k]),
    ensures
        text::all_ascii(text::joined(parts, seq![' '])),
    decreases parts.len(),
{
    if parts.len() == 1 {
        assert(text::all_ascii(parts[0]));
    } else if parts.len() > 1 {
        let lead = parts.drop_last();
        assert forall|k: int| 0 <= k < lead.len() implies text::all_ascii(#[trigger] lead[k]) by {
            assert(text::all_ascii(parts[k]));
        }
        lemma_joined_ascii(lead);
        assert(text::all_ascii(parts[parts.len() - 1]));
    }
}

/// Law: where a normal form is its own decomposition and its own lowercase
/// and holds no combining mark, normalizing it changes nothing.
pub proof fn law_normal_form_is_stable(q: Seq<char>)
    requires
        nfkd_of(normalized(q)) == normalized(q),
        unmarked(normalized(q)),
        text::lowercased(normalized(q)) == normalized(q),
    ensures
        normalized(normalized(q)) == normalized(q),
{
    law_marks_are_stripped(normalized(q));
    law_collapsed_is_words(normalized(q));
    law_normal_form_is_words(q);
}

/// Law: normalizing the normal form of an ASCII text changes nothing.
pub proof fn law_normal_form_of_ascii_is_stable(q: Seq<char>)
    requires
        text::all_ascii(q),
    ensures
        normalized(normalized(q)) == normalized(q),
{
    law_normal_form_of_ascii(q);
    let low = text::ascii_lowered(q);
    let n = normalized(q);
    text::law_words_are_words(low);
    text::law_joined_words_split_again(text::words(low));
    text::law_words_of_ascii_lowered(q);
    text::law_words_of_ascii_lowered(low);
    assert(text::ascii_lowered(low) =~= low) by {
        assert forall|i: int| 0 <= i < low.len() implies text::ascii_lowered(low)[i] == low[i] by {
            text::law_ascii_lower(q[i]);
        }
    }
    text::law_words_of_ascii_lowered(n);
    law_normal_form_of_ascii(n);
}

/// Whether every character of `s` satisfies `f`.
pub open spec fn each_char(s: Seq<char>, f: spec_fn(char) -> bool) -> bool {
    forall|i: int| 0 <= i < s.len() ==> f(#[trigger] s[i])
}

proof fn lemma_collapsed_keeps(s: Seq<char>, f: spec_fn(char) -> bool)
    requires
        each_char(s, f),
        f(' '),
    ensures
        each_char(collapsed(s), f),
    decreases s.len(),
{
    if s.len() > 0 {
        assert(f(s[s.len() - 1]));
        assert forall|i: int| 0 <= i < s.drop_last().len() implies f(
            #[trigger] s.drop_last()[i],
        ) by {
            assert(f(s[i]));
        }
        lemma_collapsed_keeps(s.drop_last(), f);
    }
}

proof fn lemma_trimmed_keeps(s: Seq<char>, f: spec_fn(char) -> bool)
    requires
        each_char(s, f),
    ensures
        each_char(text::trim_start(s), f),
        each_char(text::trim_end(s), f),
    decreases s.len(),
{
    if s.len() > 0 {
        assert forall|i: int| 0 <= i < s.drop_last().len() implies f(
            #[trigger] s.drop_last()[i],
        ) by {
            assert(f(s[i]));
        }
        assert forall|i: int| 0 <= i < s.drop_first().len() implies f(
            #[trigger] s.drop_first()[i],
        ) by {
            assert(f(s[i + 1]));
        }
        lemma_trimmed_keeps(s.drop_last(), f);
        lemma_trimmed_keeps(s.drop_first(), f);
    }
}

/// Law: what holds of every character of a text and of the space still
/// holds once whitespace is trimmed and collapsed.
pub proof fn law_collapsing_keeps(s: Seq<char>, f: spec_fn(char) -> bool)
    requires
        each_char(s, f),
        f(' '),
    ensures
        each_char(collapsed(text::trimmed(s)), f),
{
    lemma_trimmed_keeps(s, f);
    lemma_trimmed_keeps(text::trim_start(s), f);
    lemma_collapsed_keeps(text::trimmed(s), f);
}

proof fn lemma_without_marks_holds(s: Seq<char>, c: char)
    requires
        without_marks(s).contains(c),
    ensures
        s.contains(c),
    decreases s.len(),
{
    if s.len() > 0 {
        let j = choose|j: int| 0 <= j < without_marks(s).len() && without_marks(s)[j] == c;
        let lead = without_marks(s.drop_last());
        if j == lead.len() {
            assert(s[s.len() - 1] == c);
        } else {
            assert(lead[j] == c);
            lemma_without_marks_holds(s.drop_last(), c);
            let k = choose|k: int| 0 <= k < s.drop_last().len() && s.drop_last()[k] == c;
            assert(s[k] == c);
        }
    }
}

proof fn lemma_folded(d: Seq<char>, low: Seq<char>)
    requires
        text::all_own_lower(low),
        text::marks_from(without_marks(d), low),
    ensures
        text::all_own_lower(collapsed(text::trimmed(low))),
        !d.contains('\u{130}') ==> unmarked(collapsed(text::trimmed(low))),
{
    let own = |c: char| text::own_lower(c);
    let plain = |c: char| !text::combining_mark(c);
    assert(text::lower_of(' ') =~= seq![' ']) by {
        text::law_ascii_lower(' ');
    }
    assert forall|i: int| 0 <= i < low.len() implies own(#[trigger] low[i]) by {
        assert(text::own_lower(low[i]));
    }
    law_collapsing_keeps(low, own);
    let r = collapsed(text::trimmed(low));
    assert forall|i: int| 0 <= i < r.len() implies text::own_lower(#[trigger] r[i]) by {
        assert(own(r[i]));
    }
    if !d.contains('\u{130}') {
        law_marks_are_stripped(d);
        if without_marks(d).contains('\u{130}') {
            lemma_without_marks_holds(d, '\u{130}');
        }
        assert forall|i: int| 0 <= i < low.len() implies plain(#[trigger] low[i]) by {
            if text::combining_mark(low[i]) {
                let k = choose|k: int|
                    0 <= k < without_marks(d).len() && without_marks(d)[k] == low[i];
                assert(!text::combining_mark(without_marks(d)[k]));
            }
        }
        law_collapsing_keeps(low, plain);
        assert forall|i: int| 0 <= i < r.len() implies !text::combining_mark(#[trigger] r[i]) by {
            assert(plain(r[i]));
        }
    }
}

proof fn lemma_own_lowercase(s: Seq<char>)
    requires
        text::all_own_lower(s),
    ensures
        text::lowercased(s) == s,
{
    if text::all_ascii(s) {
        assert forall|i: int| 0 <= i < s.len() implies text::ascii_lowered(s)[i] == s[i] by {
            assert(text::own_lower(s[i]));
            assert(text::ascii(s[i]));
            assert(text::lower_of(s[i])[0] == s[i]);
        }
        assert(text::ascii_lowered(s) =~= s);
    }
}

/// Law: the operators at the ends of a query do not change its latch key,
/// and neither do its quotation marks.
pub proof fn law_operators_do_not_change_the_key(n: Seq<char>, c: char)
    requires
        c == '-' || c == '+' || c == '"',
    ensures
        latch_key(seq![c] + n) == latch_key(n),
        latch_key(n.push(c)) == latch_key(n),
{
    let front = seq![c] + n;
    assert(front.drop_first() =~= n);
    assert(front[0] == c);
    lemma_shed_start_of_push(n, c);
    let s = shed_start(n);
    if s.len() > 0 {
        assert(s.push(c).drop_last() =~= s);
    }
}

proof fn lemma_shed_start_of_push(n: Seq<char>, c: char)
    requires
        latch_operator(c),
    ensures
        shed_start(n).len() > 0 ==> shed_start(n.push(c)) == shed_start(n).push(c),
        shed_start(n).len() == 0 ==> shed_start(n.push(c)) == shed_start(n),
    decreases n.len(),
{
    if n.len() == 0 {
        assert(n.push(c).drop_first() =~= n);
        assert(n.push(c)[0] == c);
    } else {
        assert(n.push(c)[0] == n[0]);
        assert(n.push(c).drop_first() =~= n.drop_first().push(c));
        lemma_shed_start_of_push(n.drop_first(), c);
    }
}

/// Law: what holds no operators is its own latch key.
pub proof fn law_plain_queries_are_their_own_key(n: Seq<char>)
    requires
        forall|i: int| 0 <= i < n.len() ==> #[trigger] n[i] != '-' && n[i] != '+' && n[i] != '"',
    ensures
        latch_key(n) == n,
{
    lemma_unquoted_keeps(n);
}

proof fn lemma_unquoted_keeps(s: Seq<char>)
    requires
        forall|i: int| 0 <= i < s.len() ==> #[trigger] s[i] != '"',
    ensures
        unquoted(s) == s,
    decreases s.len(),
{
    if s.len() > 0 {
        lemma_unquoted_keeps(s.drop_last());
        assert(s.drop_last().push(s.last()) =~= s);
    }
}

/// Law: marks are dropped wherever they stand, and nothing else is: the
/// parts of a text are stripped each by itself.
pub proof fn law_parts_are_stripped_each(a: Seq<char>, b: Seq<char>)
    ensures
        without_marks(a + b) == without_marks(a) + without_marks(b),
    decreases b.len(),
{
    if b.len() == 0 {
        assert(a + b =~= a);
        assert(without_marks(a) + without_marks(b) =~= without_marks(a));
    } else {
        law_parts_are_stripped_each(a, b.drop_last());
        assert((a + b).drop_last() =~= a + b.drop_last());
        assert((a + b).last() == b.last());
        assert(without_marks(a + b) =~= without_marks(a) + without_marks(b));
    }
}

proof fn lemma_unquoted_parts(a: Seq<char>, b: Seq<char>)
    ensures
        unquoted(a + b) == unquoted(a) + unquoted(b),
    decreases b.len(),
{
    if b.len() == 0 {
        assert(a + b =~= a);
        assert(unquoted(a) + unquoted(b) =~= unquoted(a));
    } else {
        lemma_unquoted_parts(a, b.drop_last());
        assert((a + b).drop_last() =~= a + b.drop_last());
        assert((a + b).last() == b.last());
        assert(unquoted(a + b) =~= unquoted(a) + unquoted(b));
    }
}

/// Law: quotation marks inside a query do not count in its latch key, and
/// all else does.
pub proof fn law_quotation_marks_inside_do_not_count(a: Seq<char>, b: Seq<char>)
    requires
        a.len() > 0,
        b.len() > 0,
        a[0] != '-' && a[0] != '+' && a[0] != '"',
        b.last() != '-' && b.last() != '+' && b.last() != '"',
    ensures
        latch_key(a.push('"') + b) == latch_key(a + b),
{
    let s = a.push('"') + b;
    let t = a + b;
    assert(s[0] == a[0] && t[0] == a[0]);
    assert(s.last() == b.last() && t.last() == b.last());
    lemma_unquoted_parts(a.push('"'), b);
    lemma_unquoted_parts(a, b);
    assert(a.push('"').drop_last() =~= a);
    assert(unquoted(a.push('"')) == unquoted(a));
}

} // verus!
