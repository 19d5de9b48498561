//! Splitting of identifiers into words, ahead of the index analyzers.

use vstd::prelude::*;

use crate::text;

verus! {

/// Whether a new word starts at the capital `s[i]`: after a small letter or
/// a digit, or as the last capital of a run that a small letter follows.
pub open spec fn word_break(s: Seq<char>, i: int) -> bool {
    &&& 0 < i < s.len()
    &&& text::uppercase(s[i])
    &&& {
        ||| text::lowercase(s[i - 1])
        ||| '0' <= s[i - 1] <= '9'
        ||| text::uppercase(s[i - 1]) && i + 1 < s.len() && text::lowercase(s[i + 1])
    }
}

/// The first `n` characters of `s`, with separators turned into spaces and
/// a space ahead of every word break.
pub open spec fn spaced(s: Seq<char>, n: nat) -> Seq<char>
    decreases n,
{
    if n == 0 {
        Seq::empty()
    } else {
        let before = spaced(s, (n - 1) as nat);
        let c = s[n - 1];
        if c == '_' || c == '-' || text::whitespace(c) {
            before.push(' ')
        } else if word_break(s, n - 1) {
            before.push(' ').push(c)
        } else {
            before.push(c)
        }
    }
}

/// Each of `parts` lowercased.
pub open spec fn all_lowercased(parts: Seq<Seq<char>>) -> Seq<Seq<char>> {
    Seq::new(parts.len(), |i: int| text::lowercased(parts[i]))
}

/// The words of an identifier, lowercased, with one space between them.
pub open spec fn split_of(s: Seq<char>) -> Seq<char> {
    text::joined(all_lowercased(text::words(spaced(s, s.len()))), seq![' '])
}

/// Splits camel case, snake case and kebab case into lowercase words.
pub fn split_identifiers(input: &str) -> (r: String)
    ensures
        r@ == split_of(input@),
{
    let chars = text::to_chars(input);
    let mut output: Vec<char> = Vec::new();
    let mut i: usize = 0;
    while i < chars.len()
        invariant
            i <= chars@.len(),
            output@ == spaced(chars@, i as nat),
        decreases chars@.len() - i,
    {
        let ch: char = chars[i];
        if ch == '_' || ch == '-' || ch.is_whitespace() {
            output.push(' ');
        } else {
            if ch.is_uppercase() && i > 0 {
                let previous: char = chars[i - 1];
                let next_is_lowercase = i + 1 < chars.len() && chars[i + 1].is_lowercase();
                if previous.is_lowercase() || ('0' <= previous && previous <= '9') || (
                previous.is_uppercase() && next_is_lowercase) {
                    output.push(' ');
                }
            }
            output.push(ch);
        }
        i = i + 1;
    }
    let pieces = text::split_words(&output);
    let mut lowered: Vec<Vec<char>> = Vec::new();
    let mut k: usize = 0;
    while k < pieces.len()
        invariant
            k <= pieces@.len(),
            text::texts(pieces@) == text::words(spaced(chars@, chars@.len())),
            lowered@.len() == k,
            forall|j: int|
                0 <= j < k ==> (#[trigger] lowered@[j])@ == text::lowercased(
                    text::words(spaced(chars@, chars@.len()))[j],
                ),
        decreases pieces@.len() - k,
    {
        let word = text::from_chars(&pieces[k]);
        let low = word.as_str().to_lowercase();
        proof {
            assert(text::texts(pieces@)[k as int] == pieces@[k as int]@);
        }
        lowered.push(text::to_chars(low.as_str()));
        k = k + 1;
    }
    proof {
        assert(text::texts(pieces@).len() == pieces@.len());
        assert(text::texts(lowered@) =~= all_lowercased(
            text::words(spaced(chars@, chars@.len())),
        ));
    }
    let out = text::join_spaced(&lowered);
    text::from_chars(&out)
}

// ---------------------------------------------------------------------
// Laws of splitting
// ---------------------------------------------------------------------

/// Whether `c` only separates words: an underscore, a hyphen or whitespace.
pub open spec fn separates(c: char) -> bool {
    c == '_' || c == '-' || text::whitespace(c)
}

/// `s` without the characters that only separate words.
pub open spec fn unseparated(s: Seq<char>) -> Seq<char>
    decreases s.len(),
{
    if s.len() == 0 {
        s
    } else if separates(s.last()) {
        unseparated(s.drop_last())
    } else {
        unseparated(s.drop_last()).push(s.last())
    }
}

/// The parts of `parts` in turn, each without its separating characters.
pub open spec fn run_together(parts: Seq<Seq<char>>) -> Seq<char>
    decreases parts.len(),
{
    if parts.len() == 0 {
        Seq::empty()
    } else {
        run_together(parts.drop_last()) + unseparated(parts.last())
    }
}

proof fn lemma_unseparated_add(a: Seq<char>, b: Seq<char>)
    ensures
        unseparated(a + b) == unseparated(a) + unseparated(b),
    decreases b.len(),
{
    if b.len() == 0 {
        assert(a + b =~= a);
        assert(unseparated(a) + unseparated(b) =~= unseparated(a));
    } else {
        lemma_unseparated_add(a, b.drop_last());
        assert((a + b).drop_last() =~= a + b.drop_last());
        assert((a + b).last() == b.last());
        assert(unseparated(a + b) =~= unseparated(a) + unseparated(b));
    }
}

proof fn lemma_unseparated_joined(parts: Seq<Seq<char>>)
    ensures
        unseparated(text::joined(parts, seq![' '])) == run_together(parts),
    decreases parts.len(),
{
    let space = seq![' '];
    assert(space.drop_last() =~= Seq::<char>::empty());
    assert(unseparated(space) =~= Seq::<char>::empty()) by {
        assert(unseparated(space) == unseparated(space.drop_last()));
    }
    if parts.len() == 1 {
        assert(run_together(parts.drop_last()) =~= Seq::<char>::empty());
        assert(run_together(parts) =~= unseparated(parts[0]));
    } else if parts.len() > 1 {
        let lead = text::joined(parts.drop_last(), space);
        lemma_unseparated_joined(parts.drop_last());
        lemma_unseparated_add(lead + space, parts.last());
        lemma_unseparated_add(lead, space);
        assert(unseparated(lead) + unseparated(space) =~= unseparated(lead));
    }
}

proof fn lemma_words_run_together(s: Seq<char>)
    ensures
        run_together(text::words(s)) == unseparated(s),
    decreases s.len(),
{
    if s.len() > 0 {
        let a = s.drop_last();
        let c = s.last();
        let before = text::words(a);
        lemma_words_run_together(a);
        text::law_words_are_words(a);
        if a.len() > 0 {
            assert(a.last() == s[s.len() - 2]);
        }
        if text::whitespace(c) {
        } else if s.len() == 1 || text::whitespace(s[s.len() - 2]) {
            let ws = before.push(seq![c]);
            assert(ws.drop_last() =~= before);
            lemma_unseparated_add(a, seq![c]);
            assert(a + seq![c] =~= s);
        } else {
            let ws = before.drop_last().push(before.last().push(c));
            assert(ws.drop_last() =~= before.drop_last());
            lemma_unseparated_add(before.last(), seq![c]);
            assert(before.last() + seq![c] =~= before.last().push(c));
            lemma_unseparated_add(a, seq![c]);
            assert(a + seq![c] =~= s);
            assert(run_together(ws) =~= run_together(before) + unseparated(seq![c]));
        }
    }
}

proof fn lemma_unseparated_lowered(s: Seq<char>)
    ensures
        unseparated(text::ascii_lowered(s)) == text::ascii_lowered(unseparated(s)),
    decreases s.len(),
{
    let low = text::ascii_lowered(s);
    if s.len() == 0 {
        assert(unseparated(low) =~= text::ascii_lowered(unseparated(s)));
    } else {
        lemma_unseparated_lowered(s.drop_last());
        text::law_ascii_lower(s.last());
        assert(low.drop_last() =~= text::ascii_lowered(s.drop_last()));
        assert(unseparated(low) =~= text::ascii_lowered(unseparated(s)));
    }
}

proof fn lemma_run_together_lowered(parts: Seq<Seq<char>>)
    ensures
        run_together(text::each_ascii_lowered(parts)) == text::ascii_lowered(run_together(parts)),
    decreases parts.len(),
{
    let low = text::each_ascii_lowered(parts);
    if parts.len() == 0 {
        assert(run_together(low) =~= text::ascii_lowered(run_together(parts)));
    } else {
        lemma_run_together_lowered(parts.drop_last());
        lemma_unseparated_lowered(parts.last());
        assert(low.drop_last() =~= text::each_ascii_lowered(parts.drop_last()));
        assert(run_together(low) =~= text::ascii_lowered(run_together(parts)));
    }
}

proof fn lemma_spaced(s: Seq<char>, n: nat)
    requires
        n <= s.len(),
    ensures
        unseparated(spaced(s, n)) == unseparated(s.take(n as int)),
        text::all_ascii(s) ==> text::all_ascii(spaced(s, n)),
        forall|i: int|
            0 <= i < spaced(s, n).len() ==> (#[trigger] spaced(s, n)[i]) != '_' && spaced(s, n)[i]
                != '-',
    decreases n,
{
    if n == 0 {
        assert(spaced(s, n) =~= s.take(0));
    } else {
        lemma_spaced(s, (n - 1) as nat);
        let before = spaced(s, (n - 1) as nat);
        let c = s[n - 1];
        assert(s.take(n as int).drop_last() =~= s.take(n - 1));
        if separates(c) {
            assert(before.push(' ').drop_last() =~= before);
        } else if word_break(s, n - 1) {
            assert(before.push(' ').push(c).drop_last() =~= before.push(' '));
            assert(before.push(' ').drop_last() =~= before);
            assert(unseparated(before.push(' ')) == unseparated(before));
        } else {
            assert(before.push(c).drop_last() =~= before);
        }
        if text::all_ascii(s) {
            assert(text::ascii(s[n - 1]));
        }
    }
}

/// Whether a word is what splitting an ASCII text gives: one word of ASCII
/// characters without capitals, underscores and hyphens.
pub open spec fn plain_word(w: Seq<char>) -> bool {
    &&& text::one_word(w)
    &&& text::all_ascii(w)
    &&& forall|i: int|
        0 <= i < w.len() ==> !text::uppercase(#[trigger] w[i]) && w[i] != '_' && w[i] != '-'
}

/// Whether `c` may stand in what splitting an ASCII text gives: an ASCII
/// character, but no capital, underscore or hyphen, and no whitespace but
/// the space.
pub open spec fn plain_char(c: char) -> bool {
    &&& text::ascii(c)
    &&& !text::uppercase(c)
    &&& c != '_' && c != '-'
    &&& (text::whitespace(c) ==> c == ' ')
}

/// Whether each character may stand in what splitting an ASCII text gives.
pub open spec fn plain_text(s: Seq<char>) -> bool {
    forall|i: int| 0 <= i < s.len() ==> plain_char(#[trigger] s[i])
}

/// The words that an ASCII text is split into.
pub open spec fn plain_words(s: Seq<char>) -> Seq<Seq<char>> {
    text::each_ascii_lowered(text::words(spaced(s, s.len())))
}

proof fn lemma_words_lack(s: Seq<char>)
    requires
        forall|i: int| 0 <= i < s.len() ==> (#[trigger] s[i]) != '_' && s[i] != '-',
    ensures
        forall|k: int, i: int|
            0 <= k < text::words(s).len() && 0 <= i < text::words(s)[k].len() ==> (
            #[trigger] text::words(s)[k][i]) != '_' && text::words(s)[k][i] != '-',
    decreases s.len(),
{
    if s.len() > 0 {
        let a = s.drop_last();
        let before = text::words(a);
        assert forall|i: int| 0 <= i < a.len() implies (#[trigger] a[i]) != '_' && a[i] != '-' by {
            assert(s[i] != '_');
        }
        lemma_words_lack(a);
        text::law_words_are_words(a);
        assert(s[s.len() - 1] != '_' && s[s.len() - 1] != '-');
        if a.len() > 0 {
            assert(a.last() == s[s.len() - 2]);
        }
        let ws = text::words(s);
        assert forall|k: int, i: int| 0 <= k < ws.len() && 0 <= i < ws[k].len() implies (
        #[trigger] ws[k][i]) != '_' && ws[k][i] != '-' by {
            if k < before.len() && i < before[k].len() {
                assert(before[k][i] != '_');
            }
        }
    }
}

/// Law: an ASCII text is split into words of small letters and other ASCII
/// characters, without capitals, underscores and hyphens, with one space
/// between each two and no other whitespace.
pub proof fn law_split_of_ascii(s: Seq<char>)
    requires
        text::all_ascii(s),
    ensures
        split_of(s) == text::joined(plain_words(s), seq![' ']),
        text::words(split_of(s)) == plain_words(s),
        plain_text(split_of(s)),
        forall|k: int| 0 <= k < plain_words(s).len() ==> plain_word(#[trigger] plain_words(s)[k]),
{
    let t = spaced(s, s.len());
    let ws = text::words(t);
    lemma_spaced(s, s.len());
    text::law_words_of_ascii(t);
    text::law_words_are_words(t);
    lemma_words_lack(t);
    assert(all_lowercased(ws) =~= plain_words(s)) by {
        assert forall|k: int| 0 <= k < ws.len() implies all_lowercased(ws)[k] == plain_words(
            s,
        )[k] by {
            assert(text::all_ascii(ws[k]));
        }
    }
    assert forall|k: int| 0 <= k < plain_words(s).len() implies plain_word(
        #[trigger] plain_words(s)[k],
    ) by {
        let w = ws[k];
        assert(text::one_word(w) && text::all_ascii(w));
        let p = plain_words(s)[k];
        assert forall|i: int| 0 <= i < p.len() implies !text::whitespace(#[trigger] p[i])
            && text::ascii(p[i]) && !text::uppercase(p[i]) && p[i] != '_' && p[i] != '-' by {
            assert(!text::whitespace(w[i]) && text::ascii(w[i]));
            assert(ws[k][i] != '_');
            text::law_ascii_lower(w[i]);
        }
    }
    lemma_joined_plain(plain_words(s));
    text::law_joined_words_split_again(plain_words(s));
}

/// Law: splitting an ASCII text loses only what separates words, and
/// changes only capitals to small letters; nothing is added but the spaces.
pub proof fn law_split_keeps_the_rest(s: Seq<char>)
    requires
        text::all_ascii(s),
    ensures
        unseparated(split_of(s)) == text::ascii_lowered(unseparated(s)),
{
    let t = spaced(s, s.len());
    law_split_of_ascii(s);
    lemma_spaced(s, s.len());
    assert(s.take(s.len() as int) =~= s);
    lemma_unseparated_joined(plain_words(s));
    lemma_run_together_lowered(text::words(t));
    lemma_words_run_together(t);
}

proof fn lemma_spaced_of_plain(r: Seq<char>, n: nat)
    requires
        n <= r.len(),
        plain_text(r),
    ensures
        spaced(r, n) == r.take(n as int),
    decreases n,
{
    if n > 0 {
        lemma_spaced_of_plain(r, (n - 1) as nat);
        assert(plain_char(r[n - 1]));
        assert(r.take(n - 1).push(r[n - 1]) =~= r.take(n as int));
    } else {
        assert(spaced(r, n) =~= r.take(0));
    }
}

proof fn lemma_joined_plain(parts: Seq<Seq<char>>)
    requires
        forall|k: int| 0 <= k < parts.len() ==> plain_word(#[trigger] parts[k]),
    ensures
        plain_text(text::joined(parts, seq![' '])),
    decreases parts.len(),
{
    if parts.len() >= 1 {
        let w = parts[parts.len() - 1];
        assert(plain_word(w));
        assert forall|i: int| 0 <= i < w.len() implies plain_char(#[trigger] w[i]) by {
            assert(!text::uppercase(w[i]) && text::ascii(w[i]) && !text::whitespace(w[i]));
        }
        let lead = parts.drop_last();
        assert forall|k: int| 0 <= k < lead.len() implies plain_word(#[trigger] lead[k]) by {
            assert(plain_word(parts[k]));
        }
        lemma_joined_plain(lead);
        let start = text::joined(lead, seq![' ']);
        let all = text::joined(parts, seq![' ']);
        assert forall|i: int| 0 <= i < all.len() implies plain_char(#[trigger] all[i]) by {
            if parts.len() == 1 {
                assert(plain_char(w[i]));
            } else if i < start.len() {
                assert(plain_char(start[i]));
            } else if i > start.len() {
                assert(plain_char(w[i - start.len() - 1]));
            }
        }
    }
}

/// Law: splitting what splitting an ASCII text gave changes nothing.
pub proof fn law_split_is_stable(s: Seq<char>)
    requires
        text::all_ascii(s),
    ensures
        split_of(split_of(s)) == split_of(s),
{
    let r = split_of(s);
    law_split_of_ascii(s);
    assert(text::all_ascii(r)) by {
        assert forall|i: int| 0 <= i < r.len() implies text::ascii(#[trigger] r[i]) by {
            assert(plain_char(r[i]));
        }
    }
    lemma_spaced_of_plain(r, r.len());
    assert(r.take(r.len() as int) =~= r);
    law_split_of_ascii(r);
    let ws = plain_words(s);
    assert(text::each_ascii_lowered(ws) =~= ws) by {
        assert forall|k: int| 0 <= k < ws.len() implies text::each_ascii_lowered(ws)[k]
            == ws[k] by {
            assert(plain_word(ws[k]));
            assert forall|i: int| 0 <= i < ws[k].len() implies text::ascii_lower(
                #[trigger] ws[k][i],
            ) == ws[k][i] by {
                assert(text::ascii(ws[k][i]) && !text::uppercase(ws[k][i]));
            }
            assert(text::ascii_lowered(ws[k]) =~= ws[k]);
        }
    }
}

/// Longest token, in bytes, that an index analyzer keeps: longer ones are
/// dropped.
pub const MAX_TOKEN_BYTES: usize = 40;

/// One step of an analyzer chain.
#[derive(Clone, Copy, Debug, PartialEq, Eq, Structural)]
pub enum AnalyzerStep {
    /// Drop tokens of at least the given number of bytes.
    RemoveLong,
    /// Lowercase the token.
    LowerCase,
    /// Replace accented letters by their ASCII siblings.
    AsciiFold,
    /// Reduce the token to its English stem.
    Stem,
}

/// The chain of the analyzer `name`: `"spotlight"` for titles, paths and
/// people, `"spotlight_stem"` with a stemmer behind it for running text.
pub open spec fn analyzer_chain_of(name: Seq<char>) -> Option<Seq<AnalyzerStep>> {
    if name == "spotlight"@ {
        Some(seq![AnalyzerStep::RemoveLong, AnalyzerStep::LowerCase, AnalyzerStep::AsciiFold])
    } else if name == "spotlight_stem"@ {
        Some(
            seq![
                AnalyzerStep::RemoveLong,
                AnalyzerStep::LowerCase,
                AnalyzerStep::AsciiFold,
                AnalyzerStep::Stem,
            ],
        )
    } else {
        None
    }
}

/// The filters of an analyzer, in order. The order is load-bearing: the
/// stemmer expects lowercased, folded input.
pub fn analyzer_chain(name: &str) -> (r: Option<Vec<AnalyzerStep>>)
    ensures
        match r {
            Some(v) => analyzer_chain_of(name@) == Some(v@),
            None => analyzer_chain_of(name@) is None,
        },
{
    if text::text_eq(name, "spotlight") {
        let v = vec![AnalyzerStep::RemoveLong, AnalyzerStep::LowerCase, AnalyzerStep::AsciiFold];
        proof {
            assert(v@ =~= seq![
                AnalyzerStep::RemoveLong,
                AnalyzerStep::LowerCase,
                AnalyzerStep::AsciiFold,
            ]);
        }
        Some(v)
    } else if text::text_eq(name, "spotlight_stem") {
        let v = vec![
            AnalyzerStep::RemoveLong,
            AnalyzerStep::LowerCase,
            AnalyzerStep::AsciiFold,
            AnalyzerStep::Stem,
        ];
        proof {
            assert(v@ =~= seq![
                AnalyzerStep::RemoveLong,
                AnalyzerStep::LowerCase,
                AnalyzerStep::AsciiFold,
                AnalyzerStep::Stem,
            ]);
        }
        Some(v)
    } else {
        None
    }
}

/// The spaced form of a text that falls into two parts at `gap`, where the
/// parts break as they do alone.
proof fn lemma_spaced_parts(a: Seq<char>, gap: Seq<char>, b: Seq<char>, n: nat)
    requires
        n <= b.len(),
        b.len() > 0,
        gap.len() == 0 ==> !separates(b[0]) && word_break(a + b, a.len() as int),
        gap.len() <= 1,
        gap.len() == 1 ==> separates(gap[0]) && !word_break(a + gap + b, a.len() as int + 1),
        forall|i: int|
            0 <= i < a.len() ==> word_break(a + gap + b, i) == #[trigger] word_break(a, i),
        forall|i: int|
            0 < i < b.len() ==> word_break(a + gap + b, a.len() + gap.len() + i)
                == #[trigger] word_break(b, i),
    ensures
        spaced(a + gap + b, a.len() + gap.len()) == spaced(a, a.len()) + (if gap.len() == 1 {
            seq![' ']
        } else {
            Seq::empty()
        }),
        n > 0 ==> spaced(a + gap + b, a.len() + gap.len() + n) == spaced(a, a.len()).push(' ')
            + spaced(b, n),
    decreases n,
{
    let s = a + gap + b;
    lemma_spaced_before(a, s, a.len());
    if gap.len() == 1 {
        assert(s[a.len() as int] == gap[0]);
        assert((a.len() + gap.len() - 1) as nat == a.len());
    } else {
        assert(gap =~= Seq::<char>::empty());
        assert(s =~= a + b);
        assert(a.len() + gap.len() == a.len());
        assert(spaced(a, a.len()) + Seq::<char>::empty() =~= spaced(a, a.len()));
    }
    if n > 0 {
        lemma_spaced_parts(a, gap, b, (n - 1) as nat);
        let k: int = a.len() + gap.len() + n - 1;
        assert(k as nat == a.len() + gap.len() + ((n - 1) as nat));
        assert(s[k] == b[n - 1]);
        if n == 1 {
            assert(!word_break(b, 0));
            assert(spaced(b, 0) =~= Seq::empty());
            if gap.len() == 1 {
                assert(!word_break(s, k));
            } else {
                assert(word_break(s, k));
            }
        } else {
            assert(word_break(b, n - 1) == word_break(s, k));
        }
        assert(spaced(s, a.len() + gap.len() + n) =~= spaced(a, a.len()).push(' ') + spaced(b, n));
    }
}

/// The spaced form of the start of a text.
proof fn lemma_spaced_before(a: Seq<char>, s: Seq<char>, n: nat)
    requires
        n <= a.len() <= s.len(),
        forall|i: int| 0 <= i < a.len() ==> #[trigger] s[i] == a[i],
        forall|i: int| 0 <= i < a.len() ==> word_break(s, i) == #[trigger] word_break(a, i),
    ensures
        spaced(s, n) == spaced(a, n),
    decreases n,
{
    if n > 0 {
        lemma_spaced_before(a, s, (n - 1) as nat);
        assert(s[n - 1] == a[n - 1]);
        assert(word_break(s, n - 1) == word_break(a, n - 1));
    }
}

/// A text with a character that is not a separator has a word.
proof fn lemma_spaced_has_a_word(s: Seq<char>, n: nat, i: int)
    requires
        0 <= i < n <= s.len(),
        !separates(s[i]),
    ensures
        text::words(spaced(s, n)).len() > 0,
    decreases n,
{
    let before = spaced(s, (n - 1) as nat);
    let c = s[n - 1];
    let now = spaced(s, n);
    if i < n - 1 {
        lemma_spaced_has_a_word(s, (n - 1) as nat, i);
    }
    if separates(c) {
        assert(now.drop_last() =~= before);
    } else if word_break(s, n - 1) {
        assert(now.drop_last() =~= before.push(' '));
        assert(before.push(' ').drop_last() =~= before);
    } else {
        assert(now.drop_last() =~= before);
    }
}

/// The words of two parts that a space is put between.
proof fn lemma_split_parts(s: Seq<char>, a: Seq<char>, b: Seq<char>)
    requires
        spaced(s, s.len()) == spaced(a, a.len()).push(' ') + spaced(b, b.len()),
        text::words(spaced(a, a.len())).len() > 0,
        text::words(spaced(b, b.len())).len() > 0,
    ensures
        split_of(s) == split_of(a).push(' ') + split_of(b),
{
    let wa = text::words(spaced(a, a.len()));
    let wb = text::words(spaced(b, b.len()));
    text::law_whitespace_parts_words(spaced(a, a.len()), ' ', spaced(b, b.len()));
    assert(all_lowercased(wa + wb) =~= all_lowercased(wa) + all_lowercased(wb));
    text::law_joining_in_two_steps(all_lowercased(wa), all_lowercased(wb), seq![' ']);
    assert(split_of(s) =~= split_of(a).push(' ') + split_of(b));
}

/// Law: an identifier falls into words at its capitals: behind a small
/// letter or a digit, and at the last of several capitals that a small
/// letter follows.
pub proof fn law_identifiers_fall_into_words(a: Seq<char>, b: Seq<char>)
    requires
        a.len() > 0,
        b.len() > 0,
        !separates(a.last()),
        !separates(b[0]),
        text::uppercase(b[0]),
        !text::lowercase(b[0]),
        ({
            ||| text::lowercase(a.last())
            ||| '0' <= a.last() <= '9'
            ||| text::uppercase(a.last()) && b.len() > 1 && text::lowercase(b[1])
        }),
    ensures
        split_of(a + b) == split_of(a).push(' ') + split_of(b),
{
    let gap = Seq::<char>::empty();
    let s = a + b;
    assert(a + gap + b =~= s);
    assert forall|i: int| 0 <= i < a.len() implies word_break(s, i) == #[trigger] word_break(
        a,
        i,
    ) by {
        assert(s[i] == a[i]);
        if i > 0 {
            assert(s[i - 1] == a[i - 1]);
        }
        if i + 1 < a.len() {
            assert(s[i + 1] == a[i + 1]);
        } else {
            assert(s[i + 1] == b[0]);
        }
    }
    assert(s[a.len() as int] == b[0] && s[a.len() - 1] == a.last());
    if b.len() > 1 {
        assert(s[a.len() as int + 1] == b[1]);
    }
    assert(word_break(s, a.len() as int));
    assert forall|i: int| 0 < i < b.len() implies word_break(s, a.len() + 0 + i)
        == #[trigger] word_break(b, i) by {
        let k: int = a.len() + i;
        assert(s[k] == b[i] && s[k - 1] == b[i - 1]);
        if i + 1 < b.len() {
            assert(s[k + 1] == b[i + 1]);
        }
    }
    lemma_spaced_parts(a, gap, b, b.len());
    lemma_spaced_has_a_word(a, a.len(), a.len() - 1);
    lemma_spaced_has_a_word(b, b.len(), 0);
    lemma_split_parts(s, a, b);
}

/// Law: an underscore, a hyphen or a space parts the words of an identifier.
pub proof fn law_separators_part_words(a: Seq<char>, c: char, b: Seq<char>)
    requires
        a.len() > 0,
        b.len() > 0,
        c == '_' || c == '-' || c == ' ',
        !separates(a.last()),
        !separates(b[0]),
    ensures
        split_of(a + seq![c] + b) == split_of(a).push(' ') + split_of(b),
{
    let gap = seq![c];
    let s = a + gap + b;
    assert forall|i: int| 0 <= i < a.len() implies word_break(s, i) == #[trigger] word_break(
        a,
        i,
    ) by {
        assert(s[i] == a[i]);
        if i > 0 {
            assert(s[i - 1] == a[i - 1]);
        }
        if i + 1 < a.len() {
            assert(s[i + 1] == a[i + 1]);
        } else {
            assert(s[i + 1] == c);
        }
    }
    assert(s[a.len() as int] == c);
    assert(!word_break(s, a.len() as int + 1));
    assert forall|i: int| 0 < i < b.len() implies word_break(s, a.len() + 1 + i)
        == #[trigger] word_break(b, i) by {
        let k: int = a.len() + 1 + i;
        assert(s[k] == b[i] && s[k - 1] == b[i - 1]);
        if i + 1 < b.len() {
            assert(s[k + 1] == b[i + 1]);
        }
    }
    lemma_spaced_parts(a, gap, b, b.len());
    lemma_spaced_has_a_word(a, a.len(), a.len() - 1);
    lemma_spaced_has_a_word(b, b.len(), 0);
    lemma_split_parts(s, a, b);
}

/// The spaced form of a text without a break is the text.
proof fn lemma_spaced_whole(s: Seq<char>, n: nat)
    requires
        n <= s.len(),
        forall|i: int| 0 <= i < s.len() ==> !separates(#[trigger] s[i]),
        forall|i: int| 0 <= i < s.len() ==> !#[trigger] word_break(s, i),
    ensures
        spaced(s, n) == s.take(n as int),
    decreases n,
{
    if n > 0 {
        lemma_spaced_whole(s, (n - 1) as nat);
        assert(!separates(s[n - 1]) && !word_break(s, n - 1));
        assert(spaced(s, n) =~= s.take(n as int));
    } else {
        assert(spaced(s, n) =~= s.take(0));
    }
}

/// Law: what has no capital, or capitals alone, is one word, lowercased.
pub proof fn law_a_word_stays_whole(s: Seq<char>)
    requires
        s.len() > 0,
        forall|i: int| 0 <= i < s.len() ==> !separates(#[trigger] s[i]),
        ({
            ||| forall|i: int| 0 <= i < s.len() ==> !text::uppercase(#[trigger] s[i])
            ||| forall|i: int|
                0 <= i < s.len() ==> !text::lowercase(#[trigger] s[i]) && !('0' <= s[i] <= '9')
        }),
    ensures
        split_of(s) == text::lowercased(s),
{
    assert forall|i: int| 0 <= i < s.len() implies !#[trigger] word_break(s, i) by {
        if 0 < i {
            assert(!separates(s[i]) && !separates(s[i - 1]));
            if i + 1 < s.len() {
                assert(!separates(s[i + 1]));
            }
        }
    }
    lemma_spaced_whole(s, s.len());
    assert(s.take(s.len() as int) =~= s);
    assert forall|i: int| 0 <= i < s.len() implies !text::whitespace(#[trigger] s[i]) by {
        assert(!separates(s[i]));
    }
    assert(Seq::<char>::empty().push(' ') + s =~= seq![' '] + s);
    text::law_word_after_whitespace(Seq::empty(), ' ', s);
    text::law_whitespace_parts_words(Seq::empty(), ' ', s);
    assert(text::words(Seq::<char>::empty()) =~= Seq::empty());
    assert(text::words(s) =~= seq![s]);
    assert(all_lowercased(seq![s]) =~= seq![text::lowercased(s)]);
}

/// Law: both analyzers drop long tokens, lowercase the others and fold
/// their accents, in this order; the one for running text then stems them.
/// There is no other analyzer.
pub proof fn law_analyzers_take_their_steps(name: Seq<char>)
    ensures
        analyzer_chain_of(name) is Some <==> name == "spotlight"@ || name == "spotlight_stem"@,
        analyzer_chain_of(name) matches Some(steps) ==> {
            &&& steps.len() >= 3
            &&& steps[0] is RemoveLong
            &&& steps[1] is LowerCase
            &&& steps[2] is AsciiFold
            &&& steps.len() == 3 <==> name == "spotlight"@
            &&& name == "spotlight_stem"@ ==> steps.len() == 4 && steps[3] is Stem
        },
{
    reveal_strlit("spotlight");
    reveal_strlit("spotlight_stem");
    assert("spotlight"@.len() != "spotlight_stem"@.len());
}

} // verus!
