//! Which mail messages can be parsed.

use vstd::prelude::*;

verus! {

/// Whether a byte is whitespace of ASCII.
pub open spec fn blank(c: u8) -> bool {
    c == 32 || c == 9 || c == 10 || c == 12 || c == 13
}

/// Whether only whitespace stands between the start of its line and `j`.
pub open spec fn blank_line(s: Seq<u8>, j: int) -> bool
    decreases j,
{
    j <= 0 || s[j - 1] == 10 || (blank(s[j - 1]) && blank_line(s, j - 1))
}

/// Whether the body of a part can begin at `k`: behind a blank line.
pub open spec fn body_start(s: Seq<u8>, k: int) -> bool {
    k > 0 && s[k - 1] == 10 && blank_line(s, k - 1)
}

/// Whether a body can begin ahead of `k` with no more than two bytes up to
/// `k`, whitespace and equals signs aside; `n` have been met behind `k`.
pub open spec fn slight_body(s: Seq<u8>, k: int, n: int) -> bool
    decreases k,
{
    &&& n <= 2
    &&& (body_start(s, k) || (k > 0 && slight_body(
        s,
        k - 1,
        if blank(s[k - 1]) || s[k - 1] == 61 {
            n
        } else {
            n + 1
        },
    )))
}

/// Whether an equals sign that ends its line stands ahead of `j`, at the
/// end of a body with next to nothing in it.
pub open spec fn soft_break(s: Seq<u8>, j: int) -> bool
    decreases j,
{
    &&& j > 0
    &&& {
        ||| s[j - 1] == 61 && slight_body(s, j - 1, 0)
        ||| s[j - 1] != 10 && blank(s[j - 1]) && soft_break(s, j - 1)
    }
}

/// Whether a body with next to nothing in it ends at `i` in an equals sign
/// and the end of the line, and two hyphens follow.
pub open spec fn bare_break(s: Seq<u8>, i: int) -> bool {
    &&& 0 <= i
    &&& i + 2 < s.len()
    &&& s[i] == 10
    &&& s[i + 1] == 45
    &&& s[i + 2] == 45
    &&& soft_break(s, i)
}

/// A byte with a capital made small.
pub open spec fn small(c: u8) -> u8 {
    if 65 <= c <= 90 {
        (c + 32) as u8
    } else {
        c
    }
}

/// Where the bytes `word` end that stand at `p`, whatever whitespace and
/// capitals there are among them.
pub open spec fn after_word(s: Seq<u8>, p: int, word: Seq<u8>) -> Option<int>
    decreases s.len() - p,
{
    if word.len() == 0 {
        Some(p)
    } else if p < 0 || p >= s.len() {
        None
    } else if blank(s[p]) {
        after_word(s, p + 1, word)
    } else if small(s[p]) == word[0] {
        after_word(s, p + 1, word.drop_first())
    } else {
        None
    }
}

/// `content-transfer-encoding:`
pub open spec fn encoding_field() -> Seq<u8> {
    seq![
        99u8, 111u8, 110u8, 116u8, 101u8, 110u8, 116u8, 45u8, 116u8, 114u8, 97u8, 110u8, 115u8,
        102u8, 101u8, 114u8, 45u8, 101u8, 110u8, 99u8, 111u8, 100u8, 105u8, 110u8, 103u8, 58u8,
    ]
}

/// Whether one of the encodings that leave bytes as they are stands at `p`:
/// `7bit`, `8bit` or `binary`.
pub open spec fn plain_encoding(s: Seq<u8>, p: int) -> bool {
    ||| after_word(s, p, seq![55u8, 98u8, 105u8, 116u8]) is Some
    ||| after_word(s, p, seq![56u8, 98u8, 105u8, 116u8]) is Some
    ||| after_word(s, p, seq![98u8, 105u8, 110u8, 97u8, 114u8, 121u8]) is Some
}

/// Whether a field at `p` names an encoding that changes bytes.
pub open spec fn encoded_at(s: Seq<u8>, p: int) -> bool {
    &&& !blank(s[p])
    &&& match after_word(s, p, encoding_field()) {
        Some(e) => !plain_encoding(s, e),
        None => false,
    }
}

/// Whether the type of a message can stand at `p`: `rfc822` or `global`
/// behind a slash or a comment.
pub open spec fn message_at(s: Seq<u8>, p: int) -> bool {
    &&& !blank(s[p])
    &&& {
        ||| after_word(s, p, seq![47u8, 114u8, 102u8, 99u8, 56u8, 50u8, 50u8]) is Some
        ||| after_word(s, p, seq![41u8, 114u8, 102u8, 99u8, 56u8, 50u8, 50u8]) is Some
        ||| after_word(s, p, seq![47u8, 103u8, 108u8, 111u8, 98u8, 97u8, 108u8]) is Some
        ||| after_word(s, p, seq![41u8, 103u8, 108u8, 111u8, 98u8, 97u8, 108u8]) is Some
    }
}

/// Whether the type of a digest, whose parts are messages, can stand at `p`.
pub open spec fn digest_at(s: Seq<u8>, p: int) -> bool {
    &&& !blank(s[p])
    &&& {
        ||| after_word(s, p, seq![47u8, 100u8, 105u8, 103u8, 101u8, 115u8, 116u8]) is Some
        ||| after_word(s, p, seq![41u8, 100u8, 105u8, 103u8, 101u8, 115u8, 116u8]) is Some
    }
}

/// Whether the line that ends at `i` is followed by an empty one.
pub open spec fn empty_line(s: Seq<u8>, i: int) -> bool {
    &&& s[i] == 10
    &&& {
        ||| i + 1 < s.len() && s[i + 1] == 10
        ||| i + 2 < s.len() && s[i + 1] == 13 && s[i + 2] == 10
    }
}

/// Whether no empty line stands from `a` up to `b`.
pub open spec fn one_block(s: Seq<u8>, a: int, b: int) -> bool {
    forall|i: int| a <= i < b ==> !#[trigger] empty_line(s, i)
}

/// Whether `p` and `q` are in one block of fields.
pub open spec fn together(s: Seq<u8>, p: int, q: int) -> bool {
    one_block(s, p, q) && one_block(s, q, p)
}

/// Whether a message can be attached in an encoding that changes bytes.
pub open spec fn encoded_message(s: Seq<u8>) -> bool {
    exists|p: int, q: int|
        0 <= p < s.len() && 0 <= q < s.len() && #[trigger] encoded_at(s, p)
            && #[trigger] message_at(s, q) && together(s, p, q)
}

/// Whether a message in a digest can be in an encoding that changes bytes.
pub open spec fn encoded_digest(s: Seq<u8>) -> bool {
    exists|p: int, q: int|
        0 <= p < s.len() && 0 <= q < s.len() && #[trigger] encoded_at(s, p)
            && #[trigger] digest_at(s, q)
}

/// Whether a message can be parsed: no body has next to nothing but an
/// equals sign at the end of its last line, and no message whose bytes are
/// still to be decoded is attached.
pub open spec fn parseable(s: Seq<u8>) -> bool {
    &&& forall|i: int| !#[trigger] bare_break(s, i)
    &&& !encoded_message(s)
    &&& !encoded_digest(s)
}

fn is_blank(c: u8) -> (r: bool)
    ensures
        r == blank(c),
{
    c == 32 || c == 9 || c == 10 || c == 12 || c == 13
}

fn is_blank_line(s: &[u8], j: usize) -> (r: bool)
    requires
        j <= s@.len(),
    ensures
        r == blank_line(s@, j as int),
{
    let mut k: usize = j;
    while k > 0
        invariant
            k <= j <= s@.len(),
            blank_line(s@, j as int) == blank_line(s@, k as int),
        decreases k,
    {
        if s[k - 1] == 10 {
            return true;
        }
        if !is_blank(s[k - 1]) {
            return false;
        }
        k = k - 1;
    }
    true
}

fn is_slight_body(s: &[u8], j: usize) -> (r: bool)
    requires
        j <= s@.len(),
    ensures
        r == slight_body(s@, j as int, 0),
{
    let mut k: usize = j;
    let mut n: usize = 0;
    while n <= 2
        invariant
            k <= j <= s@.len(),
            n <= 3,
            slight_body(s@, j as int, 0) == slight_body(s@, k as int, n as int),
        decreases k + 4 - n,
    {
        if k > 0 && s[k - 1] == 10 && is_blank_line(s, k - 1) {
            return true;
        }
        if k == 0 {
            return false;
        }
        if !(is_blank(s[k - 1]) || s[k - 1] == 61) {
            n = n + 1;
        }
        k = k - 1;
    }
    false
}

fn is_soft_break(s: &[u8], j: usize) -> (r: bool)
    requires
        j <= s@.len(),
    ensures
        r == soft_break(s@, j as int),
{
    let mut k: usize = j;
    while k > 0
        invariant
            k <= j <= s@.len(),
            soft_break(s@, j as int) == soft_break(s@, k as int),
        decreases k,
    {
        if s[k - 1] == 61 {
            return is_slight_body(s, k - 1);
        }
        if s[k - 1] == 10 || !is_blank(s[k - 1]) {
            return false;
        }
        k = k - 1;
    }
    false
}

fn find_after(s: &[u8], p: usize, word: &[u8]) -> (r: Option<usize>)
    requires
        p <= s@.len(),
    ensures
        match r {
            Some(e) => after_word(s@, p as int, word@) == Some(e as int) && e <= s@.len(),
            None => after_word(s@, p as int, word@) is None,
        },
{
    let mut i: usize = p;
    let mut k: usize = 0;
    proof {
        assert(word@.skip(0) =~= word@);
    }
    while k < word.len()
        invariant
            i <= s@.len(),
            k <= word@.len(),
            after_word(s@, p as int, word@) == after_word(s@, i as int, word@.skip(k as int)),
        decreases s@.len() - i,
    {
        if i >= s.len() {
            return None;
        }
        let c: u8 = s[i];
        proof {
            assert(word@.skip(k as int)[0] == word@[k as int]);
            assert(word@.skip(k as int).drop_first() =~= word@.skip(k + 1));
        }
        if !is_blank(c) {
            let low: u8 = if 65 <= c && c <= 90 {
                c + 32
            } else {
                c
            };
            if low != word[k] {
                return None;
            }
            k = k + 1;
        }
        i = i + 1;
    }
    proof {
        assert(word@.skip(k as int).len() == 0);
    }
    Some(i)
}

fn has_word(s: &[u8], p: usize, word: Vec<u8>) -> (r: bool)
    requires
        p <= s@.len(),
    ensures
        r == (after_word(s@, p as int, word@) is Some),
{
    match find_after(s, p, &word) {
        Some(_) => true,
        None => false,
    }
}

fn is_encoded_at(s: &[u8], p: usize) -> (r: bool)
    requires
        p < s@.len(),
    ensures
        r == encoded_at(s@, p as int),
{
    if s[p] != 67 && s[p] != 99 {
        return false;
    }
    let field: Vec<u8> = vec![
        99u8, 111u8, 110u8, 116u8, 101u8, 110u8, 116u8, 45u8, 116u8, 114u8, 97u8, 110u8, 115u8,
        102u8, 101u8, 114u8, 45u8, 101u8, 110u8, 99u8, 111u8, 100u8, 105u8, 110u8, 103u8, 58u8,
    ];
    proof {
        assert(field@ =~= encoding_field());
    }
    match find_after(s, p, &field) {
        None => false,
        Some(e) => {
            let seven: Vec<u8> = vec![55u8, 98u8, 105u8, 116u8];
            let eight: Vec<u8> = vec![56u8, 98u8, 105u8, 116u8];
            let binary: Vec<u8> = vec![98u8, 105u8, 110u8, 97u8, 114u8, 121u8];
            proof {
                assert(seven@ =~= seq![55u8, 98u8, 105u8, 116u8]);
                assert(eight@ =~= seq![56u8, 98u8, 105u8, 116u8]);
                assert(binary@ =~= seq![98u8, 105u8, 110u8, 97u8, 114u8, 121u8]);
            }
            !(has_word(s, e, seven) || has_word(s, e, eight) || has_word(s, e, binary))
        },
    }
}

fn is_message_at(s: &[u8], p: usize) -> (r: bool)
    requires
        p < s@.len(),
    ensures
        r == message_at(s@, p as int),
{
    if s[p] != 47 && s[p] != 41 {
        return false;
    }
    let a: Vec<u8> = vec![47u8, 114u8, 102u8, 99u8, 56u8, 50u8, 50u8];
    let b: Vec<u8> = vec![41u8, 114u8, 102u8, 99u8, 56u8, 50u8, 50u8];
    let c: Vec<u8> = vec![47u8, 103u8, 108u8, 111u8, 98u8, 97u8, 108u8];
    let d: Vec<u8> = vec![41u8, 103u8, 108u8, 111u8, 98u8, 97u8, 108u8];
    proof {
        assert(a@ =~= seq![47u8, 114u8, 102u8, 99u8, 56u8, 50u8, 50u8]);
        assert(b@ =~= seq![41u8, 114u8, 102u8, 99u8, 56u8, 50u8, 50u8]);
        assert(c@ =~= seq![47u8, 103u8, 108u8, 111u8, 98u8, 97u8, 108u8]);
        assert(d@ =~= seq![41u8, 103u8, 108u8, 111u8, 98u8, 97u8, 108u8]);
    }
    has_word(s, p, a) || has_word(s, p, b) || has_word(s, p, c) || has_word(s, p, d)
}

fn is_digest_at(s: &[u8], p: usize) -> (r: bool)
    requires
        p < s@.len(),
    ensures
        r == digest_at(s@, p as int),
{
    if s[p] != 47 && s[p] != 41 {
        return false;
    }
    let a: Vec<u8> = vec![47u8, 100u8, 105u8, 103u8, 101u8, 115u8, 116u8];
    let b: Vec<u8> = vec![41u8, 100u8, 105u8, 103u8, 101u8, 115u8, 116u8];
    proof {
        assert(a@ =~= seq![47u8, 100u8, 105u8, 103u8, 101u8, 115u8, 116u8]);
        assert(b@ =~= seq![41u8, 100u8, 105u8, 103u8, 101u8, 115u8, 116u8]);
    }
    has_word(s, p, a) || has_word(s, p, b)
}

fn has_bare_break(s: &[u8]) -> (r: bool)
    ensures
        r == (exists|i: int| #[trigger] bare_break(s@, i)),
{
    let n: usize = s.len();
    let mut i: usize = 0;
    while i < n
        invariant
            n == s@.len(),
            i <= n,
            forall|j: int| 0 <= j < i ==> !#[trigger] bare_break(s@, j),
        decreases n - i,
    {
        if n - i > 2 && s[i] == 10 && s[i + 1] == 45 && s[i + 2] == 45 && is_soft_break(s, i) {
            proof {
                assert(bare_break(s@, i as int));
            }
            return true;
        }
        i = i + 1;
    }
    false
}

/// Whether a message can be parsed.
pub fn can_parse(s: &[u8]) -> (r: bool)
    ensures
        r == parseable(s@),
{
    if has_bare_break(s) {
        return false;
    }
    let n: usize = s.len();
    // The block of fields that begins at `start`, and whether it holds an
    // encoding or the type of a message; whether any block holds one.
    let ghost mut start: int = 0;
    let mut encoded = false;
    let mut message = false;
    let mut any_encoded = false;
    let mut any_digest = false;
    let ghost mut e: int = 0;
    let ghost mut m: int = 0;
    let ghost mut ae: int = 0;
    let ghost mut ad: int = 0;
    let mut i: usize = 0;
    while i < n
        invariant
            n == s@.len(),
            i <= n,
            0 <= start <= i,
            start == 0 || empty_line(s@, start - 1),
            one_block(s@, start, i as int),
            encoded ==> start <= e < i && encoded_at(s@, e),
            !encoded ==> forall|p: int| start <= p < i ==> !#[trigger] encoded_at(s@, p),
            message ==> start <= m < i && message_at(s@, m),
            !message ==> forall|p: int| start <= p < i ==> !#[trigger] message_at(s@, p),
            !(encoded && message),
            any_encoded ==> 0 <= ae < i && encoded_at(s@, ae),
            !any_encoded ==> forall|p: int| 0 <= p < i ==> !#[trigger] encoded_at(s@, p),
            any_digest ==> 0 <= ad < i && digest_at(s@, ad),
            !any_digest ==> forall|p: int| 0 <= p < i ==> !#[trigger] digest_at(s@, p),
            forall|p: int, q: int|
                0 <= p < i && 0 <= q < i && #[trigger] encoded_at(s@, p)
                    && #[trigger] message_at(s@, q) ==> !together(s@, p, q),
        decreases n - i,
    {
        if is_encoded_at(s, i) {
            encoded = true;
            any_encoded = true;
            proof {
                e = i as int;
                ae = i as int;
            }
        }
        if is_message_at(s, i) {
            message = true;
            proof {
                m = i as int;
            }
        }
        if is_digest_at(s, i) {
            any_digest = true;
            proof {
                ad = i as int;
            }
        }
        if encoded && message {
            proof {
                assert(together(s@, e, m));
                assert(encoded_message(s@));
            }
            return false;
        }
        proof {
            assert forall|p: int, q: int|
                0 <= p < i + 1 && 0 <= q < i + 1 && #[trigger] encoded_at(s@, p)
                    && #[trigger] message_at(s@, q) implies !together(s@, p, q) by {
                if p >= start && q >= start {
                    assert(encoded && message);
                } else if p < start && q >= start {
                    assert(empty_line(s@, start - 1));
                } else if q < start && p >= start {
                    assert(empty_line(s@, start - 1));
                }
            }
        }
        if s[i] == 10 && ((n - i > 1 && s[i + 1] == 10) || (n - i > 2 && s[i + 1] == 13 && s[i + 2]
            == 10)) {
            proof {
                assert(empty_line(s@, i as int));
                start = i + 1;
            }
            encoded = false;
            message = false;
        }
        i = i + 1;
    }
    if any_encoded && any_digest {
        proof {
            assert(encoded_at(s@, ae) && digest_at(s@, ad));
        }
        return false;
    }
    true
}

/// Law: a message without equals signs, slashes and closing brackets can
/// always be parsed: nothing in it can be encoded.
pub proof fn law_plain_messages_can_be_parsed(s: Seq<u8>)
    requires
        forall|i: int| 0 <= i < s.len() ==> #[trigger] s[i] != 61 && s[i] != 47 && s[i] != 41,
    ensures
        parseable(s),
{
    assert forall|i: int| !#[trigger] bare_break(s, i) by {
        if bare_break(s, i) {
            lemma_no_soft_break(s, i);
        }
    }
    assert forall|q: int| 0 <= q < s.len() implies !#[trigger] message_at(s, q) by {
        assert(s[q] != 47 && s[q] != 41);
    }
    assert forall|q: int| 0 <= q < s.len() implies !#[trigger] digest_at(s, q) by {
        assert(s[q] != 47 && s[q] != 41);
    }
}

proof fn lemma_no_soft_break(s: Seq<u8>, j: int)
    requires
        j <= s.len(),
        forall|i: int| 0 <= i < s.len() ==> #[trigger] s[i] != 61,
    ensures
        !soft_break(s, j),
    decreases j,
{
    if j > 0 {
        assert(s[j - 1] != 61);
        lemma_no_soft_break(s, j - 1);
    }
}

} // verus!
