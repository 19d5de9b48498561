//! Unix paths as texts: components, file names and extensions.
//!
//! Two paths are the same where their components are: repeated and trailing
//! slashes and inner `.` segments do not count, as in `std::path`.

use vstd::prelude::*;

use crate::text;

verus! {

/// The stretches of `s` between slashes, empty ones included.
pub open spec fn segments(s: Seq<char>) -> Seq<Seq<char>>
    decreases s.len(),
{
    if s.len() == 0 {
        seq![Seq::empty()]
    } else {
        let before = segments(s.drop_last());
        if s.last() == '/' {
            before.push(Seq::empty())
        } else {
            before.drop_last().push(before.last().push(s.last()))
        }
    }
}

/// Whether a segment names a directory entry: neither empty nor `.`.
pub open spec fn counts(segment: Seq<char>) -> bool {
    segment.len() > 0 && segment != seq!['.']
}

/// The segments that name a directory entry.
pub open spec fn named(segs: Seq<Seq<char>>) -> Seq<Seq<char>>
    decreases segs.len(),
{
    if segs.len() == 0 {
        Seq::empty()
    } else if counts(segs.last()) {
        named(segs.drop_last()).push(segs.last())
    } else {
        named(segs.drop_last())
    }
}

/// Whether the path is absolute.
pub open spec fn absolute(s: Seq<char>) -> bool {
    s.len() > 0 && s[0] == '/'
}

/// What comes ahead of the named segments: the root, or a leading `.`.
pub open spec fn anchor(s: Seq<char>) -> Seq<Seq<char>> {
    if absolute(s) {
        seq![seq!['/']]
    } else if segments(s)[0] == seq!['.'] {
        seq![seq!['.']]
    } else {
        Seq::empty()
    }
}

/// The components of a path.
pub open spec fn components(s: Seq<char>) -> Seq<Seq<char>> {
    anchor(s) + named(segments(s))
}

/// The last component, where it is an ordinary name.
pub open spec fn file_name_of(s: Seq<char>) -> Option<Seq<char>> {
    let names = named(segments(s));
    if names.len() == 0 || names.last() == seq!['.', '.'] {
        None
    } else {
        Some(names.last())
    }
}

/// The position of the last dot of `name`; -1 where it has none.
pub open spec fn last_dot(name: Seq<char>) -> int
    decreases name.len(),
{
    if name.len() == 0 {
        -1
    } else if name.last() == '.' {
        name.len() - 1
    } else {
        last_dot(name.drop_last())
    }
}

/// What follows the last dot of a file name, unless that dot leads it.
pub open spec fn extension_of_name(name: Seq<char>) -> Option<Seq<char>> {
    if last_dot(name) <= 0 {
        None
    } else {
        Some(name.skip(last_dot(name) + 1))
    }
}

/// The extension of a path's file name.
pub open spec fn extension_of(s: Seq<char>) -> Option<Seq<char>> {
    match file_name_of(s) {
        Some(name) => extension_of_name(name),
        None => None,
    }
}

/// The extension of a path's file name, in ASCII lowercase.
pub open spec fn lower_extension_of(s: Seq<char>) -> Option<Seq<char>> {
    match extension_of(s) {
        Some(e) => Some(text::ascii_lowered(e)),
        None => None,
    }
}

/// Whether `child` is `base` or lies below it.
pub open spec fn within(child: Seq<char>, base: Seq<char>) -> bool {
    components(base).is_prefix_of(components(child))
}

/// Whether `child` lies strictly below `base`.
pub open spec fn below(child: Seq<char>, base: Seq<char>) -> bool {
    components(child) != components(base) && within(child, base)
}

/// `base` with `tail` appended; an absolute `tail` replaces it.
pub open spec fn join_of(base: Seq<char>, tail: Seq<char>) -> Seq<char> {
    if absolute(tail) {
        tail
    } else if base.len() == 0 || base.last() == '/' {
        base + tail
    } else {
        base + seq!['/'] + tail
    }
}

/// Splits a path into its components.
pub fn split_components(s: &[char]) -> (r: Vec<Vec<char>>)
    ensures
        text::texts(r@) == components(s@),
{
    let mut segs: Vec<Vec<char>> = Vec::new();
    let mut current: Vec<char> = Vec::new();
    let mut i: usize = 0;
    proof {
        assert(text::texts(segs@).push(current@) =~= segments(s@.take(0)));
    }
    while i < s.len()
        invariant
            i <= s@.len(),
            segments(s@.take(i as int)) == text::texts(segs@).push(current@),
        decreases s@.len() - i,
    {
        let ghost done = text::texts(segs@);
        let ghost held = current@;
        proof {
            let now = s@.take(i + 1);
            assert(now.drop_last() =~= s@.take(i as int));
            assert(now.last() == s@[i as int]);
            assert(done.push(held).drop_last() =~= done);
        }
        if s[i] == '/' {
            segs.push(current);
            current = Vec::new();
            proof {
                assert(text::texts(segs@) =~= done.push(held));
                assert(current@ =~= Seq::<char>::empty());
            }
        } else {
            current.push(s[i]);
        }
        i = i + 1;
    }
    let ghost done = text::texts(segs@);
    let ghost held = current@;
    segs.push(current);
    proof {
        assert(s@.take(s@.len() as int) =~= s@);
        assert(text::texts(segs@) =~= done.push(held));
    }
    let ghost all = segments(s@);
    let mut out: Vec<Vec<char>> = Vec::new();
    if s.len() > 0 && s[0] == '/' {
        let mut root: Vec<char> = Vec::new();
        root.push('/');
        out.push(root);
        proof {
            assert(out@[0]@ =~= seq!['/']);
            assert(text::texts(out@) =~= seq![seq!['/']]);
        }
    } else {
        proof {
            assert(segs@[0]@ == all[0]);
        }
        if segs[0].len() == 1 && segs[0][0] == '.' {
            let mut dot: Vec<char> = Vec::new();
            dot.push('.');
            out.push(dot);
            proof {
                assert(segs@[0]@ =~= seq!['.']);
                assert(out@[0]@ =~= seq!['.']);
                assert(text::texts(out@) =~= seq![seq!['.']]);
            }
        } else {
            proof {
                assert(segs@[0]@ != seq!['.']);
                assert(text::texts(out@) =~= Seq::<Seq<char>>::empty());
            }
        }
    }
    let ghost head = anchor(s@);
    proof {
        assert(text::texts(out@) =~= head + named(all.take(0)));
    }
    let mut k: usize = 0;
    while k < segs.len()
        invariant
            k <= segs@.len(),
            all == text::texts(segs@),
            text::texts(out@) == head + named(all.take(k as int)),
        decreases segs@.len() - k,
    {
        let ghost before = text::texts(out@);
        let ghost seg = segs@[k as int]@;
        proof {
            assert(all.take(k + 1).drop_last() =~= all.take(k as int));
            assert(all.take(k + 1).last() == seg);
        }
        let keep = segs[k].len() > 0 && !(segs[k].len() == 1 && segs[k][0] == '.');
        proof {
            if segs@[k as int]@.len() == 1 && segs@[k as int]@[0] == '.' {
                assert(seg =~= seq!['.']);
            }
            assert(keep == counts(seg));
        }
        if keep {
            let piece = text::cut(&segs[k], 0, segs[k].len());
            proof {
                assert(piece@ =~= seg);
            }
            out.push(piece);
            proof {
                assert(text::texts(out@) =~= before.push(seg));
                assert(text::texts(out@) =~= head + named(all.take(k + 1)));
            }
        }
        k = k + 1;
    }
    proof {
        assert(all.take(all.len() as int) =~= all);
    }
    out
}

/// Whether two lists of texts are the same.
pub fn same_texts(a: &Vec<Vec<char>>, b: &Vec<Vec<char>>) -> (r: bool)
    ensures
        r == (text::texts(a@) == text::texts(b@)),
{
    if a.len() != b.len() {
        proof {
            assert(text::texts(a@).len() == a@.len());
            assert(text::texts(b@).len() == b@.len());
        }
        return false;
    }
    let mut i: usize = 0;
    while i < a.len()
        invariant
            i <= a@.len(),
            a@.len() == b@.len(),
            forall|k: int| 0 <= k < i ==> (#[trigger] a@[k])@ == b@[k]@,
        decreases a@.len() - i,
    {
        if !text::chars_eq(&a[i], &b[i]) {
            proof {
                assert(text::texts(a@)[i as int] == a@[i as int]@);
                assert(text::texts(b@)[i as int] == b@[i as int]@);
            }
            return false;
        }
        i = i + 1;
    }
    proof {
        assert(text::texts(a@) =~= text::texts(b@));
    }
    true
}

/// Whether the list `p` leads the list `a`.
pub fn leads(p: &Vec<Vec<char>>, a: &Vec<Vec<char>>) -> (r: bool)
    ensures
        r == text::texts(p@).is_prefix_of(text::texts(a@)),
{
    if p.len() > a.len() {
        return false;
    }
    let mut i: usize = 0;
    while i < p.len()
        invariant
            i <= p@.len() <= a@.len(),
            forall|k: int| 0 <= k < i ==> (#[trigger] p@[k])@ == a@[k]@,
        decreases p@.len() - i,
    {
        if !text::chars_eq(&p[i], &a[i]) {
            proof {
                let head = text::texts(a@).subrange(0, p@.len() as int);
                assert(head[i as int] == a@[i as int]@);
                assert(text::texts(p@)[i as int] == p@[i as int]@);
            }
            return false;
        }
        i = i + 1;
    }
    proof {
        assert(text::texts(p@) =~= text::texts(a@).subrange(0, p@.len() as int));
    }
    true
}

/// Whether `child` is `base` or lies below it.
pub fn path_within(child: &str, base: &str) -> (r: bool)
    ensures
        r == within(child@, base@),
{
    let c = split_components(&text::to_chars(child));
    let b = split_components(&text::to_chars(base));
    leads(&b, &c)
}

/// Whether `child` lies strictly below `base`.
pub fn path_below(child: &str, base: &str) -> (r: bool)
    ensures
        r == below(child@, base@),
{
    let c = split_components(&text::to_chars(child));
    let b = split_components(&text::to_chars(base));
    !same_texts(&c, &b) && leads(&b, &c)
}

/// The number of components.
pub fn component_count(path: &str) -> (r: usize)
    ensures
        r == components(path@).len(),
{
    let c = split_components(&text::to_chars(path));
    proof {
        assert(text::texts(c@).len() == c@.len());
    }
    c.len()
}

/// The file name of a path.
pub fn file_name(path: &str) -> (r: Option<String>)
    ensures
        match r {
            Some(n) => file_name_of(path@) == Some(n@),
            None => file_name_of(path@) is None,
        },
{
    let s = text::to_chars(path);
    let c = split_components(&s);
    let ghost names = named(segments(s@));
    let ghost head = anchor(s@);
    proof {
        assert(text::texts(c@).len() == c@.len());
        lemma_named_counts(segments(s@));
    }
    if c.len() == 0 {
        return None;
    }
    let last: &Vec<char> = &c[c.len() - 1];
    proof {
        assert(last@ == text::texts(c@)[c@.len() - 1]);
        if names.len() > 0 {
            assert(last@ == names.last());
            assert(counts(last@));
        } else {
            assert(last@ == head[head.len() - 1]);
        }
    }
    if last.len() == 1 && (last[0] == '.' || last[0] == '/') {
        proof {
            if last@[0] == '.' {
                assert(last@ =~= seq!['.']);
            } else if names.len() > 0 {
                lemma_named_no_slash(s@);
                assert(last@ =~= seq!['/']);
                assert(false);
            }
        }
        return None;
    }
    proof {
        if names.len() == 0 {
            assert(last@ =~= seq!['/'] || last@ =~= seq!['.']);
        }
    }
    if last.len() == 2 && last[0] == '.' && last[1] == '.' {
        proof {
            assert(last@ =~= seq!['.', '.']);
        }
        return None;
    }
    proof {
        assert(last@ != seq!['.', '.']);
    }
    Some(text::from_chars(last))
}

proof fn lemma_named_counts(segs: Seq<Seq<char>>)
    ensures
        named(segs).len() > 0 ==> counts(named(segs).last()),
    decreases segs.len(),
{
    if segs.len() > 0 {
        lemma_named_counts(segs.drop_last());
    }
}

proof fn lemma_segments_no_slash(s: Seq<char>)
    ensures
        segments(s).len() > 0,
        forall|i: int| 0 <= i < segments(s).len() ==> !(#[trigger] segments(s)[i]).contains('/'),
    decreases s.len(),
{
    if s.len() > 0 {
        lemma_segments_no_slash(s.drop_last());
        let before = segments(s.drop_last());
        assert(!before.last().contains('/'));
        if s.last() != '/' {
            let grown = before.last().push(s.last());
            assert forall|k: int| 0 <= k < grown.len() implies grown[k] != '/' by {
                if k < before.last().len() {
                    assert(before.last().contains(before.last()[k]));
                }
            }
        }
    }
}

proof fn lemma_named_elements(segs: Seq<Seq<char>>)
    ensures
        forall|i: int|
            0 <= i < named(segs).len() ==> exists|j: int|
                0 <= j < segs.len() && segs[j] == #[trigger] named(segs)[i],
    decreases segs.len(),
{
    if segs.len() > 0 {
        let front = segs.drop_last();
        lemma_named_elements(front);
        assert forall|i: int| 0 <= i < named(segs).len() implies exists|j: int|
            0 <= j < segs.len() && segs[j] == #[trigger] named(segs)[i] by {
            if i < named(front).len() {
                assert(named(segs)[i] == named(front)[i]);
                let j = choose|j: int| 0 <= j < front.len() && front[j] == named(front)[i];
                assert(segs[j] == named(segs)[i]);
            } else {
                assert(segs[segs.len() - 1] == named(segs)[i]);
            }
        }
    }
}

proof fn lemma_named_no_slash(s: Seq<char>)
    ensures
        named(segments(s)).len() > 0 ==> named(segments(s)).last() != seq!['/'],
{
    let names = named(segments(s));
    if names.len() > 0 {
        lemma_segments_no_slash(s);
        lemma_named_elements(segments(s));
        let last = names[names.len() - 1];
        let j = choose|j: int| 0 <= j < segments(s).len() && segments(s)[j] == last;
        if last == seq!['/'] {
            assert(last[0] == '/');
            assert(segments(s)[j].contains('/'));
        }
    }
}

/// The extension of a file name.
pub fn extension_of_file_name(name: &[char]) -> (r: Option<Vec<char>>)
    ensures
        match r {
            Some(e) => extension_of_name(name@) == Some(e@),
            None => extension_of_name(name@) is None,
        },
{
    let mut n: usize = name.len();
    proof {
        assert(name@.take(name@.len() as int) =~= name@);
    }
    while n > 0 && name[n - 1] != '.'
        invariant
            n <= name@.len(),
            last_dot(name@) == last_dot(name@.take(n as int)),
        decreases n,
    {
        proof {
            assert(name@.take(n as int).drop_last() =~= name@.take(n - 1));
        }
        n = n - 1;
    }
    proof {
        if n > 0 {
            assert(name@.take(n as int).last() == '.');
        }
        assert(last_dot(name@) == n - 1);
    }
    if n <= 1 {
        return None;
    }
    proof {
        assert(name@.subrange(n as int, name@.len() as int) =~= name@.skip(n as int));
    }
    Some(text::cut(name, n, name.len()))
}

/// The extension of a path's file name.
pub fn extension(path: &str) -> (r: Option<Vec<char>>)
    ensures
        match r {
            Some(e) => extension_of(path@) == Some(e@),
            None => extension_of(path@) is None,
        },
{
    match file_name(path) {
        Some(name) => extension_of_file_name(&text::to_chars(name.as_str())),
        None => None,
    }
}

/// The extension of a path's file name in ASCII lowercase.
pub fn lower_extension(path: &str) -> (r: Option<String>)
    ensures
        match r {
            Some(e) => lower_extension_of(path@) == Some(e@),
            None => lower_extension_of(path@) is None,
        },
{
    match extension(path) {
        Some(e) => Some(text::from_chars(&text::to_ascii_lower(&e))),
        None => None,
    }
}

/// Appends `tail` to `base`.
pub fn join(base: &str, tail: &str) -> (r: String)
    ensures
        r@ == join_of(base@, tail@),
{
    let b = text::to_chars(base);
    let t = text::to_chars(tail);
    let mut out: Vec<char> = Vec::new();
    if !(t.len() > 0 && t[0] == '/') {
        text::append_chars(&mut out, &b);
        if b.len() > 0 && b[b.len() - 1] != '/' {
            out.push('/');
        }
    }
    text::append_chars(&mut out, &t);
    proof {
        assert(out@ =~= join_of(base@, tail@));
    }
    text::from_chars(&out)
}

/// Law: what lies within a path lies strictly below it or is that path.
pub proof fn law_within_or_same(child: Seq<char>, base: Seq<char>)
    ensures
        within(child, base) <==> below(child, base) || components(child) == components(base),
{
    if components(child) == components(base) {
        assert(components(base) =~= components(child).subrange(0, components(base).len() as int));
    }
}

/// Law: nothing lies strictly below itself, and the relation is transitive.
pub proof fn law_below_is_strict(a: Seq<char>, b: Seq<char>, c: Seq<char>)
    ensures
        !below(a, a),
        below(c, b) && below(b, a) ==> below(c, a),
{
    if below(c, b) && below(b, a) {
        let (x, y, z) = (components(a), components(b), components(c));
        assert(x =~= z.subrange(0, x.len() as int)) by {
            assert forall|i: int| 0 <= i < x.len() implies x[i] == z[i] by {
                assert(x[i] == y.subrange(0, x.len() as int)[i]);
                assert(y[i] == z.subrange(0, y.len() as int)[i]);
            }
        }
        if z == x {
            assert(y =~= z.subrange(0, y.len() as int));
            assert(y.len() == x.len());
            assert(y =~= x);
        }
    }
}

/// Whether a name holds no slash.
pub open spec fn slashless(name: Seq<char>) -> bool {
    forall|i: int| 0 <= i < name.len() ==> #[trigger] name[i] != '/'
}

proof fn lemma_segments_of_entry(dir: Seq<char>, name: Seq<char>)
    requires
        slashless(name),
    ensures
        segments(dir.push('/') + name) == segments(dir).push(name),
        segments(dir).len() > 0,
    decreases name.len(),
{
    lemma_segments_some(dir);
    let all = dir.push('/') + name;
    if name.len() == 0 {
        assert(all =~= dir.push('/'));
        assert(all.drop_last() =~= dir);
        assert(name =~= Seq::<char>::empty());
    } else {
        let front = name.drop_last();
        assert forall|i: int| 0 <= i < front.len() implies #[trigger] front[i] != '/' by {
            assert(name[i] != '/');
        }
        assert(name[name.len() - 1] != '/');
        lemma_segments_of_entry(dir, front);
        assert(all.drop_last() =~= dir.push('/') + front);
        assert(all.last() == name.last());
        let before = segments(dir).push(front);
        assert(before.drop_last() =~= segments(dir));
        assert(front.push(name.last()) =~= name);
    }
}

proof fn lemma_segments_some(s: Seq<char>)
    ensures
        segments(s).len() > 0,
    decreases s.len(),
{
    if s.len() > 0 {
        lemma_segments_some(s.drop_last());
    }
}

/// Law: the entry `name` of a directory has that file name, lies below the
/// directory, and has one component more than it.
pub proof fn law_an_entry_lies_in_its_directory(dir: Seq<char>, name: Seq<char>)
    requires
        slashless(name),
        name.len() > 0,
        name != seq!['.'],
        dir.len() > 0,
    ensures
        components(dir.push('/') + name) == components(dir).push(name),
        within(dir.push('/') + name, dir),
        below(dir.push('/') + name, dir),
        name != seq!['.', '.'] ==> file_name_of(dir.push('/') + name) == Some(name),
{
    let all = dir.push('/') + name;
    lemma_segments_of_entry(dir, name);
    assert(segments(all).drop_last() =~= segments(dir));
    assert(segments(all)[0] == segments(dir)[0]);
    assert(all[0] == dir[0]);
    assert(named(segments(all)) =~= named(segments(dir)).push(name));
    assert(components(all) =~= components(dir).push(name));
    assert(components(all).subrange(0, components(dir).len() as int) =~= components(dir));
}

proof fn lemma_last_dot(stem: Seq<char>, ext: Seq<char>)
    requires
        forall|i: int| 0 <= i < ext.len() ==> #[trigger] ext[i] != '.',
    ensures
        last_dot(stem.push('.') + ext) == stem.len(),
    decreases ext.len(),
{
    let all = stem.push('.') + ext;
    if ext.len() == 0 {
        assert(all =~= stem.push('.'));
    } else {
        let front = ext.drop_last();
        assert forall|i: int| 0 <= i < front.len() implies #[trigger] front[i] != '.' by {
            assert(ext[i] != '.');
        }
        assert(ext[ext.len() - 1] != '.');
        lemma_last_dot(stem, front);
        assert(all.drop_last() =~= stem.push('.') + front);
    }
}

proof fn lemma_no_dot(name: Seq<char>)
    requires
        forall|i: int| 0 <= i < name.len() ==> #[trigger] name[i] != '.',
    ensures
        last_dot(name) == -1,
    decreases name.len(),
{
    if name.len() > 0 {
        assert(name[name.len() - 1] != '.');
        let front = name.drop_last();
        assert forall|i: int| 0 <= i < front.len() implies #[trigger] front[i] != '.' by {
            assert(name[i] != '.');
        }
        lemma_no_dot(front);
    }
}

/// Law: the extension of a file name is what follows its last dot. A name
/// whose only dot leads it has none, and neither has a name without a dot.
pub proof fn law_the_extension_follows_the_last_dot(stem: Seq<char>, ext: Seq<char>)
    requires
        forall|i: int| 0 <= i < ext.len() ==> #[trigger] ext[i] != '.',
    ensures
        stem.len() > 0 ==> extension_of_name(stem.push('.') + ext) == Some(ext),
        stem.len() == 0 ==> extension_of_name(stem.push('.') + ext) is None,
        extension_of_name(ext) is None,
{
    lemma_last_dot(stem, ext);
    lemma_no_dot(ext);
    assert((stem.push('.') + ext).skip(stem.len() as int + 1) =~= ext);
}

/// Law: an entry joined to a directory, whether or not the directory's text
/// ends in a slash, lies below it under its own name; an absolute path
/// replaces what it is joined to.
pub proof fn law_joined_entries_lie_in_their_directory(dir: Seq<char>, name: Seq<char>)
    requires
        slashless(name),
        name.len() > 0,
        name != seq!['.'],
        name != seq!['.', '.'],
        dir.len() > 0,
        dir.last() != '/',
    ensures
        join_of(dir, name) == join_of(dir.push('/'), name),
        below(join_of(dir, name), dir),
        file_name_of(join_of(dir, name)) == Some(name),
        join_of(dir, seq!['/'] + name) == seq!['/'] + name,
{
    assert(name[0] != '/');
    law_an_entry_lies_in_its_directory(dir, name);
    assert(dir + seq!['/'] + name =~= dir.push('/') + name);
}

/// Law: the extension of a path is that of the file in its directory, in
/// small letters where those are asked for.
pub proof fn law_a_file_has_the_extension_of_its_name(
    dir: Seq<char>,
    stem: Seq<char>,
    ext: Seq<char>,
)
    requires
        dir.len() > 0,
        stem.len() > 0,
        slashless(stem),
        slashless(ext),
        forall|i: int| 0 <= i < ext.len() ==> #[trigger] ext[i] != '.',
        stem != seq!['.'] || ext.len() > 0,
    ensures
        extension_of(dir.push('/') + (stem.push('.') + ext)) == Some(ext),
        lower_extension_of(dir.push('/') + (stem.push('.') + ext)) == Some(text::ascii_lowered(ext)),
{
    let name = stem.push('.') + ext;
    assert forall|i: int| 0 <= i < name.len() implies #[trigger] name[i] != '/' by {
        if i < stem.len() {
            assert(name[i] == stem[i]);
        } else if i > stem.len() {
            assert(name[i] == ext[i - stem.len() - 1]);
        }
    }
    assert(name.len() >= 2);
    if name == seq!['.', '.'] {
        assert(name.len() == 2);
        assert(stem =~= seq!['.']);
    }
    law_an_entry_lies_in_its_directory(dir, name);
    law_the_extension_follows_the_last_dot(stem, ext);
}

} // verus!
