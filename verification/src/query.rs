//! Queries: what is handed to the query parser, and where it looks.

use vstd::prelude::*;

use crate::index::LixunIndex;
use crate::query_alias;
use crate::text;

verus! {

/// `s` with every `|` replaced by ` OR `.
pub open spec fn pipes_as_or(s: Seq<char>) -> Seq<char>
    decreases s.len(),
{
    if s.len() == 0 {
        s
    } else if s.last() == '|' {
        pipes_as_or(s.drop_last()) + seq![' ', 'O', 'R', ' ']
    } else {
        pipes_as_or(s.drop_last()).push(s.last())
    }
}

fn replace_pipes(s: &str) -> (r: String)
    ensures
        r@ == pipes_as_or(s@),
{
    let v = text::to_chars(s);
    let mut out: Vec<char> = Vec::new();
    let mut i: usize = 0;
    proof {
        assert(v@.take(0) =~= Seq::<char>::empty());
    }
    while i < v.len()
        invariant
            i <= v@.len(),
            out@ == pipes_as_or(v@.take(i as int)),
        decreases v@.len() - i,
    {
        let ghost before = out@;
        proof {
            assert(v@.take(i + 1).drop_last() =~= v@.take(i as int));
        }
        if v[i] == '|' {
            out.push(' ');
            out.push('O');
            out.push('R');
            out.push(' ');
            proof {
                assert(out@ =~= before + seq![' ', 'O', 'R', ' ']);
            }
        } else {
            out.push(v[i]);
        }
        i = i + 1;
    }
    proof {
        assert(v@.take(v@.len() as int) =~= v@);
    }
    text::from_chars(&out)
}

/// The weight of a field in a search, in tenths.
#[derive(Clone, Copy, Debug, PartialEq, Eq, Structural)]
pub struct FieldBoost {
    pub field: u32,
    pub tenths: u32,
}

impl LixunIndex {
    /// The text that the query parser gets: trimmed, aliases replaced, `|`
    /// read as OR. `None` for a blank query, which matches nothing.
    pub fn search_text(&self, query: &str) -> (r: Option<String>)
        requires
            self.wf(),
        ensures
            match r {
                None => text::trimmed(query@).len() == 0,
                Some(t) => text::trimmed(query@).len() > 0 && t@ == pipes_as_or(
                    query_alias::alias_rewrite(
                        text::trimmed(query@),
                        self.plugins.query_aliases@,
                    ),
                ),
            },
    {
        let trimmed = text::from_chars(&text::trim(&text::to_chars(query)));
        if trimmed.as_str().is_empty() {
            return None;
        }
        let aliased = query_alias::rewrite_query_aliases(
            trimmed.as_str(),
            &self.plugins.query_aliases,
        );
        Some(replace_pipes(aliased.as_str()))
    }

    /// The fields that a query without a field name searches: titles and
    /// what is derived from them, the body, the path, the people, and the
    /// plugin fields that ask for it.
    pub fn default_search_fields(&self) -> (r: Vec<u32>)
        requires
            self.wf(),
        ensures
            r@ == seq![2u32, 3, 4, 5, 9, 10, 16, 17] + Seq::new(
                self.plugins.default_query_fields@.len(),
                |i: int| self.plugins.default_query_fields@[i].0,
            ),
    {
        let s = &self.schema;
        let mut out: Vec<u32> = vec![
            s.title,
            s.title_terms,
            s.title_initials,
            s.title_prefixes,
            s.body,
            s.path,
            s.sender,
            s.recipients,
        ];
        let ghost head = seq![2u32, 3, 4, 5, 9, 10, 16, 17];
        let ghost plugin = Seq::new(
            self.plugins.default_query_fields@.len(),
            |i: int| self.plugins.default_query_fields@[i].0,
        );
        let mut i: usize = 0;
        proof {
            assert(out@ =~= head);
            assert(head + plugin.take(0) =~= head);
        }
        while i < self.plugins.default_query_fields.len()
            invariant
                i <= self.plugins.default_query_fields@.len(),
                plugin == Seq::new(
                    self.plugins.default_query_fields@.len(),
                    |i: int| self.plugins.default_query_fields@[i].0,
                ),
                out@ == head + plugin.take(i as int),
            decreases self.plugins.default_query_fields@.len() - i,
        {
            out.push(self.plugins.default_query_fields[i].0);
            proof {
                assert(head + plugin.take(i + 1) =~= (head + plugin.take(i as int)).push(
                    plugin[i as int],
                ));
            }
            i = i + 1;
        }
        proof {
            assert(plugin.take(plugin.len() as int) =~= plugin);
        }
        out
    }

    /// The weights of the built-in fields.
    pub fn field_boosts(&self) -> (r: Vec<FieldBoost>)
        requires
            self.wf(),
        ensures
            r@ == seq![
                FieldBoost { field: 2, tenths: 50 },
                FieldBoost { field: 3, tenths: 40 },
                FieldBoost { field: 4, tenths: 30 },
                FieldBoost { field: 5, tenths: 25 },
                FieldBoost { field: 16, tenths: 30 },
                FieldBoost { field: 17, tenths: 25 },
                FieldBoost { field: 10, tenths: 15 },
                FieldBoost { field: 9, tenths: 10 },
            ],
    {
        let s = &self.schema;
        let r = vec![
            FieldBoost { field: s.title, tenths: 50 },
            FieldBoost { field: s.title_terms, tenths: 40 },
            FieldBoost { field: s.title_initials, tenths: 30 },
            FieldBoost { field: s.title_prefixes, tenths: 25 },
            FieldBoost { field: s.sender, tenths: 30 },
            FieldBoost { field: s.recipients, tenths: 25 },
            FieldBoost { field: s.path, tenths: 15 },
            FieldBoost { field: s.body, tenths: 10 },
        ];
        proof {
            assert(r@ =~= seq![
                FieldBoost { field: 2, tenths: 50 },
                FieldBoost { field: 3, tenths: 40 },
                FieldBoost { field: 4, tenths: 30 },
                FieldBoost { field: 5, tenths: 25 },
                FieldBoost { field: 16, tenths: 30 },
                FieldBoost { field: 17, tenths: 25 },
                FieldBoost { field: 10, tenths: 15 },
                FieldBoost { field: 9, tenths: 10 },
            ]);
        }
        r
    }

    /// The fields that are searched with one typing error forgiven.
    pub fn fuzzy_fields(&self) -> (r: Vec<u32>)
        requires
            self.wf(),
        ensures
            r@ == seq![2u32, 3, 9, 16, 17],
    {
        let s = &self.schema;
        let r: Vec<u32> = vec![s.title, s.title_terms, s.body, s.sender, s.recipients];
        proof {
            assert(r@ =~= seq![2u32, 3, 9, 16, 17]);
        }
        r
    }
}

/// Law: a bar between two queries asks for either: it is read as OR between
/// them, wherever it stands; all other text is kept.
pub proof fn law_a_bar_asks_for_either(a: Seq<char>, b: Seq<char>)
    ensures
        pipes_as_or(a.push('|') + b) == pipes_as_or(a) + seq![' ', 'O', 'R', ' '] + pipes_as_or(b),
        (forall|i: int| 0 <= i < a.len() ==> #[trigger] a[i] != '|') ==> pipes_as_or(a) == a,
    decreases a.len() + b.len(),
{
    let all = a.push('|') + b;
    if b.len() == 0 {
        assert(all =~= a.push('|'));
        assert(all.drop_last() =~= a);
        assert(pipes_as_or(a) + seq![' ', 'O', 'R', ' '] + pipes_as_or(b) =~= pipes_as_or(a) + seq![
            ' ',
            'O',
            'R',
            ' ',
        ]);
        if a.len() > 0 {
            law_a_bar_asks_for_either(a.drop_last(), b);
            if forall|i: int| 0 <= i < a.len() ==> #[trigger] a[i] != '|' {
                assert(a[a.len() - 1] != '|');
                assert forall|i: int| 0 <= i < a.drop_last().len() implies #[trigger] a.drop_last()[i]
                    != '|' by {
                    assert(a[i] != '|');
                }
                assert(a.drop_last().push(a.last()) =~= a);
            }
        }
    } else {
        law_a_bar_asks_for_either(a, b.drop_last());
        assert(all.drop_last() =~= a.push('|') + b.drop_last());
        assert(all.last() == b.last());
        let lead = pipes_as_or(a) + seq![' ', 'O', 'R', ' '];
        let front = pipes_as_or(b.drop_last());
        if b.last() == '|' {
            assert((lead + front) + seq![' ', 'O', 'R', ' '] =~= lead + (front + seq![
                ' ',
                'O',
                'R',
                ' ',
            ]));
        } else {
            assert((lead + front).push(b.last()) =~= lead + front.push(b.last()));
        }
    }
}

} // verus!
