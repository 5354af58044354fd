use vstd::prelude::*;

use crate::loads::utils::{lemma_split_on_nonempty, split_on, split_text};

verus! {

/// What one space separated piece of a distribution string stands for: `N*V` is the value `V`
/// repeated `N` times, `(N, Some(V))` (the parts of `N*V*...` after the second are ignored);
/// a piece without `*` is a single value `(V, None)`.
pub open spec fn spacing_token_of(piece: Seq<char>) -> (Seq<char>, Option<Seq<char>>) {
    let parts = split_on(piece, '*');
    if parts.len() >= 2 {
        (parts[0], Some(parts[1]))
    } else {
        (piece, None)
    }
}

/// One entry of a rebar distribution string, still as text.
#[derive(Debug, PartialEq, Eq)]
pub enum SpacingToken {
    /// A single spacing value
    Single(String),
    /// A spacing value (second) repeated a number of times (first), written `N*V`
    Repeat(String, String),
}

impl View for SpacingToken {
    type V = (Seq<char>, Option<Seq<char>>);

    open spec fn view(&self) -> (Seq<char>, Option<Seq<char>>) {
        match self {
            SpacingToken::Single(s) => (s@, None),
            SpacingToken::Repeat(n, v) => (n@, Some(v@)),
        }
    }
}

/// Splits a rebar distribution string into its space separated entries, in order. Every piece
/// is kept (also an empty one between two spaces); a piece with `*` becomes a repeat.
pub fn split_distribution_string(distribution: &str) -> (tokens: Vec<SpacingToken>)
    ensures
        tokens@.map_values(|t: SpacingToken| t@) == split_on(distribution@, ' ').map_values(
            |p: Seq<char>| spacing_token_of(p),
        ),
{
    let pieces = split_text(distribution, ' ');
    let ghost all = pieces@.map_values(|p: String| p@);
    let mut tokens: Vec<SpacingToken> = Vec::new();
    let mut k: usize = 0;
    while k < pieces.len()
        invariant
            k <= pieces.len(),
            all == pieces@.map_values(|p: String| p@),
            all == split_on(distribution@, ' '),
            tokens@.map_values(|t: SpacingToken| t@) == all.take(k as int).map_values(
                |p: Seq<char>| spacing_token_of(p),
            ),
        decreases pieces.len() - k,
    {
        let piece = pieces[k].as_str();
        let parts = split_text(piece, '*');
        let ghost before = tokens@.map_values(|t: SpacingToken| t@);
        let tok = if parts.len() >= 2 {
            let n = parts[0].as_str().to_owned();
            let v = parts[1].as_str().to_owned();
            SpacingToken::Repeat(n, v)
        } else {
            SpacingToken::Single(piece.to_owned())
        };
        assert(tok@ == spacing_token_of(all[k as int]));
        tokens.push(tok);
        assert(all.take(k + 1).map_values(|p: Seq<char>| spacing_token_of(p)) =~= all.take(
            k as int,
        ).map_values(|p: Seq<char>| spacing_token_of(p)).push(spacing_token_of(all[k as int])));
        k += 1;
        assert(tokens@.map_values(|t: SpacingToken| t@) =~= before.push(tok@));
    }
    assert(all.take(pieces.len() as int) =~= all);
    tokens
}

/// A split gives two or more pieces exactly when the text holds the separator, and a text
/// without the separator is its own single piece.
pub proof fn lemma_split_on_contains(s: Seq<char>, sep: char)
    ensures
        split_on(s, sep).len() >= 2 <==> s.contains(sep),
        !s.contains(sep) ==> split_on(s, sep) == seq![s],
    decreases s.len(),
{
    if s.len() > 0 {
        let t = s.drop_last();
        lemma_split_on_contains(t, sep);
        lemma_split_on_nonempty(t, sep);
        if s.last() == sep {
            assert(s.contains(sep)) by {
                assert(s[s.len() - 1] == sep);
            }
        } else {
            assert(s.contains(sep) <==> t.contains(sep)) by {
                if s.contains(sep) {
                    let j = choose|j: int| 0 <= j < s.len() && s[j] == sep;
                    assert(t[j] == sep);
                }
                if t.contains(sep) {
                    let j = choose|j: int| 0 <= j < t.len() && t[j] == sep;
                    assert(s[j] == sep);
                }
            }
            if !s.contains(sep) {
                assert(t.push(s.last()) =~= s);
            }
        }
    } else {
        assert(s =~= Seq::<char>::empty());
        assert(split_on(s, sep) =~= seq![s]);
    }
}

} // verus!
