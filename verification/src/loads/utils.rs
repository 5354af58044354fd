use vstd::prelude::*;
use vstd::string::*;

verus! {

/// Checks if the given load is linked to given element by comparing the elements number to the
/// element numbers linked to the load. The number -1 links the load to every element.
pub fn load_is_linked(elem_number: i32, linked_elem_numbers: &Vec<i32>) -> (linked: bool)
    ensures
        linked == (linked_elem_numbers@.contains(-1i32) || linked_elem_numbers@.contains(
            elem_number,
        )),
{
    vec_contains(linked_elem_numbers, -1) || vec_contains(linked_elem_numbers, elem_number)
}

/// Whether a load with the linked element numbers `linked` applies to element `n`.
pub open spec fn is_linked(n: i32, linked: Seq<i32>) -> bool {
    linked.contains(-1i32) || linked.contains(n)
}

/// The numbers of the elements (in their order) to which a load with the linked element numbers
/// `linked_elem_numbers` applies.
pub fn extract_linked_elements(
    element_numbers: &Vec<i32>,
    linked_elem_numbers: &Vec<i32>,
) -> (result: Vec<i32>)
    ensures
        result@ == element_numbers@.filter(|n: i32| is_linked(n, linked_elem_numbers@)),
{
    let mut result: Vec<i32> = Vec::new();
    let mut k: usize = 0;
    while k < element_numbers.len()
        invariant
            k <= element_numbers.len(),
            result@ == element_numbers@.take(k as int).filter(
                |n: i32| is_linked(n, linked_elem_numbers@),
            ),
        decreases element_numbers.len() - k,
    {
        let n = element_numbers[k];
        proof {
            reveal(Seq::filter);
            assert(element_numbers@.take(k + 1).drop_last() =~= element_numbers@.take(k as int));
        }
        if load_is_linked(n, linked_elem_numbers) {
            result.push(n);
        }
        k += 1;
    }
    assert(element_numbers@.take(element_numbers.len() as int) =~= element_numbers@);
    result
}

fn vec_contains(v: &Vec<i32>, x: i32) -> (found: bool)
    ensures
        found == v@.contains(x),
{
    let mut k: usize = 0;
    while k < v.len()
        invariant
            k <= v.len(),
            forall|j: int| 0 <= j < k ==> v@[j] != x,
        decreases v.len() - k,
    {
        if v[k] == x {
            return true;
        }
        k += 1;
    }
    false
}

/// The pieces of `s` between the occurrences of `sep` (an empty string gives one empty piece,
/// and empty pieces are kept, as `str::split` does).
pub open spec fn split_on(s: Seq<char>, sep: char) -> Seq<Seq<char>>
    decreases s.len(),
{
    if s.len() == 0 {
        seq![seq![]]
    } else {
        let p = split_on(s.drop_last(), sep);
        if s.last() == sep {
            p.push(seq![])
        } else {
            p.update(p.len() - 1, p.last().push(s.last()))
        }
    }
}

/// The positions of the leftmost non-overlapping occurrences of `..` in `s` from position `i` on.
pub open spec fn dot_matches(s: Seq<char>, i: int) -> Seq<int>
    decreases s.len() - i,
{
    if i < 0 || i + 1 >= s.len() {
        seq![]
    } else if s[i] == '.' && s[i + 1] == '.' {
        seq![i] + dot_matches(s, i + 2)
    } else {
        dot_matches(s, i + 1)
    }
}

/// What one comma separated piece of an element number list stands for: a single number
/// `(text, None)`, a range `S..E` as `(S, Some(E))`, or nothing (an empty piece, or a piece that
/// `..` splits into more than two parts).
pub open spec fn token_of(piece: Seq<char>) -> Option<(Seq<char>, Option<Seq<char>>)> {
    if piece.len() == 0 {
        None
    } else {
        let m = dot_matches(piece, 0);
        if m.len() == 0 {
            Some((piece, None))
        } else if m.len() == 1 {
            Some((piece.take(m[0]), Some(piece.skip(m[0] + 2))))
        } else {
            None
        }
    }
}

/// The tokens of the given pieces, in order.
pub open spec fn tokens_of(pieces: Seq<Seq<char>>) -> Seq<(Seq<char>, Option<Seq<char>>)>
    decreases pieces.len(),
{
    if pieces.len() == 0 {
        seq![]
    } else {
        tokens_of(pieces.drop_last()) + match token_of(pieces.last()) {
            Some(t) => seq![t],
            None => seq![],
        }
    }
}

/// The tokens of an element number list such as `1,3..6,8`.
pub open spec fn element_number_tokens(s: Seq<char>) -> Seq<(Seq<char>, Option<Seq<char>>)> {
    tokens_of(split_on(s, ','))
}

/// One entry of an element number list: a single element number, or a range `S..E` that
/// includes both ends. The numbers are still text.
#[derive(Debug, PartialEq, Eq)]
pub enum ElementNumberToken {
    /// A single element number
    Single(String),
    /// A range of element numbers from the first to the second (both included)
    Range(String, String),
}

impl View for ElementNumberToken {
    type V = (Seq<char>, Option<Seq<char>>);

    open spec fn view(&self) -> (Seq<char>, Option<Seq<char>>) {
        match self {
            ElementNumberToken::Single(s) => (s@, None),
            ElementNumberToken::Range(a, b) => (a@, Some(b@)),
        }
    }
}

/// Splitting a text always gives at least one piece.
pub proof fn lemma_split_on_nonempty(s: Seq<char>, sep: char)
    ensures
        split_on(s, sep).len() >= 1,
    decreases s.len(),
{
    if s.len() > 0 {
        lemma_split_on_nonempty(s.drop_last(), sep);
    }
}

/// Classifies one comma separated piece.
fn piece_token(p: &str) -> (t: Option<ElementNumberToken>)
    ensures
        match t {
            Some(tok) => token_of(p@) == Some(tok@),
            None => token_of(p@) is None,
        },
{
    let n = p.unicode_len();
    if n == 0 {
        return None;
    }
    let mut i: usize = 0;
    let mut count: usize = 0;
    let mut first: usize = 0;
    let ghost mut found: Seq<int> = seq![];
    while i < n - 1
        invariant
            n == p@.len(),
            n > 0,
            i <= n,
            count > 0 ==> first + 2 <= n,
            dot_matches(p@, 0) == found + dot_matches(p@, i as int),
            count == found.len(),
            count > 0 ==> first == found[0],
            count <= i,
        decreases n - i,
    {
        if p.get_char(i) == '.' && p.get_char(i + 1) == '.' {
            proof {
                found = found.push(i as int);
                assert(dot_matches(p@, i as int) == seq![i as int] + dot_matches(
                    p@,
                    i as int + 2,
                ));
            }
            if count == 0 {
                first = i;
            }
            count += 1;
            i += 2;
            assert(dot_matches(p@, 0) =~= found + dot_matches(p@, i as int));
        } else {
            i += 1;
        }
    }
    assert(dot_matches(p@, 0) =~= found);
    if count == 0 {
        Some(ElementNumberToken::Single(p.to_owned()))
    } else if count == 1 {
        let start = p.substring_char(0, first).to_owned();
        let end = p.substring_char(first + 2, n).to_owned();
        assert(start@ =~= p@.take(first as int));
        assert(end@ =~= p@.skip(first + 2));
        Some(ElementNumberToken::Range(start, end))
    } else {
        None
    }
}

/// Splits `s` into the pieces between the occurrences of `sep`, as `str::split` does.
pub fn split_text(s: &str, sep: char) -> (pieces: Vec<String>)
    ensures
        pieces@.map_values(|p: String| p@) == split_on(s@, sep),
{
    let n = s.unicode_len();
    let mut pieces: Vec<String> = Vec::new();
    let mut start: usize = 0;
    let mut i: usize = 0;
    assert(s@.take(0) =~= Seq::<char>::empty());
    assert(split_on(s@.take(0), sep) =~= pieces@.map_values(|p: String| p@).push(
        s@.subrange(0, 0),
    ));
    while i < n
        invariant
            n == s@.len(),
            start <= i <= n,
            split_on(s@.take(i as int), sep) == pieces@.map_values(|p: String| p@).push(
                s@.subrange(start as int, i as int),
            ),
        decreases n - i,
    {
        let c = s.get_char(i);
        let ghost prev = s@.take(i as int);
        let ghost done = pieces@.map_values(|p: String| p@);
        assert(s@.take(i + 1).drop_last() =~= prev);
        assert(s@.take(i + 1).last() == c);
        if c == sep {
            let piece = s.substring_char(start, i).to_owned();
            pieces.push(piece);
            start = i + 1;
            i += 1;
            assert(s@.subrange(start as int, i as int) =~= Seq::<char>::empty());
            assert(pieces@.map_values(|p: String| p@) =~= done.push(piece@));
            assert(split_on(s@.take(i as int), sep) =~= pieces@.map_values(|p: String| p@).push(
                s@.subrange(start as int, i as int),
            ));
        } else {
            proof {
                lemma_split_on_nonempty(prev, sep);
                let p = split_on(prev, sep);
                assert(split_on(s@.take(i + 1), sep) == p.update(p.len() - 1, p.last().push(c)));
                assert(s@.subrange(start as int, i as int).push(c) =~= s@.subrange(
                    start as int,
                    i + 1,
                ));
            }
            i += 1;
            assert(split_on(s@.take(i as int), sep) =~= pieces@.map_values(|p: String| p@).push(
                s@.subrange(start as int, i as int),
            ));
        }
    }
    let last = s.substring_char(start, n).to_owned();
    let ghost done = pieces@.map_values(|p: String| p@);
    pieces.push(last);
    assert(s@.take(n as int) =~= s@);
    assert(pieces@.map_values(|p: String| p@) =~= done.push(last@));
    pieces
}

/// Splits an element number list into its entries. Entries are separated with `,` (comma),
/// an entry `S..E` (double dots with numbers before and after it) stands for the elements from
/// `S` to `E`. Empty entries, and entries that `..` splits into more than two parts, are left out.
pub fn split_element_numbers(element_numbers: &str) -> (tokens: Vec<ElementNumberToken>)
    ensures
        tokens@.map_values(|t: ElementNumberToken| t@) == element_number_tokens(element_numbers@),
{
    let pieces = split_text(element_numbers, ',');
    let ghost all = pieces@.map_values(|p: String| p@);
    let mut tokens: Vec<ElementNumberToken> = Vec::new();
    let mut k: usize = 0;
    while k < pieces.len()
        invariant
            k <= pieces.len(),
            all == pieces@.map_values(|p: String| p@),
            all == split_on(element_numbers@, ','),
            tokens@.map_values(|t: ElementNumberToken| t@) == tokens_of(all.take(k as int)),
        decreases pieces.len() - k,
    {
        let t = piece_token(pieces[k].as_str());
        let ghost before = tokens@.map_values(|t: ElementNumberToken| t@);
        assert(all.take(k + 1).drop_last() =~= all.take(k as int));
        assert(all.take(k + 1).last() == pieces@[k as int]@);
        match t {
            Some(tok) => {
                tokens.push(tok);
                assert(tokens@.map_values(|t: ElementNumberToken| t@) =~= before.push(tok@));
            },
            None => {},
        }
        k += 1;
        assert(tokens@.map_values(|t: ElementNumberToken| t@) =~= tokens_of(all.take(k as int)));
    }
    assert(all.take(pieces.len() as int) =~= all);
    tokens
}

/// The numbers from `b` to `e`, both included (nothing when `e < b`).
pub open spec fn range_numbers(b: i32, e: i32) -> Seq<i32> {
    if e < b {
        seq![]
    } else {
        Seq::new((e - b + 1) as nat, |k: int| (b + k) as i32)
    }
}

/// The numbers of all the ranges, range after range.
pub open spec fn expanded_numbers(ranges: Seq<(i32, i32)>) -> Seq<i32>
    decreases ranges.len(),
{
    if ranges.len() == 0 {
        seq![]
    } else {
        expanded_numbers(ranges.drop_last()) + range_numbers(ranges.last().0, ranges.last().1)
    }
}

/// Lists the element numbers of the given ranges, each from its first to its last number (both
/// included). A single element number `n` is the range `(n, n)`.
pub fn expand_element_numbers(ranges: &Vec<(i32, i32)>) -> (numbers: Vec<i32>)
    ensures
        numbers@ == expanded_numbers(ranges@),
{
    let mut numbers: Vec<i32> = Vec::new();
    let mut k: usize = 0;
    while k < ranges.len()
        invariant
            k <= ranges.len(),
            numbers@ == expanded_numbers(ranges@.take(k as int)),
        decreases ranges.len() - k,
    {
        let (b, e) = ranges[k];
        assert(ranges@.take(k + 1).drop_last() =~= ranges@.take(k as int));
        let ghost before = numbers@;
        let mut v: i64 = b as i64;
        while v <= e as i64
            invariant
                b <= v <= e + 1 || (v == b && e < b),
                numbers@ == before + Seq::new((v - b) as nat, |j: int| (b + j) as i32),
            decreases e - v + 1,
        {
            numbers.push(v as i32);
            v += 1;
            assert(numbers@ =~= before + Seq::new((v - b) as nat, |j: int| (b + j) as i32));
        }
        assert(numbers@ =~= before + range_numbers(b, e));
        k += 1;
    }
    assert(ranges@.take(ranges.len() as int) =~= ranges@);
    numbers
}

/// A single number `n` lists exactly `n`, and a range lists its ends when it is not empty.
pub proof fn lemma_range_numbers(b: i32, e: i32)
    ensures
        range_numbers(b, b) == seq![b],
        b <= e ==> range_numbers(b, e).len() == e - b + 1 && range_numbers(b, e)[0] == b
            && range_numbers(b, e).last() == e,
        e < b ==> range_numbers(b, e).len() == 0,
{
    assert(range_numbers(b, b) =~= seq![b]);
}

/// The numbers of a list of ranges are the numbers of its parts, one after the other.
pub proof fn lemma_expanded_numbers_append(a: Seq<(i32, i32)>, b: Seq<(i32, i32)>)
    ensures
        expanded_numbers(a + b) == expanded_numbers(a) + expanded_numbers(b),
    decreases b.len(),
{
    if b.len() == 0 {
        assert(a + b =~= a);
        assert(expanded_numbers(a) + expanded_numbers(b) =~= expanded_numbers(a));
    } else {
        lemma_expanded_numbers_append(a, b.drop_last());
        assert((a + b).drop_last() =~= a + b.drop_last());
        assert((a + b).last() == b.last());
        assert(expanded_numbers(a + b) =~= expanded_numbers(a) + expanded_numbers(b));
    }
}

} // verus!
