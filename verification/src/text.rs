//! Small verified helpers on strings.
use vstd::prelude::*;

verus! {

/// Whether two string slices hold the same characters.
pub fn str_eq(a: &str, b: &str) -> (r: bool)
    ensures
        r == (a@ == b@),
{
    let n = a.unicode_len();
    let m = b.unicode_len();
    if n != m {
        return false;
    }
    let mut i: usize = 0;
    while i < n
        invariant
            n == a@.len(),
            m == b@.len(),
            n == m,
            i <= n,
            forall|j: int| 0 <= j < i ==> a@[j] == b@[j],
        decreases n - i,
    {
        if a.get_char(i) != b.get_char(i) {
            return false;
        }
        i = i + 1;
    }
    assert(a@ =~= b@);
    true
}


/// The pieces of `s` between the occurrences of `sep`, in order; there is always at least
/// one piece.
pub open spec fn split_spec(s: Seq<char>, sep: char) -> Seq<Seq<char>>
    decreases s.len(),
{
    if s.len() == 0 {
        seq![Seq::empty()]
    } else {
        let pieces = split_spec(s.drop_last(), sep);
        if s.last() == sep {
            pieces.push(Seq::empty())
        } else {
            pieces.update(pieces.len() - 1, pieces.last().push(s.last()))
        }
    }
}

/// There is always at least one piece.
pub proof fn lemma_split_nonempty(s: Seq<char>, sep: char)
    ensures
        split_spec(s, sep).len() >= 1,
    decreases s.len(),
{
    if s.len() > 0 {
        lemma_split_nonempty(s.drop_last(), sep);
    }
}

/// The texts, as their views.
pub open spec fn strs_view<'a>(pieces: Seq<&'a str>) -> Seq<Seq<char>> {
    pieces.map_values(|p: &'a str| p@)
}

/// Splits `s` at each occurrence of `sep`, as `str::split` does with a one-character pattern.
pub fn split_char<'a>(s: &'a str, sep: char) -> (r: Vec<&'a str>)
    ensures
        strs_view(r@) == split_spec(s@, sep),
{
    let n = s.unicode_len();
    let mut pieces: Vec<&'a str> = Vec::new();
    let mut start: usize = 0;
    let mut i: usize = 0;
    assert(s@.take(0) =~= Seq::<char>::empty());
    assert(s@.subrange(0, 0) =~= Seq::<char>::empty());
    while i < n
        invariant
            n == s@.len(),
            start <= i <= n,
            strs_view(pieces@).push(s@.subrange(start as int, i as int)) == split_spec(s@.take(i as int), sep),
        decreases n - i,
    {
        let c = s.get_char(i);
        proof {
            assert(s@.take(i + 1).drop_last() =~= s@.take(i as int));
            assert(s@.take(i + 1).last() == c);
            lemma_split_nonempty(s@.take(i as int), sep);
        }
        if c == sep {
            let piece = s.substring_char(start, i);
            proof {
                assert(strs_view(pieces@.push(piece)) =~= strs_view(pieces@).push(piece@));
                assert(s@.subrange((i + 1) as int, (i + 1) as int) =~= Seq::<char>::empty());
                assert(strs_view(pieces@.push(piece)).push(Seq::<char>::empty()) =~= split_spec(
                    s@.take(i + 1),
                    sep,
                ));
            }
            pieces.push(piece);
            start = i + 1;
        } else {
            proof {
                assert(s@.subrange(start as int, i + 1) =~= s@.subrange(start as int, i as int).push(c));
                assert(strs_view(pieces@).push(s@.subrange(start as int, i + 1)) =~= split_spec(
                    s@.take(i + 1),
                    sep,
                ));
            }
        }
        i = i + 1;
    }
    let last = s.substring_char(start, n);
    proof {
        assert(s@.take(n as int) =~= s@);
        assert(strs_view(pieces@.push(last)) =~= strs_view(pieces@).push(last@));
    }
    pieces.push(last);
    pieces
}

/// A character with its ASCII upper-case letters made lower case.
pub open spec fn ascii_lower_char(c: char) -> char {
    if 'A' <= c <= 'Z' {
        ((c as u32) + 32) as char
    } else {
        c
    }
}

/// A text with its ASCII upper-case letters made lower case.
pub open spec fn ascii_lower(s: Seq<char>) -> Seq<char> {
    s.map_values(|c: char| ascii_lower_char(c))
}

/// Calls `str::to_ascii_lowercase`, which maps the ASCII letters 'A' to 'Z' to 'a' to 'z'
/// and leaves every other character as it is.
#[verifier::external_body]
pub(crate) fn to_ascii_lowercase(s: &str) -> (r: String)
    ensures
        r@ == ascii_lower(s@),
{
    s.to_ascii_lowercase()
}

/// What the `Debug` formatting of a text writes: the text in double quotes, with quotes,
/// backslashes and control characters escaped.
pub uninterp spec fn debug_quoted(s: Seq<char>) -> Seq<char>;

/// Formats a text with `{:?}`; claims only that the result is the one `Debug` writes for
/// this text.
#[verifier::external_body]
pub(crate) fn debug_str(s: &str) -> (r: String)
    ensures
        r@ == debug_quoted(s@),
{
    format!("{:?}", s)
}

/// Whether two texts are equal when ASCII letters are compared without their case, as
/// `str::eq_ignore_ascii_case` compares them.
pub fn eq_ignore_ascii_case(a: &str, b: &str) -> (r: bool)
    ensures
        r == (ascii_lower(a@) == ascii_lower(b@)),
{
    let la = to_ascii_lowercase(a);
    let lb = to_ascii_lowercase(b);
    str_eq(la.as_str(), lb.as_str())
}

/// The first piece of a split never holds the separator.
pub proof fn lemma_first_piece(s: Seq<char>, sep: char)
    ensures
        forall|k: int| 0 <= k < split_spec(s, sep)[0].len() ==> #[trigger] split_spec(s, sep)[0][k] != sep,
    decreases s.len(),
{
    lemma_split_nonempty(s, sep);
    if s.len() > 0 {
        lemma_first_piece(s.drop_last(), sep);
        lemma_split_nonempty(s.drop_last(), sep);
        let pieces = split_spec(s.drop_last(), sep);
        if s.last() != sep && pieces.len() == 1 {
            assert forall|k: int| 0 <= k < split_spec(s, sep)[0].len() implies #[trigger] split_spec(s, sep)[0][k] != sep by {
                assert(split_spec(s, sep)[0] == pieces[0].push(s.last()));
                if k < pieces[0].len() {
                    assert(split_spec(s, sep)[0][k] == pieces[0][k]);
                }
            }
        } else {
            assert(split_spec(s, sep)[0] == pieces[0]);
        }
    }
}

/// A text without the separator is its own single piece.
pub proof fn lemma_split_without_sep(s: Seq<char>, sep: char)
    requires
        forall|k: int| 0 <= k < s.len() ==> #[trigger] s[k] != sep,
    ensures
        split_spec(s, sep) == seq![s],
    decreases s.len(),
{
    if s.len() > 0 {
        assert forall|k: int| 0 <= k < s.drop_last().len() implies #[trigger] s.drop_last()[k] != sep by {
            assert(s.drop_last()[k] == s[k]);
        }
        lemma_split_without_sep(s.drop_last(), sep);
        assert(s[s.len() - 1] != sep);
        assert(s.drop_last().push(s.last()) =~= s);
        assert(seq![s.drop_last()].update(0, s.drop_last().push(s.last())) =~= seq![s]);
    } else {
        assert(s =~= Seq::<char>::empty());
    }
}

/// Lowering the case of ASCII letters twice is lowering it once, and it turns no other
/// character into a `/`.
pub proof fn lemma_lower(s: Seq<char>)
    ensures
        ascii_lower(ascii_lower(s)) == ascii_lower(s),
        forall|k: int| 0 <= k < s.len() ==> (#[trigger] ascii_lower(s)[k] == '/') == (s[k] == '/'),
{
    assert forall|k: int| 0 <= k < s.len() implies #[trigger] ascii_lower(ascii_lower(s))[k] == ascii_lower(s)[k] by {
        let c = s[k];
        if 'A' <= c <= 'Z' {
            assert(((c as u32) + 32) as char as u32 == (c as u32) + 32);
        }
    }
    assert forall|k: int| 0 <= k < s.len() implies (#[trigger] ascii_lower(s)[k] == '/') == (s[k] == '/') by {
        let c = s[k];
        if 'A' <= c <= 'Z' {
            assert(((c as u32) + 32) as char as u32 == (c as u32) + 32);
        }
    }
    assert(ascii_lower(ascii_lower(s)) =~= ascii_lower(s));
}

} // verus!
