//! Comma-separated lists and plain string comparison.
//!
//! Fee lists travel on the wire as one string: the coins' renderings joined
//! by commas. Joining is delegated to `itertools`; splitting is done here,
//! and `lemma_split_join` shows the two are inverses for comma-free parts.

use itertools::Itertools;
use vstd::prelude::*;

verus! {

/// The views of a sequence of strings.
pub open spec fn views_of(parts: Seq<String>) -> Seq<Seq<char>> {
    parts.map_values(|p: String| p@)
}

/// `p` contains no comma.
pub open spec fn comma_free(p: Seq<char>) -> bool {
    forall|j: int| 0 <= j < p.len() ==> #[trigger] p[j] != ','
}

/// The parts joined into one string with a comma between neighbours.
pub open spec fn comma_join(parts: Seq<Seq<char>>) -> Seq<char>
    decreases parts.len(),
{
    if parts.len() == 0 {
        Seq::empty()
    } else if parts.len() == 1 {
        parts[0]
    } else {
        parts[0] + seq![','] + comma_join(parts.drop_first())
    }
}

/// Length of the prefix of `s` before its first comma.
pub open spec fn until_comma(s: Seq<char>) -> nat
    decreases s.len(),
{
    if s.len() == 0 || s[0] == ',' {
        0
    } else {
        1 + until_comma(s.drop_first())
    }
}

/// `s` cut at every comma; a string without commas is one part, so the
/// result is never empty and an empty string yields one empty part.
pub open spec fn split_comma(s: Seq<char>) -> Seq<Seq<char>>
    decreases s.len(),
{
    let k = until_comma(s);
    if k >= s.len() {
        seq![s]
    } else {
        seq![s.subrange(0, k as int)] + split_comma(s.subrange(k as int + 1, s.len() as int))
    }
}

/// `until_comma` returns the position of the first comma, or the length
/// when there is none.
proof fn lemma_until_comma(s: Seq<char>, k: int)
    requires
        0 <= k <= s.len(),
        forall|j: int| 0 <= j < k ==> #[trigger] s[j] != ',',
        k == s.len() || s[k] == ',',
    ensures
        until_comma(s) == k,
    decreases k,
{
    if k == 0 {
    } else {
        assert(s[0] != ',');
        lemma_until_comma(s.drop_first(), k - 1);
    }
}

/// Unfolding `split_comma` at a known first comma, or at the end.
proof fn lemma_split_unfold(s: Seq<char>, k: int)
    requires
        0 <= k <= s.len(),
        forall|j: int| 0 <= j < k ==> #[trigger] s[j] != ',',
        k == s.len() || s[k] == ',',
    ensures
        k == s.len() ==> split_comma(s) == seq![s],
        k < s.len() ==> split_comma(s) == seq![s.subrange(0, k)] + split_comma(
            s.subrange(k + 1, s.len() as int),
        ),
{
    lemma_until_comma(s, k);
}

/// Splitting undoes joining, as long as no part contains a comma.
pub proof fn lemma_split_join(parts: Seq<Seq<char>>)
    requires
        parts.len() > 0,
        forall|i: int| 0 <= i < parts.len() ==> comma_free(#[trigger] parts[i]),
    ensures
        split_comma(comma_join(parts)) == parts,
    decreases parts.len(),
{
    if parts.len() == 1 {
        lemma_split_unfold(parts[0], parts[0].len() as int);
        assert(seq![parts[0]] =~= parts);
    } else {
        let s = comma_join(parts);
        let rest = parts.drop_first();
        let k = parts[0].len() as int;
        assert(s == parts[0] + seq![','] + comma_join(rest));
        assert(forall|j: int| 0 <= j < k ==> #[trigger] s[j] == parts[0][j]);
        assert(s[k] == ',');
        lemma_split_unfold(s, k);
        assert(s.subrange(0, k) =~= parts[0]);
        assert(s.subrange(k + 1, s.len() as int) =~= comma_join(rest));
        lemma_split_join(rest);
        assert(seq![parts[0]] + rest =~= parts);
    }
}

/// Whether two strings hold the same characters.
pub fn str_eq(a: &str, b: &str) -> (r: bool)
    ensures
        r <==> a@ == b@,
{
    let alen = a.unicode_len();
    let blen = b.unicode_len();
    if alen != blen {
        return false;
    }
    let mut i: usize = 0;
    while i < alen
        invariant
            0 <= i <= alen,
            alen == a@.len(),
            alen == b@.len(),
            forall|j: int| 0 <= j < i ==> a@[j] == b@[j],
        decreases alen - i,
    {
        if a.get_char(i) != b.get_char(i) {
            return false;
        }
        i += 1;
    }
    proof {
        assert(a@ =~= b@);
    }
    true
}

/// Relies on itertools' `Itertools::join`: it concatenates the iterator's
/// items, rendered by `Display`, with the separator between neighbours;
/// `String`'s `Display` form is the string itself, so for `String` items the
/// result is the parts joined by commas (empty for an empty list).
#[verifier::external_body]
pub fn join_with_commas(parts: &Vec<String>) -> (r: String)
    ensures
        r@ == comma_join(views_of(parts@)),
{
    parts.iter().join(",")
}

/// Cut `s` at every comma, in order; a trailing comma yields an empty last
/// part and an empty input yields one empty part.
pub fn split_commas(s: &str) -> (r: Vec<String>)
    ensures
        views_of(r@) == split_comma(s@),
{
    let len = s.unicode_len();
    let mut parts: Vec<String> = Vec::new();
    let mut start: usize = 0;
    let mut i: usize = 0;
    proof {
        assert(s@.subrange(0, len as int) =~= s@);
        assert(views_of(parts@) =~= Seq::<Seq<char>>::empty());
    }
    while i < len
        invariant
            0 <= start <= i <= len,
            len == s@.len(),
            forall|j: int| start <= j < i ==> #[trigger] s@[j] != ',',
            split_comma(s@) =~= views_of(parts@) + split_comma(
                s@.subrange(start as int, len as int),
            ),
        decreases len - i,
    {
        let c = s.get_char(i);
        if c == ',' {
            let piece = s.substring_char(start, i);
            parts.push(piece.to_owned());
            proof {
                let t = s@.subrange(start as int, len as int);
                let k = i - start;
                assert(forall|j: int| 0 <= j < k ==> #[trigger] t[j] == s@[start + j]);
                assert(t[k as int] == ',');
                lemma_split_unfold(t, k as int);
                assert(t.subrange(0, k as int) =~= s@.subrange(start as int, i as int));
                assert(t.subrange(k as int + 1, t.len() as int) =~= s@.subrange(
                    i as int + 1,
                    len as int,
                ));
                assert(views_of(parts@) =~= views_of(parts@.drop_last()).push(s@.subrange(
                    start as int,
                    i as int,
                )));
            }
            start = i + 1;
        }
        i += 1;
    }
    let piece = s.substring_char(start, len);
    parts.push(piece.to_owned());
    proof {
        let t = s@.subrange(start as int, len as int);
        lemma_split_unfold(t, t.len() as int);
        assert(views_of(parts@) =~= views_of(parts@.drop_last()).push(t));
    }
    parts
}

} // verus!
