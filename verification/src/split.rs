//! Splitting and joining character sequences on a separator, with the
//! round-trip law the durable record format rests on: joining
//! separator-free parts and splitting again gives the parts back.

use vstd::prelude::*;
use vstd::string::StrSliceExecFns;

verus! {

/// The index of the first occurrence of `sep`, or the length if none.
pub open spec fn find_char(s: Seq<char>, sep: char) -> int
    decreases s.len(),
{
    if s.len() == 0 {
        0
    } else if s[0] == sep {
        0
    } else {
        1 + find_char(s.drop_first(), sep)
    }
}

pub proof fn lemma_find_char(s: Seq<char>, sep: char)
    ensures
        0 <= find_char(s, sep) <= s.len(),
        forall|i: int| 0 <= i < find_char(s, sep) ==> s[i] != sep,
        find_char(s, sep) < s.len() ==> s[find_char(s, sep)] == sep,
    decreases s.len(),
{
    if s.len() > 0 && s[0] != sep {
        lemma_find_char(s.drop_first(), sep);
        assert(forall|i: int|
            0 <= i < s.drop_first().len() ==> #[trigger] s.drop_first()[i] == s[i + 1]);
        assert forall|i: int| 0 <= i < find_char(s, sep) implies s[i] != sep by {
            if i > 0 {
                assert(s.drop_first()[i - 1] == s[i]);
            }
        }
    }
}

/// A sequence without its separator has no first occurrence short of its
/// length.
pub proof fn lemma_find_char_free(s: Seq<char>, sep: char)
    requires
        forall|i: int| 0 <= i < s.len() ==> s[i] != sep,
    ensures
        find_char(s, sep) == s.len(),
    decreases s.len(),
{
    if s.len() > 0 {
        assert(forall|i: int|
            0 <= i < s.drop_first().len() ==> #[trigger] s.drop_first()[i] == s[i + 1]);
        lemma_find_char_free(s.drop_first(), sep);
    }
}

/// The first occurrence in `a + [sep] + b` is at `a.len()` when `a` is
/// separator-free.
pub proof fn lemma_find_char_concat(a: Seq<char>, b: Seq<char>, sep: char)
    requires
        forall|i: int| 0 <= i < a.len() ==> a[i] != sep,
    ensures
        find_char(a + seq![sep] + b, sep) == a.len(),
    decreases a.len(),
{
    let s = a + seq![sep] + b;
    if a.len() == 0 {
        assert(s[0] == sep);
    } else {
        assert(s[0] == a[0]);
        let a2 = a.drop_first();
        assert(forall|i: int| 0 <= i < a2.len() ==> #[trigger] a2[i] == a[i + 1]);
        lemma_find_char_concat(a2, b, sep);
        assert(s.drop_first() =~= a2 + seq![sep] + b);
    }
}

/// The parts of `s` between occurrences of `sep`; always at least one part.
pub open spec fn spec_split(s: Seq<char>, sep: char) -> Seq<Seq<char>>
    decreases s.len(),
{
    let i = find_char(s, sep);
    if i < 0 || i >= s.len() {
        seq![s]
    } else {
        seq![s.subrange(0, i)] + spec_split(s.subrange(i + 1, s.len() as int), sep)
    }
}

/// The parts joined with `sep` between each two.
pub open spec fn spec_join(parts: Seq<Seq<char>>, sep: char) -> Seq<char>
    decreases parts.len(),
{
    if parts.len() == 0 {
        Seq::empty()
    } else if parts.len() == 1 {
        parts[0]
    } else {
        spec_join(parts.drop_last(), sep) + seq![sep] + parts.last()
    }
}

pub open spec fn parts_free_of(parts: Seq<Seq<char>>, sep: char) -> bool {
    forall|p: int, i: int|
        0 <= p < parts.len() && 0 <= i < parts[p].len() ==> #[trigger] parts[p][i] != sep
}

/// Splitting what separator-free parts were joined into gives the parts
/// back.
pub proof fn lemma_split_join(parts: Seq<Seq<char>>, sep: char)
    requires
        parts.len() >= 1,
        parts_free_of(parts, sep),
    ensures
        spec_split(spec_join(parts, sep), sep) == parts,
    decreases parts.len(),
{
    if parts.len() == 1 {
        let s = spec_join(parts, sep);
        assert(s == parts[0]);
        lemma_find_char_free(s, sep);
        assert(spec_split(s, sep) =~= parts);
    } else {
        let first = parts[0];
        let rest = parts.drop_first();
        assert(parts_free_of(rest, sep)) by {
            assert(forall|p: int|
                0 <= p < rest.len() ==> #[trigger] rest[p] == parts[p + 1]);
        }
        lemma_split_join(rest, sep);
        let s = spec_join(parts, sep);
        lemma_join_head(parts, sep);
        assert(s == first + seq![sep] + spec_join(rest, sep));
        lemma_find_char_concat(first, spec_join(rest, sep), sep);
        assert(find_char(s, sep) == first.len());
        assert(s.subrange(0, first.len() as int) =~= first);
        assert(s.subrange(first.len() as int + 1, s.len() as int) =~= spec_join(rest, sep));
        assert(spec_split(s, sep) =~= seq![first] + spec_split(spec_join(rest, sep), sep));
        assert(seq![first] + rest =~= parts);
    }
}

/// Joining is the same whether the first part or the last is peeled.
pub proof fn lemma_join_head(parts: Seq<Seq<char>>, sep: char)
    requires
        parts.len() >= 2,
    ensures
        spec_join(parts, sep) == parts[0] + seq![sep] + spec_join(parts.drop_first(), sep),
    decreases parts.len(),
{
    if parts.len() == 2 {
        assert(parts.drop_last() =~= seq![parts[0]]);
        assert(parts.drop_first() =~= seq![parts[1]]);
        assert(spec_join(parts.drop_last(), sep) == parts[0]);
        assert(spec_join(parts.drop_first(), sep) == parts[1]);
    } else {
        let inner = parts.drop_last();
        lemma_join_head(inner, sep);
        assert(inner.drop_first() =~= parts.drop_first().drop_last());
        assert(inner[0] == parts[0]);
        assert(parts.drop_first().last() == parts.last());
        assert(spec_join(parts.drop_first(), sep) == spec_join(
            parts.drop_first().drop_last(),
            sep,
        ) + seq![sep] + parts.last());
        assert(spec_join(parts, sep) == spec_join(inner, sep) + seq![sep] + parts.last());
        assert(spec_join(parts, sep) =~= parts[0] + seq![sep] + spec_join(
            parts.drop_first(),
            sep,
        ));
    }
}

/// Character-wise string equality.
pub fn str_eq(a: &str, b: &str) -> (r: bool)
    ensures
        r <==> a@ == b@,
{
    let a_len = a.unicode_len();
    let b_len = b.unicode_len();
    if a_len != b_len {
        return false;
    }
    let mut i: usize = 0;
    while i < a_len
        invariant
            0 <= i <= a_len,
            a_len == a@.len(),
            a@.len() == b@.len(),
            forall|k: int| 0 <= k < i ==> a@[k] == b@[k],
        decreases a_len - i,
    {
        if a.get_char(i) != b.get_char(i) {
            return false;
        }
        i = i + 1;
    }
    proof {
        assert(a@ =~= b@);
    }
    true
}

/// A character absent from every part and different from the separator is
/// absent from the joined sequence.
pub proof fn lemma_join_free_of(parts: Seq<Seq<char>>, sep: char, bad: char)
    requires
        parts_free_of(parts, bad),
        sep != bad,
    ensures
        forall|i: int| 0 <= i < spec_join(parts, sep).len() ==> spec_join(parts, sep)[i] != bad,
    decreases parts.len(),
{
    if parts.len() == 0 {
    } else if parts.len() == 1 {
        assert(spec_join(parts, sep) == parts[0]);
    } else {
        let inner = parts.drop_last();
        assert(parts_free_of(inner, bad)) by {
            assert(forall|p: int| 0 <= p < inner.len() ==> #[trigger] inner[p] == parts[p]);
        }
        lemma_join_free_of(inner, sep, bad);
        let j = spec_join(parts, sep);
        let ji = spec_join(inner, sep);
        assert(j == ji + seq![sep] + parts.last());
        assert forall|i: int| 0 <= i < j.len() implies j[i] != bad by {
            if i < ji.len() {
                assert(j[i] == ji[i]);
            } else if i == ji.len() {
                assert(j[i] == sep);
            } else {
                assert(j[i] == parts.last()[i - ji.len() - 1]);
                assert(parts[parts.len() - 1] == parts.last());
            }
        }
    }
}

/// The joined sequence is at least as long as its first part.
pub proof fn lemma_join_lower_bound(parts: Seq<Seq<char>>, sep: char)
    requires
        parts.len() >= 1,
    ensures
        spec_join(parts, sep).len() >= parts[0].len(),
    decreases parts.len(),
{
    if parts.len() == 1 {
    } else {
        let inner = parts.drop_last();
        assert(inner[0] == parts[0]);
        lemma_join_lower_bound(inner, sep);
    }
}

/// Splits a string on a separator character; the parts joined with the
/// separator give the string back, and no part contains the separator.
pub fn split_str(s: &str, sep: char) -> (r: Vec<String>)
    ensures
        r@.len() >= 1,
        r.deep_view() == spec_split(s@, sep),
{
    let len = s.unicode_len();
    let mut parts: Vec<String> = Vec::new();
    let mut start: usize = 0;
    let mut i: usize = 0;
    proof {
        assert(s@.subrange(0, len as int) =~= s@);
        assert(parts.deep_view() =~= Seq::<Seq<char>>::empty());
        assert(parts.deep_view() + spec_split(s@, sep) =~= spec_split(s@, sep));
    }
    while i < len
        invariant
            0 <= start <= i <= len,
            len == s@.len(),
            forall|j: int| start <= j < i ==> s@[j] != sep,
            spec_split(s@, sep) == parts.deep_view() + spec_split(
                s@.subrange(start as int, len as int),
                sep,
            ),
        decreases len - i,
    {
        let c = s.get_char(i);
        if c == sep {
            let part = s.substring_char(start, i);
            let ghost old_parts = parts.deep_view();
            parts.push(part.to_owned());
            proof {
                let tail = s@.subrange(start as int, len as int);
                let tail2 = s@.subrange(i as int + 1, len as int);
                assert(forall|j: int|
                    0 <= j < i - start ==> #[trigger] tail[j] == s@[start + j] && s@[start + j]
                        != sep);
                assert(tail[i - start] == sep);
                lemma_find_char_concat(
                    tail.subrange(0, i - start),
                    tail.subrange(i - start + 1, tail.len() as int),
                    sep,
                );
                assert(tail.subrange(0, i - start) + seq![sep] + tail.subrange(
                    i - start + 1,
                    tail.len() as int,
                ) =~= tail);
                assert(find_char(tail, sep) == i - start);
                assert(tail.subrange(0, i - start) =~= part@);
                assert(tail.subrange(i - start + 1, tail.len() as int) =~= tail2);
                assert(spec_split(tail, sep) == seq![part@] + spec_split(tail2, sep));
                assert(parts.deep_view() =~= old_parts + seq![part@]);
                assert(old_parts + seq![part@] + spec_split(tail2, sep) =~= old_parts + (seq![
                    part@,
                ] + spec_split(tail2, sep)));
            }
            start = i + 1;
        }
        i = i + 1;
    }
    let last = s.substring_char(start, len);
    let ghost old_parts = parts.deep_view();
    parts.push(last.to_owned());
    proof {
        let tail = s@.subrange(start as int, len as int);
        assert(forall|j: int| 0 <= j < tail.len() ==> #[trigger] tail[j] == s@[start + j]);
        lemma_find_char_free(tail, sep);
        assert(spec_split(tail, sep) == seq![tail]);
        assert(tail =~= last@);
        assert(parts.deep_view() =~= old_parts + seq![last@]);
        assert(old_parts + seq![last@] =~= old_parts + spec_split(tail, sep));
    }
    parts
}

} // verus!
