//! Text: how it is split into pieces, and the encodings between text and
//! bytes.

use vstd::prelude::*;
use vstd::string::StrSliceExecFns;
use vstd::string::StringExecFns;

pub mod encoding;

verus! {

/// The pieces of `s` between the occurrences of `sep`, in order. A text
/// without `sep` is its own single piece, and so is the empty text.
pub open spec fn spec_split(s: Seq<char>, sep: char) -> Seq<Seq<char>>
    decreases s.len(),
{
    if s.len() == 0 {
        seq![Seq::<char>::empty()]
    } else if s[0] == sep {
        seq![Seq::<char>::empty()] + spec_split(s.skip(1), sep)
    } else {
        let rest = spec_split(s.skip(1), sep);
        rest.update(0, seq![s[0]] + rest[0])
    }
}

/// `pieces` with `head` put in front of its first piece.
pub open spec fn spec_prepend(head: Seq<char>, pieces: Seq<Seq<char>>) -> Seq<Seq<char>> {
    pieces.update(0, head + pieces[0])
}

pub proof fn lemma_split_nonempty(s: Seq<char>, sep: char)
    ensures
        spec_split(s, sep).len() >= 1,
    decreases s.len(),
{
    if s.len() > 0 {
        lemma_split_nonempty(s.skip(1), sep);
    }
}

/// Splitting `s` from position `i` on, with the piece begun at `start`
/// still open.
proof fn lemma_split_step(s: Seq<char>, sep: char, start: int, i: int)
    requires
        0 <= start <= i < s.len(),
        forall|j: int| start <= j < i ==> s[j] != sep,
    ensures
        s[i] == sep ==> spec_prepend(s.subrange(start, i), spec_split(s.skip(i), sep)) == seq![
            s.subrange(start, i),
        ] + spec_split(s.skip(i + 1), sep),
        s[i] != sep ==> spec_prepend(s.subrange(start, i), spec_split(s.skip(i), sep))
            == spec_prepend(s.subrange(start, i + 1), spec_split(s.skip(i + 1), sep)),
{
    let tail = s.skip(i);
    assert(tail.skip(1) =~= s.skip(i + 1));
    assert(tail[0] == s[i]);
    let rest = spec_split(s.skip(i + 1), sep);
    lemma_split_nonempty(s.skip(i + 1), sep);
    let head = s.subrange(start, i);
    if s[i] == sep {
        assert(head + Seq::<char>::empty() =~= head);
        assert(spec_prepend(head, seq![Seq::<char>::empty()] + rest) =~= seq![head] + rest);
    } else {
        assert(head + (seq![s[i]] + rest[0]) =~= s.subrange(start, i + 1) + rest[0]);
        assert(spec_prepend(head, rest.update(0, seq![s[i]] + rest[0])) =~= spec_prepend(
            s.subrange(start, i + 1),
            rest,
        ));
    }
}

/// Splits `s` at every occurrence of `sep`.
pub fn split(s: &str, sep: char) -> (r: Vec<String>)
    ensures
        r@.len() == spec_split(s@, sep).len(),
        forall|k: int| 0 <= k < r@.len() ==> (#[trigger] r@[k])@ == spec_split(s@, sep)[k],
{
    let n = s.unicode_len();
    let mut out: Vec<String> = Vec::new();
    let mut start: usize = 0;
    let mut i: usize = 0;
    proof {
        lemma_split_nonempty(s@, sep);
        assert(s@.skip(0) =~= s@);
        assert(s@.subrange(0, 0) + spec_split(s@, sep)[0] =~= spec_split(s@, sep)[0]);
        assert(spec_prepend(s@.subrange(0, 0), spec_split(s@, sep)) =~= spec_split(s@, sep));
    }
    while i < n
        invariant
            n == s@.len(),
            start <= i <= n,
            forall|j: int| start <= j < i ==> s@[j] != sep,
            spec_split(s@, sep) == out@.map_values(|p: String| p@) + spec_prepend(
                s@.subrange(start as int, i as int),
                spec_split(s@.skip(i as int), sep),
            ),
        decreases n - i,
    {
        let c = s.get_char(i);
        proof {
            lemma_split_step(s@, sep, start as int, i as int);
        }
        if c == sep {
            let piece = s.substring_char(start, i);
            let ghost before = out@.map_values(|p: String| p@);
            out.push(String::from_str(piece));
            proof {
                assert(out@.map_values(|p: String| p@) =~= before.push(piece@));
                assert(s@.subrange(i + 1, i + 1) + spec_split(s@.skip(i + 1), sep)[0]
                    =~= spec_split(s@.skip(i + 1), sep)[0]);
                lemma_split_nonempty(s@.skip(i + 1), sep);
                assert(spec_prepend(s@.subrange(i + 1, i + 1), spec_split(s@.skip(i + 1), sep))
                    =~= spec_split(s@.skip(i + 1), sep));
                assert(before.push(piece@) + spec_split(s@.skip(i + 1), sep) =~= before + (
                seq![piece@] + spec_split(s@.skip(i + 1), sep)));
            }
            start = i + 1;
        }
        i += 1;
    }
    let piece = s.substring_char(start, n);
    let ghost before = out@.map_values(|p: String| p@);
    out.push(String::from_str(piece));
    proof {
        assert(out@.map_values(|p: String| p@) =~= before.push(piece@));
        assert(s@.skip(n as int) =~= Seq::<char>::empty());
        assert(piece@ + Seq::<char>::empty() =~= piece@);
        assert(spec_prepend(piece@, spec_split(s@.skip(n as int), sep)) =~= seq![piece@]);
        assert(spec_split(s@, sep) =~= out@.map_values(|p: String| p@));
        assert forall|k: int| 0 <= k < out@.len() implies (#[trigger] out@[k])@ == spec_split(
            s@,
            sep,
        )[k] by {
            assert(out@.map_values(|p: String| p@)[k] == out@[k]@);
        }
    }
    out
}

} // verus!
