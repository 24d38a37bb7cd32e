//! Tokenizing the configured server command line: naive splitting on single
//! spaces, with a trailing terminator dropped (no quote handling).

use vstd::prelude::*;
use crate::util::copy_range;

verus! {

/// Index of the first space in `s`, or its length when there is none.
pub open spec fn first_space(s: Seq<u8>) -> int
    decreases s.len(),
{
    if s.len() == 0 {
        0
    } else if s[0] == 32 {
        0
    } else {
        1 + first_space(s.skip(1))
    }
}

pub proof fn lemma_first_space_bounds(s: Seq<u8>)
    ensures
        0 <= first_space(s) <= s.len(),
        forall|j: int| 0 <= j < first_space(s) ==> s[j] != 32,
        first_space(s) < s.len() ==> s[first_space(s)] == 32,
    decreases s.len(),
{
    if s.len() > 0 && s[0] != 32 {
        lemma_first_space_bounds(s.skip(1));
        assert forall|j: int| 0 <= j < first_space(s) implies s[j] != 32 by {
            if j > 0 {
                assert(s.skip(1)[j - 1] == s[j]);
            }
        }
        if first_space(s) < s.len() {
            assert(s.skip(1)[first_space(s) - 1] == s[first_space(s)]);
        }
    }
}

/// A space-free prefix of length `k`, followed by a space or the end, pins
/// the first space down to `k`.
pub proof fn lemma_first_space_exact(s: Seq<u8>, k: int)
    requires
        0 <= k <= s.len(),
        forall|j: int| 0 <= j < k ==> s[j] != 32,
        k == s.len() || s[k] == 32,
    ensures
        first_space(s) == k,
    decreases k,
{
    lemma_first_space_bounds(s);
    if k > 0 {
        assert forall|j: int| 0 <= j < k - 1 implies s.skip(1)[j] != 32 by {
            assert(s.skip(1)[j] == s[j + 1]);
        }
        if k < s.len() {
            assert(s.skip(1)[k - 1] == s[k]);
        }
        lemma_first_space_exact(s.skip(1), k - 1);
    }
}

/// The command line split on single spaces: every run between two spaces is
/// one argument (so doubled spaces yield empty arguments), and a trailing
/// space ends the last argument without opening a new one.
pub open spec fn spec_split_args(s: Seq<u8>) -> Seq<Seq<u8>>
    decreases s.len(),
    via spec_split_args_decreases
{
    if s.len() == 0 {
        Seq::empty()
    } else {
        let k = first_space(s);
        if k == s.len() {
            seq![s]
        } else {
            seq![s.take(k)] + spec_split_args(s.skip(k + 1))
        }
    }
}

#[via_fn]
proof fn spec_split_args_decreases(s: Seq<u8>) {
    lemma_first_space_bounds(s);
}

/// Split the command line `cmd` on spaces (see [`spec_split_args`]).
#[verifier::loop_isolation(false)]
pub fn split_args(cmd: &[u8]) -> (r: Vec<Vec<u8>>)
    ensures
        r@.map_values(|v: Vec<u8>| v@) == spec_split_args(cmd@),
{
    let mut out: Vec<Vec<u8>> = Vec::new();
    let mut i: usize = 0;
    proof {
        assert(cmd@.skip(0) =~= cmd@);
        assert(out@.map_values(|v: Vec<u8>| v@) =~= Seq::<Seq<u8>>::empty());
    }
    while i < cmd.len()
        invariant
            i <= cmd@.len(),
            spec_split_args(cmd@) == out@.map_values(|v: Vec<u8>| v@)
                + spec_split_args(cmd@.skip(i as int)),
        decreases cmd@.len() - i,
    {
        let ghost tail = cmd@.skip(i as int);
        let mut j: usize = i;
        while j < cmd.len() && cmd[j] != 32
            invariant
                i <= j <= cmd@.len(),
                forall|t: int| 0 <= t < j - i ==> tail[t] != 32,
            decreases cmd@.len() - j,
        {
            proof {
                assert(tail[j - i as int] == cmd@[j as int]);
            }
            j = j + 1;
        }
        proof {
            if j < cmd.len() {
                assert(tail[j - i as int] == cmd@[j as int]);
            }
            lemma_first_space_exact(tail, j - i as int);
        }
        let piece = copy_range(cmd, i, j);
        proof {
            assert(cmd@.subrange(i as int, j as int) =~= tail.take(j - i as int));
        }
        out.push(piece);
        if j == cmd.len() {
            proof {
                assert(tail.take(j - i as int) =~= tail);
                assert(spec_split_args(tail) == seq![tail]);
                assert(out@.map_values(|v: Vec<u8>| v@)
                    =~= out@.map_values(|v: Vec<u8>| v@).drop_last().push(tail));
                assert(out@.map_values(|v: Vec<u8>| v@).drop_last().push(tail)
                    =~= out@.map_values(|v: Vec<u8>| v@).drop_last() + seq![tail]);
            }
            return out;
        }
        proof {
            assert(tail.skip(j - i as int + 1) =~= cmd@.skip(j as int + 1));
            assert(out@.map_values(|v: Vec<u8>| v@)
                =~= out@.map_values(|v: Vec<u8>| v@).drop_last() + seq![tail.take(j - i as int)]);
        }
        i = j + 1;
    }
    proof {
        assert(cmd@.skip(i as int).len() == 0);
        assert(spec_split_args(cmd@.skip(i as int)) =~= Seq::<Seq<u8>>::empty());
        assert(out@.map_values(|v: Vec<u8>| v@)
            + Seq::<Seq<u8>>::empty() =~= out@.map_values(|v: Vec<u8>| v@));
    }
    out
}

} // verus!
