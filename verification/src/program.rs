//! The program: an immutable sequence of instruction symbols together with
//! the precomputed table that pairs every loop-open bracket with its loop-close
//! bracket and back.
//!
//! The loop resolver walks the symbols once, left to right, keeping a stack of
//! pending `[` positions: a `[` is pushed, a `]` pops its partner. A `]` that
//! finds the stack empty is an unmatched close; a `[` still on the stack at the
//! end is an unmatched open. Popping (rather than peeking) is what makes nested
//! and sequential loops resolve to their own bracket.

use vstd::prelude::*;

use crate::errors::VmError;

verus! {

/// Add one to the cell under the pointer.
pub const SYM_INC: u8 = 43;

/// Subtract one from the cell under the pointer.
pub const SYM_DEC: u8 = 45;

/// Move the pointer one cell to the right.
pub const SYM_RIGHT: u8 = 62;

/// Move the pointer one cell to the left.
pub const SYM_LEFT: u8 = 60;

/// Emit the cell under the pointer as one output byte.
pub const SYM_WRITE: u8 = 46;

/// Read one input byte into the cell under the pointer.
pub const SYM_READ: u8 = 44;

/// Open a loop: taken when the cell under the pointer is non-zero.
pub const SYM_OPEN: u8 = 91;

/// Close a loop: jumps back while the cell under the pointer is non-zero.
pub const SYM_CLOSE: u8 = 93;

/// The bracket depth of the prefix `s[0..n]`: opens minus closes seen so far.
pub open spec fn depth(s: Seq<u8>, n: int) -> int
    decreases n,
{
    if n <= 0 {
        0
    } else {
        depth(s, n - 1) + if s[n - 1] == SYM_OPEN {
            1int
        } else if s[n - 1] == SYM_CLOSE {
            -1int
        } else {
            0int
        }
    }
}

/// No prefix closes more brackets than it has opened.
pub open spec fn closes_matched(s: Seq<u8>) -> bool {
    forall|m: int| 0 <= m <= s.len() ==> depth(s, m) >= 0
}

/// Every bracket has a partner: no prefix over-closes, and the whole
/// sequence returns to depth zero.
pub open spec fn balanced(s: Seq<u8>) -> bool {
    closes_matched(s) && depth(s, s.len() as int) == 0
}

/// The open at `i` and the close at `j` are a stack-matched pair: between
/// them the depth never comes back down to the level of `i`, and the close
/// at `j` is what first brings it back. This is the LIFO pairing, not
/// nearest-neighbour pairing, and it determines `j` from `i` uniquely.
pub open spec fn is_match_pair(s: Seq<u8>, i: int, j: int) -> bool {
    &&& 0 <= i < j < s.len()
    &&& s[i] == SYM_OPEN
    &&& s[j] == SYM_CLOSE
    &&& depth(s, j) == depth(s, i) + 1
    &&& forall|m: int| i < m <= j ==> depth(s, m) > depth(s, i)
}

/// `position` carries the first `]` that over-closes: the depth in front of
/// it is already zero, and no earlier prefix ever went negative.
pub open spec fn unmatched_close_at(s: Seq<u8>, position: usize) -> bool {
    &&& !closes_matched(s)
    &&& position < s.len()
    &&& s[position as int] == SYM_CLOSE
    &&& depth(s, position as int) == 0
    &&& forall|m: int| 0 <= m <= position ==> depth(s, m) >= 0
}

/// `position` carries the last `[` left pending: no prefix over-closes, the
/// whole sequence ends above depth zero, and the depth never comes back down
/// to the level this open sits on.
pub open spec fn unmatched_open_at(s: Seq<u8>, position: usize) -> bool {
    &&& closes_matched(s)
    &&& depth(s, s.len() as int) > 0
    &&& position < s.len()
    &&& s[position as int] == SYM_OPEN
    &&& depth(s, position as int) == depth(s, s.len() as int) - 1
    &&& forall|m: int| position < m <= s.len() ==> depth(s, m) > depth(s, position as int)
}

/// The jump table covers exactly the bracket positions of `s`, sending every
/// open to its stack-matched close and every close back to its open.
pub open spec fn wf_jumps(s: Seq<u8>, jumps: Seq<usize>) -> bool {
    &&& jumps.len() == s.len()
    &&& forall|i: int|
        #![trigger s[i]]
        #![trigger jumps[i]]
        0 <= i < s.len() && s[i] == SYM_OPEN ==> is_match_pair(s, i, jumps[i] as int)
            && jumps[jumps[i] as int] == i
    &&& forall|j: int|
        #![trigger s[j]]
        #![trigger jumps[j]]
        0 <= j < s.len() && s[j] == SYM_CLOSE ==> is_match_pair(s, jumps[j] as int, j)
            && jumps[jumps[j] as int] == j
}

/// A loaded program: the symbols and the loop-bracket jump table, built once
/// at load time and immutable afterwards.
#[derive(Debug)]
pub struct Program {
    pub symbols: Vec<u8>,
    pub jumps: Vec<usize>,
}

impl Program {
    /// The jump table really is the stack matching of the symbols.
    pub open spec fn wf(&self) -> bool {
        wf_jumps(self.symbols@, self.jumps@)
    }

    /// Load a program: resolve the loop brackets of `source` or report the
    /// first unmatched one. Loading succeeds exactly on bracket-balanced
    /// sources; any byte other than the eight instruction symbols is kept as
    /// a position-preserving no-op.
    pub fn new(source: Vec<u8>) -> (r: Result<Program, VmError>)
        ensures
            r is Ok <==> balanced(source@),
            match r {
                Ok(prog) => {
                    &&& prog.symbols@ == source@
                    &&& prog.wf()
                },
                Err(e) => match e {
                    VmError::UnmatchedClose { position } => unmatched_close_at(source@, position),
                    VmError::UnmatchedOpen { position } => unmatched_open_at(source@, position),
                    VmError::PointerOutOfBounds { .. } => false,
                },
            },
    {
        let ghost s = source@;
        let n: usize = source.len();

        let mut jumps: Vec<usize> = Vec::new();
        let mut i: usize = 0;
        while i < n
            invariant
                i <= n,
                jumps@.len() == i,
            decreases n - i,
        {
            jumps.push(0);
            i = i + 1;
        }

        let mut stack: Vec<usize> = Vec::new();
        let mut pos: usize = 0;
        while pos < n
            invariant
                pos <= n,
                n == s.len(),
                s == source@,
                jumps@.len() == n,
                stack@.len() == depth(s, pos as int),
                forall|m: int| 0 <= m <= pos ==> depth(s, m) >= 0,
                forall|t: int|
                    #![trigger stack@[t]]
                    0 <= t < stack@.len() ==> {
                        &&& stack@[t] < pos
                        &&& s[stack@[t] as int] == SYM_OPEN
                        &&& depth(s, stack@[t] as int) == t
                        &&& forall|m: int| stack@[t] < m <= pos ==> depth(s, m) > t
                    },
                forall|p: int|
                    #![trigger s[p]]
                    0 <= p < pos && s[p] == SYM_CLOSE ==> {
                        &&& is_match_pair(s, jumps@[p] as int, p)
                        &&& jumps@[jumps@[p] as int] == p
                    },
                forall|p: int|
                    #![trigger s[p]]
                    0 <= p < pos && s[p] == SYM_OPEN && (exists|m: int|
                        p < m <= pos && depth(s, m) <= depth(s, p)) ==> {
                        &&& is_match_pair(s, p, jumps@[p] as int)
                        &&& jumps@[p] < pos
                        &&& jumps@[jumps@[p] as int] == p
                    },
            decreases n - pos,
        {
            let c = source[pos];
            if c == SYM_OPEN {
                stack.push(pos);
                proof {
                    assert(depth(s, pos + 1) == depth(s, pos as int) + 1);
                    assert forall|t: int| 0 <= t < stack@.len() implies {
                        &&& stack@[t] < pos + 1
                        &&& s[stack@[t] as int] == SYM_OPEN
                        &&& depth(s, stack@[t] as int) == t
                        &&& forall|m: int| stack@[t] < m <= pos + 1 ==> depth(s, m) > t
                    } by {
                        if t < stack@.len() - 1 {
                            assert(depth(s, pos as int) > t);
                        }
                    }
                    assert forall|p: int|
                        0 <= p < pos + 1 && s[p] == SYM_OPEN && (exists|m: int|
                            p < m <= pos + 1 && depth(s, m) <= depth(s, p)) implies {
                        &&& is_match_pair(s, p, jumps@[p] as int)
                        &&& jumps@[p] < pos + 1
                        &&& jumps@[jumps@[p] as int] == p
                    } by {
                        let m: int = choose|m: int|
                            p < m <= pos + 1 && depth(s, m) <= depth(s, p);
                        if m == pos + 1 {
                            assert(p < pos);
                            assert(depth(s, pos as int) <= depth(s, p));
                            assert(exists|m2: int| p < m2 <= pos && depth(s, m2) <= depth(s, p));
                        } else {
                            assert(exists|m2: int| p < m2 <= pos && depth(s, m2) <= depth(s, p));
                        }
                    }
                }
            } else if c == SYM_CLOSE {
                if stack.len() == 0 {
                    proof {
                        assert(depth(s, pos + 1) == depth(s, pos as int) - 1);
                        assert(depth(s, pos + 1) < 0);
                        assert(!closes_matched(s));
                    }
                    return Err(VmError::UnmatchedClose { position: pos });
                }
                let open_idx = stack[stack.len() - 1];
                stack.pop();
                let ghost d_here: int = depth(s, pos as int);
                let ghost old_jumps = jumps@;
                jumps.set(open_idx, pos);
                jumps.set(pos, open_idx);
                proof {
                    assert(depth(s, pos + 1) == d_here - 1);
                    assert(s[open_idx as int] == SYM_OPEN);
                    assert(depth(s, open_idx as int) == d_here - 1);
                    assert(forall|m: int|
                        open_idx < m <= pos ==> depth(s, m) > d_here - 1);
                    assert(is_match_pair(s, open_idx as int, pos as int));

                    // Every close matched before still points at its own open:
                    // its open cannot be `open_idx`, which was still pending.
                    assert forall|p: int| 0 <= p < pos + 1 && s[p] == SYM_CLOSE implies {
                        &&& is_match_pair(s, jumps@[p] as int, p)
                        &&& jumps@[jumps@[p] as int] == p
                    } by {
                        if p < pos {
                            let q: int = old_jumps[p] as int;
                            assert(is_match_pair(s, q, p));
                            if q == open_idx as int {
                                assert(depth(s, p + 1) == depth(s, p) - 1);
                                assert(depth(s, p + 1) > d_here - 1);
                                assert(false);
                            }
                            assert(jumps@[p] == old_jumps[p]);
                            assert(jumps@[q] == old_jumps[q]);
                        } else {
                            assert(jumps@[p] == open_idx);
                            assert(jumps@[open_idx as int] == pos);
                        }
                    }

                    // Every open whose level is now closed is matched: the one
                    // newly closed is exactly `open_idx`.
                    assert forall|p: int|
                        0 <= p < pos + 1 && s[p] == SYM_OPEN && (exists|m: int|
                            p < m <= pos + 1 && depth(s, m) <= depth(s, p)) implies {
                        &&& is_match_pair(s, p, jumps@[p] as int)
                        &&& jumps@[p] < pos + 1
                        &&& jumps@[jumps@[p] as int] == p
                    } by {
                        let m: int = choose|m: int|
                            p < m <= pos + 1 && depth(s, m) <= depth(s, p);
                        if p == open_idx as int {
                            assert(jumps@[p] == pos);
                            assert(jumps@[pos as int] == open_idx);
                        } else {
                            assert(p < pos);
                            if exists|m2: int| p < m2 <= pos && depth(s, m2) <= depth(s, p) {
                                let q: int = old_jumps[p] as int;
                                assert(is_match_pair(s, p, q));
                                assert(s[q] == SYM_CLOSE);
                                assert(jumps@[p] == old_jumps[p]);
                                assert(jumps@[q] == old_jumps[q]);
                            } else {
                                assert(forall|m2: int|
                                    p < m2 <= pos ==> depth(s, m2) > depth(s, p));
                                assert(m == pos + 1);
                                assert(depth(s, pos + 1) <= depth(s, p));
                                if depth(s, p) >= d_here {
                                    assert(depth(s, pos as int) <= depth(s, p));
                                    assert(false);
                                }
                                assert(depth(s, p) == d_here - 1);
                                if p < open_idx as int {
                                    assert(depth(s, open_idx as int) > depth(s, p));
                                    assert(false);
                                } else {
                                    assert(depth(s, p) > d_here - 1);
                                    assert(false);
                                }
                            }
                        }
                    }

                    // The remaining stack entries keep their pending property.
                    assert forall|t: int| 0 <= t < stack@.len() implies {
                        &&& stack@[t] < pos + 1
                        &&& s[stack@[t] as int] == SYM_OPEN
                        &&& depth(s, stack@[t] as int) == t
                        &&& forall|m: int| stack@[t] < m <= pos + 1 ==> depth(s, m) > t
                    } by {
                        assert(depth(s, pos + 1) == d_here - 1);
                        assert(t < d_here - 1);
                    }
                }
            } else {
                proof {
                    assert(depth(s, pos + 1) == depth(s, pos as int));
                    assert forall|p: int|
                        0 <= p < pos + 1 && s[p] == SYM_OPEN && (exists|m: int|
                            p < m <= pos + 1 && depth(s, m) <= depth(s, p)) implies {
                        &&& is_match_pair(s, p, jumps@[p] as int)
                        &&& jumps@[p] < pos + 1
                        &&& jumps@[jumps@[p] as int] == p
                    } by {
                        let m: int = choose|m: int|
                            p < m <= pos + 1 && depth(s, m) <= depth(s, p);
                        assert(p != pos);
                        if m == pos + 1 {
                            assert(depth(s, pos as int) <= depth(s, p));
                            assert(exists|m2: int| p < m2 <= pos && depth(s, m2) <= depth(s, p));
                        } else {
                            assert(exists|m2: int| p < m2 <= pos && depth(s, m2) <= depth(s, p));
                        }
                    }
                }
            }
            pos = pos + 1;
        }

        if stack.len() > 0 {
            let top = stack[stack.len() - 1];
            proof {
                assert(depth(s, n as int) == stack@.len());
                assert(depth(s, top as int) == stack@.len() - 1);
            }
            return Err(VmError::UnmatchedOpen { position: top });
        }

        proof {
            assert(depth(s, n as int) == 0);
            assert forall|p: int| 0 <= p < n && s[p] == SYM_OPEN implies {
                &&& is_match_pair(s, p, jumps@[p] as int)
                &&& jumps@[jumps@[p] as int] == p
            } by {
                assert(depth(s, p) >= 0);
                assert(p < n as int && depth(s, n as int) <= depth(s, p));
                assert(exists|m: int| p < m <= n && depth(s, m) <= depth(s, p));
            }
            assert(wf_jumps(s, jumps@));
        }
        Ok(Program { symbols: source, jumps })
    }
}

/// The resolver's mapping is a bijection between the open-bracket and the
/// close-bracket positions: it sends opens to closes and closes to opens
/// (`wf_jumps`), it is injective on the bracket positions, and it is its own
/// inverse, so every mapped pair is counted from both ends; every open maps
/// strictly forward (`is_match_pair` gives `open < close`).
pub proof fn lemma_jumps_bijective(s: Seq<u8>, jumps: Seq<usize>, i: int, j: int)
    requires
        wf_jumps(s, jumps),
        0 <= i < s.len(),
        0 <= j < s.len(),
        s[i] == SYM_OPEN || s[i] == SYM_CLOSE,
        s[j] == SYM_OPEN || s[j] == SYM_CLOSE,
        jumps[i] == jumps[j],
    ensures
        i == j,
        jumps[jumps[i] as int] == i,
        s[i] == SYM_OPEN ==> s[jumps[i] as int] == SYM_CLOSE && i < jumps[i],
        s[i] == SYM_CLOSE ==> s[jumps[i] as int] == SYM_OPEN && jumps[i] < i,
{
    assert(jumps[jumps[i] as int] == i);
    assert(jumps[jumps[j] as int] == j);
}

/// Every loop-open bracket has exactly one stack-matched close: a second
/// close paired with the same open would have to bring the depth back down
/// inside the region the first pair keeps strictly above it.
pub proof fn lemma_match_pair_unique_close(s: Seq<u8>, i: int, j1: int, j2: int)
    requires
        is_match_pair(s, i, j1),
        is_match_pair(s, i, j2),
    ensures
        j1 == j2,
{
    if j1 < j2 {
        assert(depth(s, j1 + 1) == depth(s, j1) - 1);
        assert(depth(s, j1 + 1) > depth(s, i));
        assert(false);
    } else if j2 < j1 {
        assert(depth(s, j2 + 1) == depth(s, j2) - 1);
        assert(depth(s, j2 + 1) > depth(s, i));
        assert(false);
    }
}

/// Every loop-close bracket has exactly one stack-matched open: two opens
/// paired with the same close would sit on the same depth level, yet the
/// earlier pair keeps every level between them strictly higher.
pub proof fn lemma_match_pair_unique_open(s: Seq<u8>, i1: int, i2: int, j: int)
    requires
        is_match_pair(s, i1, j),
        is_match_pair(s, i2, j),
    ensures
        i1 == i2,
{
    if i1 < i2 {
        assert(depth(s, i2) == depth(s, i1));
        assert(false);
    } else if i2 < i1 {
        assert(depth(s, i1) == depth(s, i2));
        assert(false);
    }
}

/// All well-formed jump tables over the same symbols agree on every bracket
/// position: the stack matching is unique, so a contract quantifying over a
/// well-formed table picks a single semantics for the loop jumps.
pub proof fn lemma_wf_jumps_agree(s: Seq<u8>, jumps1: Seq<usize>, jumps2: Seq<usize>, i: int)
    requires
        wf_jumps(s, jumps1),
        wf_jumps(s, jumps2),
        0 <= i < s.len(),
        s[i] == SYM_OPEN || s[i] == SYM_CLOSE,
    ensures
        jumps1[i] == jumps2[i],
{
    if s[i] == SYM_OPEN {
        lemma_match_pair_unique_close(s, i, jumps1[i] as int, jumps2[i] as int);
    } else {
        lemma_match_pair_unique_open(s, jumps1[i] as int, jumps2[i] as int, i);
    }
}

} // verus!
