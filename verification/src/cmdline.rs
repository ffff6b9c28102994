use vstd::prelude::*;

use crate::tok::{views_of, SP};

verus! {

/// Hyphen byte.
pub const DASH: u8 = 45;
/// Single-quote byte.
pub const QUOTE: u8 = 39;

/// NUL bytes become spaces; every other byte stays.
pub open spec fn spec_replace_nul(s: Seq<u8>) -> Seq<u8> {
    s.map_values(|c: u8| if c == 0 { SP } else { c })
}

/// A flag separator (space then hyphen) stands at `j`.
pub open spec fn spec_pat_at(s: Seq<u8>, j: int) -> bool {
    0 <= j && j + 1 < s.len() && s[j] == SP && s[j + 1] == DASH
}

/// Index of the first flag separator, or -1.
pub open spec fn spec_find_pat(s: Seq<u8>) -> int
    decreases s.len(),
{
    if s.len() < 2 {
        -1
    } else if s[0] == SP && s[1] == DASH {
        0
    } else {
        let r = spec_find_pat(s.drop_first());
        if r < 0 {
            -1
        } else {
            r + 1
        }
    }
}

/// The first flag separator, when there is one, stands within `s`.
pub proof fn lemma_find_pat_range(s: Seq<u8>)
    ensures
        -1 <= spec_find_pat(s),
        spec_find_pat(s) >= 0 ==> spec_find_pat(s) + 1 < s.len(),
    decreases s.len(),
{
    if s.len() >= 2 && !(s[0] == SP && s[1] == DASH) {
        lemma_find_pat_range(s.drop_first());
    }
}

/// The segments of `s` between flag separators, left to right and
/// non-overlapping; never empty as a whole.
pub open spec fn spec_split_flags(s: Seq<u8>) -> Seq<Seq<u8>>
    decreases s.len(),
    via spec_split_flags_decreases
{
    let k = spec_find_pat(s);
    if k < 0 {
        seq![s]
    } else {
        seq![s.take(k)] + spec_split_flags(s.skip(k + 2))
    }
}

#[via_fn]
proof fn spec_split_flags_decreases(s: Seq<u8>) {
    lemma_find_pat_range(s);
}

/// Index of the first space, or -1.
pub open spec fn spec_find_space(s: Seq<u8>) -> int
    decreases s.len(),
{
    if s.len() == 0 {
        -1
    } else if s[0] == SP {
        0
    } else {
        let r = spec_find_space(s.drop_first());
        if r < 0 {
            -1
        } else {
            r + 1
        }
    }
}

/// An ASCII whitespace byte.
pub open spec fn spec_is_ws(c: u8) -> bool {
    c == 32 || (9 <= c && c <= 13)
}

/// `s` without its trailing whitespace.
pub open spec fn spec_trim_end(s: Seq<u8>) -> Seq<u8>
    decreases s.len(),
{
    if s.len() > 0 && spec_is_ws(s.last()) {
        spec_trim_end(s.drop_last())
    } else {
        s
    }
}

/// A reconstructed flag: the leading hyphen restored; with an inner
/// space, the head becomes the flag name and the tail, trimmed, a
/// quoted value.
pub open spec fn spec_parse_arg(s: Seq<u8>) -> Seq<u8> {
    let i = spec_find_space(s);
    if i < 0 {
        seq![DASH] + s
    } else {
        seq![DASH] + s.take(i) + seq![SP, QUOTE] + spec_trim_end(s.skip(i + 1)) + seq![QUOTE]
    }
}

/// The program name a command-line text denotes: the text up to the
/// first flag separator, NULs read as spaces.
pub open spec fn spec_cmd_name(s: Seq<u8>) -> Seq<u8> {
    spec_split_flags(spec_replace_nul(s))[0]
}

/// The reconstructed flags of a command-line text, in order.
pub open spec fn spec_cmd_args(s: Seq<u8>) -> Seq<Seq<u8>> {
    spec_split_flags(spec_replace_nul(s)).drop_first().map_values(
        |t: Seq<u8>| spec_parse_arg(t),
    )
}

/// A command line: the program name and its reconstructed flags.
pub struct ProcCmd {
    /// Program name.
    pub name: Vec<u8>,
    /// Program arguments, each with its hyphen restored.
    pub args: Vec<Vec<u8>>,
}

proof fn lemma_find_pat_none(s: Seq<u8>)
    requires
        forall|j: int| !spec_pat_at(s, j),
    ensures
        spec_find_pat(s) == -1,
    decreases s.len(),
{
    if s.len() >= 2 {
        assert(!spec_pat_at(s, 0));
        assert(forall|j: int| spec_pat_at(s.drop_first(), j) ==> spec_pat_at(s, j + 1));
        lemma_find_pat_none(s.drop_first());
    }
}

proof fn lemma_find_pat_at(s: Seq<u8>, k: int)
    requires
        spec_pat_at(s, k),
        forall|j: int| 0 <= j < k ==> !spec_pat_at(s, j),
    ensures
        spec_find_pat(s) == k,
    decreases k,
{
    if k == 0 {
    } else {
        assert(!spec_pat_at(s, 0));
        assert(spec_pat_at(s.drop_first(), k - 1));
        assert(forall|j: int|
            0 <= j < k - 1 ==> spec_pat_at(s.drop_first(), j) == spec_pat_at(s, j + 1));
        lemma_find_pat_at(s.drop_first(), k - 1);
    }
}

proof fn lemma_find_space_none(s: Seq<u8>)
    requires
        forall|j: int| 0 <= j < s.len() ==> s[j] != SP,
    ensures
        spec_find_space(s) == -1,
    decreases s.len(),
{
    if s.len() > 0 {
        lemma_find_space_none(s.drop_first());
    }
}

proof fn lemma_find_space_at(s: Seq<u8>, k: int)
    requires
        0 <= k < s.len(),
        s[k] == SP,
        forall|j: int| 0 <= j < k ==> s[j] != SP,
    ensures
        spec_find_space(s) == k,
    decreases k,
{
    if k > 0 {
        lemma_find_space_at(s.drop_first(), k - 1);
    }
}

proof fn lemma_trim_end_take(s: Seq<u8>, e: int)
    requires
        0 <= e <= s.len(),
        forall|j: int| e <= j < s.len() ==> spec_is_ws(#[trigger] s[j]),
        e > 0 ==> !spec_is_ws(s[e - 1]),
    ensures
        spec_trim_end(s) == s.take(e),
    decreases s.len(),
{
    if s.len() > e {
        assert(spec_is_ws(s.last()));
        let t = s.drop_last();
        assert(t =~= s.take(s.len() - 1));
        assert(forall|j: int| e <= j < t.len() ==> spec_is_ws(#[trigger] t[j]));
        lemma_trim_end_take(t, e);
        assert(t.take(e) =~= s.take(e));
    } else {
        assert(s.take(e) =~= s);
    }
}

/// Replace every NUL byte with a space.
fn replace_nul(s: &[u8]) -> (r: Vec<u8>)
    ensures
        r@ == spec_replace_nul(s@),
{
    let mut out: Vec<u8> = Vec::new();
    let mut i: usize = 0;
    assert(out@ =~= spec_replace_nul(s@.take(0)));
    while i < s.len()
        invariant
            0 <= i <= s@.len(),
            out@ == spec_replace_nul(s@.take(i as int)),
        decreases s@.len() - i,
    {
        let c = s[i];
        if c == 0 {
            out.push(SP);
        } else {
            out.push(c);
        }
        proof {
            assert(spec_replace_nul(s@.take(i + 1)) =~= spec_replace_nul(s@.take(i as int)).push(
                if s@[i as int] == 0 {
                    SP
                } else {
                    s@[i as int]
                },
            ));
        }
        i = i + 1;
    }
    proof {
        assert(s@.take(s@.len() as int) =~= s@);
    }
    out
}

/// Split on every non-overlapping flag separator, left to right.
fn split_flags(t: &[u8]) -> (r: Vec<Vec<u8>>)
    ensures
        views_of(r@) == spec_split_flags(t@),
        r@.len() > 0,
{
    let mut segs: Vec<Vec<u8>> = Vec::new();
    let mut start: usize = 0;
    let mut i: usize = 0;
    assert(t@.skip(0) =~= t@);
    assert(views_of(segs@) + spec_split_flags(t@.skip(0)) =~= spec_split_flags(t@));
    while t.len() > 0 && i < t.len() - 1
        invariant
            0 <= start <= i <= t@.len(),
            spec_split_flags(t@) =~= views_of(segs@) + spec_split_flags(t@.skip(start as int)),
            forall|j: int| start <= j < i ==> !spec_pat_at(t@, j),
        decreases t@.len() - i,
    {
        if t[i] == SP && t[i + 1] == DASH {
            let seg = vstd::slice::slice_to_vec(vstd::slice::slice_subrange(t, start, i));
            proof {
                let u = t@.skip(start as int);
                assert(spec_pat_at(u, i - start));
                assert(forall|j: int| 0 <= j < i - start ==> !spec_pat_at(u, j)) by {
                    assert(forall|j: int|
                        0 <= j < i - start ==> spec_pat_at(u, j) == spec_pat_at(
                            t@,
                            j + start,
                        ));
                }
                lemma_find_pat_at(u, i - start);
                assert(u.take(i - start) =~= t@.subrange(start as int, i as int));
                assert(u.skip(i - start + 2) =~= t@.skip(i + 2));
                crate::tok::lemma_views_of_push(segs@, seg);
                assert(views_of(segs@.push(seg)) + spec_split_flags(t@.skip(i + 2))
                    =~= views_of(segs@) + spec_split_flags(t@.skip(start as int)));
            }
            segs.push(seg);
            start = i + 2;
            i = i + 2;
        } else {
            i = i + 1;
        }
    }
    let last = vstd::slice::slice_to_vec(vstd::slice::slice_subrange(t, start, t.len()));
    proof {
        let u = t@.skip(start as int);
        assert(forall|j: int| !spec_pat_at(u, j)) by {
            assert(forall|j: int| #[trigger]
                spec_pat_at(u, j) ==> spec_pat_at(t@, j + start));
        }
        lemma_find_pat_none(u);
        assert(u =~= t@.subrange(start as int, t@.len() as int));
        crate::tok::lemma_views_of_push(segs@, last);
        assert(views_of(segs@.push(last)) =~= views_of(segs@) + seq![u]);
    }
    segs.push(last);
    segs
}

impl ProcCmd {
    /// Reconstruct one flag from a separator-free segment.
    pub fn parse_arg(s: &[u8]) -> (r: Vec<u8>)
        ensures
            r@ == spec_parse_arg(s@),
    {
        let mut sp: usize = 0;
        let mut found = false;
        while sp < s.len() && !found
            invariant
                0 <= sp <= s@.len(),
                found ==> sp < s@.len() && s@[sp as int] == SP,
                forall|j: int| 0 <= j < sp ==> s@[j] != SP,
            decreases s@.len() - sp + (if found {
                0int
            } else {
                1int
            }),
        {
            if s[sp] == SP {
                found = true;
            } else {
                sp = sp + 1;
            }
        }
        let mut out: Vec<u8> = Vec::new();
        out.push(DASH);
        if !found {
            proof {
                lemma_find_space_none(s@);
            }
            let mut i: usize = 0;
            while i < s.len()
                invariant
                    0 <= i <= s@.len(),
                    out@ == seq![DASH] + s@.take(i as int),
                decreases s@.len() - i,
            {
                out.push(s[i]);
                proof {
                    assert(seq![DASH] + s@.take(i + 1) =~= (seq![DASH] + s@.take(
                        i as int,
                    )).push(s@[i as int]));
                }
                i = i + 1;
            }
            proof {
                assert(s@.take(s@.len() as int) =~= s@);
            }
            out
        } else {
            proof {
                lemma_find_space_at(s@, sp as int);
            }
            let mut i: usize = 0;
            while i < sp
                invariant
                    0 <= i <= sp <= s@.len(),
                    out@ == seq![DASH] + s@.take(i as int),
                decreases sp - i,
            {
                out.push(s[i]);
                proof {
                    assert(seq![DASH] + s@.take(i + 1) =~= (seq![DASH] + s@.take(
                        i as int,
                    )).push(s@[i as int]));
                }
                i = i + 1;
            }
            out.push(SP);
            out.push(QUOTE);
            let tail = vstd::slice::slice_subrange(s, sp + 1, s.len());
            let mut e: usize = 0;
            let mut j: usize = 0;
            while j < tail.len()
                invariant
                    0 <= e <= j <= tail@.len(),
                    forall|k: int| e <= k < j ==> spec_is_ws(#[trigger] tail@[k]),
                    e > 0 ==> !spec_is_ws(tail@[e - 1]),
                decreases tail@.len() - j,
            {
                let c = tail[j];
                if !(c == 32 || (9 <= c && c <= 13)) {
                    e = j + 1;
                }
                j = j + 1;
            }
            proof {
                lemma_trim_end_take(tail@, e as int);
            }
            let ghost mid = out@;
            let mut k: usize = 0;
            while k < e
                invariant
                    0 <= k <= e <= tail@.len(),
                    out@ == mid + tail@.take(k as int),
                decreases e - k,
            {
                out.push(tail[k]);
                proof {
                    assert(mid + tail@.take(k + 1) =~= (mid + tail@.take(k as int)).push(
                        tail@[k as int],
                    ));
                }
                k = k + 1;
            }
            proof {
                assert(tail@.take(e as int).take(e as int) =~= tail@.take(e as int));
            }
            out.push(QUOTE);
            proof {
                assert(tail@ =~= s@.skip(sp + 1));
                assert(out@ =~= spec_parse_arg(s@));
            }
            out
        }
    }

    /// Parse a command-line text: NULs become spaces, the text splits on
    /// flag separators, and each flag is reconstructed behind the
    /// program name.
    pub fn parse(text: &[u8]) -> (r: ProcCmd)
        ensures
            r.name@ == spec_cmd_name(text@),
            views_of(r.args@) == spec_cmd_args(text@),
    {
        let t = replace_nul(text);
        let mut segs = split_flags(t.as_slice());
        let ghost all = views_of(segs@);
        let name = segs.remove(0);
        let mut args: Vec<Vec<u8>> = Vec::new();
        let mut i: usize = 0;
        assert(views_of(segs@) =~= all.drop_first());
        assert(views_of(args@) =~= all.drop_first().take(0).map_values(
            |u: Seq<u8>| spec_parse_arg(u),
        ));
        while i < segs.len()
            invariant
                0 <= i <= segs@.len(),
                views_of(segs@) == all.drop_first(),
                views_of(args@) == all.drop_first().take(i as int).map_values(
                    |u: Seq<u8>| spec_parse_arg(u),
                ),
            decreases segs@.len() - i,
        {
            let a = ProcCmd::parse_arg(segs[i].as_slice());
            proof {
                crate::tok::lemma_views_of_push(args@, a);
                assert(all.drop_first().take(i + 1).map_values(|u: Seq<u8>| spec_parse_arg(u))
                    =~= all.drop_first().take(i as int).map_values(
                    |u: Seq<u8>| spec_parse_arg(u),
                ).push(spec_parse_arg(all.drop_first()[i as int])));
            }
            args.push(a);
            i = i + 1;
        }
        proof {
            assert(all.drop_first().take(segs@.len() as int) =~= all.drop_first());
        }
        ProcCmd { name, args }
    }
}

} // verus!
