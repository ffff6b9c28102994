use vstd::prelude::*;

verus! {

/// Failure of one inspection source: a token or line that does not parse,
/// or a read that the system refused.
#[derive(Debug)]
pub enum Error {
    /// The offending text, most often the line that failed to parse.
    ParseError(Vec<u8>),
    /// A description of the read failure; built by the caller that
    /// performed the read.
    IoError(String),
}

/// `n` copies of byte `b`.
pub open spec fn spec_repeat(b: u8, n: nat) -> Seq<u8> {
    Seq::new(n, |i: int| b)
}

/// A centered header: `title` between two runs of `dot`, `width` bytes in
/// all, the left run the shorter on an odd split.
pub open spec fn spec_draw_line(dot: u8, title: Seq<u8>, width: nat) -> Seq<u8> {
    let pad = (width - title.len()) as nat;
    spec_repeat(dot, pad / 2) + title + spec_repeat(dot, (pad - pad / 2) as nat)
}

fn push_repeat(v: &mut Vec<u8>, b: u8, n: usize)
    ensures
        final(v)@ == old(v)@ + spec_repeat(b, n as nat),
{
    let mut k: usize = 0;
    while k < n
        invariant
            0 <= k <= n,
            v@ == old(v)@ + spec_repeat(b, k as nat),
        decreases n - k,
    {
        v.push(b);
        proof {
            assert(old(v)@ + spec_repeat(b, (k + 1) as nat) =~= (old(v)@ + spec_repeat(
                b,
                k as nat,
            )).push(b));
        }
        k = k + 1;
    }
}

/// Render a centered section header of `width` bytes, dotted with `dot`;
/// `None` when the title does not fit.
pub fn draw_line(dot: u8, title: &[u8], width: usize) -> (r: Option<Vec<u8>>)
    ensures
        r is Some <==> title@.len() <= width,
        r is Some ==> r.unwrap()@ == spec_draw_line(dot, title@, width as nat),
{
    if title.len() > width {
        return None;
    }
    let pad = width - title.len();
    let mut out: Vec<u8> = Vec::new();
    push_repeat(&mut out, dot, pad / 2);
    let mut i: usize = 0;
    while i < title.len()
        invariant
            0 <= i <= title@.len(),
            out@ == spec_repeat(dot, ((width - title@.len()) as nat) / 2) + title@.take(i as int),
        decreases title@.len() - i,
    {
        out.push(title[i]);
        proof {
            assert(title@.take(i + 1) =~= title@.take(i as int).push(title@[i as int]));
        }
        i = i + 1;
    }
    proof {
        assert(title@.take(title@.len() as int) =~= title@);
    }
    push_repeat(&mut out, dot, pad - pad / 2);
    Some(out)
}

/// The share of `value` in `base`, as a whole percentage truncated
/// downward: clamped to 100 when `value` exceeds `base`, 0 when both are
/// zero.
pub open spec fn spec_percentage(value: u64, base: u64) -> u32 {
    if value > base {
        100
    } else if base == 0 {
        0
    } else {
        ((value as int) * 100 / (base as int)) as u32
    }
}

/// The share of `value` in `base`, as a whole percentage truncated
/// downward, clamped to 100 when `value` exceeds `base`, and 0 when both
/// are zero.
pub fn percentage(value: u64, base: u64) -> (r: u32)
    ensures
        r == spec_percentage(value, base),
        value > base ==> r == 100,
        base == 0 && value == 0 ==> r == 0,
        value <= base && base > 0 ==> r == (value as int) * 100 / (base as int),
{
    if value > base {
        100
    } else if base == 0 {
        0
    } else {
        let wide = (value as u128) * 100 / (base as u128);
        proof {
            assert((value as u128) * 100 == (value as int) * 100) by (nonlinear_arith);
            assert((value as int) * 100 <= (base as int) * 100) by (nonlinear_arith)
                requires
                    value <= base,
            ;
            vstd::arithmetic::div_mod::lemma_div_is_ordered(
                (value as int) * 100,
                (base as int) * 100,
                base as int,
            );
            vstd::arithmetic::div_mod::lemma_div_by_multiple(100, base as int);
            assert((base as int) * 100 == 100 * (base as int)) by (nonlinear_arith);
            assert(((value as int) * 100) / (base as int) <= 100);
        }
        wide as u32
    }
}

} // verus!
