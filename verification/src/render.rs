use vstd::prelude::*;

use crate::cmdline::{ProcCmd, DASH};
use crate::common::{draw_line, percentage, spec_draw_line};
use crate::smaps::{ProcSmaps, SmapsModel, SmapsVma, VmaModel, views_of_vmas};
use crate::status::ProcStatus;
use crate::tok::{views_of, NL, SP};

verus! {

/// Decimal digits of `n`, most significant first.
pub open spec fn spec_dec(n: u64) -> Seq<u8>
    decreases n,
{
    if n < 10 {
        seq![(48 + n) as u8]
    } else {
        spec_dec(n / 10).push((48 + n % 10) as u8)
    }
}

/// Uppercase hexadecimal digit of value `d` below 16.
pub open spec fn spec_hex_digit(d: u64) -> u8 {
    if d < 10 {
        (48 + d) as u8
    } else {
        (55 + d) as u8
    }
}

/// Uppercase hexadecimal digits of `n`, most significant first.
pub open spec fn spec_hex(n: u64) -> Seq<u8>
    decreases n,
{
    if n < 16 {
        seq![spec_hex_digit(n)]
    } else {
        spec_hex(n / 16).push(spec_hex_digit(n % 16))
    }
}

/// `s` padded on the left with spaces up to `w` bytes; unchanged when
/// already as long.
pub open spec fn spec_pad_left(s: Seq<u8>, w: nat) -> Seq<u8> {
    if s.len() >= w {
        s
    } else {
        crate::common::spec_repeat(SP, (w - s.len()) as nat) + s
    }
}

/// The pieces of `parts` in order with `sep` between each two.
pub open spec fn spec_join(parts: Seq<Seq<u8>>, sep: Seq<u8>) -> Seq<u8>
    decreases parts.len(),
{
    if parts.len() == 0 {
        Seq::empty()
    } else if parts.len() == 1 {
        parts[0]
    } else {
        parts[0] + sep + spec_join(parts.drop_first(), sep)
    }
}

/// Text fragment of the rendered output.
pub open spec fn spec_txt_title_status() -> Seq<u8> {
    seq!['P' as u8, 'r' as u8, 'o' as u8, 'c' as u8, 'e' as u8, 's' as u8, 's' as u8, ' ' as u8, 'S' as u8, 't' as u8, 'a' as u8, 't' as u8, 'u' as u8, 's' as u8]
}
/// Text fragment of the rendered output.
pub open spec fn spec_txt_title_cmd() -> Seq<u8> {
    seq!['C' as u8, 'o' as u8, 'm' as u8, 'm' as u8, 'a' as u8, 'n' as u8, 'd' as u8, ' ' as u8, 'L' as u8, 'i' as u8, 'n' as u8, 'e' as u8]
}
/// Text fragment of the rendered output.
pub open spec fn spec_txt_title_vmas() -> Seq<u8> {
    seq!['P' as u8, 'r' as u8, 'o' as u8, 'c' as u8, 'e' as u8, 's' as u8, 's' as u8, ' ' as u8, 'V' as u8, 'M' as u8, 'A' as u8, 's' as u8]
}
/// Text fragment of the rendered output.
pub open spec fn spec_txt_pid() -> Seq<u8> {
    seq![10u8, 'P' as u8, 'i' as u8, 'd' as u8, ':' as u8, ' ' as u8, ' ' as u8, ' ' as u8, ' ' as u8, ' ' as u8, ' ' as u8, ' ' as u8, ' ' as u8, ' ' as u8, ' ' as u8, ' ' as u8, ' ' as u8]
}
/// Text fragment of the rendered output.
pub open spec fn spec_txt_vmrss() -> Seq<u8> {
    seq![10u8, 'V' as u8, 'm' as u8, 'R' as u8, 'S' as u8, 'S' as u8, ':' as u8, ' ' as u8, ' ' as u8, ' ' as u8, ' ' as u8, ' ' as u8, ' ' as u8, ' ' as u8, ' ' as u8, ' ' as u8, ' ' as u8]
}
/// Text fragment of the rendered output.
pub open spec fn spec_txt_rssanon() -> Seq<u8> {
    seq![' ' as u8, 'K' as u8, 'B' as u8, 10u8, ' ' as u8, '-' as u8, '>' as u8, ' ' as u8, 'R' as u8, 's' as u8, 's' as u8, 'A' as u8, 'n' as u8, 'o' as u8, 'n' as u8, ':' as u8, ' ' as u8, ' ' as u8, ' ' as u8, ' ' as u8]
}
/// Text fragment of the rendered output.
pub open spec fn spec_txt_pct_open() -> Seq<u8> {
    seq![' ' as u8, 'K' as u8, 'B' as u8, ' ' as u8, ' ' as u8, ' ' as u8, '(' as u8]
}
/// Text fragment of the rendered output.
pub open spec fn spec_txt_rssfile() -> Seq<u8> {
    seq!['%' as u8, ')' as u8, 10u8, ' ' as u8, '-' as u8, '>' as u8, ' ' as u8, 'R' as u8, 's' as u8, 's' as u8, 'F' as u8, 'i' as u8, 'l' as u8, 'e' as u8, ':' as u8, ' ' as u8, ' ' as u8, ' ' as u8, ' ' as u8]
}
/// Text fragment of the rendered output.
pub open spec fn spec_txt_rssshmem() -> Seq<u8> {
    seq![' ' as u8, 'K' as u8, 'B' as u8, 10u8, ' ' as u8, '-' as u8, '>' as u8, ' ' as u8, 'R' as u8, 's' as u8, 's' as u8, 'S' as u8, 'h' as u8, 'm' as u8, 'e' as u8, 'm' as u8, ':' as u8, ' ' as u8, ' ' as u8, ' ' as u8]
}
/// Text fragment of the rendered output.
pub open spec fn spec_txt_hugetlb() -> Seq<u8> {
    seq![' ' as u8, 'K' as u8, 'B' as u8, 10u8, 'H' as u8, 'u' as u8, 'g' as u8, 'e' as u8, 't' as u8, 'l' as u8, 'b' as u8, 'P' as u8, 'a' as u8, 'g' as u8, 'e' as u8, 's' as u8, ':' as u8, ' ' as u8, ' ' as u8, ' ' as u8]
}
/// Text fragment of the rendered output.
pub open spec fn spec_txt_kb() -> Seq<u8> {
    seq![' ' as u8, 'K' as u8, 'B' as u8]
}
/// Text fragment of the rendered output.
pub open spec fn spec_txt_arrow() -> Seq<u8> {
    seq![' ' as u8, '-' as u8, '>' as u8, ' ' as u8]
}
/// Text fragment of the rendered output.
pub open spec fn spec_txt_rss_label() -> Seq<u8> {
    seq![' ' as u8, 'R' as u8, 'S' as u8, 'S' as u8, ':' as u8, ' ' as u8]
}
/// Text fragment of the rendered output.
pub open spec fn spec_txt_kb_sp() -> Seq<u8> {
    seq![' ' as u8, 'K' as u8, 'B' as u8, ' ' as u8]
}
/// Text fragment of the rendered output.
pub open spec fn spec_txt_libs_rss() -> Seq<u8> {
    seq![10u8, 'R' as u8, 'S' as u8, 'S' as u8, ' ' as u8, '(' as u8, 'S' as u8, 'h' as u8, 'a' as u8, 'r' as u8, 'e' as u8, 'd' as u8, ' ' as u8, 'L' as u8, 'i' as u8, 'b' as u8, 's' as u8, ')' as u8, ':' as u8, ' ' as u8]
}
/// Text fragment of the rendered output.
pub open spec fn spec_txt_kb_nl() -> Seq<u8> {
    seq![' ' as u8, 'K' as u8, 'B' as u8, 10u8]
}
/// Text fragment of the rendered output.
pub open spec fn spec_txt_vmas_tail() -> Seq<u8> {
    seq![' ' as u8, 'V' as u8, 'M' as u8, 'A' as u8, 's' as u8, ' ' as u8, 'w' as u8, 'i' as u8, 't' as u8, 'h' as u8, ' ' as u8, 'R' as u8, 'S' as u8, 'S' as u8, ' ' as u8, 'u' as u8, 's' as u8, 'a' as u8, 'g' as u8, 'e' as u8, ' ' as u8, '>' as u8, ' ' as u8, '0' as u8, ':' as u8, 10u8]
}

/// Render `n` in decimal.
pub fn render_dec(n: u64) -> (r: Vec<u8>)
    ensures
        r@ == spec_dec(n),
    decreases n,
{
    if n < 10 {
        let mut v: Vec<u8> = Vec::new();
        v.push(48 + (n as u8));
        assert(v@ =~= spec_dec(n));
        v
    } else {
        assert(n / 10 < n) by (nonlinear_arith)
            requires
                n >= 10,
        ;
        let mut v = render_dec(n / 10);
        v.push(48 + ((n % 10) as u8));
        v
    }
}

/// Render `n` in uppercase hexadecimal.
pub fn render_hex(n: u64) -> (r: Vec<u8>)
    ensures
        r@ == spec_hex(n),
    decreases n,
{
    if n < 16 {
        let mut v: Vec<u8> = Vec::new();
        let d = n as u8;
        v.push(
            if d < 10 {
                48 + d
            } else {
                55 + d
            },
        );
        assert(v@ =~= spec_hex(n));
        v
    } else {
        assert(n / 16 < n) by (nonlinear_arith)
            requires
                n >= 16,
        ;
        let mut v = render_hex(n / 16);
        let d = (n % 16) as u8;
        v.push(
            if d < 10 {
                48 + d
            } else {
                55 + d
            },
        );
        v
    }
}

/// Append `s` to `out`.
pub(crate) fn push_all(out: &mut Vec<u8>, s: &[u8])
    ensures
        final(out)@ == old(out)@ + s@,
{
    let mut i: usize = 0;
    assert(old(out)@ + s@.take(0) =~= old(out)@);
    while i < s.len()
        invariant
            0 <= i <= s@.len(),
            out@ == old(out)@ + s@.take(i as int),
        decreases s@.len() - i,
    {
        out.push(s[i]);
        proof {
            assert(old(out)@ + s@.take(i + 1) =~= (old(out)@ + s@.take(i as int)).push(
                s@[i as int],
            ));
        }
        i = i + 1;
    }
    proof {
        assert(s@.take(s@.len() as int) =~= s@);
    }
}

/// Append `s` to `out`, padded on the left with spaces to `w` bytes.
fn push_padded(out: &mut Vec<u8>, s: &[u8], w: usize)
    ensures
        final(out)@ == old(out)@ + spec_pad_left(s@, w as nat),
{
    let mut k: usize = s.len();
    while k < w
        invariant
            s@.len() <= k <= w || (k == s@.len() && s@.len() >= w),
            out@ == old(out)@ + crate::common::spec_repeat(SP, (k - s@.len()) as nat),
        decreases w - k,
    {
        out.push(SP);
        proof {
            assert(old(out)@ + crate::common::spec_repeat(SP, (k + 1 - s@.len()) as nat)
                =~= (old(out)@ + crate::common::spec_repeat(SP, (k - s@.len()) as nat)).push(SP));
        }
        k = k + 1;
    }
    push_all(out, s);
    proof {
        if s@.len() >= w {
            assert(crate::common::spec_repeat(SP, 0) =~= Seq::<u8>::empty());
            assert(old(out)@ + Seq::<u8>::empty() =~= old(out)@);
        }
    }
}

/// The rendered command-line section.
pub open spec fn spec_render_cmd(name: Seq<u8>, args: Seq<Seq<u8>>) -> Seq<u8> {
    spec_draw_line(DASH, spec_txt_title_cmd(), 30) + seq![NL] + name + seq![SP] + spec_join(
        args,
        seq![SP],
    )
}

/// Joining one more piece appends a separator and the piece, except to
/// an empty join.
proof fn lemma_join_push(parts: Seq<Seq<u8>>, sep: Seq<u8>, x: Seq<u8>)
    ensures
        parts.len() == 0 ==> spec_join(parts.push(x), sep) == x,
        parts.len() > 0 ==> spec_join(parts.push(x), sep) == spec_join(parts, sep) + sep + x,
    decreases parts.len(),
{
    if parts.len() == 0 {
        assert(spec_join(parts.push(x), sep) == parts.push(x)[0]);
        assert(parts.push(x)[0] == x);
    } else if parts.len() == 1 {
        assert(parts.push(x).drop_first() =~= parts.drop_first().push(x));
        lemma_join_push(parts.drop_first(), sep, x);
        assert(spec_join(parts.push(x), sep) == parts[0] + sep + x);
    } else {
        assert(parts.push(x).drop_first() =~= parts.drop_first().push(x));
        lemma_join_push(parts.drop_first(), sep, x);
        assert(spec_join(parts.push(x), sep) == parts[0] + sep + spec_join(
            parts.drop_first().push(x),
            sep,
        ));
        assert(parts[0] + sep + (spec_join(parts.drop_first(), sep) + sep + x) =~= (parts[0] + sep
            + spec_join(parts.drop_first(), sep)) + sep + x);
    }
}

impl ProcCmd {
    /// Render the command-line section: a centered header, then the
    /// program name and its arguments on one line.
    pub fn render(&self) -> (r: Vec<u8>)
        ensures
            r@ == spec_render_cmd(self.name@, views_of(self.args@)),
    {
        let title: [u8; 12] = [
            'C' as u8, 'o' as u8, 'm' as u8, 'm' as u8, 'a' as u8, 'n' as u8, 'd' as u8,
            ' ' as u8, 'L' as u8, 'i' as u8, 'n' as u8, 'e' as u8,
        ];
        assert(title@ =~= spec_txt_title_cmd());
        let header = match draw_line(DASH, title.as_slice(), 30) {
            Some(h) => h,
            None => {
                proof {
                    assert(false);
                }
                Vec::new()
            },
        };
        let mut out = header;
        out.push(NL);
        push_all(&mut out, self.name.as_slice());
        out.push(SP);
        let ghost head = out@;
        let ghost args_v = views_of(self.args@);
        let mut i: usize = 0;
        proof {
            assert(args_v.take(0) =~= Seq::<Seq<u8>>::empty());
            assert(head + spec_join(args_v.take(0), seq![SP]) =~= head);
        }
        while i < self.args.len()
            invariant
                0 <= i <= self.args@.len(),
                args_v == views_of(self.args@),
                out@ == head + spec_join(args_v.take(i as int), seq![SP]),
            decreases self.args@.len() - i,
        {
            let ghost sofar = out@;
            if i > 0 {
                out.push(SP);
            }
            push_all(&mut out, self.args[i].as_slice());
            proof {
                assert(args_v.take(i + 1) =~= args_v.take(i as int).push(args_v[i as int]));
                lemma_join_push(args_v.take(i as int), seq![SP], args_v[i as int]);
                assert(args_v[i as int] == self.args@[i as int]@);
                if i > 0 {
                    assert(out@ =~= head + spec_join(args_v.take(i + 1), seq![SP]));
                } else {
                    assert(out@ =~= head + spec_join(args_v.take(i + 1), seq![SP]));
                }
            }
            i = i + 1;
        }
        proof {
            assert(args_v.take(self.args@.len() as int) =~= args_v);
        }
        out
    }
}


/// The rendered status section.
pub open spec fn spec_render_status(st: ProcStatus) -> Seq<u8> {
    spec_draw_line(DASH, spec_txt_title_status(), 30) + spec_txt_pid() + spec_dec(st.pid as u64)
        + spec_txt_vmrss() + spec_dec(st.vm_rss) + spec_txt_rssanon() + spec_dec(st.rss_anon)
        + spec_txt_pct_open() + spec_dec(
        crate::common::spec_percentage(st.rss_anon, st.vm_rss) as u64,
    ) + spec_txt_rssfile() + spec_dec(st.rss_file) + spec_txt_rssshmem() + spec_dec(st.rss_shmem)
        + spec_txt_hugetlb() + spec_dec(st.hugetlb_pages) + spec_txt_kb()
}

impl ProcStatus {
    /// Render the status section: a centered header, then the resident
    /// counters, with the anonymous share as a percentage of the whole
    /// resident set.
    pub fn render(&self) -> (r: Vec<u8>)
        ensures
            r@ == spec_render_status(*self),
    {
        let title: [u8; 14] = [
            'P' as u8, 'r' as u8, 'o' as u8, 'c' as u8, 'e' as u8, 's' as u8, 's' as u8,
            ' ' as u8, 'S' as u8, 't' as u8, 'a' as u8, 't' as u8, 'u' as u8, 's' as u8,
        ];
        assert(title@ =~= spec_txt_title_status());
        let mut out = match draw_line(DASH, title.as_slice(), 30) {
            Some(h) => h,
            None => {
                proof {
                    assert(false);
                }
                Vec::new()
            },
        };
        let f_pid: [u8; 17] = [
            10, 'P' as u8, 'i' as u8, 'd' as u8, ':' as u8, 32, 32, 32, 32, 32, 32, 32, 32, 32,
            32, 32, 32,
        ];
        assert(f_pid@ =~= spec_txt_pid());
        push_all(&mut out, f_pid.as_slice());
        let d = render_dec(self.pid as u64);
        push_all(&mut out, d.as_slice());
        let f_vmrss: [u8; 17] = [
            10, 'V' as u8, 'm' as u8, 'R' as u8, 'S' as u8, 'S' as u8, ':' as u8, 32, 32, 32, 32,
            32, 32, 32, 32, 32, 32,
        ];
        assert(f_vmrss@ =~= spec_txt_vmrss());
        push_all(&mut out, f_vmrss.as_slice());
        let d = render_dec(self.vm_rss);
        push_all(&mut out, d.as_slice());
        let f_rssanon: [u8; 20] = [
            32, 'K' as u8, 'B' as u8, 10, 32, '-' as u8, '>' as u8, 32, 'R' as u8, 's' as u8,
            's' as u8, 'A' as u8, 'n' as u8, 'o' as u8, 'n' as u8, ':' as u8, 32, 32, 32, 32,
        ];
        assert(f_rssanon@ =~= spec_txt_rssanon());
        push_all(&mut out, f_rssanon.as_slice());
        let d = render_dec(self.rss_anon);
        push_all(&mut out, d.as_slice());
        let f_pct: [u8; 7] = [32, 'K' as u8, 'B' as u8, 32, 32, 32, '(' as u8];
        assert(f_pct@ =~= spec_txt_pct_open());
        push_all(&mut out, f_pct.as_slice());
        let pct = percentage(self.rss_anon, self.vm_rss);
        let d = render_dec(pct as u64);
        push_all(&mut out, d.as_slice());
        let f_rssfile: [u8; 19] = [
            '%' as u8, ')' as u8, 10, 32, '-' as u8, '>' as u8, 32, 'R' as u8, 's' as u8,
            's' as u8, 'F' as u8, 'i' as u8, 'l' as u8, 'e' as u8, ':' as u8, 32, 32, 32, 32,
        ];
        assert(f_rssfile@ =~= spec_txt_rssfile());
        push_all(&mut out, f_rssfile.as_slice());
        let d = render_dec(self.rss_file);
        push_all(&mut out, d.as_slice());
        let f_rssshmem: [u8; 20] = [
            32, 'K' as u8, 'B' as u8, 10, 32, '-' as u8, '>' as u8, 32, 'R' as u8, 's' as u8,
            's' as u8, 'S' as u8, 'h' as u8, 'm' as u8, 'e' as u8, 'm' as u8, ':' as u8, 32, 32,
            32,
        ];
        assert(f_rssshmem@ =~= spec_txt_rssshmem());
        push_all(&mut out, f_rssshmem.as_slice());
        let d = render_dec(self.rss_shmem);
        push_all(&mut out, d.as_slice());
        let f_hugetlb: [u8; 20] = [
            32, 'K' as u8, 'B' as u8, 10, 'H' as u8, 'u' as u8, 'g' as u8, 'e' as u8, 't' as u8,
            'l' as u8, 'b' as u8, 'P' as u8, 'a' as u8, 'g' as u8, 'e' as u8, 's' as u8,
            ':' as u8, 32, 32, 32,
        ];
        assert(f_hugetlb@ =~= spec_txt_hugetlb());
        push_all(&mut out, f_hugetlb.as_slice());
        let d = render_dec(self.hugetlb_pages);
        push_all(&mut out, d.as_slice());
        let f_kb: [u8; 3] = [32, 'K' as u8, 'B' as u8];
        assert(f_kb@ =~= spec_txt_kb());
        push_all(&mut out, f_kb.as_slice());
        out
    }
}

/// The rendered line of one region: its address range in uppercase
/// hexadecimal, its resident size right-aligned in ten columns, and its
/// backing label, when any, at the end.
pub open spec fn spec_render_vma(vm: VmaModel) -> Seq<u8> {
    spec_hex(vm.start) + spec_txt_arrow() + spec_hex(vm.end) + spec_txt_rss_label()
        + spec_pad_left(spec_dec(vm.rss), 10) + spec_txt_kb_sp() + (match vm.notion {
        Some(n) => n,
        None => Seq::empty(),
    })
}

impl SmapsVma {
    /// Render one region line.
    pub fn render(&self) -> (r: Vec<u8>)
        ensures
            r@ == spec_render_vma(self@),
    {
        let mut out = render_hex(self.start);
        let f_arrow: [u8; 4] = [32, '-' as u8, '>' as u8, 32];
        assert(f_arrow@ =~= spec_txt_arrow());
        push_all(&mut out, f_arrow.as_slice());
        let h = render_hex(self.end);
        push_all(&mut out, h.as_slice());
        let f_rss: [u8; 6] = [32, 'R' as u8, 'S' as u8, 'S' as u8, ':' as u8, 32];
        assert(f_rss@ =~= spec_txt_rss_label());
        push_all(&mut out, f_rss.as_slice());
        let d = render_dec(self.rss);
        push_padded(&mut out, d.as_slice(), 10);
        let f_kb: [u8; 4] = [32, 'K' as u8, 'B' as u8, 32];
        assert(f_kb@ =~= spec_txt_kb_sp());
        push_all(&mut out, f_kb.as_slice());
        match &self.notion {
            Some(n) => {
                push_all(&mut out, n.as_slice());
            },
            None => {
                proof {
                    assert(out@ + Seq::<u8>::empty() =~= out@);
                }
            },
        }
        out
    }
}

/// The rendered region lines, one per region, each closed by a newline.
pub open spec fn spec_render_vma_lines(vs: Seq<VmaModel>) -> Seq<u8>
    decreases vs.len(),
{
    if vs.len() == 0 {
        Seq::empty()
    } else {
        spec_render_vma(vs[0]) + seq![NL] + spec_render_vma_lines(vs.drop_first())
    }
}

/// One more region line lands at the end of the rendered lines.
proof fn lemma_vma_lines_push(vs: Seq<VmaModel>, x: VmaModel)
    ensures
        spec_render_vma_lines(vs.push(x)) == spec_render_vma_lines(vs) + spec_render_vma(x)
            + seq![NL],
    decreases vs.len(),
{
    if vs.len() == 0 {
        let p = vs.push(x);
        assert(p[0] == x);
        assert(p.drop_first() =~= Seq::<VmaModel>::empty());
        reveal_with_fuel(spec_render_vma_lines, 2);
        assert(spec_render_vma_lines(p) =~= spec_render_vma(x) + seq![NL] + Seq::<u8>::empty());
        assert(spec_render_vma_lines(vs) =~= Seq::<u8>::empty());
        assert(spec_render_vma(x) + seq![NL] + Seq::<u8>::empty() =~= Seq::<u8>::empty()
            + spec_render_vma(x) + seq![NL]);
    } else {
        assert(vs.push(x).drop_first() =~= vs.drop_first().push(x));
        lemma_vma_lines_push(vs.drop_first(), x);
        assert(vs.push(x)[0] == vs[0]);
        assert(spec_render_vma(vs[0]) + seq![NL] + (spec_render_vma_lines(vs.drop_first())
            + spec_render_vma(x) + seq![NL]) =~= (spec_render_vma(vs[0]) + seq![NL]
            + spec_render_vma_lines(vs.drop_first())) + spec_render_vma(x) + seq![NL]);
    }
}

/// The rendered memory-map section.
pub open spec fn spec_render_smaps(sm: SmapsModel) -> Seq<u8> {
    spec_draw_line(DASH, spec_txt_title_vmas(), 30) + spec_txt_libs_rss() + spec_dec(sm.libs_rss)
        + spec_txt_kb_nl() + spec_dec(sm.vmas.len() as u64) + spec_txt_vmas_tail()
        + spec_render_vma_lines(sm.vmas)
}

impl ProcSmaps {
    /// Render the memory-map section: a centered header, the aggregate
    /// shared-library size, the tracked count, then one line per
    /// tracked region.
    pub fn render(&self) -> (r: Vec<u8>)
        ensures
            r@ == spec_render_smaps(self@),
    {
        let title: [u8; 12] = [
            'P' as u8, 'r' as u8, 'o' as u8, 'c' as u8, 'e' as u8, 's' as u8, 's' as u8,
            ' ' as u8, 'V' as u8, 'M' as u8, 'A' as u8, 's' as u8,
        ];
        assert(title@ =~= spec_txt_title_vmas());
        let mut out = match draw_line(DASH, title.as_slice(), 30) {
            Some(h) => h,
            None => {
                proof {
                    assert(false);
                }
                Vec::new()
            },
        };
        let f_libs: [u8; 20] = [
            10, 'R' as u8, 'S' as u8, 'S' as u8, 32, '(' as u8, 'S' as u8, 'h' as u8, 'a' as u8,
            'r' as u8, 'e' as u8, 'd' as u8, 32, 'L' as u8, 'i' as u8, 'b' as u8, 's' as u8,
            ')' as u8, ':' as u8, 32,
        ];
        assert(f_libs@ =~= spec_txt_libs_rss());
        push_all(&mut out, f_libs.as_slice());
        let d = render_dec(self.libs_rss);
        push_all(&mut out, d.as_slice());
        let f_kbnl: [u8; 4] = [32, 'K' as u8, 'B' as u8, 10];
        assert(f_kbnl@ =~= spec_txt_kb_nl());
        push_all(&mut out, f_kbnl.as_slice());
        let n = self.vmas.len();
        let d = render_dec(n as u64);
        push_all(&mut out, d.as_slice());
        let f_tail: [u8; 26] = [
            32, 'V' as u8, 'M' as u8, 'A' as u8, 's' as u8, 32, 'w' as u8, 'i' as u8, 't' as u8,
            'h' as u8, 32, 'R' as u8, 'S' as u8, 'S' as u8, 32, 'u' as u8, 's' as u8, 'a' as u8,
            'g' as u8, 'e' as u8, 32, '>' as u8, 32, '0' as u8, ':' as u8, 10,
        ];
        assert(f_tail@ =~= spec_txt_vmas_tail());
        push_all(&mut out, f_tail.as_slice());
        let ghost head = out@;
        let ghost vs = views_of_vmas(self.vmas@);
        let mut i: usize = 0;
        proof {
            assert(vs.take(0) =~= Seq::<VmaModel>::empty());
            assert(head + spec_render_vma_lines(vs.take(0)) =~= head);
        }
        while i < self.vmas.len()
            invariant
                0 <= i <= self.vmas@.len(),
                vs == views_of_vmas(self.vmas@),
                out@ == head + spec_render_vma_lines(vs.take(i as int)),
            decreases self.vmas@.len() - i,
        {
            let line = self.vmas[i].render();
            push_all(&mut out, line.as_slice());
            out.push(NL);
            proof {
                assert(vs.take(i + 1) =~= vs.take(i as int).push(vs[i as int]));
                lemma_vma_lines_push(vs.take(i as int), vs[i as int]);
                assert(vs[i as int] == self.vmas@[i as int]@);
                assert(out@ =~= head + spec_render_vma_lines(vs.take(i + 1)));
            }
            i = i + 1;
        }
        proof {
            assert(vs.take(self.vmas@.len() as int) =~= vs);
        }
        out
    }
}

} // verus!
