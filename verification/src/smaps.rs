use vstd::prelude::*;

use crate::common::Error;
use crate::tok::{
    bytes_eq, parse_u64, spec_lines, spec_parse_u64, spec_split, spec_tokens, split_byte,
    split_lines, starts_with, spec_starts_with, tokenize, views_of,
};
use crate::cmdline::DASH;

verus! {

/// The mathematical value of one memory region: what its text block
/// denotes.
pub ghost struct VmaModel {
    pub start: u64,
    pub end: u64,
    pub perm: Seq<u8>,
    pub offset: u64,
    pub device: Seq<u8>,
    pub inode: u64,
    pub notion: Option<Seq<u8>>,
    pub rss: u64,
    pub pss: u64,
    pub shared_clean: u64,
    pub shared_dirty: u64,
    pub private_clean: u64,
    pub private_dirty: u64,
    pub locked: u64,
}

/// A virtual memory area section of a memory-map text.
#[derive(Debug, Clone)]
pub struct SmapsVma {
    /// Vma start virtual address.
    pub start: u64,
    /// Vma end virtual address.
    pub end: u64,
    /// Vma permissions, raw.
    pub perm: Vec<u8>,
    /// Offset in the mapped file.
    pub offset: u64,
    /// Device number, raw.
    pub device: Vec<u8>,
    /// Inode number, 0 for an anonymous mapping.
    pub inode: u64,
    /// File path or segment description.
    pub notion: Option<Vec<u8>>,
    /// Resident set size for this VMA in KB.
    pub rss: u64,
    /// Proportional set size in KB.
    pub pss: u64,
    /// Size of shared clean memory in KB.
    pub shared_clean: u64,
    /// Size of shared dirty memory in KB.
    pub shared_dirty: u64,
    /// Size of private clean memory in KB.
    pub private_clean: u64,
    /// Size of private dirty memory in KB.
    pub private_dirty: u64,
    /// Size of locked memory in KB.
    pub locked: u64,
}

impl View for SmapsVma {
    type V = VmaModel;

    open spec fn view(&self) -> VmaModel {
        VmaModel {
            start: self.start,
            end: self.end,
            perm: self.perm@,
            offset: self.offset,
            device: self.device@,
            inode: self.inode,
            notion: match self.notion {
                Some(n) => Some(n@),
                None => None,
            },
            rss: self.rss,
            pss: self.pss,
            shared_clean: self.shared_clean,
            shared_dirty: self.shared_dirty,
            private_clean: self.private_clean,
            private_dirty: self.private_dirty,
            locked: self.locked,
        }
    }
}

/// A byte is an ASCII hexadecimal digit.
pub open spec fn spec_is_hex_digit(c: u8) -> bool {
    (48 <= c && c <= 57) || (97 <= c && c <= 102) || (65 <= c && c <= 70)
}

/// A line opens a new region block: longer than 45 bytes and its first
/// 12 bytes all hexadecimal digits.
pub open spec fn spec_is_another_vma(line: Seq<u8>) -> bool {
    line.len() > 45 && forall|i: int| 0 <= i < 12 ==> spec_is_hex_digit(#[trigger] line[i])
}

/// Key bytes of `Rss`.
pub open spec fn spec_key_rss() -> Seq<u8> {
    seq!['R' as u8, 's' as u8, 's' as u8]
}

/// Key bytes of `Pss`.
pub open spec fn spec_key_pss() -> Seq<u8> {
    seq!['P' as u8, 's' as u8, 's' as u8]
}

/// Key bytes of `Shared_Clean`.
pub open spec fn spec_key_shared_clean() -> Seq<u8> {
    seq![
        'S' as u8, 'h' as u8, 'a' as u8, 'r' as u8, 'e' as u8, 'd' as u8, '_' as u8, 'C' as u8,
        'l' as u8, 'e' as u8, 'a' as u8, 'n' as u8,
    ]
}

/// Key bytes of `Shared_Dirty`.
pub open spec fn spec_key_shared_dirty() -> Seq<u8> {
    seq![
        'S' as u8, 'h' as u8, 'a' as u8, 'r' as u8, 'e' as u8, 'd' as u8, '_' as u8, 'D' as u8,
        'i' as u8, 'r' as u8, 't' as u8, 'y' as u8,
    ]
}

/// Key bytes of `Private_Clean`.
pub open spec fn spec_key_private_clean() -> Seq<u8> {
    seq![
        'P' as u8, 'r' as u8, 'i' as u8, 'v' as u8, 'a' as u8, 't' as u8, 'e' as u8, '_' as u8,
        'C' as u8, 'l' as u8, 'e' as u8, 'a' as u8, 'n' as u8,
    ]
}

/// Key bytes of `Private_Dirty`.
pub open spec fn spec_key_private_dirty() -> Seq<u8> {
    seq![
        'P' as u8, 'r' as u8, 'i' as u8, 'v' as u8, 'a' as u8, 't' as u8, 'e' as u8, '_' as u8,
        'D' as u8, 'i' as u8, 'r' as u8, 't' as u8, 'y' as u8,
    ]
}

/// Key bytes of `Locked`.
pub open spec fn spec_key_locked() -> Seq<u8> {
    seq!['L' as u8, 'o' as u8, 'c' as u8, 'k' as u8, 'e' as u8, 'd' as u8]
}

/// Which recognized detail key `k` is, or -1.
pub open spec fn spec_detail_key_id(k: Seq<u8>) -> int {
    if k == spec_key_rss() {
        0
    } else if k == spec_key_pss() {
        1
    } else if k == spec_key_shared_clean() {
        2
    } else if k == spec_key_shared_dirty() {
        3
    } else if k == spec_key_private_clean() {
        4
    } else if k == spec_key_private_dirty() {
        5
    } else if k == spec_key_locked() {
        6
    } else {
        -1
    }
}

/// `vm` with the size counter of detail key `id` set to `v`.
pub open spec fn spec_vma_update(vm: VmaModel, id: int, v: u64) -> VmaModel {
    if id == 0 {
        VmaModel { rss: v, ..vm }
    } else if id == 1 {
        VmaModel { pss: v, ..vm }
    } else if id == 2 {
        VmaModel { shared_clean: v, ..vm }
    } else if id == 3 {
        VmaModel { shared_dirty: v, ..vm }
    } else if id == 4 {
        VmaModel { private_clean: v, ..vm }
    } else if id == 5 {
        VmaModel { private_dirty: v, ..vm }
    } else if id == 6 {
        VmaModel { locked: v, ..vm }
    } else {
        vm
    }
}

/// The region a block's header line denotes, its size counters all
/// zero: address range split on the hyphen, then permissions, offset,
/// device, inode, and an optional backing path.
pub open spec fn spec_vma_header(line: Seq<u8>) -> Option<VmaModel> {
    let toks = spec_tokens(line, false);
    if toks.len() < 5 {
        None
    } else {
        let range = spec_split(toks[0], DASH);
        if range.len() < 2 {
            None
        } else if spec_parse_u64(range[0], 16) is None || spec_parse_u64(range[1], 16) is None
            || spec_parse_u64(toks[2], 16) is None || spec_parse_u64(toks[4], 10) is None {
            None
        } else {
            Some(
                VmaModel {
                    start: spec_parse_u64(range[0], 16).unwrap(),
                    end: spec_parse_u64(range[1], 16).unwrap(),
                    perm: toks[1],
                    offset: spec_parse_u64(toks[2], 16).unwrap(),
                    device: toks[3],
                    inode: spec_parse_u64(toks[4], 10).unwrap(),
                    notion: if toks.len() > 5 {
                        Some(toks[5])
                    } else {
                        None
                    },
                    rss: 0,
                    pss: 0,
                    shared_clean: 0,
                    shared_dirty: 0,
                    private_clean: 0,
                    private_dirty: 0,
                    locked: 0,
                },
            )
        }
    }
}

/// The effect of one detail line on the region: a recognized key takes
/// the second token as its decimal value; unrecognized keys change
/// nothing; a line with no token, a recognized key with no value, or a
/// bad number is an error.
pub open spec fn spec_vma_detail(vm: VmaModel, line: Seq<u8>) -> Option<VmaModel> {
    let toks = spec_tokens(line, true);
    if toks.len() == 0 {
        None
    } else {
        let id = spec_detail_key_id(toks[0]);
        if id < 0 {
            Some(vm)
        } else if toks.len() < 2 {
            None
        } else {
            match spec_parse_u64(toks[1], 10) {
                None => None,
                Some(v) => Some(spec_vma_update(vm, id, v)),
            }
        }
    }
}

/// The region after the detail lines are applied in order to `vm`.
pub open spec fn spec_vma_details(lines: Seq<Seq<u8>>, vm: VmaModel) -> Option<VmaModel>
    decreases lines.len(),
{
    if lines.len() == 0 {
        Some(vm)
    } else {
        match spec_vma_detail(vm, lines[0]) {
            None => None,
            Some(vm2) => spec_vma_details(lines.drop_first(), vm2),
        }
    }
}

/// The region a whole block denotes: its first line read as the header,
/// the rest as detail lines.
pub open spec fn spec_vma(lines: Seq<Seq<u8>>) -> Option<VmaModel> {
    if lines.len() == 0 {
        None
    } else {
        match spec_vma_header(lines[0]) {
            None => None,
            Some(vm) => spec_vma_details(lines.drop_first(), vm),
        }
    }
}

/// Which recognized detail key token `t` is, or -1.
fn detail_key_id(t: &[u8]) -> (r: i32)
    ensures
        r as int == spec_detail_key_id(t@),
{
    let k_rss: [u8; 3] = ['R' as u8, 's' as u8, 's' as u8];
    assert(k_rss@ =~= spec_key_rss());
    let k_pss: [u8; 3] = ['P' as u8, 's' as u8, 's' as u8];
    assert(k_pss@ =~= spec_key_pss());
    let k_shc: [u8; 12] = [
        'S' as u8, 'h' as u8, 'a' as u8, 'r' as u8, 'e' as u8, 'd' as u8, '_' as u8, 'C' as u8,
        'l' as u8, 'e' as u8, 'a' as u8, 'n' as u8,
    ];
    assert(k_shc@ =~= spec_key_shared_clean());
    let k_shd: [u8; 12] = [
        'S' as u8, 'h' as u8, 'a' as u8, 'r' as u8, 'e' as u8, 'd' as u8, '_' as u8, 'D' as u8,
        'i' as u8, 'r' as u8, 't' as u8, 'y' as u8,
    ];
    assert(k_shd@ =~= spec_key_shared_dirty());
    let k_prc: [u8; 13] = [
        'P' as u8, 'r' as u8, 'i' as u8, 'v' as u8, 'a' as u8, 't' as u8, 'e' as u8, '_' as u8,
        'C' as u8, 'l' as u8, 'e' as u8, 'a' as u8, 'n' as u8,
    ];
    assert(k_prc@ =~= spec_key_private_clean());
    let k_prd: [u8; 13] = [
        'P' as u8, 'r' as u8, 'i' as u8, 'v' as u8, 'a' as u8, 't' as u8, 'e' as u8, '_' as u8,
        'D' as u8, 'i' as u8, 'r' as u8, 't' as u8, 'y' as u8,
    ];
    assert(k_prd@ =~= spec_key_private_dirty());
    let k_lck: [u8; 6] = ['L' as u8, 'o' as u8, 'c' as u8, 'k' as u8, 'e' as u8, 'd' as u8];
    assert(k_lck@ =~= spec_key_locked());
    if bytes_eq(t, k_rss.as_slice()) {
        0
    } else if bytes_eq(t, k_pss.as_slice()) {
        1
    } else if bytes_eq(t, k_shc.as_slice()) {
        2
    } else if bytes_eq(t, k_shd.as_slice()) {
        3
    } else if bytes_eq(t, k_prc.as_slice()) {
        4
    } else if bytes_eq(t, k_prd.as_slice()) {
        5
    } else if bytes_eq(t, k_lck.as_slice()) {
        6
    } else {
        -1
    }
}

impl SmapsVma {
    /// Whether a line opens a new region block: longer than 45 bytes
    /// with its first 12 bytes all hexadecimal digits.
    pub fn is_another_vma(line: &[u8]) -> (r: bool)
        ensures
            r == spec_is_another_vma(line@),
    {
        if line.len() <= 45 {
            return false;
        }
        let mut i: usize = 0;
        while i < 12
            invariant
                0 <= i <= 12,
                line@.len() > 45,
                forall|k: int| 0 <= k < i ==> spec_is_hex_digit(#[trigger] line@[k]),
            decreases 12 - i,
        {
            let c = line[i];
            if !((48 <= c && c <= 57) || (97 <= c && c <= 102) || (65 <= c && c <= 70)) {
                return false;
            }
            i = i + 1;
        }
        true
    }

    /// Convert one block of lines into a region: the first line is the
    /// header, the rest are detail lines; any bad number fails the
    /// block.
    pub fn from(lines: &Vec<Vec<u8>>) -> (r: Result<SmapsVma, Error>)
        requires
            lines@.len() > 0,
        ensures
            match r {
                Ok(v) => spec_vma(views_of(lines@)) == Some(v@),
                Err(e) => spec_vma(views_of(lines@)) is None && e is ParseError,
            },
    {
        let ghost all = views_of(lines@);
        let header: &[u8] = lines[0].as_slice();
        assert(header@ == all[0]);
        let toks = tokenize(header, false);
        if toks.len() < 5 {
            return Err(Error::ParseError(vstd::slice::slice_to_vec(header)));
        }
        assert(forall|k: int|
            0 <= k < toks@.len() ==> #[trigger] toks@[k]@ == spec_tokens(header@, false)[k]);
        let range = split_byte(toks[0].as_slice(), DASH);
        if range.len() < 2 {
            return Err(Error::ParseError(vstd::slice::slice_to_vec(header)));
        }
        assert(forall|k: int|
            0 <= k < range@.len() ==> #[trigger] range@[k]@ == spec_split(
                spec_tokens(header@, false)[0],
                DASH,
            )[k]);
        let start = match parse_u64(range[0].as_slice(), 16) {
            Some(v) => v,
            None => {
                return Err(Error::ParseError(vstd::slice::slice_to_vec(header)));
            },
        };
        let end = match parse_u64(range[1].as_slice(), 16) {
            Some(v) => v,
            None => {
                return Err(Error::ParseError(vstd::slice::slice_to_vec(header)));
            },
        };
        let offset = match parse_u64(toks[2].as_slice(), 16) {
            Some(v) => v,
            None => {
                return Err(Error::ParseError(vstd::slice::slice_to_vec(header)));
            },
        };
        let inode = match parse_u64(toks[4].as_slice(), 10) {
            Some(v) => v,
            None => {
                return Err(Error::ParseError(vstd::slice::slice_to_vec(header)));
            },
        };
        let mut toks = toks;
        let notion: Option<Vec<u8>> = if toks.len() > 5 {
            Some(toks.remove(5))
        } else {
            None
        };
        let device = toks.remove(3);
        let perm = toks.remove(1);
        let mut vma = SmapsVma {
            start,
            end,
            perm,
            offset,
            device,
            inode,
            notion,
            rss: 0,
            pss: 0,
            shared_clean: 0,
            shared_dirty: 0,
            private_clean: 0,
            private_dirty: 0,
            locked: 0,
        };
        assert(spec_vma_header(all[0]) == Some(vma@));
        let mut i: usize = 1;
        assert(all.skip(1).skip(0) =~= all.skip(1));
        while i < lines.len()
            invariant
                1 <= i <= lines@.len(),
                all == views_of(lines@),
                spec_vma_details(all.skip(1), spec_vma_header(all[0]).unwrap())
                    == spec_vma_details(all.skip(i as int), vma@),
                spec_vma_header(all[0]) is Some,
            decreases lines@.len() - i,
        {
            let line: &[u8] = lines[i].as_slice();
            assert(line@ == all[i as int]);
            assert(all.skip(i as int)[0] == all[i as int]);
            let toks = tokenize(line, true);
            if toks.len() == 0 {
                assert(spec_vma_detail(vma@, all[i as int]) is None);
                return Err(Error::ParseError(vstd::slice::slice_to_vec(line)));
            }
            assert(toks@[0]@ == spec_tokens(line@, true)[0]);
            let id = detail_key_id(toks[0].as_slice());
            if id >= 0 {
                if toks.len() < 2 {
                    assert(spec_vma_detail(vma@, all[i as int]) is None);
                    return Err(Error::ParseError(vstd::slice::slice_to_vec(line)));
                }
                assert(toks@[1]@ == spec_tokens(line@, true)[1]);
                let v = match parse_u64(toks[1].as_slice(), 10) {
                    Some(v) => v,
                    None => {
                        assert(spec_vma_detail(vma@, all[i as int]) is None);
                        return Err(Error::ParseError(vstd::slice::slice_to_vec(line)));
                    },
                };
                let ghost before = vma@;
                if id == 0 {
                    vma.rss = v;
                } else if id == 1 {
                    vma.pss = v;
                } else if id == 2 {
                    vma.shared_clean = v;
                } else if id == 3 {
                    vma.shared_dirty = v;
                } else if id == 4 {
                    vma.private_clean = v;
                } else if id == 5 {
                    vma.private_dirty = v;
                } else {
                    vma.locked = v;
                }
                assert(vma@ == spec_vma_update(before, id as int, v));
            }
            assert(all.skip(i as int).drop_first() =~= all.skip(i + 1));
            i = i + 1;
        }
        assert(all.skip(i as int) =~= Seq::<Seq<u8>>::empty());
        Ok(vma)
    }
}


/// Backing-path prefix that marks a shared-library mapping.
pub open spec fn spec_lib_prefix() -> Seq<u8> {
    seq![
        '/' as u8, 'u' as u8, 's' as u8, 'r' as u8, '/' as u8, 'l' as u8, 'i' as u8, 'b' as u8,
        '6' as u8, '4' as u8,
    ]
}

/// A region backed by a recognized shared-library path.
pub open spec fn spec_vma_is_lib(vm: VmaModel) -> bool {
    vm.notion is Some && spec_starts_with(vm.notion.unwrap(), spec_lib_prefix())
}

/// Which bucket a region falls into: 0 dropped (no resident memory),
/// 1 the shared-library aggregate, 2 the tracked list.
pub open spec fn spec_classify(vm: VmaModel) -> int {
    if vm.rss == 0 {
        0
    } else if spec_vma_is_lib(vm) {
        1
    } else {
        2
    }
}

/// Addition that stops at the largest 64-bit value.
pub open spec fn spec_sat_add(a: u64, b: u64) -> u64 {
    if a + b > u64::MAX {
        u64::MAX
    } else {
        (a + b) as u64
    }
}

/// The mathematical value of a memory snapshot: the tracked regions in
/// order, and the shared-library aggregate.
#[verifier::ext_equal]
pub ghost struct SmapsModel {
    pub vmas: Seq<VmaModel>,
    pub libs_rss: u64,
    pub libs: Seq<Seq<u8>>,
}

/// A region routed into the snapshot: dropped when it has no resident
/// memory, summed into the aggregate when its path is a shared-library
/// one, appended to the tracked list otherwise.
pub open spec fn spec_add(sm: SmapsModel, vm: VmaModel) -> SmapsModel {
    if vm.rss == 0 {
        sm
    } else if spec_vma_is_lib(vm) {
        SmapsModel {
            vmas: sm.vmas,
            libs_rss: spec_sat_add(sm.libs_rss, vm.rss),
            libs: sm.libs.push(vm.notion.unwrap()),
        }
    } else {
        SmapsModel { vmas: sm.vmas.push(vm), libs_rss: sm.libs_rss, libs: sm.libs }
    }
}

/// The empty snapshot.
pub open spec fn spec_smaps_empty() -> SmapsModel {
    SmapsModel { vmas: Seq::empty(), libs_rss: 0, libs: Seq::empty() }
}

/// Snapshot state after the lines are grouped into blocks from the
/// left: the snapshot so far and the open block; a block closes when a
/// header line follows it, which then opens the next block.
pub open spec fn spec_smaps_run(lines: Seq<Seq<u8>>) -> Option<(SmapsModel, Seq<Seq<u8>>)>
    decreases lines.len(),
{
    if lines.len() == 0 {
        Some((spec_smaps_empty(), Seq::empty()))
    } else {
        match spec_smaps_run(lines.drop_last()) {
            None => None,
            Some((sm, cur)) => {
                let line = lines.last();
                if spec_is_another_vma(line) && cur.len() > 0 {
                    match spec_vma(cur) {
                        None => None,
                        Some(vm) => Some((spec_add(sm, vm), seq![line])),
                    }
                } else {
                    Some((sm, cur.push(line)))
                }
            },
        }
    }
}

/// The snapshot a whole memory-map text denotes, before ordering: all
/// blocks classified, the trailing block included.
pub open spec fn spec_smaps(s: Seq<u8>) -> Option<SmapsModel> {
    match spec_smaps_run(spec_lines(s)) {
        None => None,
        Some((sm, cur)) => if cur.len() > 0 {
            match spec_vma(cur) {
                None => None,
                Some(vm) => Some(spec_add(sm, vm)),
            }
        } else {
            Some(sm)
        },
    }
}

/// Presentation order on regions: larger resident size first; at equal
/// size a labeled region never after an unlabeled one.
pub open spec fn spec_vma_le(a: VmaModel, b: VmaModel) -> bool {
    a.rss > b.rss || (a.rss == b.rss && (a.notion is Some || b.notion is None))
}

/// Every earlier region relates to every later one.
pub open spec fn spec_vmas_sorted(vs: Seq<VmaModel>) -> bool {
    forall|i: int, j: int| 0 <= i < j < vs.len() ==> spec_vma_le(vs[i], vs[j])
}

/// The region values held by a vector of regions, in order.
pub open spec fn views_of_vmas(v: Seq<SmapsVma>) -> Seq<VmaModel> {
    v.map_values(|x: SmapsVma| x@)
}

/// The presentation order is total.
pub proof fn lemma_vma_le_total(a: VmaModel, b: VmaModel)
    ensures
        spec_vma_le(a, b) || spec_vma_le(b, a),
{
}

/// The presentation order is transitive.
pub proof fn lemma_vma_le_trans(a: VmaModel, b: VmaModel, c: VmaModel)
    requires
        spec_vma_le(a, b),
        spec_vma_le(b, c),
    ensures
        spec_vma_le(a, c),
{
}

fn vma_le(a: &SmapsVma, b: &SmapsVma) -> (r: bool)
    ensures
        r == spec_vma_le(a@, b@),
{
    if a.rss != b.rss {
        a.rss > b.rss
    } else {
        a.notion.is_some() || b.notion.is_none()
    }
}

/// Sort regions into presentation order; the result holds the same
/// regions.
fn sort_vmas(v: Vec<SmapsVma>) -> (r: Vec<SmapsVma>)
    ensures
        views_of_vmas(r@).to_multiset() == views_of_vmas(v@).to_multiset(),
        spec_vmas_sorted(views_of_vmas(r@)),
{
    let ghost orig = views_of_vmas(v@);
    let mut rest = v;
    let mut out: Vec<SmapsVma> = Vec::new();
    proof {
        assert(views_of_vmas(out@).to_multiset().add(views_of_vmas(rest@).to_multiset())
            =~= orig.to_multiset()) by {
            assert(views_of_vmas(out@) =~= Seq::<VmaModel>::empty());
            Seq::<VmaModel>::to_multiset_ensures(views_of_vmas(out@));
            assert(views_of_vmas(out@).to_multiset() =~= vstd::multiset::Multiset::<VmaModel>::empty());
        }
    }
    while rest.len() > 0
        invariant
            spec_vmas_sorted(views_of_vmas(out@)),
            forall|i: int, j: int|
                0 <= i < out@.len() && 0 <= j < rest@.len() ==> spec_vma_le(
                    views_of_vmas(out@)[i],
                    views_of_vmas(rest@)[j],
                ),
            views_of_vmas(out@).to_multiset().add(views_of_vmas(rest@).to_multiset())
                == orig.to_multiset(),
        decreases rest@.len(),
    {
        let mut m: usize = 0;
        let mut j: usize = 1;
        while j < rest.len()
            invariant
                0 <= m < j <= rest@.len(),
                rest@.len() > 0,
                forall|k: int| 0 <= k < j ==> spec_vma_le(rest@[m as int]@, (#[trigger] rest@[k])@),
            decreases rest@.len() - j,
        {
            if !vma_le(&rest[m], &rest[j]) {
                proof {
                    lemma_vma_le_total(rest@[m as int]@, rest@[j as int]@);
                    assert forall|k: int| 0 <= k < j + 1 implies spec_vma_le(
                        rest@[j as int]@,
                        (#[trigger] rest@[k])@,
                    ) by {
                        if k < j {
                            lemma_vma_le_trans(rest@[j as int]@, rest@[m as int]@, rest@[k]@);
                        }
                    }
                }
                m = j;
            }
            j = j + 1;
        }
        let ghost prev_out = views_of_vmas(out@);
        let ghost prev_rest = views_of_vmas(rest@);
        let ghost mi = m as int;
        let x = rest.remove(m);
        proof {
            assert(views_of_vmas(rest@) =~= prev_rest.remove(mi));
            vstd::seq_lib::to_multiset_remove(prev_rest, mi);
            vstd::seq_lib::to_multiset_build(prev_out, x@);
            assert(views_of_vmas(out@.push(x)) =~= prev_out.push(x@));
            Seq::<VmaModel>::to_multiset_ensures(prev_rest);
            assert(prev_rest.contains(prev_rest[mi]));
            assert(prev_rest.to_multiset().count(x@) > 0);
            assert(prev_out.push(x@).to_multiset().add(prev_rest.remove(mi).to_multiset())
                =~= prev_out.to_multiset().add(prev_rest.to_multiset())) by {
                broadcast use vstd::multiset::group_multiset_axioms;

            }
        }
        out.push(x);
    }
    proof {
        Seq::<VmaModel>::to_multiset_ensures(views_of_vmas(rest@));
        assert(views_of_vmas(rest@) =~= Seq::<VmaModel>::empty());
        assert(views_of_vmas(rest@).to_multiset() =~= vstd::multiset::Multiset::<VmaModel>::empty());
        assert(views_of_vmas(out@).to_multiset().add(vstd::multiset::Multiset::<VmaModel>::empty())
            =~= views_of_vmas(out@).to_multiset()) by {
            broadcast use vstd::multiset::group_multiset_axioms;

        }
    }
    out
}

/// A memory snapshot: the regions worth tracking, and the aggregate of
/// shared-library regions.
#[derive(Debug)]
pub struct ProcSmaps {
    /// Tracked regions, in presentation order once parsing finishes.
    pub vmas: Vec<SmapsVma>,
    /// Resident set size for shared libraries, in KB.
    pub libs_rss: u64,
    /// Backing paths of the shared-library regions.
    pub libs: Vec<Vec<u8>>,
}

impl View for ProcSmaps {
    type V = SmapsModel;

    open spec fn view(&self) -> SmapsModel {
        SmapsModel {
            vmas: views_of_vmas(self.vmas@),
            libs_rss: self.libs_rss,
            libs: views_of(self.libs@),
        }
    }
}

impl ProcSmaps {
    /// Route one region into the snapshot; a region with no resident
    /// memory is dropped.
    pub fn add(&mut self, vma: SmapsVma)
        ensures
            final(self)@ == spec_add(old(self)@, vma@),
    {
        if vma.rss == 0 {
            return;
        }
        let is_lib = match &vma.notion {
            Some(n) => {
                let p: [u8; 10] = [
                    '/' as u8, 'u' as u8, 's' as u8, 'r' as u8, '/' as u8, 'l' as u8, 'i' as u8,
                    'b' as u8, '6' as u8, '4' as u8,
                ];
                assert(p@ =~= spec_lib_prefix());
                starts_with(n.as_slice(), p.as_slice())
            },
            None => false,
        };
        assert(is_lib == spec_vma_is_lib(vma@));
        if is_lib {
            self.libs_rss = if self.libs_rss > u64::MAX - vma.rss {
                u64::MAX
            } else {
                self.libs_rss + vma.rss
            };
            let ghost prev = self.libs@;
            let n = vma.notion.unwrap();
            proof {
                crate::tok::lemma_views_of_push(prev, n);
            }
            self.libs.push(n);
            assert(final(self)@ =~= spec_add(old(self)@, vma@));
        } else {
            let ghost prev = self.vmas@;
            self.vmas.push(vma);
            assert(views_of_vmas(self.vmas@) =~= views_of_vmas(prev).push(vma@));
            assert(final(self)@ =~= spec_add(old(self)@, vma@));
        }
    }

    /// Parse a whole memory-map text: lines are grouped into blocks at
    /// header lines, each block becomes a region routed into its
    /// bucket, and the tracked list is put into presentation order.
    pub fn parse(text: &[u8]) -> (r: Result<ProcSmaps, Error>)
        ensures
            match r {
                Ok(sm) => {
                    &&& spec_smaps(text@) is Some
                    &&& sm@.libs_rss == spec_smaps(text@).unwrap().libs_rss
                    &&& sm@.libs == spec_smaps(text@).unwrap().libs
                    &&& sm@.vmas.to_multiset() == spec_smaps(text@).unwrap().vmas.to_multiset()
                    &&& spec_vmas_sorted(sm@.vmas)
                    &&& forall|i: int|
                        0 <= i < sm@.vmas.len() ==> (#[trigger] sm@.vmas[i]).rss > 0
                },
                Err(e) => spec_smaps(text@) is None && e is ParseError,
            },
    {
        let ghost all = spec_lines(text@);
        let mut lines = split_lines(text);
        let mut smaps = ProcSmaps { vmas: Vec::new(), libs_rss: 0, libs: Vec::new() };
        let mut block: Vec<Vec<u8>> = Vec::new();
        let n = lines.len();
        let ghost total = n as int;
        let mut i: usize = 0;
        proof {
            assert(smaps@ =~= spec_smaps_empty());
            assert(all.take(0) =~= Seq::<Seq<u8>>::empty());
            assert(views_of(lines@) =~= all);
        }
        while lines.len() > 0
            invariant
                all == spec_lines(text@),
                0 <= i,
                i + lines@.len() == total,
                total == all.len(),
                total <= usize::MAX,
                views_of(lines@) == all.skip(i as int),
                spec_smaps_run(all.take(i as int)) == Some((smaps@, views_of(block@))),
            decreases lines@.len(),
        {
            let ghost prev_lines = lines@;
            let line = lines.remove(0);
            proof {
                assert(views_of(prev_lines) == all.skip(i as int));
                assert(line == prev_lines[0]);
                assert(views_of(prev_lines)[0] == prev_lines[0]@);
                assert(all.skip(i as int)[0] == all[i as int]);
                assert(line@ == all[i as int]);
                assert(lines@ == prev_lines.drop_first());
                crate::tok::lemma_views_of_drop_first(prev_lines);
                assert(all.skip(i as int).drop_first() =~= all.skip(i + 1));
                assert(views_of(lines@) =~= all.skip(i + 1));
                assert(all.take(i + 1).drop_last() =~= all.take(i as int));
                assert(all.take(i + 1).last() == all[i as int]);
            }
            if SmapsVma::is_another_vma(line.as_slice()) && block.len() > 0 {
                match SmapsVma::from(&block) {
                    Ok(vma) => {
                        smaps.add(vma);
                        block.clear();
                        proof {
                            crate::tok::lemma_views_of_push(block@, line);
                        }
                        block.push(line);
                        assert(views_of(block@) =~= seq![all[i as int]]);
                    },
                    Err(e) => {
                        assert(spec_smaps_run(all.take(i + 1)) is None);
                        proof {
                            lemma_smaps_run_none_extends(all, i + 1);
                        }
                        return Err(e);
                    },
                }
            } else {
                proof {
                    crate::tok::lemma_views_of_push(block@, line);
                }
                block.push(line);
            }
            i = i + 1;
        }
        proof {
            assert(all.skip(i as int) =~= Seq::<Seq<u8>>::empty());
            assert(i as int == total);
            assert(all.take(i as int) =~= all);
        }
        if block.len() > 0 {
            match SmapsVma::from(&block) {
                Ok(vma) => {
                    smaps.add(vma);
                },
                Err(e) => {
                    return Err(e);
                },
            }
        }
        let ghost unsorted = smaps@;
        assert(Some(unsorted) == spec_smaps(text@));
        let ProcSmaps { vmas, libs_rss, libs } = smaps;
        let sorted = sort_vmas(vmas);
        let r = ProcSmaps { vmas: sorted, libs_rss, libs };
        assert(r@.libs == unsorted.libs);
        assert(r@.libs_rss == unsorted.libs_rss);
        proof {
            lemma_tracked_rss_positive(text@);
            lemma_multiset_positive_transfer(unsorted.vmas, r@.vmas);
        }
        Ok(r)
    }
}

/// A grouping that has failed stays failed as more lines arrive.
proof fn lemma_smaps_run_none_extends(lines: Seq<Seq<u8>>, k: int)
    requires
        0 <= k <= lines.len(),
        spec_smaps_run(lines.take(k)) is None,
    ensures
        spec_smaps_run(lines) is None,
    decreases lines.len() - k,
{
    if k < lines.len() {
        assert(lines.take(k + 1).drop_last() =~= lines.take(k));
        lemma_smaps_run_none_extends(lines, k + 1);
    } else {
        assert(lines.take(k) =~= lines);
    }
}


/// Classification reads only the region, and a region enters its bucket
/// unchanged: one with no resident memory joins neither bucket, a
/// shared-library one joins the aggregate only, and any other joins the
/// tracked list as it is, so classifying a retained region again picks
/// the same bucket.
pub proof fn lemma_classify_idempotent(sm: SmapsModel, vm: VmaModel)
    ensures
        spec_classify(vm) == 0 ==> spec_add(sm, vm) == sm,
        spec_classify(vm) == 1 ==> spec_add(sm, vm).libs.last() == vm.notion.unwrap()
            && spec_add(sm, vm).vmas == sm.vmas,
        spec_classify(vm) == 2 ==> spec_add(sm, vm).vmas.last() == vm && spec_classify(
            spec_add(sm, vm).vmas.last(),
        ) == 2 && spec_add(sm, vm).libs == sm.libs && spec_add(sm, vm).libs_rss == sm.libs_rss,
{
}

proof fn lemma_run_rss_positive(lines: Seq<Seq<u8>>)
    requires
        spec_smaps_run(lines) is Some,
    ensures
        forall|i: int|
            0 <= i < spec_smaps_run(lines).unwrap().0.vmas.len() ==> (
            #[trigger] spec_smaps_run(lines).unwrap().0.vmas[i]).rss > 0,
    decreases lines.len(),
{
    if lines.len() > 0 {
        lemma_run_rss_positive(lines.drop_last());
    }
}

/// Every region the snapshot of a memory-map text keeps in its tracked
/// list has resident memory; one whose resident size is zero enters
/// neither the list nor the aggregate (`spec_add` leaves the snapshot
/// unchanged on it).
pub proof fn lemma_tracked_rss_positive(s: Seq<u8>)
    requires
        spec_smaps(s) is Some,
    ensures
        forall|i: int|
            0 <= i < spec_smaps(s).unwrap().vmas.len() ==> (
            #[trigger] spec_smaps(s).unwrap().vmas[i]).rss > 0,
{
    lemma_run_rss_positive(spec_lines(s));
}

/// Two sequences holding the same regions have resident memory
/// together.
proof fn lemma_multiset_positive_transfer(a: Seq<VmaModel>, b: Seq<VmaModel>)
    requires
        a.to_multiset() == b.to_multiset(),
        forall|i: int| 0 <= i < a.len() ==> (#[trigger] a[i]).rss > 0,
    ensures
        forall|i: int| 0 <= i < b.len() ==> (#[trigger] b[i]).rss > 0,
{
    Seq::<VmaModel>::to_multiset_ensures(a);
    Seq::<VmaModel>::to_multiset_ensures(b);
    assert forall|i: int| 0 <= i < b.len() implies (#[trigger] b[i]).rss > 0 by {
        assert(b.contains(b[i]));
        assert(b.to_multiset().count(b[i]) > 0);
        assert(a.to_multiset().count(b[i]) > 0);
        assert(a.contains(b[i]));
        let j = choose|j: int| 0 <= j < a.len() && a[j] == b[i];
        assert(a[j].rss > 0);
    }
}

} // verus!
