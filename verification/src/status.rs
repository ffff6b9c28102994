use vstd::prelude::*;

use crate::common::Error;
use crate::tok::{
    spec_tokens, spec_digits_val, lemma_digits_val_nonneg, spec_parse_u32, spec_parse_u64, spec_lines, tokenize, parse_u32, parse_u64,
    split_lines, bytes_eq, views_of,
};

verus! {

/// The memory-accounting counters of one process-status text block, in
/// kibibytes except `pid` and `threads`; a field whose key is absent from
/// the text stays zero.
#[derive(Clone, Copy, PartialEq, Eq, Structural, Debug)]
pub struct ProcStatus {
    /// Process identifier.
    pub pid: u32,
    /// Peak virtual memory size in KB.
    pub vm_peak: u64,
    /// Total virtual memory size in KB.
    pub vm_size: u64,
    /// Peak resident set size in KB.
    pub vm_hwm: u64,
    /// Resident set size in KB.
    pub vm_rss: u64,
    /// Size of resident anonymous memory in KB.
    pub rss_anon: u64,
    /// Size of resident file mappings in KB.
    pub rss_file: u64,
    /// Size of resident shared memory in KB.
    pub rss_shmem: u64,
    /// Size of private data segments in KB.
    pub vm_data: u64,
    /// Size of stack segments in KB.
    pub vm_stk: u32,
    /// Size of the text segment in KB.
    pub vm_exe: u32,
    /// Size of shared library code in KB.
    pub vm_lib: u32,
    /// Size of page table entries in KB.
    pub vm_pte: u32,
    /// Size of hugetlb memory portions in KB.
    pub hugetlb_pages: u64,
    /// Number of threads.
    pub threads: u32,
}

/// Key bytes of `Pid`.
pub open spec fn spec_key_pid() -> Seq<u8> {
    seq!['P' as u8, 'i' as u8, 'd' as u8]
}

/// Key bytes of `VmPeak`.
pub open spec fn spec_key_vm_peak() -> Seq<u8> {
    seq!['V' as u8, 'm' as u8, 'P' as u8, 'e' as u8, 'a' as u8, 'k' as u8]
}

/// Key bytes of `VmSize`.
pub open spec fn spec_key_vm_size() -> Seq<u8> {
    seq!['V' as u8, 'm' as u8, 'S' as u8, 'i' as u8, 'z' as u8, 'e' as u8]
}

/// Key bytes of `VmHWM`.
pub open spec fn spec_key_vm_hwm() -> Seq<u8> {
    seq!['V' as u8, 'm' as u8, 'H' as u8, 'W' as u8, 'M' as u8]
}

/// Key bytes of `VmRSS`.
pub open spec fn spec_key_vm_rss() -> Seq<u8> {
    seq!['V' as u8, 'm' as u8, 'R' as u8, 'S' as u8, 'S' as u8]
}

/// Key bytes of `RssAnon`.
pub open spec fn spec_key_rss_anon() -> Seq<u8> {
    seq!['R' as u8, 's' as u8, 's' as u8, 'A' as u8, 'n' as u8, 'o' as u8, 'n' as u8]
}

/// Key bytes of `RssFile`.
pub open spec fn spec_key_rss_file() -> Seq<u8> {
    seq!['R' as u8, 's' as u8, 's' as u8, 'F' as u8, 'i' as u8, 'l' as u8, 'e' as u8]
}

/// Key bytes of `RssShmem`.
pub open spec fn spec_key_rss_shmem() -> Seq<u8> {
    seq!['R' as u8, 's' as u8, 's' as u8, 'S' as u8, 'h' as u8, 'm' as u8, 'e' as u8, 'm' as u8]
}

/// Key bytes of `VmData`.
pub open spec fn spec_key_vm_data() -> Seq<u8> {
    seq!['V' as u8, 'm' as u8, 'D' as u8, 'a' as u8, 't' as u8, 'a' as u8]
}

/// Key bytes of `VmStk`.
pub open spec fn spec_key_vm_stk() -> Seq<u8> {
    seq!['V' as u8, 'm' as u8, 'S' as u8, 't' as u8, 'k' as u8]
}

/// Key bytes of `VmExe`.
pub open spec fn spec_key_vm_exe() -> Seq<u8> {
    seq!['V' as u8, 'm' as u8, 'E' as u8, 'x' as u8, 'e' as u8]
}

/// Key bytes of `VmLib`.
pub open spec fn spec_key_vm_lib() -> Seq<u8> {
    seq!['V' as u8, 'm' as u8, 'L' as u8, 'i' as u8, 'b' as u8]
}

/// Key bytes of `VmPTE`.
pub open spec fn spec_key_vm_pte() -> Seq<u8> {
    seq!['V' as u8, 'm' as u8, 'P' as u8, 'T' as u8, 'E' as u8]
}

/// Key bytes of `HugetlbPages`.
pub open spec fn spec_key_hugetlb_pages() -> Seq<u8> {
    seq!['H' as u8, 'u' as u8, 'g' as u8, 'e' as u8, 't' as u8, 'l' as u8, 'b' as u8, 'P' as u8, 'a' as u8, 'g' as u8, 'e' as u8, 's' as u8]
}

/// Key bytes of `Threads`.
pub open spec fn spec_key_threads() -> Seq<u8> {
    seq!['T' as u8, 'h' as u8, 'r' as u8, 'e' as u8, 'a' as u8, 'd' as u8, 's' as u8]
}

/// Which recognized key `k` is, or -1.
pub open spec fn spec_status_key_id(k: Seq<u8>) -> int {
    if k == spec_key_pid() {
        0
    } else if k == spec_key_vm_peak() {
        1
    } else if k == spec_key_vm_size() {
        2
    } else if k == spec_key_vm_hwm() {
        3
    } else if k == spec_key_vm_rss() {
        4
    } else if k == spec_key_rss_anon() {
        5
    } else if k == spec_key_rss_file() {
        6
    } else if k == spec_key_rss_shmem() {
        7
    } else if k == spec_key_vm_data() {
        8
    } else if k == spec_key_vm_stk() {
        9
    } else if k == spec_key_vm_exe() {
        10
    } else if k == spec_key_vm_lib() {
        11
    } else if k == spec_key_vm_pte() {
        12
    } else if k == spec_key_hugetlb_pages() {
        13
    } else if k == spec_key_threads() {
        14
    } else {
        -1
    }
}

/// Whether the field of key `id` is 32 bits wide.
pub open spec fn spec_status_key_is32(id: int) -> bool {
    id == 0 || id == 9 || id == 10 || id == 11 || id == 12 || id == 14
}

/// `st` with the field of key `id` set to `v`.
pub open spec fn spec_status_update(st: ProcStatus, id: int, v: u64) -> ProcStatus {
    if id == 0 {
        ProcStatus { pid: v as u32, ..st }
    } else if id == 1 {
        ProcStatus { vm_peak: v, ..st }
    } else if id == 2 {
        ProcStatus { vm_size: v, ..st }
    } else if id == 3 {
        ProcStatus { vm_hwm: v, ..st }
    } else if id == 4 {
        ProcStatus { vm_rss: v, ..st }
    } else if id == 5 {
        ProcStatus { rss_anon: v, ..st }
    } else if id == 6 {
        ProcStatus { rss_file: v, ..st }
    } else if id == 7 {
        ProcStatus { rss_shmem: v, ..st }
    } else if id == 8 {
        ProcStatus { vm_data: v, ..st }
    } else if id == 9 {
        ProcStatus { vm_stk: v as u32, ..st }
    } else if id == 10 {
        ProcStatus { vm_exe: v as u32, ..st }
    } else if id == 11 {
        ProcStatus { vm_lib: v as u32, ..st }
    } else if id == 12 {
        ProcStatus { vm_pte: v as u32, ..st }
    } else if id == 13 {
        ProcStatus { hugetlb_pages: v, ..st }
    } else if id == 14 {
        ProcStatus { threads: v as u32, ..st }
    } else {
        st
    }
}

/// The effect of one status line on the record: unrecognized keys leave
/// it unchanged; a recognized key takes the second token as its decimal
/// value; a line with no token, a recognized key with no value, or a bad
/// number is an error.
pub open spec fn spec_status_line(st: ProcStatus, line: Seq<u8>) -> Option<ProcStatus> {
    let toks = spec_tokens(line, true);
    if toks.len() == 0 {
        None
    } else {
        let id = spec_status_key_id(toks[0]);
        if id < 0 {
            Some(st)
        } else if toks.len() < 2 {
            None
        } else if spec_status_key_is32(id) {
            match spec_parse_u32(toks[1], 10) {
                None => None,
                Some(v) => Some(spec_status_update(st, id, v as u64)),
            }
        } else {
            match spec_parse_u64(toks[1], 10) {
                None => None,
                Some(v) => Some(spec_status_update(st, id, v)),
            }
        }
    }
}

/// The record after the lines are applied in order to `st`; `None` as
/// soon as one line fails.
pub open spec fn spec_status_fold(lines: Seq<Seq<u8>>, st: ProcStatus) -> Option<ProcStatus>
    decreases lines.len(),
{
    if lines.len() == 0 {
        Some(st)
    } else {
        match spec_status_line(st, lines[0]) {
            None => None,
            Some(st2) => spec_status_fold(lines.drop_first(), st2),
        }
    }
}

/// The record all fields zero.
pub open spec fn spec_status_zero() -> ProcStatus {
    ProcStatus {
        pid: 0,
        vm_peak: 0,
        vm_size: 0,
        vm_hwm: 0,
        vm_rss: 0,
        rss_anon: 0,
        rss_file: 0,
        rss_shmem: 0,
        vm_data: 0,
        vm_stk: 0,
        vm_exe: 0,
        vm_lib: 0,
        vm_pte: 0,
        hugetlb_pages: 0,
        threads: 0,
    }
}

/// The status record that a status text block denotes: each line applied
/// in order to the all-zero record.
pub open spec fn spec_status(s: Seq<u8>) -> Option<ProcStatus> {
    spec_status_fold(spec_lines(s), spec_status_zero())
}

impl Default for ProcStatus {
    /// The all-zero record.
    fn default() -> (r: Self)
        ensures
            r == spec_status_zero(),
    {
        ProcStatus {
            pid: 0,
            vm_peak: 0,
            vm_size: 0,
            vm_hwm: 0,
            vm_rss: 0,
            rss_anon: 0,
            rss_file: 0,
            rss_shmem: 0,
            vm_data: 0,
            vm_stk: 0,
            vm_exe: 0,
            vm_lib: 0,
            vm_pte: 0,
            hugetlb_pages: 0,
            threads: 0,
        }
    }
}

/// Which recognized key token `t` is, or -1.
fn status_key_id(t: &[u8]) -> (r: i32)
    ensures
        r as int == spec_status_key_id(t@),
{
    let k_pid: [u8; 3] = ['P' as u8, 'i' as u8, 'd' as u8];
    assert(k_pid@ =~= spec_key_pid());
    let k_vm_peak: [u8; 6] = ['V' as u8, 'm' as u8, 'P' as u8, 'e' as u8, 'a' as u8, 'k' as u8];
    assert(k_vm_peak@ =~= spec_key_vm_peak());
    let k_vm_size: [u8; 6] = ['V' as u8, 'm' as u8, 'S' as u8, 'i' as u8, 'z' as u8, 'e' as u8];
    assert(k_vm_size@ =~= spec_key_vm_size());
    let k_vm_hwm: [u8; 5] = ['V' as u8, 'm' as u8, 'H' as u8, 'W' as u8, 'M' as u8];
    assert(k_vm_hwm@ =~= spec_key_vm_hwm());
    let k_vm_rss: [u8; 5] = ['V' as u8, 'm' as u8, 'R' as u8, 'S' as u8, 'S' as u8];
    assert(k_vm_rss@ =~= spec_key_vm_rss());
    let k_rss_anon: [u8; 7] = ['R' as u8, 's' as u8, 's' as u8, 'A' as u8, 'n' as u8, 'o' as u8, 'n' as u8];
    assert(k_rss_anon@ =~= spec_key_rss_anon());
    let k_rss_file: [u8; 7] = ['R' as u8, 's' as u8, 's' as u8, 'F' as u8, 'i' as u8, 'l' as u8, 'e' as u8];
    assert(k_rss_file@ =~= spec_key_rss_file());
    let k_rss_shmem: [u8; 8] = ['R' as u8, 's' as u8, 's' as u8, 'S' as u8, 'h' as u8, 'm' as u8, 'e' as u8, 'm' as u8];
    assert(k_rss_shmem@ =~= spec_key_rss_shmem());
    let k_vm_data: [u8; 6] = ['V' as u8, 'm' as u8, 'D' as u8, 'a' as u8, 't' as u8, 'a' as u8];
    assert(k_vm_data@ =~= spec_key_vm_data());
    let k_vm_stk: [u8; 5] = ['V' as u8, 'm' as u8, 'S' as u8, 't' as u8, 'k' as u8];
    assert(k_vm_stk@ =~= spec_key_vm_stk());
    let k_vm_exe: [u8; 5] = ['V' as u8, 'm' as u8, 'E' as u8, 'x' as u8, 'e' as u8];
    assert(k_vm_exe@ =~= spec_key_vm_exe());
    let k_vm_lib: [u8; 5] = ['V' as u8, 'm' as u8, 'L' as u8, 'i' as u8, 'b' as u8];
    assert(k_vm_lib@ =~= spec_key_vm_lib());
    let k_vm_pte: [u8; 5] = ['V' as u8, 'm' as u8, 'P' as u8, 'T' as u8, 'E' as u8];
    assert(k_vm_pte@ =~= spec_key_vm_pte());
    let k_hugetlb_pages: [u8; 12] = ['H' as u8, 'u' as u8, 'g' as u8, 'e' as u8, 't' as u8, 'l' as u8, 'b' as u8, 'P' as u8, 'a' as u8, 'g' as u8, 'e' as u8, 's' as u8];
    assert(k_hugetlb_pages@ =~= spec_key_hugetlb_pages());
    let k_threads: [u8; 7] = ['T' as u8, 'h' as u8, 'r' as u8, 'e' as u8, 'a' as u8, 'd' as u8, 's' as u8];
    assert(k_threads@ =~= spec_key_threads());
    if bytes_eq(t, k_pid.as_slice()) {
        0
    } else if bytes_eq(t, k_vm_peak.as_slice()) {
        1
    } else if bytes_eq(t, k_vm_size.as_slice()) {
        2
    } else if bytes_eq(t, k_vm_hwm.as_slice()) {
        3
    } else if bytes_eq(t, k_vm_rss.as_slice()) {
        4
    } else if bytes_eq(t, k_rss_anon.as_slice()) {
        5
    } else if bytes_eq(t, k_rss_file.as_slice()) {
        6
    } else if bytes_eq(t, k_rss_shmem.as_slice()) {
        7
    } else if bytes_eq(t, k_vm_data.as_slice()) {
        8
    } else if bytes_eq(t, k_vm_stk.as_slice()) {
        9
    } else if bytes_eq(t, k_vm_exe.as_slice()) {
        10
    } else if bytes_eq(t, k_vm_lib.as_slice()) {
        11
    } else if bytes_eq(t, k_vm_pte.as_slice()) {
        12
    } else if bytes_eq(t, k_hugetlb_pages.as_slice()) {
        13
    } else if bytes_eq(t, k_threads.as_slice()) {
        14
    } else {
        -1
    }
}

impl ProcStatus {
    /// Apply one status line to the record.
    fn apply_line(st: ProcStatus, line: &[u8]) -> (r: Result<ProcStatus, Error>)
        ensures
            match r {
                Ok(st2) => spec_status_line(st, line@) == Some(st2),
                Err(e) => spec_status_line(st, line@) is None && e is ParseError,
            },
    {
        let toks = tokenize(line, true);
        if toks.len() == 0 {
            return Err(Error::ParseError(vstd::slice::slice_to_vec(line)));
        }
        assert(toks@[0]@ == spec_tokens(line@, true)[0]);
        let id = status_key_id(toks[0].as_slice());
        if id < 0 {
            return Ok(st);
        }
        if toks.len() < 2 {
            return Err(Error::ParseError(vstd::slice::slice_to_vec(line)));
        }
        assert(toks@[1]@ == spec_tokens(line@, true)[1]);
        let is32 = id == 0 || id == 9 || id == 10 || id == 11 || id == 12 || id == 14;
        assert(is32 == spec_status_key_is32(id as int));
        let v: u64 = if is32 {
            match parse_u32(toks[1].as_slice(), 10) {
                None => {
                    return Err(Error::ParseError(vstd::slice::slice_to_vec(line)));
                },
                Some(v32) => v32 as u64,
            }
        } else {
            match parse_u64(toks[1].as_slice(), 10) {
                None => {
                    return Err(Error::ParseError(vstd::slice::slice_to_vec(line)));
                },
                Some(v64) => v64,
            }
        };
        let mut st2 = st;
        if id == 0 {
            st2.pid = v as u32;
        } else if id == 1 {
            st2.vm_peak = v;
        } else if id == 2 {
            st2.vm_size = v;
        } else if id == 3 {
            st2.vm_hwm = v;
        } else if id == 4 {
            st2.vm_rss = v;
        } else if id == 5 {
            st2.rss_anon = v;
        } else if id == 6 {
            st2.rss_file = v;
        } else if id == 7 {
            st2.rss_shmem = v;
        } else if id == 8 {
            st2.vm_data = v;
        } else if id == 9 {
            st2.vm_stk = v as u32;
        } else if id == 10 {
            st2.vm_exe = v as u32;
        } else if id == 11 {
            st2.vm_lib = v as u32;
        } else if id == 12 {
            st2.vm_pte = v as u32;
        } else if id == 13 {
            st2.hugetlb_pages = v;
        } else if id == 14 {
            st2.threads = v as u32;
        }
        assert(st2 == spec_status_update(st, id as int, v));
        Ok(st2)
    }

    /// Parse a whole status text block: tokenized line by line, the
    /// recognized keys populating their fields, in text order; any bad
    /// line fails the whole record.
    pub fn parse(text: &[u8]) -> (r: Result<ProcStatus, Error>)
        ensures
            match r {
                Ok(st) => spec_status(text@) == Some(st),
                Err(e) => spec_status(text@) is None && e is ParseError,
            },
    {
        let lines = split_lines(text);
        let ghost all = spec_lines(text@);
        let mut st = ProcStatus::default();
        let mut i: usize = 0;
        assert(all.skip(0) =~= all);
        while i < lines.len()
            invariant
                0 <= i <= lines@.len(),
                all == spec_lines(text@),
                views_of(lines@) == all,
                spec_status_fold(all, spec_status_zero()) == spec_status_fold(
                    all.skip(i as int),
                    st,
                ),
            decreases lines@.len() - i,
        {
            assert(lines@[i as int]@ == all[i as int]);
            assert(all.skip(i as int)[0] == all[i as int]);
            match ProcStatus::apply_line(st, lines[i].as_slice()) {
                Ok(st2) => {
                    assert(all.skip(i as int).drop_first() =~= all.skip(i + 1));
                    st = st2;
                },
                Err(e) => {
                    assert(spec_status_fold(all.skip(i as int), st) is None);
                    return Err(e);
                },
            }
            i = i + 1;
        }
        assert(all.skip(i as int) =~= Seq::<Seq<u8>>::empty());
        Ok(st)
    }
}


/// The recognized key a line carries, or -1.
pub open spec fn spec_line_key_id(line: Seq<u8>) -> int {
    let toks = spec_tokens(line, true);
    if toks.len() == 0 {
        -1
    } else {
        spec_status_key_id(toks[0])
    }
}

/// The field of the record that key `id` populates, as an integer.
pub open spec fn spec_status_field(st: ProcStatus, id: int) -> int {
    if id == 0 {
        st.pid as int
    } else if id == 1 {
        st.vm_peak as int
    } else if id == 2 {
        st.vm_size as int
    } else if id == 3 {
        st.vm_hwm as int
    } else if id == 4 {
        st.vm_rss as int
    } else if id == 5 {
        st.rss_anon as int
    } else if id == 6 {
        st.rss_file as int
    } else if id == 7 {
        st.rss_shmem as int
    } else if id == 8 {
        st.vm_data as int
    } else if id == 9 {
        st.vm_stk as int
    } else if id == 10 {
        st.vm_exe as int
    } else if id == 11 {
        st.vm_lib as int
    } else if id == 12 {
        st.vm_pte as int
    } else if id == 13 {
        st.hugetlb_pages as int
    } else if id == 14 {
        st.threads as int
    } else {
        0
    }
}

/// The decimal value a status line carries in its second token.
pub open spec fn spec_line_value(line: Seq<u8>) -> int {
    spec_digits_val(spec_tokens(line, true)[1], 10)
}

/// One successful line sets the field of its own key to the line's
/// decimal value and leaves every other field alone.
proof fn lemma_status_line_field(st: ProcStatus, line: Seq<u8>, id: int)
    requires
        0 <= id < 15,
        spec_status_line(st, line) is Some,
    ensures
        spec_line_key_id(line) != id ==> spec_status_field(
            spec_status_line(st, line).unwrap(),
            id,
        ) == spec_status_field(st, id),
        spec_line_key_id(line) == id ==> spec_status_field(
            spec_status_line(st, line).unwrap(),
            id,
        ) == spec_line_value(line),
{
    let toks = spec_tokens(line, true);
    if spec_line_key_id(line) == id {
        let v = spec_line_value(line);
        lemma_digits_val_nonneg(toks[1], 10);
        if spec_status_key_is32(id) {
            assert(spec_parse_u32(toks[1], 10) is Some);
            assert(spec_parse_u32(toks[1], 10).unwrap() == v as u32);
            assert(0 <= v <= u32::MAX);
        } else {
            assert(spec_parse_u64(toks[1], 10) is Some);
            assert(spec_parse_u64(toks[1], 10).unwrap() == v as u64);
            assert(0 <= v <= u64::MAX);
        }
    }
}

/// A key that no line of the block carries leaves its field as it began.
pub proof fn lemma_status_fold_absent(lines: Seq<Seq<u8>>, st: ProcStatus, id: int)
    requires
        0 <= id < 15,
        spec_status_fold(lines, st) is Some,
        forall|i: int| 0 <= i < lines.len() ==> spec_line_key_id(#[trigger] lines[i]) != id,
    ensures
        spec_status_field(spec_status_fold(lines, st).unwrap(), id) == spec_status_field(st, id),
    decreases lines.len(),
{
    if lines.len() > 0 {
        let st2 = spec_status_line(st, lines[0]).unwrap();
        lemma_status_line_field(st, lines[0], id);
        assert(forall|i: int|
            0 <= i < lines.drop_first().len() ==> spec_line_key_id(
                #[trigger] lines.drop_first()[i],
            ) != id);
        lemma_status_fold_absent(lines.drop_first(), st2, id);
    }
}

/// A key that exactly one line of the block carries sets its field to
/// that line's decimal value.
pub proof fn lemma_status_fold_once(lines: Seq<Seq<u8>>, st: ProcStatus, id: int, j: int)
    requires
        0 <= id < 15,
        0 <= j < lines.len(),
        spec_status_fold(lines, st) is Some,
        spec_line_key_id(lines[j]) == id,
        forall|i: int|
            0 <= i < lines.len() && i != j ==> spec_line_key_id(#[trigger] lines[i]) != id,
    ensures
        spec_status_field(spec_status_fold(lines, st).unwrap(), id) == spec_line_value(lines[j]),
    decreases lines.len(),
{
    let st2 = spec_status_line(st, lines[0]).unwrap();
    lemma_status_line_field(st, lines[0], id);
    if j == 0 {
        assert(forall|i: int|
            0 <= i < lines.drop_first().len() ==> spec_line_key_id(
                #[trigger] lines.drop_first()[i],
            ) != id);
        lemma_status_fold_absent(lines.drop_first(), st2, id);
    } else {
        assert(forall|i: int|
            0 <= i < lines.drop_first().len() && i != j - 1 ==> spec_line_key_id(
                #[trigger] lines.drop_first()[i],
            ) != id);
        lemma_status_fold_once(lines.drop_first(), st2, id, j - 1);
    }
}

/// A recognized key absent from a status block that parses leaves its
/// field zero.
pub proof fn lemma_status_absent_key_zero(text: Seq<u8>, id: int)
    requires
        0 <= id < 15,
        spec_status(text) is Some,
        forall|i: int|
            0 <= i < spec_lines(text).len() ==> spec_line_key_id(
                #[trigger] spec_lines(text)[i],
            ) != id,
    ensures
        spec_status_field(spec_status(text).unwrap(), id) == 0,
{
    lemma_status_fold_absent(spec_lines(text), spec_status_zero(), id);
}

/// A recognized key present on exactly one line of a status block that
/// parses yields a field equal to that line's decimal value.
pub proof fn lemma_status_key_once(text: Seq<u8>, id: int, j: int)
    requires
        0 <= id < 15,
        spec_status(text) is Some,
        0 <= j < spec_lines(text).len(),
        spec_line_key_id(spec_lines(text)[j]) == id,
        forall|i: int|
            0 <= i < spec_lines(text).len() && i != j ==> spec_line_key_id(
                #[trigger] spec_lines(text)[i],
            ) != id,
    ensures
        spec_status_field(spec_status(text).unwrap(), id) == spec_line_value(spec_lines(text)[j]),
{
    lemma_status_fold_once(spec_lines(text), spec_status_zero(), id, j);
}

} // verus!
