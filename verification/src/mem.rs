use vstd::prelude::*;

use crate::cmdline::ProcCmd;
use crate::render::{spec_render_cmd, spec_render_smaps, spec_render_status};
use crate::smaps::ProcSmaps;
use crate::status::ProcStatus;
use crate::tok::{views_of, NL};

verus! {

/// Something that renders what it inspected as printable text.
pub trait Inspector {
    fn inspect(&self) -> Vec<u8>;
}

/// Inspector for a process's memory consumption: up to three records,
/// one per requested source; a source not requested, or whose read or
/// parse failed, is absent.
pub struct MemInspector {
    /// Command line of the process.
    pub cmd: Option<ProcCmd>,
    /// Memory status of the process.
    pub status: Option<ProcStatus>,
    /// Memory map of the process.
    pub smaps: Option<ProcSmaps>,
}

/// What one inspection prints: each present section rendered and closed
/// by a newline, in the order command line, status, memory map.
pub open spec fn spec_inspect(m: &MemInspector) -> Seq<u8> {
    (match m.cmd {
        Some(c) => spec_render_cmd(c.name@, views_of(c.args@)) + seq![NL],
        None => Seq::empty(),
    }) + (match m.status {
        Some(st) => spec_render_status(st) + seq![NL],
        None => Seq::empty(),
    }) + (match m.smaps {
        Some(sm) => spec_render_smaps(sm@) + seq![NL],
        None => Seq::empty(),
    })
}

impl MemInspector {
    /// Assemble a snapshot from the records that were collected.
    pub fn new(cmd: Option<ProcCmd>, status: Option<ProcStatus>, smaps: Option<ProcSmaps>) -> (r:
        Self)
        ensures
            r.cmd == cmd,
            r.status == status,
            r.smaps == smaps,
    {
        MemInspector { cmd, status, smaps }
    }

    /// Render every present section, each closed by a newline.
    pub fn render(&self) -> (r: Vec<u8>)
        ensures
            r@ == spec_inspect(self),
    {
        let mut out: Vec<u8> = Vec::new();
        match &self.cmd {
            Some(c) => {
                let s = c.render();
                crate::render::push_all(&mut out, s.as_slice());
                out.push(NL);
            },
            None => {},
        }
        let ghost part_cmd = out@;
        proof {
            assert(part_cmd =~= (match self.cmd {
                Some(c) => spec_render_cmd(c.name@, views_of(c.args@)) + seq![NL],
                None => Seq::<u8>::empty(),
            }));
        }
        match &self.status {
            Some(st) => {
                let s = st.render();
                crate::render::push_all(&mut out, s.as_slice());
                out.push(NL);
            },
            None => {},
        }
        let ghost part_status = out@;
        proof {
            assert(part_status =~= part_cmd + (match self.status {
                Some(st) => spec_render_status(st) + seq![NL],
                None => Seq::<u8>::empty(),
            }));
        }
        match &self.smaps {
            Some(sm) => {
                let s = sm.render();
                crate::render::push_all(&mut out, s.as_slice());
                out.push(NL);
            },
            None => {},
        }
        proof {
            assert(out@ =~= part_status + (match self.smaps {
                Some(sm) => spec_render_smaps(sm@) + seq![NL],
                None => Seq::<u8>::empty(),
            }));
        }
        out
    }
}

impl Inspector for MemInspector {
    /// The rendered sections of this inspection.
    fn inspect(&self) -> (r: Vec<u8>)
        ensures
            r@ == spec_inspect(self),
    {
        self.render()
    }
}

} // verus!
