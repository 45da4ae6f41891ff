//! The recovered control-flow graph, the result of validating it, and the
//! layout of the loaded image, as far as the report reads them.

use vstd::prelude::*;
use crate::text::{comma_list, dec_digits, join, lemma_join_push, push_dec};

verus! {

/// Identity of a recovered block: the handler it starts in and, for a
/// virtualized block, its position in the bytecode.
#[derive(Clone, Copy, Debug, PartialEq, Eq, Structural)]
pub struct BlockId {
    pub handler: u64,
    pub vip: Option<u64>,
}

/// A value reference in the expression arena.
#[derive(Clone, Copy, Debug, PartialEq, Eq, Structural)]
pub struct Ref(pub u32);

/// How a recovered block hands control on.
#[derive(Debug)]
pub enum Terminator {
    Jump(BlockId),
    Branch { taken: BlockId, not_taken: BlockId },
    Switch { targets: Vec<BlockId> },
    AdoptedSwitch { targets: Vec<BlockId> },
    Backedge { target: BlockId },
    Adopted { taken: BlockId, not_taken: BlockId },
    Return,
    Unresolved { reason: String },
}

/// One block of the recovered graph.
#[derive(Debug)]
pub struct Block {
    pub id: BlockId,
    pub terminator: Terminator,
    pub cost: u64,
    pub preds: Vec<BlockId>,
}

/// The graph that recovery returned.
#[derive(Debug)]
pub struct Cfg {
    pub blocks: Vec<Block>,
    pub total_steps: u64,
    pub timed_out: bool,
}

/// Whether a block ended unresolved.
pub open spec fn is_unresolved(t: Terminator) -> bool {
    t is Unresolved
}

/// Problems that validation found in a recovered graph.
#[derive(Debug)]
pub struct CfgIssues {
    pub dead_params: usize,
    pub dangling_edges: Vec<(BlockId, BlockId)>,
    pub unidentified_blocks: Vec<BlockId>,
    pub orphans: Vec<BlockId>,
    pub duplicate_ids: Vec<BlockId>,
    pub degenerate_branches: Vec<BlockId>,
    pub cannot_reach_exit: Vec<BlockId>,
    pub nondominating_params: Vec<(BlockId, Ref)>,
}

impl Default for CfgIssues {
    fn default() -> (r: Self)
        ensures
            r.dead_params == 0,
            r.dangling_edges@.len() == 0,
            r.unidentified_blocks@.len() == 0,
            r.orphans@.len() == 0,
            r.duplicate_ids@.len() == 0,
            r.degenerate_branches@.len() == 0,
            r.cannot_reach_exit@.len() == 0,
            r.nondominating_params@.len() == 0,
    {
        CfgIssues {
            dead_params: 0,
            dangling_edges: Vec::new(),
            unidentified_blocks: Vec::new(),
            orphans: Vec::new(),
            duplicate_ids: Vec::new(),
            degenerate_branches: Vec::new(),
            cannot_reach_exit: Vec::new(),
            nondominating_params: Vec::new(),
        }
    }
}

/// One category of problem, named and counted: `"<name> <count>"`.
pub open spec fn issue_part(name: Seq<char>, count: nat) -> Seq<char> {
    name + seq![' '] + dec_digits(count)
}

/// The part for a category, present only when its count is not zero.
pub open spec fn part_if(parts: Seq<Seq<char>>, name: Seq<char>, count: nat) -> Seq<Seq<char>> {
    if count == 0 {
        parts
    } else {
        parts.push(issue_part(name, count))
    }
}

impl CfgIssues {
    /// No category holds a problem.
    pub open spec fn clean(&self) -> bool {
        &&& self.dead_params == 0
        &&& self.dangling_edges@.len() == 0
        &&& self.unidentified_blocks@.len() == 0
        &&& self.orphans@.len() == 0
        &&& self.duplicate_ids@.len() == 0
        &&& self.degenerate_branches@.len() == 0
        &&& self.cannot_reach_exit@.len() == 0
        &&& self.nondominating_params@.len() == 0
    }

    /// The counted categories that hold a problem, in a fixed order.
    pub open spec fn parts(&self) -> Seq<Seq<char>> {
        let p = part_if(Seq::empty(), "dead_params"@, self.dead_params as nat);
        let p = part_if(p, "dangling_edges"@, self.dangling_edges@.len());
        let p = part_if(p, "unidentified_blocks"@, self.unidentified_blocks@.len());
        let p = part_if(p, "orphans"@, self.orphans@.len());
        let p = part_if(p, "duplicate_ids"@, self.duplicate_ids@.len());
        let p = part_if(p, "degenerate_branches"@, self.degenerate_branches@.len());
        let p = part_if(p, "cannot_reach_exit"@, self.cannot_reach_exit@.len());
        part_if(p, "nondominating_params"@, self.nondominating_params@.len())
    }

    /// One line for a report: `"clean"`, or the counted categories that hold
    /// a problem, separated by `", "`.
    pub open spec fn summary_text(&self) -> Seq<char> {
        if self.clean() {
            "clean"@
        } else {
            join(self.parts(), ", "@)
        }
    }

    pub fn is_clean(&self) -> (r: bool)
        ensures
            r == self.clean(),
    {
        self.dead_params == 0 && self.dangling_edges.len() == 0
            && self.unidentified_blocks.len() == 0 && self.orphans.len() == 0
            && self.duplicate_ids.len() == 0 && self.degenerate_branches.len() == 0
            && self.cannot_reach_exit.len() == 0 && self.nondominating_params.len() == 0
    }

    pub fn summary(&self) -> (r: String)
        ensures
            r@ == self.summary_text(),
    {
        if self.is_clean() {
            let mut s = String::new();
            s.append("clean");
            return s;
        }
        let mut s = String::new();
        let mut n: usize = 0;
        let ghost p0: Seq<Seq<char>> = Seq::empty();
        add_part(&mut s, &mut n, Ghost(p0), "dead_params", self.dead_params);
        let ghost p1 = part_if(p0, "dead_params"@, self.dead_params as nat);
        add_part(&mut s, &mut n, Ghost(p1), "dangling_edges", self.dangling_edges.len());
        let ghost p2 = part_if(p1, "dangling_edges"@, self.dangling_edges@.len());
        add_part(&mut s, &mut n, Ghost(p2), "unidentified_blocks", self.unidentified_blocks.len());
        let ghost p3 = part_if(p2, "unidentified_blocks"@, self.unidentified_blocks@.len());
        add_part(&mut s, &mut n, Ghost(p3), "orphans", self.orphans.len());
        let ghost p4 = part_if(p3, "orphans"@, self.orphans@.len());
        add_part(&mut s, &mut n, Ghost(p4), "duplicate_ids", self.duplicate_ids.len());
        let ghost p5 = part_if(p4, "duplicate_ids"@, self.duplicate_ids@.len());
        add_part(&mut s, &mut n, Ghost(p5), "degenerate_branches", self.degenerate_branches.len());
        let ghost p6 = part_if(p5, "degenerate_branches"@, self.degenerate_branches@.len());
        add_part(&mut s, &mut n, Ghost(p6), "cannot_reach_exit", self.cannot_reach_exit.len());
        let ghost p7 = part_if(p6, "cannot_reach_exit"@, self.cannot_reach_exit@.len());
        add_part(
            &mut s,
            &mut n,
            Ghost(p7),
            "nondominating_params",
            self.nondominating_params.len(),
        );
        s
    }
}

/// Appends one counted category when its count is not zero, keeping `s` the
/// `", "`-joined list of the parts so far.
fn add_part(s: &mut String, n: &mut usize, Ghost(parts): Ghost<Seq<Seq<char>>>, name: &str, count: usize)
    requires
        old(s)@ == join(parts, ", "@),
        *old(n) == parts.len(),
        parts.len() < 8,
    ensures
        final(s)@ == join(part_if(parts, name@, count as nat), ", "@),
        *final(n) == part_if(parts, name@, count as nat).len(),
        *final(n) <= parts.len() + 1,
{
    if count != 0 {
        let ghost before = s@;
        if *n > 0 {
            s.append(", ");
        }
        s.append(name);
        s.push(' ');
        push_dec(s, count as u64);
        proof {
            let x = issue_part(name@, count as nat);
            lemma_join_push(parts, x, ", "@);
            if parts.len() == 0 {
                assert(s@ =~= before + x);
            } else {
                assert(s@ =~= before + ", "@ + x);
            }
        }
        *n = *n + 1;
    }
}

/// One section of the loaded image, at its virtual address.
#[derive(Clone, Copy, Debug)]
pub struct Section {
    pub va: u64,
    pub virtual_size: u32,
    pub raw_size: u32,
    pub executable: bool,
}

impl Section {
    /// How far the section reaches: the larger of its virtual and raw sizes.
    pub open spec fn span(&self) -> nat {
        if self.virtual_size >= self.raw_size {
            self.virtual_size as nat
        } else {
            self.raw_size as nat
        }
    }

    /// The section's addresses fit in the address space.
    pub open spec fn wf(&self) -> bool {
        self.va + self.span() <= u64::MAX
    }

    pub open spec fn holds(&self, va: u64) -> bool {
        self.va <= va < self.va + self.span()
    }
}

/// The loaded image as the report reads it: its sections and, where the
/// image has one, the section that holds the virtual machine's bytecode.
#[derive(Debug)]
pub struct Image {
    pub sections: Vec<Section>,
    pub vm_section: Option<Section>,
}

impl Image {
    pub open spec fn wf(&self) -> bool {
        &&& forall|i: int| 0 <= i < self.sections@.len() ==> (#[trigger] self.sections@[i]).wf()
        &&& (self.vm_section matches Some(s) ==> s.wf())
    }

    /// `va` lies in an executable section.
    pub open spec fn executable_at(&self, va: u64) -> bool {
        exists|i: int|
            0 <= i < self.sections@.len() && (#[trigger] self.sections@[i]).executable
                && self.sections@[i].holds(va)
    }

    pub fn is_executable(&self, va: u64) -> (r: bool)
        requires
            self.wf(),
        ensures
            r == self.executable_at(va),
    {
        let mut i: usize = 0;
        while i < self.sections.len()
            invariant
                self.wf(),
                i <= self.sections@.len(),
                forall|j: int|
                    0 <= j < i ==> !((#[trigger] self.sections@[j]).executable
                        && self.sections@[j].holds(va)),
            decreases self.sections@.len() - i,
        {
            let s = self.sections[i];
            assert(self.sections@[i as int].wf());
            let span: u64 = if s.virtual_size >= s.raw_size {
                s.virtual_size as u64
            } else {
                s.raw_size as u64
            };
            if s.executable && s.va <= va && va - s.va < span {
                return true;
            }
            i = i + 1;
        }
        false
    }
}

} // verus!
