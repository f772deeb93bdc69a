//! Branches and joins: how a branch grows from its segments, what its join
//! makes of it, and where the reduce stage goes on.

use vstd::prelude::*;
use vstd::string::*;
use vstd::utf8::encode_utf8;

use crate::masks::{make_ramp, ramp, rows_view};
use crate::npr::report::{ends_a_guideline, primer_forks};
use crate::npr::schedule::{causal, causal_rows, push_bytes, push_tokens, Refill, Stop};
use crate::text::{cat3, lossy, lossy_text};

verus! {

/// The text a branch starts with, behind the shared prefix.
pub open spec fn header_text(label: Seq<char>) -> Seq<char> {
    "\n<step>\n"@ + label + ":"@
}

/// The text a branch starts with.
pub fn step_header(label: &str) -> (r: String)
    ensures
        r@ == header_text(label@),
{
    cat3("\n<step>\n", label, ":")
}

/// What a branch has added behind the fork: its header, what it generated, and
/// any nested join. `own` counts what it generated itself.
pub struct Branch {
    pub tokens: Vec<u32>,
    pub bytes: Vec<u8>,
    pub own: usize,
}

/// What a branch does behind a segment.
#[derive(Clone, Copy, Debug, PartialEq, Eq, Structural)]
pub enum BranchStep {
    /// The branch is complete.
    Done,
    /// The branch ends the run with it: end of turn, or budget.
    Terminal,
    /// A nested guideline closed: try to fork, then go on.
    Fork,
}

/// What a branch does when a segment stops.
pub open spec fn branch_step(stop: Stop) -> BranchStep {
    match stop {
        Stop::StepEnd => BranchStep::Done,
        Stop::GuidelineEnd => BranchStep::Fork,
        Stop::Eos | Stop::Budget => BranchStep::Terminal,
    }
}

impl Branch {
    /// A branch that holds its header.
    pub fn start(label: &str, header_tokens: &[u32]) -> (r: Branch)
        ensures
            r.tokens@ == header_tokens@,
            r.bytes@ == encode_utf8(header_text(label@)),
            r.own == 0,
    {
        let mut tokens: Vec<u32> = Vec::new();
        push_tokens(&mut tokens, header_tokens);
        let mut bytes: Vec<u8> = Vec::new();
        let header = step_header(label);
        push_bytes(&mut bytes, header.as_str().as_bytes());
        proof {
            assert(Seq::<u32>::empty() + header_tokens@ =~= header_tokens@);
            assert(Seq::<u8>::empty() + encode_utf8(header@) =~= encode_utf8(header@));
        }
        Branch { tokens, bytes, own: 0 }
    }

    /// Adds a decoded segment and decides what comes next.
    pub fn take_segment(&mut self, tokens: &[u32], bytes: &[u8], stop: Stop) -> (r: BranchStep)
        requires
            old(self).own + tokens@.len() <= usize::MAX,
        ensures
            final(self).tokens@ == old(self).tokens@ + tokens@,
            final(self).bytes@ == old(self).bytes@ + bytes@,
            final(self).own == old(self).own + tokens@.len(),
            r == branch_step(stop),
    {
        self.own = self.own + tokens.len();
        push_tokens(&mut self.tokens, tokens);
        push_bytes(&mut self.bytes, bytes);
        match stop {
            Stop::StepEnd => BranchStep::Done,
            Stop::GuidelineEnd => BranchStep::Fork,
            Stop::Eos | Stop::Budget => BranchStep::Terminal,
        }
    }

    /// Adds a nested join. Its tokens are not the branch's own. A join that
    /// ended the run ends the branch.
    pub fn take_join(&mut self, join: &Joined) -> (terminal: bool)
        ensures
            final(self).tokens@ == old(self).tokens@ + join.tokens@,
            final(self).bytes@ == old(self).bytes@ + join.bytes@,
            final(self).own == old(self).own,
            terminal == join.terminal,
    {
        push_tokens(&mut self.tokens, join.tokens.as_slice());
        push_bytes(&mut self.bytes, join.bytes.as_slice());
        join.terminal
    }
}

// ---------------------------------------------------------------------------
// Joins
// ---------------------------------------------------------------------------

/// A finished branch.
pub struct BranchResult {
    pub tokens: Vec<u32>,
    pub bytes: Vec<u8>,
    /// It ended on end of turn or budget instead of a closed step.
    pub terminal: bool,
}

/// A joined block.
pub struct Joined {
    pub tokens: Vec<u32>,
    pub bytes: Vec<u8>,
    pub terminal: bool,
    /// The length of the longest branch.
    pub max_extent: usize,
}

/// The tokens of the first `n` branches, in plan order.
pub open spec fn all_tokens(b: Seq<BranchResult>, n: int) -> Seq<u32>
    decreases n,
{
    if n <= 0 {
        Seq::empty()
    } else {
        all_tokens(b, n - 1) + b[n - 1].tokens@
    }
}

/// The bytes of the first `n` branches, in plan order.
pub open spec fn all_bytes(b: Seq<BranchResult>, n: int) -> Seq<u8>
    decreases n,
{
    if n <= 0 {
        Seq::empty()
    } else {
        all_bytes(b, n - 1) + b[n - 1].bytes@
    }
}

/// The length of the longest of the first `n` branches.
pub open spec fn extent(b: Seq<BranchResult>, n: int) -> nat
    decreases n,
{
    if n <= 0 {
        0
    } else if b[n - 1].tokens@.len() > extent(b, n - 1) {
        b[n - 1].tokens@.len()
    } else {
        extent(b, n - 1)
    }
}

/// No branch is longer than the extent.
pub proof fn lemma_extent(b: Seq<BranchResult>, n: int, i: int)
    requires
        0 <= i < n <= b.len(),
    ensures
        b[i].tokens@.len() <= extent(b, n),
    decreases n,
{
    if i < n - 1 {
        lemma_extent(b, n - 1, i);
    }
}

/// The text that opens the reduce stage.
pub const TAKEAWAY: &'static str = "<takeaway>\n";

/// Joins finished branches in plan order and opens the reduce stage with the
/// tokens `takeaway`. The join ends the run where any branch did.
pub fn join_branches(branches: &[BranchResult], takeaway: &[u32]) -> (r: Joined)
    ensures
        r.tokens@ == all_tokens(branches@, branches@.len() as int) + takeaway@,
        r.bytes@ == all_bytes(branches@, branches@.len() as int) + encode_utf8(TAKEAWAY@),
        r.terminal == exists|i: int| 0 <= i < branches@.len() && (#[trigger] branches@[i]).terminal,
        r.max_extent == extent(branches@, branches@.len() as int),
{
    let mut tokens: Vec<u32> = Vec::new();
    let mut bytes: Vec<u8> = Vec::new();
    let mut terminal: bool = false;
    let mut max_extent: usize = 0;
    let mut i: usize = 0;
    while i < branches.len()
        invariant
            i <= branches@.len(),
            tokens@ == all_tokens(branches@, i as int),
            bytes@ == all_bytes(branches@, i as int),
            terminal == exists|j: int| 0 <= j < i && (#[trigger] branches@[j]).terminal,
            max_extent == extent(branches@, i as int),
        decreases branches.len() - i,
    {
        let b = &branches[i];
        let n = b.tokens.len();
        proof {
            assert(branches@[i as int].tokens@.len() == n);
        }
        push_tokens(&mut tokens, b.tokens.as_slice());
        push_bytes(&mut bytes, b.bytes.as_slice());
        if b.terminal {
            terminal = true;
        }
        if n > max_extent {
            max_extent = n;
        }
        i += 1;
    }
    push_tokens(&mut tokens, takeaway);
    push_bytes(&mut bytes, TAKEAWAY.as_bytes());
    Joined { tokens, bytes, terminal, max_extent }
}

/// Opens the reduce stage behind the longest branch: all but the last of the
/// takeaway's `n` tokens are filled causally from position
/// `p_fork + max_extent`, and the token behind the takeaway carries the second
/// number answered.
pub fn takeaway_refill(p_fork: u32, max_extent: u32, base_len: u32, n: usize) -> (r: (Refill, u32))
    requires
        n >= 1,
        p_fork + max_extent + n <= u32::MAX,
        base_len + n <= u32::MAX,
    ensures
        r.0.positions@ == ramp(p_fork + max_extent, (n - 1) as nat),
        rows_view(r.0.rows@) == causal(base_len, (n - 1) as nat),
        r.1 == p_fork + max_extent + n,
{
    let start: u32 = p_fork + max_extent;
    (
        Refill { positions: make_ramp(start, n - 1), rows: causal_rows(base_len, n - 1) },
        start + n as u32,
    )
}

// ---------------------------------------------------------------------------
// The top level
// ---------------------------------------------------------------------------

/// Why the run ends when a top-level segment stops; none where it forks.
pub open spec fn top_reason(stop: Stop) -> Option<Seq<char>> {
    match stop {
        Stop::GuidelineEnd => None,
        Stop::StepEnd => Some("step_end"@),
        Stop::Eos => Some("eos"@),
        Stop::Budget => Some("budget"@),
    }
}

/// Why the run ends when a top-level segment stops; `None` where a guideline
/// closed and a fork is tried.
pub fn top_stop(stop: Stop) -> (r: Option<&'static str>)
    ensures
        match r {
            Some(s) => top_reason(stop) == Some(s@),
            None => top_reason(stop) is None,
        },
{
    match stop {
        Stop::GuidelineEnd => None,
        Stop::StepEnd => Some("step_end"),
        Stop::Eos => Some("eos"),
        Stop::Budget => Some("budget"),
    }
}

/// What a run does behind a segment or a join.
#[derive(Clone, Copy, Debug, PartialEq, Eq, Structural)]
pub enum TopStep {
    /// Decode the next segment.
    Decode,
    /// Try to fork.
    Fork,
    /// The run is over.
    End,
}

/// A run's trajectory: what it has made, and why it ended.
pub struct Trajectory {
    pub bytes: Vec<u8>,
    pub stop_reason: &'static str,
}

impl Trajectory {
    /// Nothing made.
    pub fn new() -> (r: Trajectory)
        ensures
            r.bytes@.len() == 0,
            r.stop_reason@ == "unknown"@,
    {
        Trajectory { bytes: Vec::new(), stop_reason: "unknown" }
    }

    /// The trajectory's text: what the answer is read from.
    pub fn text(&self) -> (r: String)
        ensures
            r@ == lossy_text(self.bytes@),
    {
        lossy(self.bytes.as_slice())
    }

    /// Takes an injected opening: one that ends a guideline forks at once.
    pub fn take_primer(&mut self, primer: &str) -> (r: TopStep)
        ensures
            final(self).bytes@ == old(self).bytes@ + encode_utf8(primer@),
            final(self).stop_reason == old(self).stop_reason,
            r == (if ends_a_guideline(primer@) {
                TopStep::Fork
            } else {
                TopStep::Decode
            }),
    {
        push_bytes(&mut self.bytes, primer.as_bytes());
        if primer_forks(primer) {
            TopStep::Fork
        } else {
            TopStep::Decode
        }
    }

    /// Takes a decoded segment.
    pub fn take_segment(&mut self, bytes: &[u8], stop: Stop) -> (r: TopStep)
        ensures
            final(self).bytes@ == old(self).bytes@ + bytes@,
            match top_reason(stop) {
                Some(s) => r == TopStep::End && final(self).stop_reason@ == s,
                None => r == TopStep::Fork && final(self).stop_reason == old(self).stop_reason,
            },
    {
        push_bytes(&mut self.bytes, bytes);
        match top_stop(stop) {
            Some(reason) => {
                self.stop_reason = reason;
                TopStep::End
            },
            None => TopStep::Fork,
        }
    }

    /// Takes the join of the opening's fork; the run goes on whatever its branches
    /// did.
    pub fn take_primer_join(&mut self, join: &Joined) -> (r: TopStep)
        ensures
            final(self).bytes@ == old(self).bytes@ + join.bytes@,
            final(self).stop_reason == old(self).stop_reason,
            r == TopStep::Decode,
    {
        push_bytes(&mut self.bytes, join.bytes.as_slice());
        TopStep::Decode
    }

    /// Takes the join of a segment's fork; the run ends where one of its branches
    /// ended it.
    pub fn take_join(&mut self, join: &Joined) -> (r: TopStep)
        ensures
            final(self).bytes@ == old(self).bytes@ + join.bytes@,
            join.terminal ==> r == TopStep::End && final(self).stop_reason@ == "branch_terminal"@,
            !join.terminal ==> r == TopStep::Decode && final(self).stop_reason == old(
                self,
            ).stop_reason,
    {
        push_bytes(&mut self.bytes, join.bytes.as_slice());
        if join.terminal {
            self.stop_reason = "branch_terminal";
            TopStep::End
        } else {
            TopStep::Decode
        }
    }
}

} // verus!
