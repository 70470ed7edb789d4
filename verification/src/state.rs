use crate::model::{init_cfg, init_marks, AltCfg, Cfg, RepFrame};
use crate::program::MAX_GROUPS;
use vstd::prelude::*;

verus! {

/// One saved alternative on the backtrack stack: where to resume, and the
/// exact position, marks and repetition contexts to restore.
#[derive(Debug)]
pub struct AltFrame {
    pub ip: usize,
    pub pos: usize,
    pub marks: Vec<Option<usize>>,
    pub reps: Vec<RepFrame>,
}

impl View for AltFrame {
    type V = AltCfg;

    open spec fn view(&self) -> AltCfg {
        AltCfg { ip: self.ip, pos: self.pos, marks: self.marks@, reps: self.reps@ }
    }
}

/// The mutable context of one match attempt: instruction pointer, cursor,
/// mark array (two slots per group, unset until written), active repetition
/// contexts, and the backtrack stack of owned frames.  The subject, the
/// window bounds and the step budget ride alongside as interpreter
/// arguments; a fresh context is made per attempt and discarded after.
#[derive(Debug)]
pub struct MatchState {
    pub ip: usize,
    pub pos: usize,
    pub marks: Vec<Option<usize>>,
    pub reps: Vec<RepFrame>,
    pub stack: Vec<AltFrame>,
}

impl View for MatchState {
    type V = Cfg;

    open spec fn view(&self) -> Cfg {
        Cfg {
            ip: self.ip,
            pos: self.pos,
            marks: self.marks@,
            reps: self.reps@,
            stack: self.stack@.map_values(|a: AltFrame| a@),
        }
    }
}

impl MatchState {
    /// A fresh context for one attempt anchored at `at`: the instruction
    /// pointer rests on the first word after the version tag, every mark of
    /// the `group_count` groups (and of group 0) is unset, and there is
    /// nothing to backtrack to.
    pub fn init(group_count: usize, at: usize) -> (s: MatchState)
        requires
            group_count <= MAX_GROUPS,
        ensures
            s@ == init_cfg(group_count, at),
    {
        let n: usize = 2 * (group_count + 1);
        let mut marks: Vec<Option<usize>> = Vec::new();
        while marks.len() < n
            invariant
                marks@.len() <= n,
                forall|k: int| 0 <= k < marks@.len() ==> marks@[k] is None,
            decreases n - marks.len(),
        {
            marks.push(None);
        }
        let s = MatchState { ip: 1, pos: at, marks, reps: Vec::new(), stack: Vec::new() };
        proof {
            assert(s@.marks =~= init_marks(group_count));
            assert(s@.stack =~= Seq::<AltCfg>::empty());
            assert(s@ =~= init_cfg(group_count, at));
        }
        s
    }
}

/// An exact copy of a small vector of copyable items, taken when an
/// alternative is saved or restored.
pub fn copy_units<T: Copy>(v: &Vec<T>) -> (r: Vec<T>)
    ensures
        r@ == v@,
{
    let mut r: Vec<T> = Vec::new();
    let mut i: usize = 0;
    while i < v.len()
        invariant
            i <= v@.len(),
            r@ == v@.subrange(0, i as int),
        decreases v@.len() - i,
    {
        r.push(v[i]);
        i = i + 1;
    }
    proof {
        assert(v@.subrange(0, v@.len() as int) =~= v@);
    }
    r
}

} // verus!
