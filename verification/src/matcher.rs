use crate::model::{
    at_ok, fall_back, fold_unit, is_word, run, span_eq_folded, step, AltCfg, Cfg, RepFrame,
    RunEnd, RunOutcome, StepCase,
};
use crate::program::{
    AT_BEGIN, AT_BOL, AT_BOUNDARY, AT_END, AT_EOL, AT_NON_BOUNDARY, FLAG_DOTALL, FLAG_IGNORECASE,
    OP_ANY,
    OP_ASSERT, OP_ASSERT_NOT, OP_AT, OP_FAIL, OP_JUMP, OP_LITERAL, OP_MARK, OP_NRANGE, OP_RANGE,
    OP_REF, OP_REPEAT, OP_REPEAT_END, OP_REPEAT_END_LAZY, OP_REPEAT_LAZY, OP_SPLIT, OP_SUCCESS,
    UNBOUNDED,
};
use crate::state::{copy_units, AltFrame, MatchState};
use vstd::prelude::*;

verus! {

/// How one attempt ended, as the interpreter reports it.
#[derive(Debug)]
pub enum AttemptEnd {
    /// A match ending at the position, with the final mark array.
    Matched(usize, Vec<Option<usize>>),
    /// Every alternative was exhausted.
    NoMatch,
    /// The step budget ran out first.
    TooComplex,
    /// The program holds a word the engine refuses to interpret.
    Faulted,
}

impl View for AttemptEnd {
    type V = RunEnd;

    open spec fn view(&self) -> RunEnd {
        match self {
            AttemptEnd::Matched(p, m) => RunEnd::Matched(*p, m@),
            AttemptEnd::NoMatch => RunEnd::NoMatch,
            AttemptEnd::TooComplex => RunEnd::TooComplex,
            AttemptEnd::Faulted => RunEnd::Faulted,
        }
    }
}

/// What one executed step asks the driving loop to do next.
pub enum StepRes {
    /// The configuration moved on; keep going.
    Go,
    /// The attempt is decided.
    Stopped(AttemptEnd),
    /// Run the lookaround sub-attempt starting at `sub`, anchored `back`
    /// units before the current position, then continue at `cont`.
    Look { neg: bool, back: usize, sub: usize, cont: usize },
}

/// The folded unit used in comparisons; see [`fold_unit`].
pub fn fold_exec(flags: u32, u: u32) -> (r: u32)
    ensures
        r == fold_unit(flags, u),
{
    if flags & FLAG_IGNORECASE != 0 && 65 <= u && u <= 90 {
        u + 32
    } else {
        u
    }
}

/// Whether `u` is a word unit; see [`is_word`].
pub fn is_word_exec(u: u8) -> (r: bool)
    ensures
        r == is_word(u),
{
    (48 <= u && u <= 57) || (65 <= u && u <= 90) || (97 <= u && u <= 122) || u == 95
}

/// Evaluates the zero-width test `k`; see [`at_ok`].
pub fn at_exec(k: u32, subj: &[u8], start: usize, end: usize, pos: usize) -> (r: bool)
    requires
        end <= subj@.len(),
    ensures
        r == at_ok(k, subj@, start, end, pos),
{
    if k == AT_BEGIN {
        pos == start
    } else if k == AT_END {
        pos == end
    } else if k == AT_BOL {
        pos == start || (pos > 0 && pos <= subj.len() && subj[pos - 1] == 10)
    } else if k == AT_EOL {
        pos == end || (pos < end && subj[pos] == 10)
    } else {
        let before = pos > start && pos <= subj.len() && is_word_exec(subj[pos - 1]);
        let here = pos < end && is_word_exec(subj[pos]);
        if k == AT_BOUNDARY {
            before != here
        } else {
            before == here
        }
    }
}

/// Whether the `l` units from `a` equal, folded, the `l` units from `b`;
/// see [`span_eq_folded`].
pub fn span_eq_exec(flags: u32, subj: &[u8], a: usize, b: usize, l: usize) -> (r: bool)
    requires
        a + l <= subj@.len(),
        b + l <= subj@.len(),
    ensures
        r == span_eq_folded(flags, subj@, a, b, l as int),
{
    let total = subj.len();
    let mut j: usize = 0;
    while j < l
        invariant
            j <= l,
            total == subj@.len(),
            a + l <= subj@.len(),
            b + l <= subj@.len(),
            span_eq_folded(flags, subj@, a, b, j as int),
        decreases l - j,
    {
        proof {
            assert(a + j < subj@.len());
            assert(b + j < subj@.len());
        }
        let ua = fold_exec(flags, subj[a + j] as u32);
        let ub = fold_exec(flags, subj[b + j] as u32);
        if ua != ub {
            return false;
        }
        j = j + 1;
    }
    true
}

/// Restores the youngest saved alternative, or reports that none is left;
/// the executable image of [`fall_back`].
fn fall_back_exec(st: &mut MatchState) -> (r: StepRes)
    ensures
        ({
            let sc = fall_back(old(st)@);
            match r {
                StepRes::Go => sc matches StepCase::Next(c2) && final(st)@ == c2,
                StepRes::Stopped(e) => sc matches StepCase::Stop(e2) && e@ == e2,
                StepRes::Look { .. } => false,
            }
        }),
{
    let ghost pre = st@;
    match st.stack.pop() {
        None => {
            proof {
                assert(pre.stack =~= Seq::<AltCfg>::empty());
            }
            StepRes::Stopped(AttemptEnd::NoMatch)
        },
        Some(a) => {
            st.ip = a.ip;
            st.pos = a.pos;
            st.marks = a.marks;
            st.reps = a.reps;
            proof {
                assert(pre.stack.len() > 0);
                assert(pre.stack.last() == a@);
                assert(st@.stack =~= pre.stack.drop_last());
                assert(StepCase::Next(st@) =~~= fall_back(pre));
            }
            StepRes::Go
        },
    }
}

/// Executes the one transition out of the current configuration: the
/// executable image of [`step`].
#[verifier::loop_isolation(false)]
#[verifier::rlimit(60)]
fn step_exec(
    code: &Vec<u32>,
    subj: &[u8],
    flags: u32,
    start: usize,
    end: usize,
    full: bool,
    st: &mut MatchState,
) -> (r: StepRes)
    requires
        end <= subj@.len(),
    ensures
        ({
            let sc = step(code@, subj@, flags, start, end, full, old(st)@);
            match r {
                StepRes::Go => sc matches StepCase::Next(c2) && final(st)@ == c2,
                StepRes::Stopped(e) => sc matches StepCase::Stop(e2) && e@ == e2,
                StepRes::Look { neg, back, sub, cont } => sc == (StepCase::Look {
                    neg,
                    back,
                    sub,
                    cont,
                }) && final(st)@ == old(st)@,
            }
        }),
{
    let ghost pre = st@;
    let n = code.len();
    if st.ip >= n {
        return StepRes::Stopped(AttemptEnd::Faulted);
    }
    let op = code[st.ip];
    if op == OP_FAIL {
        fall_back_exec(st)
    } else if op == OP_SUCCESS {
        if full && st.pos != end {
            fall_back_exec(st)
        } else {
            let m = copy_units(&st.marks);
            StepRes::Stopped(AttemptEnd::Matched(st.pos, m))
        }
    } else if op == OP_JUMP {
        if n - st.ip <= 1 {
            return StepRes::Stopped(AttemptEnd::Faulted);
        }
        st.ip = code[st.ip + 1] as usize;
        proof {
            assert(StepCase::Next(st@) =~~= step(code@, subj@, flags, start, end, full, pre));
        }
        StepRes::Go
    } else if op == OP_SPLIT {
        if n - st.ip <= 1 {
            return StepRes::Stopped(AttemptEnd::Faulted);
        }
        let alt = AltFrame {
            ip: code[st.ip + 1] as usize,
            pos: st.pos,
            marks: copy_units(&st.marks),
            reps: copy_units(&st.reps),
        };
        st.stack.push(alt);
        st.ip = st.ip + 2;
        proof {
            assert(st@.stack =~= pre.stack.push(
                AltCfg { ip: code@[pre.ip + 1] as usize, pos: pre.pos, marks: pre.marks, reps: pre.reps },
            ));
            assert(StepCase::Next(st@) =~~= step(code@, subj@, flags, start, end, full, pre));
        }
        StepRes::Go
    } else if op == OP_LITERAL {
        if n - st.ip <= 1 {
            return StepRes::Stopped(AttemptEnd::Faulted);
        }
        if st.pos < end && fold_exec(flags, subj[st.pos] as u32) == fold_exec(
            flags,
            code[st.ip + 1],
        ) {
            st.ip = st.ip + 2;
            st.pos = st.pos + 1;
            proof {
                assert(StepCase::Next(st@) =~~= step(code@, subj@, flags, start, end, full, pre));
            }
            StepRes::Go
        } else {
            fall_back_exec(st)
        }
    } else if op == OP_ANY {
        if st.pos < end && (flags & FLAG_DOTALL != 0 || subj[st.pos] != 10) {
            st.ip = st.ip + 1;
            st.pos = st.pos + 1;
            proof {
                assert(StepCase::Next(st@) =~~= step(code@, subj@, flags, start, end, full, pre));
            }
            StepRes::Go
        } else {
            fall_back_exec(st)
        }
    } else if op == OP_RANGE || op == OP_NRANGE {
        if n - st.ip <= 2 {
            return StepRes::Stopped(AttemptEnd::Faulted);
        }
        let hit = if st.pos < end {
            let u = fold_exec(flags, subj[st.pos] as u32);
            let inside = code[st.ip + 1] <= u && u <= code[st.ip + 2];
            inside == (op == OP_RANGE)
        } else {
            false
        };
        if hit {
            st.ip = st.ip + 3;
            st.pos = st.pos + 1;
            proof {
                assert(StepCase::Next(st@) =~~= step(code@, subj@, flags, start, end, full, pre));
            }
            StepRes::Go
        } else {
            fall_back_exec(st)
        }
    } else if op == OP_AT {
        if n - st.ip <= 1 {
            return StepRes::Stopped(AttemptEnd::Faulted);
        }
        let k = code[st.ip + 1];
        if k > AT_NON_BOUNDARY {
            return StepRes::Stopped(AttemptEnd::Faulted);
        }
        if at_exec(k, subj, start, end, st.pos) {
            st.ip = st.ip + 2;
            proof {
                assert(StepCase::Next(st@) =~~= step(code@, subj@, flags, start, end, full, pre));
            }
            StepRes::Go
        } else {
            fall_back_exec(st)
        }
    } else if op == OP_MARK {
        if n - st.ip <= 1 {
            return StepRes::Stopped(AttemptEnd::Faulted);
        }
        let i = code[st.ip + 1] as usize;
        if i < st.marks.len() {
            let p = st.pos;
            st.marks.set(i, Some(p));
            st.ip = st.ip + 2;
            proof {
                assert(StepCase::Next(st@) =~~= step(code@, subj@, flags, start, end, full, pre));
            }
            StepRes::Go
        } else {
            StepRes::Stopped(AttemptEnd::Faulted)
        }
    } else if op == OP_REF {
        if n - st.ip <= 1 {
            return StepRes::Stopped(AttemptEnd::Faulted);
        }
        let g = code[st.ip + 1] as usize;
        if (g as u64) * 2 + 1 >= st.marks.len() as u64 {
            return StepRes::Stopped(AttemptEnd::Faulted);
        }
        let m0 = st.marks[2 * g];
        let m1 = st.marks[2 * g + 1];
        match (m0, m1) {
            (Some(a), Some(b)) => {
                let fits = a <= b && b <= subj.len() && (st.pos as u128) + ((b - a) as u128)
                    <= end as u128;
                if fits && span_eq_exec(flags, subj, a, st.pos, b - a) {
                    st.ip = st.ip + 2;
                    st.pos = st.pos + (b - a);
                    proof {
                        assert(StepCase::Next(st@) =~~= step(
                            code@,
                            subj@,
                            flags,
                            start,
                            end,
                            full,
                            pre,
                        ));
                    }
                    StepRes::Go
                } else {
                    fall_back_exec(st)
                }
            },
            _ => fall_back_exec(st),
        }
    } else if op == OP_REPEAT || op == OP_REPEAT_LAZY {
        step_repeat_exec(code, st, op, Ghost(pre), Ghost(
            step(code@, subj@, flags, start, end, full, pre),
        ))
    } else if op == OP_REPEAT_END || op == OP_REPEAT_END_LAZY {
        step_repeat_end_exec(code, st, op, Ghost(pre), Ghost(
            step(code@, subj@, flags, start, end, full, pre),
        ))
    } else if op == OP_ASSERT || op == OP_ASSERT_NOT {
        if n - st.ip <= 2 {
            return StepRes::Stopped(AttemptEnd::Faulted);
        }
        StepRes::Look {
            neg: op == OP_ASSERT_NOT,
            back: code[st.ip + 2] as usize,
            sub: st.ip + 3,
            cont: code[st.ip + 1] as usize,
        }
    } else {
        StepRes::Stopped(AttemptEnd::Faulted)
    }
}

/// The repetition-opening words; the executable image of
/// [`crate::model::step_rep_begin`].
fn step_repeat_exec(
    code: &Vec<u32>,
    st: &mut MatchState,
    op: u32,
    Ghost(pre): Ghost<Cfg>,
    Ghost(sc): Ghost<StepCase>,
) -> (r: StepRes)
    requires
        old(st)@ == pre,
        pre.ip < code@.len(),
        code@[pre.ip as int] == op,
        op == OP_REPEAT || op == OP_REPEAT_LAZY,
        sc == crate::model::step_rep_begin(code@, pre, op),
    ensures
        match r {
            StepRes::Go => sc matches StepCase::Next(c2) && final(st)@ == c2,
            StepRes::Stopped(e) => sc matches StepCase::Stop(e2) && e@ == e2,
            StepRes::Look { .. } => false,
        },
{
    let n = code.len();
    if n - st.ip <= 3 {
        return StepRes::Stopped(AttemptEnd::Faulted);
    }
    let mn = code[st.ip + 1] as usize;
    let mx = code[st.ip + 2];
    let exit_ip = code[st.ip + 3] as usize;
    if mx != UNBOUNDED && (mx as usize) < mn {
        return StepRes::Stopped(AttemptEnd::Faulted);
    }
    let frame = RepFrame { begin: st.ip, count: 0, last: st.pos };
    if mn > 0 {
        st.reps.push(frame);
        st.ip = st.ip + 4;
        proof {
            assert(StepCase::Next(st@) =~~= sc);
        }
        StepRes::Go
    } else if mx == 0 {
        st.ip = exit_ip;
        proof {
            assert(StepCase::Next(st@) =~~= sc);
        }
        StepRes::Go
    } else if op == OP_REPEAT {
        let alt = AltFrame {
            ip: exit_ip,
            pos: st.pos,
            marks: copy_units(&st.marks),
            reps: copy_units(&st.reps),
        };
        st.stack.push(alt);
        st.reps.push(frame);
        st.ip = st.ip + 4;
        proof {
            assert(st@.stack =~= pre.stack.push(
                AltCfg { ip: exit_ip, pos: pre.pos, marks: pre.marks, reps: pre.reps },
            ));
            assert(StepCase::Next(st@) =~~= sc);
        }
        StepRes::Go
    } else {
        let mut body_reps = copy_units(&st.reps);
        body_reps.push(frame);
        let alt = AltFrame {
            ip: st.ip + 4,
            pos: st.pos,
            marks: copy_units(&st.marks),
            reps: body_reps,
        };
        st.stack.push(alt);
        st.ip = exit_ip;
        proof {
            assert(st@.stack =~= pre.stack.push(
                AltCfg {
                    ip: (pre.ip + 4) as usize,
                    pos: pre.pos,
                    marks: pre.marks,
                    reps: pre.reps.push(frame),
                },
            ));
            assert(StepCase::Next(st@) =~~= sc);
        }
        StepRes::Go
    }
}

/// The repetition-closing words; the executable image of
/// [`crate::model::step_rep_end`].
#[verifier::rlimit(60)]
fn step_repeat_end_exec(
    code: &Vec<u32>,
    st: &mut MatchState,
    op: u32,
    Ghost(pre): Ghost<Cfg>,
    Ghost(sc): Ghost<StepCase>,
) -> (r: StepRes)
    requires
        old(st)@ == pre,
        pre.ip < code@.len(),
        code@[pre.ip as int] == op,
        op == OP_REPEAT_END || op == OP_REPEAT_END_LAZY,
        sc == crate::model::step_rep_end(code@, pre, op),
    ensures
        match r {
            StepRes::Go => sc matches StepCase::Next(c2) && final(st)@ == c2,
            StepRes::Stopped(e) => sc matches StepCase::Stop(e2) && e@ == e2,
            StepRes::Look { .. } => false,
        },
{
    let n = code.len();
    if n - st.ip <= 1 || st.reps.len() == 0 {
        return StepRes::Stopped(AttemptEnd::Faulted);
    }
    let s = code[st.ip + 1] as usize;
    let top = st.reps[st.reps.len() - 1];
    let expected = if op == OP_REPEAT_END {
        OP_REPEAT
    } else {
        OP_REPEAT_LAZY
    };
    if top.begin != s || s >= n || n - s <= 3 || code[s] != expected || top.count == usize::MAX {
        return StepRes::Stopped(AttemptEnd::Faulted);
    }
    let mn = code[s + 1] as usize;
    let mx = code[s + 2];
    let exit_ip = code[s + 3] as usize;
    let k = top.count + 1;
    let gone = RepFrame { begin: top.begin, count: k, last: st.pos };
    let last_at = st.reps.len() - 1;
    if k < mn {
        st.reps.set(last_at, gone);
        st.ip = s + 4;
        proof {
            assert(StepCase::Next(st@) =~~= sc);
        }
        StepRes::Go
    } else if st.pos == top.last || (mx != UNBOUNDED && k >= mx as usize) {
        st.reps.pop();
        st.ip = exit_ip;
        proof {
            assert(st@.reps =~= pre.reps.drop_last());
            assert(StepCase::Next(st@) =~~= sc);
        }
        StepRes::Go
    } else if op == OP_REPEAT_END {
        let mut alt_reps = copy_units(&st.reps);
        alt_reps.pop();
        let alt = AltFrame {
            ip: exit_ip,
            pos: st.pos,
            marks: copy_units(&st.marks),
            reps: alt_reps,
        };
        st.stack.push(alt);
        st.reps.set(last_at, gone);
        st.ip = s + 4;
        proof {
            assert(st@.stack =~= pre.stack.push(
                AltCfg { ip: exit_ip, pos: pre.pos, marks: pre.marks, reps: pre.reps.drop_last() },
            ));
            assert(StepCase::Next(st@) =~~= sc);
        }
        StepRes::Go
    } else {
        let mut alt_reps = copy_units(&st.reps);
        alt_reps.set(last_at, gone);
        let alt = AltFrame { ip: s + 4, pos: st.pos, marks: copy_units(&st.marks), reps: alt_reps };
        st.stack.push(alt);
        st.reps.pop();
        st.ip = exit_ip;
        proof {
            assert(st@.reps =~= pre.reps.drop_last());
            assert(st@.stack =~= pre.stack.push(
                AltCfg {
                    ip: (s + 4) as usize,
                    pos: pre.pos,
                    marks: pre.marks,
                    reps: pre.reps.update(pre.reps.len() - 1, gone),
                },
            ));
            assert(StepCase::Next(st@) =~~= sc);
        }
        StepRes::Go
    }
}

/// Runs the machine from `st` until the attempt is decided or the budget is
/// spent, recursing once for each lookaround sub-attempt.  Returns exactly
/// the verdict and remaining budget that the ghost machine [`run`]
/// prescribes: the interpreter is deterministic and total by construction.
#[verifier::loop_isolation(false)]
#[verifier::rlimit(60)]
pub fn run_machine(
    code: &Vec<u32>,
    subj: &[u8],
    flags: u32,
    start: usize,
    end: usize,
    full: bool,
    st: MatchState,
    budget: usize,
) -> (r: (AttemptEnd, usize))
    requires
        end <= subj@.len(),
    ensures
        run(code@, subj@, flags, start, end, full, st@, budget) == (RunOutcome {
            end: r.0@,
            left: r.1,
        }),
        r.1 <= budget,
    decreases budget,
{
    let ghost goal = run(code@, subj@, flags, start, end, full, st@, budget);
    let mut st = st;
    let mut b: usize = budget;
    loop
        invariant
            b <= budget,
            run(code@, subj@, flags, start, end, full, st@, b as usize) == goal,
        decreases b,
    {
        if b == 0 {
            return (AttemptEnd::TooComplex, 0);
        }
        let ghost pre = st@;
        let ghost bpre = b;
        b = b - 1;
        let sr = step_exec(code, subj, flags, start, end, full, &mut st);
        match sr {
            StepRes::Go => {
                proof {
                    assert(run(code@, subj@, flags, start, end, full, pre, bpre as usize)
                        == goal);
                    assert(run(code@, subj@, flags, start, end, full, st@, b as usize) == goal);
                }
            },
            StepRes::Stopped(e) => {
                proof {
                    assert(run(code@, subj@, flags, start, end, full, pre, bpre as usize)
                        == goal);
                    assert(goal == (RunOutcome { end: e@, left: b as usize }));
                }
                return (e, b);
            },
            StepRes::Look { neg, back, sub, cont } => {
                proof {
                    assert(run(code@, subj@, flags, start, end, full, pre, bpre as usize)
                        == goal);
                }
                if back > st.pos {
                    // No room to look behind: the assertion cannot match.
                    proof {
                        assert(goal == crate::model::run_resume(
                            code@, subj@, flags, start, end, full, pre, neg, cont, b as usize,
                        ));
                    }
                    if neg {
                        st.ip = cont;
                        proof {
                            assert(st@ =~= (Cfg { ip: cont, ..pre }));
                            assert(run(code@, subj@, flags, start, end, full, st@, b as usize)
                                == goal);
                        }
                    } else {
                        match fall_back_exec(&mut st) {
                            StepRes::Go => {
                                proof {
                                    assert(run(
                                        code@, subj@, flags, start, end, full, st@, b as usize,
                                    ) == goal);
                                }
                            },
                            StepRes::Stopped(e) => {
                                proof {
                                    assert(goal == (RunOutcome { end: e@, left: b as usize }));
                                }
                                return (e, b);
                            },
                            StepRes::Look { .. } => {
                                return (AttemptEnd::Faulted, b);
                            },
                        }
                    }
                } else {
                    let sub_st = MatchState {
                        ip: sub,
                        pos: st.pos - back,
                        marks: copy_units(&st.marks),
                        reps: Vec::new(),
                        stack: Vec::new(),
                    };
                    proof {
                        assert(sub_st@ =~~= (Cfg {
                            ip: sub,
                            pos: (pre.pos - back) as usize,
                            marks: pre.marks,
                            reps: Seq::empty(),
                            stack: Seq::empty(),
                        }));
                    }
                    let inner = run_machine(code, subj, flags, start, end, false, sub_st, b);
                    proof {
                        assert(inner.1 <= b);
                    }
                    b = inner.1;
                    let ghost after_look = crate::model::run_resume(
                        code@, subj@, flags, start, end, full, pre, false, cont, b as usize,
                    );
                    match inner.0 {
                        AttemptEnd::TooComplex => {
                            proof {
                                assert(goal == (RunOutcome {
                                    end: crate::model::RunEnd::TooComplex,
                                    left: b as usize,
                                }));
                            }
                            return (AttemptEnd::TooComplex, b);
                        },
                        AttemptEnd::Faulted => {
                            proof {
                                assert(goal == (RunOutcome {
                                    end: crate::model::RunEnd::Faulted,
                                    left: b as usize,
                                }));
                            }
                            return (AttemptEnd::Faulted, b);
                        },
                        AttemptEnd::Matched(_, submarks) => {
                            if neg {
                                proof {
                                    assert(goal == after_look);
                                }
                                match fall_back_exec(&mut st) {
                                    StepRes::Go => {
                                        proof {
                                            assert(run(
                                                code@, subj@, flags, start, end, full, st@,
                                                b as usize,
                                            ) == goal);
                                        }
                                    },
                                    StepRes::Stopped(e) => {
                                        proof {
                                            assert(goal == (RunOutcome {
                                                end: e@,
                                                left: b as usize,
                                            }));
                                        }
                                        return (e, b);
                                    },
                                    StepRes::Look { .. } => {
                                        return (AttemptEnd::Faulted, b);
                                    },
                                }
                            } else {
                                st.ip = cont;
                                st.marks = submarks;
                                proof {
                                    assert(st@ =~~= (Cfg { ip: cont, marks: submarks@, ..pre }));
                                    assert(run(
                                        code@, subj@, flags, start, end, full, st@, b as usize,
                                    ) == goal);
                                }
                            }
                        },
                        AttemptEnd::NoMatch => {
                            if neg {
                                st.ip = cont;
                                proof {
                                    assert(st@ =~= (Cfg { ip: cont, ..pre }));
                                    assert(goal == crate::model::run_resume(
                                        code@, subj@, flags, start, end, full, pre, neg, cont,
                                        b as usize,
                                    ));
                                    assert(run(
                                        code@, subj@, flags, start, end, full, st@, b as usize,
                                    ) == goal);
                                }
                            } else {
                                proof {
                                    assert(goal == after_look);
                                }
                                match fall_back_exec(&mut st) {
                                    StepRes::Go => {
                                        proof {
                                            assert(run(
                                                code@, subj@, flags, start, end, full, st@,
                                                b as usize,
                                            ) == goal);
                                        }
                                    },
                                    StepRes::Stopped(e) => {
                                        proof {
                                            assert(goal == (RunOutcome {
                                                end: e@,
                                                left: b as usize,
                                            }));
                                        }
                                        return (e, b);
                                    },
                                    StepRes::Look { .. } => {
                                        return (AttemptEnd::Faulted, b);
                                    },
                                }
                            }
                        },
                    }
                }
            },
        }
    }
}

} // verus!
