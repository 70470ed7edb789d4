use crate::program::{
    AT_BEGIN, AT_BOL, AT_BOUNDARY, AT_END, AT_EOL, AT_NON_BOUNDARY, FLAG_DOTALL, FLAG_IGNORECASE,
    OP_ANY,
    OP_ASSERT, OP_ASSERT_NOT, OP_AT, OP_FAIL, OP_JUMP, OP_LITERAL, OP_MARK, OP_NRANGE, OP_RANGE,
    OP_REF, OP_REPEAT, OP_REPEAT_END, OP_REPEAT_END_LAZY, OP_REPEAT_LAZY, OP_SPLIT, OP_SUCCESS,
    STEP_LIMIT, UNBOUNDED,
};
use vstd::prelude::*;

verus! {

// ---------------------------------------------------------------------------
// Ghost small-step machine.  `step` gives the unique transition out of a
// configuration; `run` iterates it under a step budget, recursing once for
// each lookaround sub-attempt.  The executable interpreter is proved to
// return exactly `run`'s verdict, so the engine is deterministic by
// construction.
// ---------------------------------------------------------------------------

/// One active repetition: the address of its `REPEAT` word, the number of
/// completed iterations, and the position at the latest body entry.
#[derive(Clone, Copy, Debug, PartialEq, Eq, Structural)]
pub struct RepFrame {
    pub begin: usize,
    pub count: usize,
    pub last: usize,
}

/// Ghost image of one saved alternative: where to resume, and the exact
/// position, marks and repetition contexts to restore before resuming.
#[verifier::ext_equal]
pub struct AltCfg {
    pub ip: usize,
    pub pos: usize,
    pub marks: Seq<Option<usize>>,
    pub reps: Seq<RepFrame>,
}

/// Ghost image of a full interpreter configuration.
#[verifier::ext_equal]
pub struct Cfg {
    pub ip: usize,
    pub pos: usize,
    pub marks: Seq<Option<usize>>,
    pub reps: Seq<RepFrame>,
    pub stack: Seq<AltCfg>,
}

/// How an attempt ends: a match at a position with its marks, a clean
/// failure, an exhausted step budget, or a word the engine refuses.
#[verifier::ext_equal]
pub enum RunEnd {
    Matched(usize, Seq<Option<usize>>),
    NoMatch,
    TooComplex,
    Faulted,
}

/// The unique successor of a configuration: a next configuration, a final
/// verdict, or a lookaround sub-attempt to be run in isolation.
#[verifier::ext_equal]
pub enum StepCase {
    Next(Cfg),
    Stop(RunEnd),
    Look { neg: bool, back: usize, sub: usize, cont: usize },
}

/// A verdict together with the budget that is left.
#[verifier::ext_equal]
pub struct RunOutcome {
    pub end: RunEnd,
    pub left: usize,
}

/// Whether matching is case-insensitive under `flags`.
pub open spec fn ignorecase(flags: u32) -> bool {
    flags & FLAG_IGNORECASE != 0
}

/// Whether `ANY` also consumes a line feed under `flags`.
pub open spec fn dotall(flags: u32) -> bool {
    flags & FLAG_DOTALL != 0
}

/// The unit used in comparisons: ASCII upper-case letters fold to lower
/// case when IGNORECASE is set; every other unit stands as it is.
pub open spec fn fold_unit(flags: u32, u: u32) -> u32 {
    if ignorecase(flags) && 65 <= u && u <= 90 {
        (u + 32) as u32
    } else {
        u
    }
}

/// Whether `u` is a word unit: an ASCII letter, digit or underscore.
pub open spec fn is_word(u: u8) -> bool {
    (48 <= u && u <= 57) || (65 <= u && u <= 90) || (97 <= u && u <= 122) || u == 95
}

/// Whether a word unit stands just before `pos` inside the window.
pub open spec fn word_before(subj: Seq<u8>, start: usize, pos: usize) -> bool {
    pos > start && pos <= subj.len() && is_word(subj[pos - 1])
}

/// Whether a word unit stands at `pos` inside the window.
pub open spec fn word_at(subj: Seq<u8>, end: usize, pos: usize) -> bool {
    pos < end && pos < subj.len() && is_word(subj[pos as int])
}

/// The zero-width `AT` tests, relative to the window `[start, end)`.
pub open spec fn at_ok(k: u32, subj: Seq<u8>, start: usize, end: usize, pos: usize) -> bool {
    if k == AT_BEGIN {
        pos == start
    } else if k == AT_END {
        pos == end
    } else if k == AT_BOL {
        pos == start || (pos > 0 && pos <= subj.len() && subj[pos - 1] == 10)
    } else if k == AT_EOL {
        pos == end || (pos < end && pos < subj.len() && subj[pos as int] == 10)
    } else if k == AT_BOUNDARY {
        word_before(subj, start, pos) != word_at(subj, end, pos)
    } else {
        word_before(subj, start, pos) == word_at(subj, end, pos)
    }
}

/// Whether the `l` units from `a` equal, folded, the `l` units from `b`.
pub open spec fn span_eq_folded(flags: u32, subj: Seq<u8>, a: usize, b: usize, l: int) -> bool {
    forall|j: int|
        0 <= j < l ==> fold_unit(flags, #[trigger] subj[a + j] as u32) == fold_unit(
            flags,
            subj[b + j] as u32,
        )
}

/// Backtracking: restore the youngest saved alternative, or report a clean
/// failure when none is left.  Position, marks and repetition contexts all
/// come back exactly as saved, so retried branches never see stale state.
pub open spec fn fall_back(c: Cfg) -> StepCase {
    if c.stack.len() == 0 {
        StepCase::Stop(RunEnd::NoMatch)
    } else {
        let a = c.stack.last();
        StepCase::Next(
            Cfg { ip: a.ip, pos: a.pos, marks: a.marks, reps: a.reps, stack: c.stack.drop_last() },
        )
    }
}

/// The transition out of `c` for the repetition-closing words.
pub open spec fn step_rep_end(
    code: Seq<u32>,
    c: Cfg,
    op: u32,
) -> StepCase {
    let n = code.len();
    if c.ip + 1 >= n || c.reps.len() == 0 {
        StepCase::Stop(RunEnd::Faulted)
    } else {
        let s = code[c.ip + 1] as usize;
        let top = c.reps.last();
        let expected = if op == OP_REPEAT_END {
            OP_REPEAT
        } else {
            OP_REPEAT_LAZY
        };
        if top.begin != s || s + 3 >= n || code[s as int] != expected || top.count == usize::MAX {
            StepCase::Stop(RunEnd::Faulted)
        } else {
            let mn = code[s + 1] as usize;
            let mx = code[s + 2];
            let exit_ip = code[s + 3] as usize;
            let k = (top.count + 1) as usize;
            let gone = RepFrame { begin: top.begin, count: k, last: c.pos };
            if k < mn {
                // The minimum is not reached yet: the body runs again,
                // whether or not it consumed anything.
                StepCase::Next(
                    Cfg {
                        ip: (s + 4) as usize,
                        reps: c.reps.update(c.reps.len() - 1, gone),
                        ..c
                    },
                )
            } else if c.pos == top.last {
                // The minimum is reached and the latest iteration consumed
                // nothing: repeating it could never consume anything either,
                // so the repetition ends here, with no alternative saved.
                StepCase::Next(Cfg { ip: exit_ip, reps: c.reps.drop_last(), ..c })
            } else if mx != UNBOUNDED && k >= mx as usize {
                StepCase::Next(Cfg { ip: exit_ip, reps: c.reps.drop_last(), ..c })
            } else if op == OP_REPEAT_END {
                // Greedy: prefer one more iteration; keep leaving as the
                // saved alternative.
                let alt = AltCfg {
                    ip: exit_ip,
                    pos: c.pos,
                    marks: c.marks,
                    reps: c.reps.drop_last(),
                };
                StepCase::Next(
                    Cfg {
                        ip: (s + 4) as usize,
                        reps: c.reps.update(c.reps.len() - 1, gone),
                        stack: c.stack.push(alt),
                        ..c
                    },
                )
            } else {
                // Lazy: prefer leaving; keep one more iteration as the
                // saved alternative.
                let alt = AltCfg {
                    ip: (s + 4) as usize,
                    pos: c.pos,
                    marks: c.marks,
                    reps: c.reps.update(c.reps.len() - 1, gone),
                };
                StepCase::Next(
                    Cfg {
                        ip: exit_ip,
                        reps: c.reps.drop_last(),
                        stack: c.stack.push(alt),
                        ..c
                    },
                )
            }
        }
    }
}

/// The transition out of `c` for the repetition-opening words.
pub open spec fn step_rep_begin(
    code: Seq<u32>,
    c: Cfg,
    op: u32,
) -> StepCase {
    let n = code.len();
    if c.ip + 3 >= n {
        StepCase::Stop(RunEnd::Faulted)
    } else {
        let mn = code[c.ip + 1] as usize;
        let mx = code[c.ip + 2];
        let exit_ip = code[c.ip + 3] as usize;
        if mx != UNBOUNDED && (mx as usize) < mn {
            StepCase::Stop(RunEnd::Faulted)
        } else {
            let frame = RepFrame { begin: c.ip, count: 0, last: c.pos };
            if mn > 0 {
                StepCase::Next(Cfg { ip: (c.ip + 4) as usize, reps: c.reps.push(frame), ..c })
            } else if mx == 0 {
                StepCase::Next(Cfg { ip: exit_ip, ..c })
            } else if op == OP_REPEAT {
                // Greedy: probe the body first; leaving is the alternative.
                let alt = AltCfg { ip: exit_ip, pos: c.pos, marks: c.marks, reps: c.reps };
                StepCase::Next(
                    Cfg {
                        ip: (c.ip + 4) as usize,
                        reps: c.reps.push(frame),
                        stack: c.stack.push(alt),
                        ..c
                    },
                )
            } else {
                // Lazy: leave first; the body is the alternative.
                let alt = AltCfg {
                    ip: (c.ip + 4) as usize,
                    pos: c.pos,
                    marks: c.marks,
                    reps: c.reps.push(frame),
                };
                StepCase::Next(Cfg { ip: exit_ip, stack: c.stack.push(alt), ..c })
            }
        }
    }
}

/// The unique transition out of configuration `c`.  A word the engine does
/// not recognise, or one whose arguments do not fit the program, stops the
/// attempt with `Faulted`: the engine fails closed.
pub open spec fn step(
    code: Seq<u32>,
    subj: Seq<u8>,
    flags: u32,
    start: usize,
    end: usize,
    full: bool,
    c: Cfg,
) -> StepCase {
    let n = code.len();
    if c.ip >= n {
        StepCase::Stop(RunEnd::Faulted)
    } else {
        let op = code[c.ip as int];
        if op == OP_FAIL {
            fall_back(c)
        } else if op == OP_SUCCESS {
            if full && c.pos != end {
                fall_back(c)
            } else {
                StepCase::Stop(RunEnd::Matched(c.pos, c.marks))
            }
        } else if op == OP_JUMP {
            if c.ip + 1 >= n {
                StepCase::Stop(RunEnd::Faulted)
            } else {
                StepCase::Next(Cfg { ip: code[c.ip + 1] as usize, ..c })
            }
        } else if op == OP_SPLIT {
            if c.ip + 1 >= n {
                StepCase::Stop(RunEnd::Faulted)
            } else {
                let alt = AltCfg {
                    ip: code[c.ip + 1] as usize,
                    pos: c.pos,
                    marks: c.marks,
                    reps: c.reps,
                };
                StepCase::Next(Cfg { ip: (c.ip + 2) as usize, stack: c.stack.push(alt), ..c })
            }
        } else if op == OP_LITERAL {
            if c.ip + 1 >= n {
                StepCase::Stop(RunEnd::Faulted)
            } else if c.pos < end && fold_unit(flags, subj[c.pos as int] as u32) == fold_unit(
                flags,
                code[c.ip + 1],
            ) {
                StepCase::Next(Cfg { ip: (c.ip + 2) as usize, pos: (c.pos + 1) as usize, ..c })
            } else {
                fall_back(c)
            }
        } else if op == OP_ANY {
            if c.pos < end && (dotall(flags) || subj[c.pos as int] != 10) {
                StepCase::Next(Cfg { ip: (c.ip + 1) as usize, pos: (c.pos + 1) as usize, ..c })
            } else {
                fall_back(c)
            }
        } else if op == OP_RANGE || op == OP_NRANGE {
            if c.ip + 2 >= n {
                StepCase::Stop(RunEnd::Faulted)
            } else if c.pos < end && {
                let u = fold_unit(flags, subj[c.pos as int] as u32);
                (code[c.ip + 1] <= u && u <= code[c.ip + 2]) == (op == OP_RANGE)
            } {
                StepCase::Next(Cfg { ip: (c.ip + 3) as usize, pos: (c.pos + 1) as usize, ..c })
            } else {
                fall_back(c)
            }
        } else if op == OP_AT {
            if c.ip + 1 >= n {
                StepCase::Stop(RunEnd::Faulted)
            } else if code[c.ip + 1] > AT_NON_BOUNDARY {
                StepCase::Stop(RunEnd::Faulted)
            } else if at_ok(code[c.ip + 1], subj, start, end, c.pos) {
                StepCase::Next(Cfg { ip: (c.ip + 2) as usize, ..c })
            } else {
                fall_back(c)
            }
        } else if op == OP_MARK {
            if c.ip + 1 >= n {
                StepCase::Stop(RunEnd::Faulted)
            } else {
                let i = code[c.ip + 1] as usize;
                if i < c.marks.len() {
                    StepCase::Next(
                        Cfg {
                            ip: (c.ip + 2) as usize,
                            marks: c.marks.update(i as int, Some(c.pos)),
                            ..c
                        },
                    )
                } else {
                    StepCase::Stop(RunEnd::Faulted)
                }
            }
        } else if op == OP_REF {
            if c.ip + 1 >= n {
                StepCase::Stop(RunEnd::Faulted)
            } else {
                let g = code[c.ip + 1] as int;
                if 2 * g + 1 >= c.marks.len() {
                    StepCase::Stop(RunEnd::Faulted)
                } else {
                    match (c.marks[2 * g], c.marks[2 * g + 1]) {
                        (Some(a), Some(b)) => {
                            if a <= b && b <= subj.len() && c.pos + (b - a) <= end
                                && span_eq_folded(flags, subj, a, c.pos, b - a) {
                                StepCase::Next(
                                    Cfg {
                                        ip: (c.ip + 2) as usize,
                                        pos: (c.pos + (b - a)) as usize,
                                        ..c
                                    },
                                )
                            } else {
                                fall_back(c)
                            }
                        },
                        _ => fall_back(c),
                    }
                }
            }
        } else if op == OP_REPEAT || op == OP_REPEAT_LAZY {
            step_rep_begin(code, c, op)
        } else if op == OP_REPEAT_END || op == OP_REPEAT_END_LAZY {
            step_rep_end(code, c, op)
        } else if op == OP_ASSERT || op == OP_ASSERT_NOT {
            if c.ip + 2 >= n {
                StepCase::Stop(RunEnd::Faulted)
            } else {
                StepCase::Look {
                    neg: op == OP_ASSERT_NOT,
                    back: code[c.ip + 2] as usize,
                    sub: (c.ip + 3) as usize,
                    cont: code[c.ip + 1] as usize,
                }
            }
        } else {
            StepCase::Stop(RunEnd::Faulted)
        }
    }
}

/// Iterates `step` under a budget.  Every step spends one unit; a lookaround
/// runs its isolated sub-attempt on the remaining budget and hands back what
/// that attempt left over.  Spending the whole budget ends the attempt with
/// `TooComplex`.
pub open spec fn run(
    code: Seq<u32>,
    subj: Seq<u8>,
    flags: u32,
    start: usize,
    end: usize,
    full: bool,
    c: Cfg,
    budget: usize,
) -> RunOutcome
    decreases budget, 0int,
{
    if budget == 0 {
        RunOutcome { end: RunEnd::TooComplex, left: 0 }
    } else {
        let b = (budget - 1) as usize;
        match step(code, subj, flags, start, end, full, c) {
            StepCase::Stop(e) => RunOutcome { end: e, left: b },
            StepCase::Next(c2) => run(code, subj, flags, start, end, full, c2, b),
            StepCase::Look { neg, back, sub, cont } => {
                if back > c.pos {
                    // No room to look behind: the assertion cannot match.
                    run_resume(code, subj, flags, start, end, full, c, neg, cont, b)
                } else {
                    let sub_cfg = Cfg {
                        ip: sub,
                        pos: (c.pos - back) as usize,
                        marks: c.marks,
                        reps: Seq::empty(),
                        stack: Seq::empty(),
                    };
                    let inner = run(code, subj, flags, start, end, false, sub_cfg, b);
                    let l = if inner.left < b {
                        inner.left
                    } else {
                        b
                    };
                    match inner.end {
                        RunEnd::TooComplex => RunOutcome { end: RunEnd::TooComplex, left: l },
                        RunEnd::Faulted => RunOutcome { end: RunEnd::Faulted, left: l },
                        RunEnd::Matched(_, submarks) => {
                            if neg {
                                // The forbidden sub-pattern matched: this
                                // branch fails; sub-attempt marks vanish.
                                run_resume(
                                    code, subj, flags, start, end, full, c, false, cont, l,
                                )
                            } else {
                                // Keep the sub-attempt's marks.
                                run(
                                    code,
                                    subj,
                                    flags,
                                    start,
                                    end,
                                    full,
                                    Cfg { ip: cont, marks: submarks, ..c },
                                    l,
                                )
                            }
                        },
                        RunEnd::NoMatch => {
                            run_resume(code, subj, flags, start, end, full, c, neg, cont, l)
                        },
                    }
                }
            },
        }
    }
}

/// Continues after a decided lookaround: when the assertion holds
/// (`go_on`), matching continues at `cont` with `c`'s own marks; when it
/// does not, the branch backtracks.
pub open spec fn run_resume(
    code: Seq<u32>,
    subj: Seq<u8>,
    flags: u32,
    start: usize,
    end: usize,
    full: bool,
    c: Cfg,
    go_on: bool,
    cont: usize,
    left: usize,
) -> RunOutcome
    decreases left, 1int,
{
    if go_on {
        run(code, subj, flags, start, end, full, Cfg { ip: cont, ..c }, left)
    } else {
        match fall_back(c) {
            StepCase::Stop(e) => RunOutcome { end: e, left },
            StepCase::Next(c2) => run(code, subj, flags, start, end, full, c2, left),
            StepCase::Look { .. } => RunOutcome { end: RunEnd::Faulted, left },
        }
    }
}

/// The fresh mark array for `gc` capturing groups: two unset slots per
/// group, group 0 included.
pub open spec fn init_marks(gc: usize) -> Seq<Option<usize>> {
    Seq::new(((2 * (gc + 1)) as nat), |i: int| None)
}

/// The configuration a fresh attempt starts from: word 1, position `at`,
/// all marks unset, no repetition context, nothing to backtrack to.
pub open spec fn init_cfg(gc: usize, at: usize) -> Cfg {
    Cfg { ip: 1, pos: at, marks: init_marks(gc), reps: Seq::empty(), stack: Seq::empty() }
}

/// The verdict of one full attempt anchored at `at`, on the standard budget.
pub open spec fn attempt(
    code: Seq<u32>,
    flags: u32,
    gc: usize,
    subj: Seq<u8>,
    start: usize,
    at: usize,
    end: usize,
    full: bool,
) -> RunEnd {
    run(code, subj, flags, start, end, full, init_cfg(gc, at), STEP_LIMIT).end
}

/// How a scan of increasing anchor positions ends.
#[verifier::ext_equal]
pub enum ScanEnd {
    /// A match anchored at `at` ending at `stop`, with its marks.
    Found { at: usize, stop: usize, marks: Seq<Option<usize>> },
    NoneFound,
    TooComplex,
    Faulted,
}

/// The first match of attempts anchored at `at`, `at + 1`, ... up to and
/// including `end`; an abandoned or refused attempt ends the scan at once.
pub open spec fn search_from(
    code: Seq<u32>,
    flags: u32,
    gc: usize,
    subj: Seq<u8>,
    start: usize,
    at: usize,
    end: usize,
) -> ScanEnd
    decreases end - at,
{
    if at > end {
        ScanEnd::NoneFound
    } else {
        match attempt(code, flags, gc, subj, start, at, end, false) {
            RunEnd::Matched(p, m) => ScanEnd::Found { at, stop: p, marks: m },
            RunEnd::TooComplex => ScanEnd::TooComplex,
            RunEnd::Faulted => ScanEnd::Faulted,
            RunEnd::NoMatch => {
                if at == end {
                    ScanEnd::NoneFound
                } else {
                    search_from(code, flags, gc, subj, start, (at + 1) as usize, end)
                }
            },
        }
    }
}

/// One match of a finished scan over a subject.
#[verifier::ext_equal]
pub struct FoundMatch {
    pub at: usize,
    pub stop: usize,
    pub marks: Seq<Option<usize>>,
}

/// How gathering successive non-overlapping matches ends.
#[verifier::ext_equal]
pub enum FindEnd {
    Done(Seq<FoundMatch>),
    TooComplex,
    Faulted,
}

/// Where the scan cursor stands after a match from `at` to `stop`: at the
/// match end, one further for a zero-length match, and always past `cur`.
pub open spec fn next_cursor(cur: usize, at: usize, stop: usize) -> int {
    let n0: int = if at == stop {
        stop + 1
    } else {
        stop as int
    };
    if n0 > cur {
        n0
    } else {
        cur + 1
    }
}

/// All successive non-overlapping matches from cursor `cur`: each one is
/// the first match at or after the cursor, which then advances by
/// `next_cursor` so that the scan always makes progress.
pub open spec fn find_iter(
    code: Seq<u32>,
    flags: u32,
    gc: usize,
    subj: Seq<u8>,
    start: usize,
    cur: usize,
    end: usize,
) -> FindEnd
    decreases end + 1 - cur,
{
    if cur > end {
        FindEnd::Done(Seq::empty())
    } else {
        match search_from(code, flags, gc, subj, start, cur, end) {
            ScanEnd::NoneFound => FindEnd::Done(Seq::empty()),
            ScanEnd::TooComplex => FindEnd::TooComplex,
            ScanEnd::Faulted => FindEnd::Faulted,
            ScanEnd::Found { at, stop, marks } => {
                let one = FoundMatch { at, stop, marks };
                let nxt = next_cursor(cur, at, stop);
                if nxt > end {
                    FindEnd::Done(seq![one])
                } else {
                    match find_iter(code, flags, gc, subj, start, nxt as usize, end) {
                        FindEnd::Done(rest) => FindEnd::Done(seq![one] + rest),
                        FindEnd::TooComplex => FindEnd::TooComplex,
                        FindEnd::Faulted => FindEnd::Faulted,
                    }
                }
            },
        }
    }
}

} // verus!
