use crate::capture::{groups_of, CaptureView};
use crate::model::{
    attempt, fall_back, find_iter, fold_unit, init_cfg, init_marks, next_cursor, run,
    search_from, step, Cfg, FindEnd, FoundMatch, RunEnd, ScanEnd, StepCase,
};
use crate::pattern::{anchored_verdict, search_verdict, MatchVerdict, PatternView};
use crate::program::{
    MAGIC, OP_LITERAL, OP_REF, OP_REPEAT, OP_REPEAT_END, OP_REPEAT_END_LAZY, OP_REPEAT_LAZY,
    OP_SUCCESS, STEP_LIMIT,
};
use vstd::prelude::*;

verus! {

// ---------------------------------------------------------------------------
// Laws of the engine, stated and proved against the ghost machine that the
// executable interpreter is proved to compute.
// ---------------------------------------------------------------------------

/// Determinism: a query's verdict is a function of the pattern view, the
/// subject, the window and the mode alone.  Two pattern objects built from
/// identical compiled input have equal views (see `compile`), so they give
/// identical match results for identical subject and window.
pub proof fn lemma_deterministic(
    p1: PatternView,
    p2: PatternView,
    subj: Seq<u8>,
    at: usize,
    end: usize,
    full: bool,
)
    requires
        p1 == p2,
    ensures
        anchored_verdict(p1, subj, at, end, full) == anchored_verdict(p2, subj, at, end, full),
        search_verdict(p1, subj, at, end) == search_verdict(p2, subj, at, end),
{
}

/// Backtracking is transactional: restoring an alternative brings back the
/// exact position, marks and repetition contexts that were saved with it,
/// and nothing else of it, so a retried branch never sees stale captures.
pub proof fn lemma_backtrack_restores(c: Cfg)
    requires
        c.stack.len() > 0,
    ensures
        ({
            let a = c.stack.last();
            fall_back(c) == StepCase::Next(
                Cfg {
                    ip: a.ip,
                    pos: a.pos,
                    marks: a.marks,
                    reps: a.reps,
                    stack: c.stack.drop_last(),
                },
            )
        }),
{
}

/// A backreference to a group with an unwritten mark fails its branch and
/// nothing else: the step out of such a `REF` word is exactly the ordinary
/// backtrack, which restores a saved alternative or ends the attempt; no
/// mark is read as a position.
pub proof fn lemma_backref_unset_fails(
    code: Seq<u32>,
    subj: Seq<u8>,
    flags: u32,
    start: usize,
    end: usize,
    full: bool,
    c: Cfg,
)
    requires
        c.ip + 1 < code.len(),
        code[c.ip as int] == OP_REF,
        2 * (code[c.ip + 1] as int) + 1 < c.marks.len(),
        c.marks[2 * (code[c.ip + 1] as int)] is None || c.marks[2 * (code[c.ip + 1] as int)
            + 1] is None,
    ensures
        step(code, subj, flags, start, end, full, c) == fall_back(c),
{
}

/// A zero-width iteration never spins: once the minimum repetition count is
/// reached, closing an iteration that consumed nothing leaves the
/// repetition at once — greedy or lazy, bounded or not — re-entering the
/// body for no further iteration and saving no alternative.
pub proof fn lemma_zero_width_repeat_stops(
    code: Seq<u32>,
    subj: Seq<u8>,
    flags: u32,
    start: usize,
    end: usize,
    full: bool,
    c: Cfg,
    op: u32,
)
    requires
        c.ip + 1 < code.len(),
        code[c.ip as int] == op,
        op == OP_REPEAT_END || op == OP_REPEAT_END_LAZY,
        c.reps.len() > 0,
        ({
            let top = c.reps.last();
            let s = code[c.ip + 1] as int;
            &&& top.begin == code[c.ip + 1] as usize
            &&& s + 3 < code.len()
            &&& code[s] == (if op == OP_REPEAT_END {
                OP_REPEAT
            } else {
                OP_REPEAT_LAZY
            })
            &&& top.count < usize::MAX
            &&& top.count + 1 >= code[s + 1] as usize
            &&& c.pos == top.last
        }),
    ensures
        ({
            let s = code[c.ip + 1] as int;
            step(code, subj, flags, start, end, full, c) == StepCase::Next(
                Cfg { ip: code[s + 3] as usize, reps: c.reps.drop_last(), ..c },
            )
        }),
{
}

/// The scan cursor strictly advances after every yielded match, zero-length
/// ones included: a zero-length match pushes the cursor one unit past its
/// position, so a scan over a finite window yields finitely many matches,
/// at strictly increasing cursor positions.
pub proof fn lemma_scan_cursor_advances(cur: usize, at: usize, stop: usize)
    ensures
        next_cursor(cur, at, stop) > cur,
        at == stop && stop >= cur ==> next_cursor(cur, at, stop) == stop + 1,
        at != stop && stop > cur ==> next_cursor(cur, at, stop) == stop,
{
}

/// A scan is leftmost: what it finds is the anchored match of the first
/// position at or after its origin whose attempt matches, every earlier
/// position having missed cleanly; when it finds nothing, every position
/// of the window missed.
pub proof fn lemma_search_leftmost(
    code: Seq<u32>,
    flags: u32,
    gc: usize,
    subj: Seq<u8>,
    start: usize,
    at: usize,
    end: usize,
)
    requires
        at <= end,
    ensures
        ({
            match search_from(code, flags, gc, subj, start, at, end) {
                ScanEnd::Found { at: a, stop, marks } => at <= a <= end && attempt(
                    code,
                    flags,
                    gc,
                    subj,
                    start,
                    a,
                    end,
                    false,
                ) == RunEnd::Matched(stop, marks) && forall|q: usize|
                    at <= q < a ==> #[trigger] attempt(code, flags, gc, subj, start, q, end, false)
                        == RunEnd::NoMatch,
                ScanEnd::NoneFound => forall|q: usize|
                    at <= q <= end ==> #[trigger] attempt(
                        code,
                        flags,
                        gc,
                        subj,
                        start,
                        q,
                        end,
                        false,
                    ) == RunEnd::NoMatch,
                ScanEnd::TooComplex => true,
                ScanEnd::Faulted => true,
            }
        }),
    decreases end - at,
{
    match attempt(code, flags, gc, subj, start, at, end, false) {
        RunEnd::Matched(p, m) => {},
        RunEnd::TooComplex => {},
        RunEnd::Faulted => {},
        RunEnd::NoMatch => {
            if at < end {
                lemma_search_leftmost(code, flags, gc, subj, start, (at + 1) as usize, end);
            }
        },
    }
}

/// A program that is one literal run: word 0 is the version tag, then one
/// `LITERAL` instruction per unit, then `SUCCESS`.
pub open spec fn literal_program(code: Seq<u32>, lits: Seq<u32>) -> bool {
    &&& code.len() == 2 * lits.len() + 2
    &&& code[0] == MAGIC
    &&& forall|i: int|
        0 <= i < lits.len() ==> (#[trigger] code[1 + 2 * i]) == OP_LITERAL && code[2 + 2 * i]
            == lits[i]
    &&& code[code.len() - 1] == OP_SUCCESS
}

/// Whether the subject carries, folded, the literals from `i` on, starting
/// at `pos`, within the window — and, in full mode, reaching its end.
pub open spec fn literal_tail_ok(
    flags: u32,
    subj: Seq<u8>,
    pos: usize,
    lits: Seq<u32>,
    i: int,
    end: usize,
    full: bool,
) -> bool {
    &&& pos + (lits.len() - i) <= end
    &&& (full ==> pos + (lits.len() - i) == end)
    &&& forall|j: int|
        i <= j < lits.len() ==> fold_unit(flags, #[trigger] subj[pos + (j - i)] as u32)
            == fold_unit(flags, lits[j])
}

/// Running a literal-only program from its `i`-th literal matches exactly
/// when the folded subject carries the remaining literals, and then ends
/// right after them with the marks untouched; otherwise it is a clean miss.
proof fn lemma_literal_run(
    code: Seq<u32>,
    lits: Seq<u32>,
    subj: Seq<u8>,
    flags: u32,
    start: usize,
    end: usize,
    full: bool,
    c: Cfg,
    i: int,
    budget: usize,
)
    requires
        literal_program(code, lits),
        2 * lits.len() + 2 <= usize::MAX,
        0 <= i <= lits.len(),
        c.ip == 1 + 2 * i,
        c.pos <= end,
        end <= subj.len(),
        c.stack.len() == 0,
        budget > lits.len() - i,
    ensures
        run(code, subj, flags, start, end, full, c, budget).end == (if literal_tail_ok(
            flags,
            subj,
            c.pos,
            lits,
            i,
            end,
            full,
        ) {
            RunEnd::Matched((c.pos + lits.len() - i) as usize, c.marks)
        } else {
            RunEnd::NoMatch
        }),
    decreases lits.len() - i,
{
    let n = code.len();
    if i == lits.len() {
        assert(c.ip == n - 1);
        assert(code[c.ip as int] == OP_SUCCESS);
        if full && c.pos != end {
            assert(fall_back(c) == StepCase::Stop(RunEnd::NoMatch));
            assert(!literal_tail_ok(flags, subj, c.pos, lits, i, end, full));
        } else {
            assert(literal_tail_ok(flags, subj, c.pos, lits, i, end, full));
        }
    } else {
        assert(code[1 + 2 * i] == OP_LITERAL && code[2 + 2 * i] == lits[i]);
        assert(code[c.ip as int] == OP_LITERAL);
        assert(c.ip + 2 <= 2 * lits.len() + 1);
        let hit = c.pos < end && fold_unit(flags, subj[c.pos as int] as u32) == fold_unit(
            flags,
            code[c.ip + 1],
        );
        if hit {
            let c2 = Cfg { ip: (c.ip + 2) as usize, pos: (c.pos + 1) as usize, ..c };
            assert(step(code, subj, flags, start, end, full, c) == StepCase::Next(c2));
            lemma_literal_run(
                code,
                lits,
                subj,
                flags,
                start,
                end,
                full,
                c2,
                i + 1,
                (budget - 1) as usize,
            );
            assert(literal_tail_ok(flags, subj, c.pos, lits, i, end, full)
                == literal_tail_ok(flags, subj, c2.pos, lits, i + 1, end, full)) by {
                if literal_tail_ok(flags, subj, c2.pos, lits, i + 1, end, full) {
                    assert forall|j: int| i <= j < lits.len() implies fold_unit(
                        flags,
                        #[trigger] subj[c.pos + (j - i)] as u32,
                    ) == fold_unit(flags, lits[j]) by {
                        if j == i {
                            assert(subj[c.pos + (j - i)] == subj[c.pos as int]);
                        } else {
                            assert(subj[c2.pos + (j - (i + 1))] == subj[c.pos + (j - i)]);
                        }
                    }
                }
                if literal_tail_ok(flags, subj, c.pos, lits, i, end, full) {
                    assert forall|j: int| i + 1 <= j < lits.len() implies fold_unit(
                        flags,
                        #[trigger] subj[c2.pos + (j - (i + 1))] as u32,
                    ) == fold_unit(flags, lits[j]) by {
                        assert(subj[c2.pos + (j - (i + 1))] == subj[c.pos + (j - i)]);
                    }
                }
            }
        } else {
            assert(fall_back(c) == StepCase::Stop(RunEnd::NoMatch));
            if literal_tail_ok(flags, subj, c.pos, lits, i, end, full) {
                assert(c.pos + (lits.len() - i) <= end);
                assert(c.pos < end);
                assert(fold_unit(flags, subj[c.pos + (i - i)] as u32) == fold_unit(
                    flags,
                    lits[i],
                ));
                assert(false);
            }
        }
    }
}

/// For a literal-only pattern, an anchored attempt succeeds exactly when
/// the folded subject carries the literal at the anchor (and, for a full
/// match, fills the window): the verdict is then the span over the literal
/// with every capturing group unset, and a clean miss otherwise.
pub proof fn lemma_literal_verdict(
    p: PatternView,
    lits: Seq<u32>,
    subj: Seq<u8>,
    at: usize,
    end: usize,
    full: bool,
)
    requires
        literal_program(p.code, lits),
        at <= end,
        end <= subj.len(),
        lits.len() < STEP_LIMIT,
    ensures
        literal_tail_ok(p.flags, subj, at, lits, 0, end, full) ==> anchored_verdict(
            p,
            subj,
            at,
            end,
            full,
        ) == MatchVerdict::Hit(
            CaptureView {
                start: at,
                stop: (at + lits.len()) as usize,
                groups: groups_of(
                    init_marks(p.group_count),
                    at,
                    (at + lits.len()) as usize,
                    p.group_count,
                ),
            },
        ),
        !literal_tail_ok(p.flags, subj, at, lits, 0, end, full) ==> anchored_verdict(
            p,
            subj,
            at,
            end,
            full,
        ) == MatchVerdict::Miss,
{
    let c = init_cfg(p.group_count, at);
    assert(c.ip == 1 + 2 * 0);
    lemma_literal_run(p.code, lits, subj, p.flags, at, end, full, c, 0, STEP_LIMIT);
}

/// A scan with the empty-literal program yields exactly one zero-length
/// match per window position, cursor included and window end included, at
/// strictly increasing positions: over a window of length `n` that is
/// `n + 1` matches.
pub proof fn lemma_empty_pattern_scan(
    code: Seq<u32>,
    flags: u32,
    gc: usize,
    subj: Seq<u8>,
    start: usize,
    cur: usize,
    end: usize,
)
    requires
        literal_program(code, Seq::empty()),
        cur <= end,
        end <= subj.len(),
    ensures
        ({
            match find_iter(code, flags, gc, subj, start, cur, end) {
                FindEnd::Done(list) => list.len() == end + 1 - cur && forall|k: int|
                    0 <= k < list.len() ==> #[trigger] list[k] == (FoundMatch {
                        at: (cur + k) as usize,
                        stop: (cur + k) as usize,
                        marks: init_marks(gc),
                    }),
                FindEnd::TooComplex => false,
                FindEnd::Faulted => false,
            }
        }),
    decreases end - cur,
{
    lemma_literal_run(
        code,
        Seq::empty(),
        subj,
        flags,
        start,
        end,
        false,
        init_cfg(gc, cur),
        0,
        STEP_LIMIT,
    );
    assert(attempt(code, flags, gc, subj, start, cur, end, false) == RunEnd::Matched(
        cur,
        init_marks(gc),
    ));
    let one = FoundMatch { at: cur, stop: cur, marks: init_marks(gc) };
    assert(next_cursor(cur, cur, cur) == cur + 1);
    if cur == end {
        assert(find_iter(code, flags, gc, subj, start, cur, end) == FindEnd::Done(seq![one]));
    } else {
        lemma_empty_pattern_scan(code, flags, gc, subj, start, (cur + 1) as usize, end);
        match find_iter(code, flags, gc, subj, start, (cur + 1) as usize, end) {
            FindEnd::Done(rest) => {
                assert(find_iter(code, flags, gc, subj, start, cur, end) == FindEnd::Done(
                    seq![one] + rest,
                ));
                assert forall|k: int| 0 <= k < (seq![one] + rest).len() implies #[trigger] (
                seq![one] + rest)[k] == (FoundMatch {
                    at: (cur + k) as usize,
                    stop: (cur + k) as usize,
                    marks: init_marks(gc),
                }) by {
                    if k > 0 {
                        assert((seq![one] + rest)[k] == rest[k - 1]);
                    }
                }
            },
            _ => {},
        }
    }
}

/// In a fresh attempt's marks every capturing group is unset, so a
/// literal-only match reports `None` for each group beyond group 0.
pub proof fn lemma_init_groups_unset(gc: usize, a: usize, z: usize)
    ensures
        forall|g: int|
            1 <= g <= gc ==> #[trigger] groups_of(init_marks(gc), a, z, gc)[g] is None,
        groups_of(init_marks(gc), a, z, gc)[0] == Some((a, z)),
        groups_of(init_marks(gc), a, z, gc).len() == gc + 1,
{
    assert forall|g: int| 1 <= g <= gc implies #[trigger] groups_of(
        init_marks(gc),
        a,
        z,
        gc,
    )[g] is None by {
        assert(init_marks(gc)[2 * g] is None);
    }
}

} // verus!
