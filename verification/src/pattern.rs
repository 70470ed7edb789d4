use crate::capture::{groups_of, CaptureView, MatchResult};
use crate::errors::Error;
use crate::matcher::{run_machine, AttemptEnd};
use crate::model::{attempt, find_iter, next_cursor, search_from, FindEnd, FoundMatch, RunEnd, ScanEnd};
use crate::program::{version_ok, BytecodeProgram, MAGIC, MAX_GROUPS, STEP_LIMIT};
use crate::state::MatchState;
use vstd::prelude::*;

verus! {

/// Ghost image of a pattern object: everything a match verdict depends on.
#[verifier::ext_equal]
pub struct PatternView {
    pub source: Seq<char>,
    pub flags: u32,
    pub code: Seq<u32>,
    pub group_count: usize,
    pub names: Seq<(Seq<char>, usize)>,
    pub index_names: Seq<Option<Seq<char>>>,
}

/// Whether the group-name maps agree with each other and with the group
/// count: the reverse map has one slot per group (group 0 unnamed), every
/// name maps to a group the pattern has and stands in the reverse slot of
/// that group, names are pairwise distinct, and every named reverse slot
/// is backed by a forward entry.
pub open spec fn names_wf(
    gc: usize,
    names: Seq<(Seq<char>, usize)>,
    inames: Seq<Option<Seq<char>>>,
) -> bool {
    &&& inames.len() == gc + 1
    &&& inames[0] is None
    &&& forall|j: int| 0 <= j < names.len() ==> 1 <= (#[trigger] names[j]).1 <= gc
    &&& forall|j: int|
        0 <= j < names.len() ==> inames[(#[trigger] names[j]).1 as int] == Some(names[j].0)
    &&& forall|j: int, k: int|
        0 <= j < k < names.len() ==> (#[trigger] names[j]).0 != (#[trigger] names[k]).0
    &&& forall|i: int|
        1 <= i <= gc ==> match #[trigger] inames[i] {
            Some(nm) => exists|j: int|
                0 <= j < names.len() && #[trigger] names[j] == (nm, i as usize),
            None => true,
        }
}

/// Whether the metadata as a whole is accepted at construction: the maps
/// must be consistent, and the group count representable at all — its mark
/// array length must fit a machine word (`MAX_GROUPS` is that bound, not a
/// policy cap).
pub open spec fn meta_ok(
    gc: usize,
    names: Seq<(Seq<char>, usize)>,
    inames: Seq<Option<Seq<char>>>,
) -> bool {
    gc <= MAX_GROUPS && names_wf(gc, names, inames)
}

/// The deep view of a forward name map.
pub open spec fn names_view(names: Seq<(String, usize)>) -> Seq<(Seq<char>, usize)> {
    names.map_values(|p: (String, usize)| (p.0@, p.1))
}

/// The deep view of a reverse name map.
pub open spec fn inames_view(inames: Seq<Option<String>>) -> Seq<Option<Seq<char>>> {
    inames.map_values(
        |o: Option<String>|
            match o {
                Some(s) => Some(s@),
                None => None,
            },
    )
}

/// An immutable, validated pattern: flags, bytecode and group metadata.
/// Built once per distinct compiled pattern and shared by any number of
/// match attempts, which never mutate it.
#[derive(Debug)]
pub struct PatternObject {
    source: String,
    flags: u32,
    program: BytecodeProgram,
    group_count: usize,
    names: Vec<(String, usize)>,
    index_names: Vec<Option<String>>,
}

impl View for PatternObject {
    type V = PatternView;

    closed spec fn view(&self) -> PatternView {
        PatternView {
            source: self.source@,
            flags: self.flags,
            code: self.program@,
            group_count: self.group_count,
            names: names_view(self.names@),
            index_names: inames_view(self.index_names@),
        }
    }
}

/// How a single query on a pattern ends: a match snapshot, a clean miss,
/// or a typed refusal.
#[verifier::ext_equal]
pub enum MatchVerdict {
    Hit(CaptureView),
    Miss,
    Refused(Error),
}

/// The verdict of `match_at` (`full` false) or `fullmatch` (`full` true)
/// on the window `[at, end)`, as the ghost machine prescribes it.
pub open spec fn anchored_verdict(
    p: PatternView,
    subj: Seq<u8>,
    at: usize,
    end: usize,
    full: bool,
) -> MatchVerdict {
    if !(at <= end && end <= subj.len()) {
        MatchVerdict::Refused(Error::InvalidRange)
    } else {
        match attempt(p.code, p.flags, p.group_count, subj, at, at, end, full) {
            RunEnd::Matched(z, m) => MatchVerdict::Hit(
                CaptureView { start: at, stop: z, groups: groups_of(m, at, z, p.group_count) },
            ),
            RunEnd::NoMatch => MatchVerdict::Miss,
            RunEnd::TooComplex => MatchVerdict::Refused(Error::MatchTooComplex),
            RunEnd::Faulted => MatchVerdict::Refused(Error::MalformedPattern),
        }
    }
}

/// The verdict of `search` on the window `[at, end)`.
pub open spec fn search_verdict(
    p: PatternView,
    subj: Seq<u8>,
    at: usize,
    end: usize,
) -> MatchVerdict {
    if !(at <= end && end <= subj.len()) {
        MatchVerdict::Refused(Error::InvalidRange)
    } else {
        match search_from(p.code, p.flags, p.group_count, subj, at, at, end) {
            ScanEnd::Found { at: a, stop, marks } => MatchVerdict::Hit(
                CaptureView { start: a, stop, groups: groups_of(marks, a, stop, p.group_count) },
            ),
            ScanEnd::NoneFound => MatchVerdict::Miss,
            ScanEnd::TooComplex => MatchVerdict::Refused(Error::MatchTooComplex),
            ScanEnd::Faulted => MatchVerdict::Refused(Error::MalformedPattern),
        }
    }
}

/// The verdict a query result stands for, view by view.
pub open spec fn as_verdict(r: Result<Option<MatchResult>, Error>) -> MatchVerdict {
    match r {
        Ok(Some(m)) => MatchVerdict::Hit(m@),
        Ok(None) => MatchVerdict::Miss,
        Err(e) => MatchVerdict::Refused(e),
    }
}

/// The snapshot views of a finished scan's matches.
pub open spec fn found_views(s: Seq<FoundMatch>, gc: usize) -> Seq<CaptureView> {
    s.map_values(
        |f: FoundMatch| CaptureView { start: f.at, stop: f.stop, groups: groups_of(f.marks, f.at, f.stop, gc) },
    )
}

/// Builds a pattern object from externally compiled input: the bytecode
/// words, the flags, the group count and the two group-name maps.  The
/// code must open with the supported version tag (`IncompatibleBytecode`
/// otherwise), and the metadata must satisfy [`meta_ok`]
/// (`MalformedPattern` otherwise); nothing is executed here, and no
/// partially valid pattern ever escapes.
pub fn compile(
    pattern: String,
    flags: u32,
    code: Vec<u32>,
    groups: usize,
    groupindex: Vec<(String, usize)>,
    indexgroup: Vec<Option<String>>,
) -> (r: Result<PatternObject, Error>)
    ensures
        !version_ok(code@) ==> r == Err::<PatternObject, Error>(Error::IncompatibleBytecode),
        version_ok(code@) && !meta_ok(groups, names_view(groupindex@), inames_view(indexgroup@))
            ==> r == Err::<PatternObject, Error>(Error::MalformedPattern),
        version_ok(code@) && meta_ok(groups, names_view(groupindex@), inames_view(indexgroup@))
            ==> (r matches Ok(p) && p@ == (PatternView {
            source: pattern@,
            flags,
            code: code@,
            group_count: groups,
            names: names_view(groupindex@),
            index_names: inames_view(indexgroup@),
        })),
{
    if code.len() == 0 || code[0] != MAGIC {
        return Err(Error::IncompatibleBytecode);
    }
    if !check_meta(groups, &groupindex, &indexgroup) {
        return Err(Error::MalformedPattern);
    }
    let p = PatternObject {
        source: pattern,
        flags,
        program: BytecodeProgram::new(code),
        group_count: groups,
        names: groupindex,
        index_names: indexgroup,
    };
    Ok(p)
}

/// Decides [`meta_ok`] for the raw maps.
fn check_meta(groups: usize, names: &Vec<(String, usize)>, inames: &Vec<Option<String>>) -> (r:
    bool)
    ensures
        r == meta_ok(groups, names_view(names@), inames_view(inames@)),
{
    let ghost nv = names_view(names@);
    let ghost iv = inames_view(inames@);
    if groups > MAX_GROUPS {
        return false;
    }
    if inames.len() != groups + 1 {
        return false;
    }
    if inames[0].is_some() {
        proof {
            assert(iv[0] is Some);
        }
        return false;
    }
    proof {
        assert(iv[0] is None);
    }
    // Every forward entry points at a group the pattern has, and the
    // reverse slot of that group holds the same name.
    let mut j: usize = 0;
    while j < names.len()
        invariant
            j <= names@.len(),
            nv == names_view(names@),
            iv == inames_view(inames@),
            iv.len() == groups + 1,
            forall|t: int| 0 <= t < j ==> 1 <= (#[trigger] nv[t]).1 <= groups,
            forall|t: int| 0 <= t < j ==> iv[(#[trigger] nv[t]).1 as int] == Some(nv[t].0),
        decreases names@.len() - j,
    {
        let idx = names[j].1;
        if idx < 1 || idx > groups {
            return false;
        }
        match &inames[idx] {
            Some(nm) => {
                if !nm.eq(&names[j].0) {
                    proof {
                        assert(iv[nv[j as int].1 as int] != Some(nv[j as int].0));
                    }
                    return false;
                }
                proof {
                    assert(iv[nv[j as int].1 as int] == Some(nv[j as int].0));
                }
            },
            None => {
                proof {
                    assert(iv[nv[j as int].1 as int] is None);
                }
                return false;
            },
        }
        j = j + 1;
    }
    // Names are pairwise distinct.
    let mut a: usize = 0;
    while a < names.len()
        invariant
            a <= names@.len(),
            nv == names_view(names@),
            forall|t: int, u: int|
                0 <= t < a && t < u < nv.len() ==> (#[trigger] nv[t]).0 != (#[trigger] nv[u]).0,
        decreases names@.len() - a,
    {
        let mut b: usize = a + 1;
        while b < names.len()
            invariant
                a < names@.len(),
                a + 1 <= b,
                b <= names@.len() || b == a + 1,
                nv == names_view(names@),
                forall|u: int| (a as int) < u < b ==> (#[trigger] nv[u]).0 != nv[a as int].0,
            decreases names@.len() - b,
        {
            if names[a].0.eq(&names[b].0) {
                proof {
                    assert(nv[a as int].0 == nv[b as int].0);
                }
                return false;
            }
            b = b + 1;
        }
        a = a + 1;
    }
    // Every named reverse slot is backed by a forward entry.
    let mut i: usize = 1;
    while i <= groups
        invariant
            1 <= i <= groups + 1,
            groups <= MAX_GROUPS,
            iv.len() == groups + 1,
            nv == names_view(names@),
            iv == inames_view(inames@),
            forall|t: int|
                1 <= t < i ==> match #[trigger] iv[t] {
                    Some(nm) => exists|s: int|
                        0 <= s < nv.len() && #[trigger] nv[s] == (nm, t as usize),
                    None => true,
                },
        decreases groups + 1 - i,
    {
        match &inames[i] {
            None => {
                proof {
                    assert(iv[i as int] is None);
                }
            },
            Some(nm) => {
                let mut s: usize = 0;
                let mut found: bool = false;
                while s < names.len()
                    invariant
                        s <= names@.len(),
                        i < iv.len(),
                        nv == names_view(names@),
                        iv == inames_view(inames@),
                        iv[i as int] == Some(nm@),
                        found ==> exists|t: int|
                            0 <= t < nv.len() && #[trigger] nv[t] == (nm@, i as usize),
                        !found ==> forall|t: int|
                            0 <= t < s ==> #[trigger] nv[t] != (nm@, i as usize),
                    decreases names@.len() - s,
                {
                    if !found && names[s].1 == i && names[s].0.eq(nm) {
                        proof {
                            assert(nv[s as int] == (nm@, i as usize));
                        }
                        found = true;
                    } else {
                        proof {
                            if !found && nv[s as int].1 == i as usize {
                                assert(nv[s as int].0 != nm@);
                            }
                        }
                    }
                    s = s + 1;
                }
                if !found {
                    proof {
                        assert(match iv[i as int] {
                            Some(x) => !(exists|t: int|
                                0 <= t < nv.len() && #[trigger] nv[t] == (x, i as usize)),
                            None => false,
                        });
                    }
                    return false;
                }
            },
        }
        i = i + 1;
    }
    proof {
        assert(names_wf(groups, nv, iv));
    }
    true
}

impl PatternObject {
    #[verifier::type_invariant]
    spec fn wf(self) -> bool {
        self.group_count <= MAX_GROUPS
    }

    /// The flags the pattern was built with.
    pub fn flags(&self) -> (r: u32)
        ensures
            r == self@.flags,
    {
        self.flags
    }

    /// How many capturing groups the pattern has, group 0 not counted.
    pub fn group_count(&self) -> (r: usize)
        ensures
            r == self@.group_count,
    {
        self.group_count
    }

    /// The group index a name stands for, or `IndexOrNameError` for a name
    /// the pattern does not define.
    pub fn group_index(&self, name: &String) -> (r: Result<usize, Error>)
        ensures
            match r {
                Ok(i) => exists|j: int|
                    0 <= j < self@.names.len() && #[trigger] self@.names[j] == (name@, i),
                Err(e) => e == Error::IndexOrNameError && forall|j: int|
                    0 <= j < self@.names.len() ==> (#[trigger] self@.names[j]).0 != name@,
            },
    {
        let mut j: usize = 0;
        while j < self.names.len()
            invariant
                j <= self.names@.len(),
                forall|t: int|
                    0 <= t < j ==> (#[trigger] names_view(self.names@)[t]).0 != name@,
            decreases self.names@.len() - j,
        {
            if self.names[j].0.eq(name) {
                let i = self.names[j].1;
                proof {
                    assert(self@.names[j as int] == (name@, i));
                    assert(exists|t: int|
                        0 <= t < self@.names.len() && #[trigger] self@.names[t] == (name@, i));
                }
                return Ok(i);
            }
            j = j + 1;
        }
        Err(Error::IndexOrNameError)
    }

    /// The name of group `i`, if the pattern gave it one.
    pub fn group_name(&self, i: usize) -> (r: Option<&String>)
        ensures
            i < self@.index_names.len() ==> match r {
                Some(s) => self@.index_names[i as int] == Some(s@),
                None => self@.index_names[i as int] is None,
            },
            i >= self@.index_names.len() ==> r is None,
    {
        if i < self.index_names.len() {
            match &self.index_names[i] {
                Some(s) => Some(s),
                None => None,
            }
        } else {
            None
        }
    }

    /// The named groups' spans in one match: each forward map entry beside
    /// the span its group captured there, in map order.
    pub fn groupdict(&self, m: &MatchResult) -> (r: Vec<(String, Option<(usize, usize)>)>)
        ensures
            r@.len() == self@.names.len(),
            forall|k: int|
                0 <= k < r@.len() ==> (#[trigger] r@[k]).0@ == self@.names[k].0 && r@[k].1 == (
                if self@.names[k].1 < m@.groups.len() {
                    m@.groups[self@.names[k].1 as int]
                } else {
                    None::<(usize, usize)>
                }),
    {
        let mut r: Vec<(String, Option<(usize, usize)>)> = Vec::new();
        let mut k: usize = 0;
        while k < self.names.len()
            invariant
                k <= self.names@.len(),
                r@.len() == k,
                forall|t: int|
                    0 <= t < k ==> (#[trigger] r@[t]).0@ == names_view(self.names@)[t].0
                        && r@[t].1 == (if names_view(self.names@)[t].1 < m@.groups.len() {
                        m@.groups[names_view(self.names@)[t].1 as int]
                    } else {
                        None::<(usize, usize)>
                    }),
            decreases self.names@.len() - k,
        {
            let nm = self.names[k].0.clone();
            let idx = self.names[k].1;
            let span = match m.group(idx) {
                Ok(s) => s,
                Err(_) => None,
            };
            r.push((nm, span));
            k = k + 1;
        }
        r
    }

    /// The span that group `name` captured in `m`, resolved through this
    /// pattern's map: an unknown name, or an index `m` does not carry, is
    /// refused.
    pub fn group_by_name(&self, m: &MatchResult, name: &String) -> (r: Result<
        Option<(usize, usize)>,
        Error,
    >)
        ensures
            match r {
                Ok(sp) => exists|j: int|
                    0 <= j < self@.names.len() && (#[trigger] self@.names[j]).0 == name@
                        && self@.names[j].1 < m@.groups.len() && sp == m@.groups[self@.names[j].1
                        as int],
                Err(e) => e == Error::IndexOrNameError && ((forall|j: int|
                    0 <= j < self@.names.len() ==> (#[trigger] self@.names[j]).0 != name@)
                    || (exists|j: int|
                    0 <= j < self@.names.len() && (#[trigger] self@.names[j]).0 == name@
                        && self@.names[j].1 >= m@.groups.len())),
            },
    {
        let idx = match self.group_index(name) {
            Ok(i) => i,
            Err(e) => {
                return Err(e);
            },
        };
        let ghost j = choose|j: int|
            0 <= j < self@.names.len() && #[trigger] self@.names[j] == (name@, idx);
        match m.group(idx) {
            Ok(sp) => {
                proof {
                    assert(self@.names[j].0 == name@);
                }
                Ok(sp)
            },
            Err(e) => Err(e),
        }
    }

    /// One attempt anchored exactly at `pos` on the window `[pos, endpos)`:
    /// the verdict is exactly what the ghost machine prescribes for these
    /// inputs, so equal inputs always get equal verdicts.
    pub fn match_at(&self, subj: &[u8], pos: usize, endpos: usize) -> (r: Result<
        Option<MatchResult>,
        Error,
    >)
        ensures
            as_verdict(r) == anchored_verdict(self@, subj@, pos, endpos, false),
    {
        self.attempt_exec(subj, pos, endpos, false)
    }

    /// Like [`PatternObject::match_at`], but the match must reach `endpos`
    /// exactly.
    pub fn fullmatch(&self, subj: &[u8], pos: usize, endpos: usize) -> (r: Result<
        Option<MatchResult>,
        Error,
    >)
        ensures
            as_verdict(r) == anchored_verdict(self@, subj@, pos, endpos, true),
    {
        self.attempt_exec(subj, pos, endpos, true)
    }

    /// Shared body of the two anchored queries.
    fn attempt_exec(&self, subj: &[u8], pos: usize, endpos: usize, full: bool) -> (r: Result<
        Option<MatchResult>,
        Error,
    >)
        ensures
            as_verdict(r) == anchored_verdict(self@, subj@, pos, endpos, full),
    {
        proof {
            use_type_invariant(self);
        }
        if !(pos <= endpos && endpos <= subj.len()) {
            return Err(Error::InvalidRange);
        }
        let st = MatchState::init(self.group_count, pos);
        let out = run_machine(
            self.program.words(),
            subj,
            self.flags,
            pos,
            endpos,
            full,
            st,
            STEP_LIMIT,
        );
        match out.0 {
            AttemptEnd::Matched(z, marks) => Ok(
                Some(MatchResult::from_marks(&marks, pos, z, self.group_count)),
            ),
            AttemptEnd::NoMatch => Ok(None),
            AttemptEnd::TooComplex => Err(Error::MatchTooComplex),
            AttemptEnd::Faulted => Err(Error::MalformedPattern),
        }
    }

    /// The first match of attempts anchored at `at`, `at + 1`, ... within
    /// the window whose start (for the zero-width anchors) is `start`.
    pub(crate) fn search_core(&self, subj: &[u8], start: usize, at: usize, end: usize) -> (r: Result<
        Option<MatchResult>,
        Error,
    >)
        requires
            at <= end,
            end <= subj@.len(),
        ensures
            match search_from(self@.code, self@.flags, self@.group_count, subj@, start, at, end) {
                ScanEnd::Found { at: a, stop, marks } => r matches Ok(Some(m)) && m@ == (
                CaptureView {
                    start: a,
                    stop,
                    groups: groups_of(marks, a, stop, self@.group_count),
                }),
                ScanEnd::NoneFound => r matches Ok(None),
                ScanEnd::TooComplex => r == Err::<Option<MatchResult>, Error>(
                    Error::MatchTooComplex,
                ),
                ScanEnd::Faulted => r == Err::<Option<MatchResult>, Error>(
                    Error::MalformedPattern,
                ),
            },
    {
        proof {
            use_type_invariant(self);
        }
        let mut p: usize = at;
        loop
            invariant
                at <= p <= end,
                end <= subj@.len(),
                self.wf(),
                search_from(self@.code, self@.flags, self@.group_count, subj@, start, at, end)
                    == search_from(
                    self@.code,
                    self@.flags,
                    self@.group_count,
                    subj@,
                    start,
                    p,
                    end,
                ),
            decreases end - p,
        {
            let st = MatchState::init(self.group_count, p);
            let out = run_machine(
                self.program.words(),
                subj,
                self.flags,
                start,
                end,
                false,
                st,
                STEP_LIMIT,
            );
            match out.0 {
                AttemptEnd::Matched(z, marks) => {
                    return Ok(Some(MatchResult::from_marks(&marks, p, z, self.group_count)));
                },
                AttemptEnd::TooComplex => {
                    return Err(Error::MatchTooComplex);
                },
                AttemptEnd::Faulted => {
                    return Err(Error::MalformedPattern);
                },
                AttemptEnd::NoMatch => {
                    if p == end {
                        return Ok(None);
                    }
                    p = p + 1;
                },
            }
        }
    }

    /// Scans the window from `pos`: the first position at or after `pos`
    /// whose anchored attempt matches wins; no later position is tried
    /// once one matches.
    pub fn search(&self, subj: &[u8], pos: usize, endpos: usize) -> (r: Result<
        Option<MatchResult>,
        Error,
    >)
        ensures
            as_verdict(r) == search_verdict(self@, subj@, pos, endpos),
    {
        if !(pos <= endpos && endpos <= subj.len()) {
            return Err(Error::InvalidRange);
        }
        self.search_core(subj, pos, pos, endpos)
    }

    /// All successive non-overlapping matches of the window, in order: each
    /// is the first match at or after the cursor, and the cursor then moves
    /// to the match end — one unit further for a zero-length match — so the
    /// scan always advances and always terminates.
    pub fn finditer(&self, subj: &[u8], pos: usize, endpos: usize) -> (r: Result<
        Vec<MatchResult>,
        Error,
    >)
        ensures
            !(pos <= endpos && endpos <= subj@.len()) ==> r == Err::<Vec<MatchResult>, Error>(
                Error::InvalidRange,
            ),
            pos <= endpos && endpos <= subj@.len() ==> match find_iter(
                self@.code,
                self@.flags,
                self@.group_count,
                subj@,
                pos,
                pos,
                endpos,
            ) {
                FindEnd::Done(list) => r matches Ok(v) && v@.map_values(|m: MatchResult| m@)
                    == found_views(list, self@.group_count),
                FindEnd::TooComplex => r == Err::<Vec<MatchResult>, Error>(Error::MatchTooComplex),
                FindEnd::Faulted => r == Err::<Vec<MatchResult>, Error>(Error::MalformedPattern),
            },
    {
        if !(pos <= endpos && endpos <= subj.len()) {
            return Err(Error::InvalidRange);
        }
        let ghost gc = self@.group_count;
        let ghost whole = find_iter(self@.code, self@.flags, gc, subj@, pos, pos, endpos);
        let mut acc: Vec<MatchResult> = Vec::new();
        let ghost mut prefix: Seq<FoundMatch> = Seq::empty();
        let mut cur: usize = pos;
        loop
            invariant
                pos <= cur <= endpos,
                endpos <= subj@.len(),
                acc@.map_values(|m: MatchResult| m@) == found_views(prefix, gc),
                gc == self@.group_count,
                whole == find_iter(self@.code, self@.flags, gc, subj@, pos, pos, endpos),
                glue(prefix, find_iter(self@.code, self@.flags, gc, subj@, pos, cur, endpos))
                    == whole,
            decreases endpos - cur,
        {
            let one = self.search_core(subj, pos, cur, endpos);
            let ghost scan = search_from(self@.code, self@.flags, gc, subj@, pos, cur, endpos);
            match one {
                Err(e) => {
                    return Err(e);
                },
                Ok(None) => {
                    proof {
                        assert(whole == FindEnd::Done(prefix + Seq::<FoundMatch>::empty()));
                        assert(prefix + Seq::<FoundMatch>::empty() =~= prefix);
                    }
                    return Ok(acc);
                },
                Ok(Some(m)) => {
                    let (a, z) = m.span();
                    let ghost one_found = match scan {
                        ScanEnd::Found { at: fa, stop: fs, marks: fm } => FoundMatch {
                            at: fa,
                            stop: fs,
                            marks: fm,
                        },
                        _ => FoundMatch { at: a, stop: z, marks: Seq::empty() },
                    };
                    proof {
                        assert(scan matches ScanEnd::Found { .. });
                        assert(one_found.at == a && one_found.stop == z);
                        assert(m@ == (CaptureView {
                            start: one_found.at,
                            stop: one_found.stop,
                            groups: groups_of(one_found.marks, one_found.at, one_found.stop, gc),
                        }));
                    }
                    let ghost acc0 = acc@;
                    let ghost mv = m@;
                    acc.push(m);
                    proof {
                        lemma_result_views_push(acc0, acc@[acc0.len() as int]);
                        lemma_found_views_push(prefix, one_found, gc);
                        assert(acc@ == acc0.push(acc@[acc0.len() as int]));
                        assert(acc@[acc0.len() as int]@ == mv);
                        assert(acc@.map_values(|mm: MatchResult| mm@) == found_views(
                            prefix.push(one_found),
                            gc,
                        ));
                    }
                    match advance_cursor(cur, a, z, endpos) {
                        None => {
                            proof {
                                assert(find_iter(
                                    self@.code, self@.flags, gc, subj@, pos, cur, endpos,
                                ) == FindEnd::Done(seq![one_found]));
                                assert(prefix + seq![one_found] =~= prefix.push(one_found));
                                assert(whole == FindEnd::Done(prefix.push(one_found)));
                            }
                            return Ok(acc);
                        },
                        Some(nxt) => {
                            proof {
                                lemma_glue_extends(
                                    prefix,
                                    one_found,
                                    find_iter(
                                        self@.code, self@.flags, gc, subj@, pos, nxt, endpos,
                                    ),
                                );
                                assert(glue(
                                    prefix.push(one_found),
                                    find_iter(
                                        self@.code, self@.flags, gc, subj@, pos, nxt, endpos,
                                    ),
                                ) == whole);
                            }
                            proof {
                                prefix = prefix.push(one_found);
                            }
                            cur = nxt;
                        },
                    }
                },
            }
        }
    }
}

/// Snapshot views pass through a push.
proof fn lemma_result_views_push(s: Seq<MatchResult>, x: MatchResult)
    ensures
        s.push(x).map_values(|mm: MatchResult| mm@) == s.map_values(|mm: MatchResult| mm@).push(
            x@,
        ),
{
    assert(s.push(x).map_values(|mm: MatchResult| mm@) =~= s.map_values(
        |mm: MatchResult| mm@,
    ).push(x@));
}

/// Found-match views pass through a push.
proof fn lemma_found_views_push(p: Seq<FoundMatch>, one: FoundMatch, gc: usize)
    ensures
        found_views(p.push(one), gc) == found_views(p, gc).push(
            CaptureView { start: one.at, stop: one.stop, groups: groups_of(one.marks, one.at, one.stop, gc) },
        ),
{
    assert(found_views(p.push(one), gc) =~= found_views(p, gc).push(
        CaptureView { start: one.at, stop: one.stop, groups: groups_of(one.marks, one.at, one.stop, gc) },
    ));
}

/// Prepends already-collected matches to the tail of a scan.
pub open spec fn glue(prefix: Seq<FoundMatch>, e: FindEnd) -> FindEnd {
    match e {
        FindEnd::Done(rest) => FindEnd::Done(prefix + rest),
        _ => e,
    }
}

/// Moving one collected match from the tail into the prefix keeps the glued
/// whole the same.
proof fn lemma_glue_extends(prefix: Seq<FoundMatch>, one: FoundMatch, e: FindEnd)
    ensures
        glue(prefix.push(one), e) == glue(
            prefix,
            match e {
                FindEnd::Done(rest) => FindEnd::Done(seq![one] + rest),
                _ => e,
            },
        ),
{
    match e {
        FindEnd::Done(rest) => {
            assert(prefix.push(one) + rest =~= prefix + (seq![one] + rest));
        },
        _ => {},
    }
}

/// Where the scan cursor moves after a match from `a` to `z`, or `None`
/// when the scan is over; exactly [`next_cursor`], which always advances.
pub(crate) fn advance_cursor(cur: usize, a: usize, z: usize, end: usize) -> (r: Option<usize>)
    ensures
        match r {
            Some(n) => next_cursor(cur, a, z) == n && cur < n <= end,
            None => next_cursor(cur, a, z) > end,
        },
{
    let n0: u128 = if a == z {
        z as u128 + 1
    } else {
        z as u128
    };
    let n1: u128 = if n0 > cur as u128 {
        n0
    } else {
        cur as u128 + 1
    };
    if n1 <= end as u128 {
        Some(n1 as usize)
    } else {
        None
    }
}

} // verus!
