use crate::errors::Error;
use crate::program::MAX_GROUPS;
use crate::state::copy_units;
use vstd::prelude::*;

verus! {

/// Ghost image of a match snapshot: the overall span and one optional span
/// per group, group 0 being the whole match.
#[verifier::ext_equal]
pub struct CaptureView {
    pub start: usize,
    pub stop: usize,
    pub groups: Seq<Option<(usize, usize)>>,
}

/// The group spans of a successful match with mark array `marks`: group 0
/// spans the whole match from `a` to `z`; a later group is set only when
/// both of its mark slots were written.
pub open spec fn groups_of(marks: Seq<Option<usize>>, a: usize, z: usize, gc: usize) -> Seq<
    Option<(usize, usize)>,
> {
    Seq::new(
        (gc + 1) as nat,
        |g: int|
            if g == 0 {
                Some((a, z))
            } else if 2 * g + 1 < marks.len() {
                match (marks[2 * g], marks[2 * g + 1]) {
                    (Some(x), Some(y)) => Some((x, y)),
                    _ => None,
                }
            } else {
                None
            },
    )
}

/// An immutable snapshot of one successful match: the overall span and the
/// span of every capturing group, produced only on success.
#[derive(Debug)]
pub struct MatchResult {
    start: usize,
    stop: usize,
    groups: Vec<Option<(usize, usize)>>,
}

impl View for MatchResult {
    type V = CaptureView;

    closed spec fn view(&self) -> CaptureView {
        CaptureView { start: self.start, stop: self.stop, groups: self.groups@ }
    }
}

impl MatchResult {
    /// Builds the snapshot of a match from `a` to `z` out of the final mark
    /// array of an attempt with `gc` capturing groups.
    pub fn from_marks(marks: &Vec<Option<usize>>, a: usize, z: usize, gc: usize) -> (r:
        MatchResult)
        requires
            gc <= MAX_GROUPS,
        ensures
            r@ == (CaptureView { start: a, stop: z, groups: groups_of(marks@, a, z, gc) }),
    {
        let mut groups: Vec<Option<(usize, usize)>> = Vec::new();
        groups.push(Some((a, z)));
        let mut g: usize = 1;
        while g <= gc
            invariant
                1 <= g <= gc + 1,
                gc <= MAX_GROUPS,
                groups@.len() == g,
                groups@[0] == Some((a, z)),
                forall|i: int|
                    1 <= i < g ==> groups@[i] == groups_of(marks@, a, z, gc)[i],
            decreases gc + 1 - g,
        {
            let one: Option<(usize, usize)> = if 2 * g + 1 < marks.len() {
                match (marks[2 * g], marks[2 * g + 1]) {
                    (Some(x), Some(y)) => Some((x, y)),
                    _ => None,
                }
            } else {
                None
            };
            groups.push(one);
            g = g + 1;
        }
        let r = MatchResult { start: a, stop: z, groups };
        proof {
            assert(r@.groups =~= groups_of(marks@, a, z, gc));
        }
        r
    }

    /// The overall span: where the match starts and where it stops.
    pub fn span(&self) -> (r: (usize, usize))
        ensures
            r.0 == self@.start,
            r.1 == self@.stop,
    {
        (self.start, self.stop)
    }

    /// The span of group `i`, `None` when the group did not take part in
    /// the match; an index the pattern does not define is refused.
    pub fn group(&self, i: usize) -> (r: Result<Option<(usize, usize)>, Error>)
        ensures
            i < self@.groups.len() ==> r == Ok::<Option<(usize, usize)>, Error>(
                self@.groups[i as int],
            ),
            i >= self@.groups.len() ==> r == Err::<Option<(usize, usize)>, Error>(
                Error::IndexOrNameError,
            ),
    {
        if i < self.groups.len() {
            Ok(self.groups[i])
        } else {
            Err(Error::IndexOrNameError)
        }
    }

    /// The spans of every group, group 0 first.
    pub fn groups(&self) -> (r: Vec<Option<(usize, usize)>>)
        ensures
            r@ == self@.groups,
    {
        copy_units(&self.groups)
    }

    /// How many spans the snapshot holds, group 0 included.
    pub fn group_len(&self) -> (r: usize)
        ensures
            r == self@.groups.len(),
    {
        self.groups.len()
    }
}

} // verus!
