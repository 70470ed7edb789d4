use crate::capture::{groups_of, CaptureView, MatchResult};
use crate::errors::Error;
use crate::model::{next_cursor, search_from, ScanEnd};
use crate::pattern::{advance_cursor, PatternObject, PatternView};
use vstd::prelude::*;

verus! {

/// A stateful driver producing successive non-overlapping matches over one
/// subject window.  It holds a shared reference to an immutable pattern and
/// a private cursor; it shares no mutable state with other scanners or with
/// direct queries, and once the scan has ended it stays finished.
pub struct Scanner<'a> {
    pat: &'a PatternObject,
    subj: &'a [u8],
    start: usize,
    cursor: usize,
    end: usize,
    active: bool,
}

impl<'a> Scanner<'a> {
    #[verifier::type_invariant]
    spec fn wf(self) -> bool {
        self.start <= self.cursor && (self.active ==> self.cursor <= self.end
            && self.end <= self.subj@.len())
    }

    /// The pattern this scanner walks with.
    pub closed spec fn pattern_view(&self) -> PatternView {
        self.pat@
    }

    /// The subject being scanned.
    pub closed spec fn subject_view(&self) -> Seq<u8> {
        self.subj@
    }

    /// The window the scan was started on.
    pub closed spec fn window(&self) -> (usize, usize) {
        (self.start, self.end)
    }

    /// Where the next advance will search from.
    pub closed spec fn cursor_at(&self) -> usize {
        self.cursor
    }

    /// Whether the scan can still yield a match; once false it stays false.
    pub closed spec fn is_active(&self) -> bool {
        self.active
    }

    /// Starts a scan of `subj` over the window `[pos, endpos)`, with the
    /// cursor at `pos`; a window outside the subject is refused.
    pub fn scan(pat: &'a PatternObject, subj: &'a [u8], pos: usize, endpos: usize) -> (r: Result<
        Scanner<'a>,
        Error,
    >)
        ensures
            !(pos <= endpos && endpos <= subj@.len()) ==> (r matches Err(e) && e
                == Error::InvalidRange),
            pos <= endpos && endpos <= subj@.len() ==> (r matches Ok(s) && s.pattern_view()
                == pat@ && s.subject_view() == subj@ && s.window() == (pos, endpos)
                && s.cursor_at() == pos && s.is_active()),
    {
        if !(pos <= endpos && endpos <= subj.len()) {
            return Err(Error::InvalidRange);
        }
        Ok(Scanner { pat, subj, start: pos, cursor: pos, end: endpos, active: true })
    }

    /// The next non-overlapping match: the first match at or after the
    /// cursor, after which the cursor moves to the match end — one unit
    /// further for a zero-length match — so that the scan always advances.
    /// A finished scan yields `Ok(None)` forever; an abandoned or refused
    /// attempt ends the scan and surfaces its error once.
    pub fn next_match(&mut self) -> (r: Result<Option<MatchResult>, Error>)
        ensures
            final(self).pattern_view() == old(self).pattern_view(),
            final(self).subject_view() == old(self).subject_view(),
            final(self).window() == old(self).window(),
            !old(self).is_active() ==> (r matches Ok(None) && !final(self).is_active()),
            old(self).is_active() ==> match search_from(
                old(self).pattern_view().code,
                old(self).pattern_view().flags,
                old(self).pattern_view().group_count,
                old(self).subject_view(),
                old(self).window().0,
                old(self).cursor_at(),
                old(self).window().1,
            ) {
                ScanEnd::Found { at, stop, marks } => r matches Ok(Some(m)) && m@ == (CaptureView {
                    start: at,
                    stop,
                    groups: groups_of(marks, at, stop, old(self).pattern_view().group_count),
                }) && (if next_cursor(old(self).cursor_at(), at, stop) <= old(self).window().1 {
                    final(self).is_active() && final(self).cursor_at() == next_cursor(
                        old(self).cursor_at(),
                        at,
                        stop,
                    )
                } else {
                    !final(self).is_active()
                }),
                ScanEnd::NoneFound => r matches Ok(None) && !final(self).is_active(),
                ScanEnd::TooComplex => r == Err::<Option<MatchResult>, Error>(
                    Error::MatchTooComplex,
                ) && !final(self).is_active(),
                ScanEnd::Faulted => r == Err::<Option<MatchResult>, Error>(
                    Error::MalformedPattern,
                ) && !final(self).is_active(),
            },
    {
        proof {
            use_type_invariant(&*self);
        }
        if !self.active {
            return Ok(None);
        }
        let found = self.pat.search_core(self.subj, self.start, self.cursor, self.end);
        match found {
            Ok(Some(m)) => {
                let (a, z) = m.span();
                match advance_cursor(self.cursor, a, z, self.end) {
                    Some(n) => {
                        self.cursor = n;
                    },
                    None => {
                        self.active = false;
                    },
                }
                Ok(Some(m))
            },
            Ok(None) => {
                self.active = false;
                Ok(None)
            },
            Err(e) => {
                self.active = false;
                Err(e)
            },
        }
    }
}

} // verus!
