use vstd::prelude::*;

verus! {

// ---------------------------------------------------------------------------
// The wire format: a program is a sequence of u32 words.  Word 0 is the
// version tag; instructions follow from word 1.  The positions and meanings
// below are a fixed bit-for-bit contract with the external compiler.
// ---------------------------------------------------------------------------

/// Version tag that must stand in word 0 of every program.
pub const MAGIC: u32 = 0x5653_0001;

/// Force the current branch to backtrack.
pub const OP_FAIL: u32 = 0;
/// The attempt has matched; the current position is the match end.
pub const OP_SUCCESS: u32 = 1;
/// `JUMP t`: continue at word `t`.
pub const OP_JUMP: u32 = 2;
/// `SPLIT t`: try the next instruction first; on failure resume at `t`
/// with position and marks restored.
pub const OP_SPLIT: u32 = 3;
/// `LITERAL c`: consume one unit equal to `c` (folded under IGNORECASE).
pub const OP_LITERAL: u32 = 4;
/// Consume any one unit; a line feed only under DOTALL.
pub const OP_ANY: u32 = 5;
/// `RANGE lo hi`: consume one unit whose folded value lies in `lo ..= hi`.
pub const OP_RANGE: u32 = 6;
/// `NRANGE lo hi`: consume one unit whose folded value lies outside `lo ..= hi`.
pub const OP_NRANGE: u32 = 7;
/// `AT k`: zero-width test `k` (see the `AT_*` constants) at the position.
pub const OP_AT: u32 = 8;
/// `MARK i`: record the current position in mark slot `i`.
pub const OP_MARK: u32 = 9;
/// `REF g`: consume a literal repetition of what group `g` captured.
pub const OP_REF: u32 = 10;
/// `REPEAT min max exit`: greedy repetition of the body that starts at the
/// next word; `exit` is where matching continues after the repetition.
pub const OP_REPEAT: u32 = 11;
/// `REPEAT_END s`: closes the greedy repetition whose `REPEAT` is at `s`.
pub const OP_REPEAT_END: u32 = 12;
/// `REPEAT_LAZY min max exit`: lazy repetition; body at the next word.
pub const OP_REPEAT_LAZY: u32 = 13;
/// `REPEAT_END_LAZY s`: closes the lazy repetition that begins at `s`.
pub const OP_REPEAT_END_LAZY: u32 = 14;
/// `ASSERT cont back`: positive lookaround.  The sub-program starts at the
/// next word and runs anchored `back` units before the current position;
/// on success its marks are kept and matching continues at `cont`.
pub const OP_ASSERT: u32 = 15;
/// `ASSERT_NOT cont back`: negative lookaround.  Marks written by the
/// sub-program are always discarded; the branch continues at `cont` only
/// if the sub-program fails.
pub const OP_ASSERT_NOT: u32 = 16;

/// `AT` test: at the window start.
pub const AT_BEGIN: u32 = 0;
/// `AT` test: at the window end.
pub const AT_END: u32 = 1;
/// `AT` test: at the window start or just after a line feed.
pub const AT_BOL: u32 = 2;
/// `AT` test: at the window end or just before a line feed.
pub const AT_EOL: u32 = 3;
/// `AT` test: exactly one neighbour is a word unit.
pub const AT_BOUNDARY: u32 = 4;
/// `AT` test: both neighbours or neither neighbour is a word unit.
pub const AT_NON_BOUNDARY: u32 = 5;

/// Case-insensitive matching: literals, ranges and backreferences compare
/// folded units.
pub const FLAG_IGNORECASE: u32 = 1;
/// Locale-dependent classes; consumed by the external compiler.
pub const FLAG_LOCALE: u32 = 2;
/// Line anchors at every line; resolved by the compiler into `AT` kinds.
pub const FLAG_MULTILINE: u32 = 4;
/// `ANY` also consumes a line feed.
pub const FLAG_DOTALL: u32 = 8;
/// Unicode classes; consumed by the external compiler.
pub const FLAG_UNICODE: u32 = 16;
/// Verbose pattern source; consumed by the external compiler.
pub const FLAG_VERBOSE: u32 = 32;
/// Diagnostic output in the compiler; the engine ignores it.
pub const FLAG_DEBUG: u32 = 64;
/// ASCII-only classes; consumed by the external compiler.
pub const FLAG_ASCII: u32 = 128;

/// `max` word of a repetition with no upper bound.
pub const UNBOUNDED: u32 = 0xFFFF_FFFF;

/// Ceiling on interpreter steps per attempt: one more and the attempt ends
/// with `MatchTooComplex` instead of looping or exhausting resources.
pub const STEP_LIMIT: usize = 100_000;

/// Largest representable capturing group count: the machine bound at which
/// the mark array's length, `2 * (group_count + 1)`, still fits a `usize`.
/// It is no policy cap — a pattern with consistent maps is accepted up to
/// the point where its marks could not be addressed at all.
pub const MAX_GROUPS: usize = usize::MAX / 2 - 1;

/// Whether `code` begins with the version tag this engine supports.
pub open spec fn version_ok(code: Seq<u32>) -> bool {
    code.len() > 0 && code[0] == MAGIC
}

/// An immutable, validated opcode-word sequence, version tag included.
#[derive(Debug)]
pub struct BytecodeProgram {
    words: Vec<u32>,
}

impl View for BytecodeProgram {
    type V = Seq<u32>;

    closed spec fn view(&self) -> Seq<u32> {
        self.words@
    }
}

impl BytecodeProgram {
    /// Wraps an already-checked word sequence.
    pub fn new(words: Vec<u32>) -> (r: BytecodeProgram)
        requires
            version_ok(words@),
        ensures
            r@ == words@,
    {
        BytecodeProgram { words }
    }

    /// The raw words, version tag first.
    pub fn words(&self) -> (r: &Vec<u32>)
        ensures
            r@ == self@,
    {
        &self.words
    }
}

} // verus!
