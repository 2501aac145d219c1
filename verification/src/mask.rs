//! The conditional-inclusion mask stack.
//!
//! One frame per open `#if*`; the current emit bit is true exactly when
//! every frame on the stack has its current group included.

use vstd::prelude::*;

verus! {

/// One frame of the mask stack.
#[derive(Clone, Copy, Debug, PartialEq, Eq, Structural)]
pub enum IfState {
    /// No group of this level has been included yet.
    NotYet { else_seen: bool },
    /// The current group of this level is included.
    Active { else_seen: bool },
    /// A past group of this level was included; the current one is not.
    One { else_seen: bool },
}

/// Whether the frame has already seen its `#else`.
pub open spec fn frame_else_seen(f: IfState) -> bool {
    match f {
        IfState::NotYet { else_seen } => else_seen,
        IfState::Active { else_seen } => else_seen,
        IfState::One { else_seen } => else_seen,
    }
}

/// Whether the current group of this frame is included.
pub open spec fn frame_active(f: IfState) -> bool {
    matches!(f, IfState::Active { .. })
}

/// Whether every frame has its current group included: the emit bit.
pub open spec fn all_active(s: Seq<IfState>) -> bool {
    forall|i: int| 0 <= i < s.len() ==> frame_active(#[trigger] s[i])
}

/// The stack of conditional-inclusion frames of one file.
#[derive(Debug)]
pub struct MaskStack {
    pub frames: Vec<IfState>,
}

impl View for MaskStack {
    type V = Seq<IfState>;

    open spec fn view(&self) -> Seq<IfState> {
        self.frames@
    }
}

impl MaskStack {
    /// An empty stack: everything is emitted.
    pub fn new() -> (r: MaskStack)
        ensures
            r@ =~= Seq::<IfState>::empty(),
    {
        MaskStack { frames: Vec::new() }
    }

    /// The number of open conditionals.
    pub fn depth(&self) -> (r: usize)
        ensures
            r == self@.len(),
    {
        self.frames.len()
    }

    /// The current emit bit.
    pub fn emit(&self) -> (r: bool)
        ensures
            r == all_active(self@),
    {
        let n = self.frames.len();
        let mut i: usize = 0;
        while i < n
            invariant
                i <= n,
                n == self@.len(),
                forall|j: int| 0 <= j < i ==> frame_active(#[trigger] self@[j]),
            decreases n - i,
        {
            if !matches!(self.frames[i], IfState::Active { .. }) {
                return false;
            }
            i += 1;
        }
        true
    }

    /// Open a level for `#ifdef`/`#ifndef`/`#if`. When the surrounding state
    /// emits and the predicate holds, the new group is included; otherwise
    /// no group of the new level is included yet.
    pub fn push_level(&mut self, pred: bool)
        ensures
            final(self)@ == old(self)@.push(
                if all_active(old(self)@) && pred {
                    IfState::Active { else_seen: false }
                } else {
                    IfState::NotYet { else_seen: false }
                },
            ),
            final(self)@ == mask_step(old(self)@, (MaskOp::Open { pred })),
    {
        let was_active = self.emit();
        if was_active && pred {
            self.frames.push(IfState::Active { else_seen: false });
        } else {
            self.frames.push(IfState::NotYet { else_seen: false });
        }
    }

    /// Handle `#else`. Returns false (and changes nothing) for an extra
    /// `#else`: one at the top level, or a second one for the same level.
    pub fn on_else(&mut self) -> (r: bool)
        ensures
            ({
                let s = old(self)@;
                if s.len() == 0 || frame_else_seen(s.last()) {
                    !r && final(self)@ == s
                } else {
                    r && final(self)@ == s.update(
                        s.len() - 1,
                        match s.last() {
                            IfState::NotYet { .. } => if all_active(s.drop_last()) {
                                IfState::Active { else_seen: true }
                            } else {
                                IfState::NotYet { else_seen: true }
                            },
                            IfState::Active { .. } => (IfState::One { else_seen: true }),
                            IfState::One { .. } => (IfState::One { else_seen: true }),
                        },
                    )
                }
            }),
            final(self)@ == mask_step(old(self)@, MaskOp::ElseOp),
    {
        let n = self.frames.len();
        if n == 0 {
            return false;
        }
        let top = self.frames[n - 1];
        match top {
            IfState::NotYet { else_seen } => {
                if else_seen {
                    false
                } else {
                    // Whether the else group is included depends on the
                    // frames beneath this one.
                    let ghost s = self@;
                    self.frames.pop();
                    let outer_active = self.emit();
                    if outer_active {
                        self.frames.push(IfState::Active { else_seen: true });
                    } else {
                        self.frames.push(IfState::NotYet { else_seen: true });
                    }
                    proof {
                        assert(self@.drop_last() =~= s.drop_last());
                        assert(self@ =~= s.update(
                            s.len() - 1,
                            if all_active(s.drop_last()) {
                                IfState::Active { else_seen: true }
                            } else {
                                IfState::NotYet { else_seen: true }
                            },
                        ));
                    }
                    true
                }
            },
            IfState::Active { else_seen } => {
                if else_seen {
                    false
                } else {
                    let ghost s = self@;
                    self.frames.set(n - 1, IfState::One { else_seen: true });
                    proof {
                        assert(self@ =~= s.update(
                            s.len() - 1,
                            (IfState::One { else_seen: true }),
                        ));
                    }
                    true
                }
            },
            IfState::One { else_seen } => {
                if else_seen {
                    false
                } else {
                    let ghost s = self@;
                    self.frames.set(n - 1, IfState::One { else_seen: true });
                    proof {
                        assert(self@ =~= s.update(
                            s.len() - 1,
                            (IfState::One { else_seen: true }),
                        ));
                    }
                    true
                }
            },
        }
    }

    /// Handle `#endif`. Returns false (and changes nothing) when there is no
    /// open conditional.
    pub fn on_endif(&mut self) -> (r: bool)
        ensures
            ({
                let s = old(self)@;
                if s.len() == 0 {
                    !r && final(self)@ == s
                } else {
                    r && final(self)@ == s.drop_last()
                }
            }),
            final(self)@ == mask_step(old(self)@, MaskOp::EndOp),
    {
        let n = self.frames.len();
        if n == 0 {
            false
        } else {
            let ghost s = self@;
            self.frames.pop();
            proof {
                assert(self@ =~= s.drop_last());
            }
            true
        }
    }
}

/// One abstract operation on the mask stack: opening a level, `#else`,
/// `#endif`.
#[verifier::ext_equal]
pub ghost enum MaskOp {
    Open { pred: bool },
    ElseOp,
    EndOp,
}

/// The effect of one operation on a stack of frames: exactly what the
/// executable operations ensure.
pub open spec fn mask_step(s: Seq<IfState>, op: MaskOp) -> Seq<IfState> {
    match op {
        MaskOp::Open { pred } => s.push(
            if all_active(s) && pred {
                IfState::Active { else_seen: false }
            } else {
                IfState::NotYet { else_seen: false }
            },
        ),
        MaskOp::ElseOp => if s.len() == 0 || frame_else_seen(s.last()) {
            s
        } else {
            s.update(
                s.len() - 1,
                match s.last() {
                    IfState::NotYet { .. } => if all_active(s.drop_last()) {
                        IfState::Active { else_seen: true }
                    } else {
                        IfState::NotYet { else_seen: true }
                    },
                    IfState::Active { .. } => (IfState::One { else_seen: true }),
                    IfState::One { .. } => (IfState::One { else_seen: true }),
                },
            )
        },
        MaskOp::EndOp => if s.len() == 0 {
            s
        } else {
            s.drop_last()
        },
    }
}

/// The stack after a sequence of operations.
pub open spec fn mask_run(s: Seq<IfState>, ops: Seq<MaskOp>) -> Seq<IfState>
    decreases ops.len(),
{
    if ops.len() == 0 {
        s
    } else {
        mask_step(mask_run(s, ops.drop_last()), ops.last())
    }
}

/// How many operations of a sequence open a level.
pub open spec fn opens(ops: Seq<MaskOp>) -> int
    decreases ops.len(),
{
    if ops.len() == 0 {
        0
    } else {
        opens(ops.drop_last()) + if (ops.last() matches MaskOp::Open { .. }) {
            1int
        } else {
            0int
        }
    }
}

/// How many operations of a sequence close a level.
pub open spec fn closes(ops: Seq<MaskOp>) -> int
    decreases ops.len(),
{
    if ops.len() == 0 {
        0
    } else {
        closes(ops.drop_last()) + if (ops.last() matches MaskOp::EndOp) {
            1int
        } else {
            0int
        }
    }
}

/// A well-formed sequence of conditionals: no prefix closes more levels
/// than it has opened, and at the end every opened level is closed.
pub open spec fn balanced(ops: Seq<MaskOp>) -> bool {
    &&& forall|k: int| 0 <= k <= ops.len() ==> closes(#[trigger] ops.subrange(0, k)) <= opens(
        ops.subrange(0, k),
    )
    &&& closes(ops) == opens(ops)
}

/// Starting from an empty stack, the depth after a prefix of operations is
/// the number of opened levels not yet closed.
proof fn lemma_depth_after(ops: Seq<MaskOp>, k: int)
    requires
        0 <= k <= ops.len(),
        forall|j: int| 0 <= j <= ops.len() ==> closes(#[trigger] ops.subrange(0, j)) <= opens(
            ops.subrange(0, j),
        ),
    ensures
        mask_run(Seq::empty(), ops.subrange(0, k)).len() == opens(ops.subrange(0, k)) - closes(
            ops.subrange(0, k),
        ),
    decreases k,
{
    if k == 0 {
        assert(ops.subrange(0, 0) =~= Seq::<MaskOp>::empty());
    } else {
        lemma_depth_after(ops, k - 1);
        let pre = ops.subrange(0, k);
        assert(pre.drop_last() =~= ops.subrange(0, k - 1));
        assert(pre.last() == ops[k - 1]);
        let s = mask_run(Seq::empty(), ops.subrange(0, k - 1));
        match ops[k - 1] {
            MaskOp::Open { .. } => {},
            MaskOp::ElseOp => {
                if !(s.len() == 0 || frame_else_seen(s.last())) {
                    assert(s.update(s.len() - 1, mask_step(s, MaskOp::ElseOp)[s.len()
                        - 1]).len() == s.len());
                }
            },
            MaskOp::EndOp => {
                if s.len() == 0 {
                    assert(closes(ops.subrange(0, k)) == closes(ops.subrange(0, k - 1)) + 1);
                    assert(opens(ops.subrange(0, k)) == opens(ops.subrange(0, k - 1)));
                    assert(closes(ops.subrange(0, k)) <= opens(ops.subrange(0, k)));
                    assert(false);
                }
            },
        }
    }
}

/// The mask stack law of well-formed input: a balanced sequence of
/// conditionals, run from an empty stack, leaves the stack empty, so the
/// end of the file owes no unterminated-conditional report.
pub proof fn lemma_balanced_leaves_empty(ops: Seq<MaskOp>)
    requires
        balanced(ops),
    ensures
        mask_run(Seq::empty(), ops).len() == 0,
{
    lemma_depth_after(ops, ops.len() as int);
    assert(ops.subrange(0, ops.len() as int) =~= ops);
}

} // verus!
