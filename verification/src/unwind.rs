//! Reconstruction of the call stack from the chain of saved frame pointers.
//!
//! Every frame of a program built with frame pointers keeps, at its frame
//! base, the frame base of its caller, and in the word above, the address at
//! which the caller goes on. Following the chain from the current frame
//! outwards gives the call stack.

use vstd::prelude::*;
use vstd::string::*;
use crate::dwarf_data::{DwarfData, DwarfDataView, Line, LineView};
use crate::status::DebugError;
use crate::text::str_eq;
use crate::tracee::{rbp_read, rip_read, word_read, Tracee};
use crate::word::WORD_SIZE;

verus! {

/// Name of the function at which unwinding ends.
pub const ENTRY_FUNCTION: &'static str = "main";

/// One entry of a call stack.
#[derive(Clone, Debug, PartialEq, Eq)]
pub struct Frame {
    /// The instruction address inside the function.
    pub address: usize,
    /// Name of the function.
    pub function: String,
    /// Source line of the instruction.
    pub line: Line,
}

/// A [`Frame`] with its texts as sequences of characters.
pub struct FrameView {
    pub address: usize,
    pub function: Seq<char>,
    pub line: LineView,
}

impl View for Frame {
    type V = FrameView;

    open spec fn view(&self) -> FrameView {
        FrameView { address: self.address, function: self.function@, line: self.line@ }
    }
}

/// The frames of a stack with their texts as sequences of characters.
pub open spec fn frames_of(frames: Seq<Frame>) -> Seq<FrameView> {
    frames.map_values(|f: Frame| f@)
}

/// The outcome of a backtrace with the frames as [`FrameView`]s.
pub open spec fn trace_of(r: Result<Vec<Frame>, DebugError>) -> Result<Seq<FrameView>, DebugError> {
    match r {
        Ok(frames) => Ok(frames_of(frames@)),
        Err(e) => Err(e),
    }
}

/// The frame for `address`, if the tables know both its function and its
/// line.
pub open spec fn frame_at(data: DwarfDataView, address: usize) -> Option<FrameView> {
    match (data.function_at(address), data.line_at(address)) {
        (Some(function), Some(line)) => Some(FrameView { address, function, line }),
        _ => None,
    }
}

/// A complete call stack: at least one frame, every frame resolved from its
/// own address, the last one in the entry function and no earlier one.
pub open spec fn complete_stack(data: DwarfDataView, frames: Seq<FrameView>) -> bool {
    &&& frames.len() >= 1
    &&& forall|i: int| 0 <= i < frames.len() ==> frame_at(data, (#[trigger] frames[i]).address)
        == Some(frames[i])
    &&& frames.last().function == ENTRY_FUNCTION@
    &&& forall|i: int| 0 <= i < frames.len() - 1 ==> (#[trigger] frames[i]).function
        != ENTRY_FUNCTION@
}

/// The address of the word above the frame base, where the return address
/// is saved. At the very top of the address space it wraps around.
pub open spec fn return_slot(base: usize) -> usize {
    if base + WORD_SIZE > usize::MAX {
        (base + WORD_SIZE - usize::MAX - 1) as usize
    } else {
        (base + WORD_SIZE) as usize
    }
}

/// The outcome of a walk that has `frame` as its innermost frame and `rest`
/// as the outcome of the walk from the caller on.
pub open spec fn under(frame: FrameView, rest: Result<Seq<FrameView>, DebugError>) -> Result<
    Seq<FrameView>,
    DebugError,
> {
    match rest {
        Ok(frames) => Ok(seq![frame] + frames),
        Err(e) => Err(e),
    }
}

/// The outcome of the walk from the caller on, given the outcome of the walk
/// from a frame that has a caller: the frames but the first, or the same
/// failure.
pub open spec fn beyond(outcome: Result<Seq<FrameView>, DebugError>) -> Result<
    Seq<FrameView>,
    DebugError,
> {
    match outcome {
        Ok(frames) => Ok(frames.drop_first()),
        Err(e) => Err(e),
    }
}

/// Walking the stack of `target` from the instruction pointer `ip` and the
/// frame base `base`, for at most `limit` frames, can give `outcome`.
///
/// With no frame left to walk the walk fails as too deep. Otherwise `ip` is
/// resolved; an address the tables do not know fails the walk. The frame of
/// the entry function ends the walk. From any other frame the walk goes on
/// at the caller: its instruction pointer is the word read above the frame
/// base, its frame base the word read at the frame base, in this order, and
/// a failed read fails the walk. The outcome is then the frame followed by
/// the frames of the walk from the caller, or the failure of that walk.
pub open spec fn walked<T: Tracee>(
    target: &T,
    data: DwarfDataView,
    ip: usize,
    base: usize,
    limit: nat,
    outcome: Result<Seq<FrameView>, DebugError>,
) -> bool
    decreases limit,
{
    if limit == 0 {
        outcome == Err::<Seq<FrameView>, DebugError>(DebugError::TooDeep)
    } else {
        match frame_at(data, ip) {
            None => outcome == Err::<Seq<FrameView>, DebugError>(DebugError::Unresolved(ip)),
            Some(frame) => if frame.function == ENTRY_FUNCTION@ {
                outcome == Ok::<Seq<FrameView>, DebugError>(seq![frame])
            } else {
                exists|ret: Result<u64, DebugError>| #[trigger]
                    word_read(target, return_slot(base), ret) && match ret {
                        Err(e) => outcome == Err::<Seq<FrameView>, DebugError>(e),
                        Ok(return_addr) => exists|saved: Result<u64, DebugError>| #[trigger]
                            word_read(target, base, saved) && match saved {
                                Err(e) => outcome == Err::<Seq<FrameView>, DebugError>(e),
                                Ok(caller_base) => {
                                    &&& walked(
                                        target,
                                        data,
                                        return_addr as usize,
                                        caller_base as usize,
                                        (limit - 1) as nat,
                                        beyond(outcome),
                                    )
                                    &&& outcome == under(frame, beyond(outcome))
                                },
                            },
                    }
            },
        }
    }
}

/// Unwinding the stack of `target`, for at most `limit` frames, can give
/// `outcome`: the instruction pointer and the frame base are read, in this
/// order, and the walk starts from them. A failed read fails the unwinding.
pub open spec fn unwound<T: Tracee>(
    target: &T,
    data: DwarfDataView,
    limit: nat,
    outcome: Result<Seq<FrameView>, DebugError>,
) -> bool {
    exists|rip: Result<usize, DebugError>| #[trigger]
        rip_read(target, rip) && match rip {
            Err(e) => outcome == Err::<Seq<FrameView>, DebugError>(e),
            Ok(ip) => exists|rbp: Result<usize, DebugError>| #[trigger]
                rbp_read(target, rbp) && match rbp {
                    Err(e) => outcome == Err::<Seq<FrameView>, DebugError>(e),
                    Ok(base) => walked(target, data, ip, base, limit, outcome),
                },
        }
}

/// A walk that gets past a frame with a caller has read both words of the
/// frame, and goes on from them.
pub proof fn lemma_words_read<T: Tracee>(
    target: &T,
    data: DwarfDataView,
    ip: usize,
    base: usize,
    limit: nat,
    outcome: Result<Seq<FrameView>, DebugError>,
)
    requires
        walked(target, data, ip, base, limit, outcome),
        outcome is Ok,
        limit > 0,
        frame_at(data, ip) is Some,
        frame_at(data, ip)->0.function != ENTRY_FUNCTION@,
    ensures
        outcome == under(frame_at(data, ip)->0, beyond(outcome)),
        exists|return_addr: u64, caller_base: u64|
            #![trigger word_read(target, return_slot(base), Ok(return_addr)), word_read(target, base, Ok(caller_base))]
            word_read(target, return_slot(base), Ok(return_addr)) && word_read(
                target,
                base,
                Ok(caller_base),
            ) && walked(
                target,
                data,
                return_addr as usize,
                caller_base as usize,
                (limit - 1) as nat,
                beyond(outcome),
            ),
{
    let frame = frame_at(data, ip)->0;
    let ret = choose|ret: Result<u64, DebugError>| #[trigger]
        word_read(target, return_slot(base), ret) && match ret {
            Err(e) => outcome == Err::<Seq<FrameView>, DebugError>(e),
            Ok(return_addr) => exists|saved: Result<u64, DebugError>| #[trigger]
                word_read(target, base, saved) && match saved {
                    Err(e) => outcome == Err::<Seq<FrameView>, DebugError>(e),
                    Ok(caller_base) => {
                        &&& walked(
                            target,
                            data,
                            return_addr as usize,
                            caller_base as usize,
                            (limit - 1) as nat,
                            beyond(outcome),
                        )
                        &&& outcome == under(frame, beyond(outcome))
                    },
                },
        };
    assert(ret is Ok);
    let return_addr = ret->Ok_0;
    let saved = choose|saved: Result<u64, DebugError>| #[trigger]
        word_read(target, base, saved) && match saved {
            Err(e) => outcome == Err::<Seq<FrameView>, DebugError>(e),
            Ok(caller_base) => {
                &&& walked(
                    target,
                    data,
                    return_addr as usize,
                    caller_base as usize,
                    (limit - 1) as nat,
                    beyond(outcome),
                )
                &&& outcome == under(frame, beyond(outcome))
            },
        };
    assert(saved is Ok);
    let caller_base = saved->Ok_0;
    assert(ret == Ok::<u64, DebugError>(return_addr));
    assert(saved == Ok::<u64, DebugError>(caller_base));
    assert(word_read(target, return_slot(base), Ok(return_addr)) && word_read(
        target,
        base,
        Ok(caller_base),
    ));
}

/// A walk goes on past a frame with a caller: if both words of the frame are
/// read and the walk from the caller gives `rest`, the walk from the frame
/// gives the frame followed by `rest`.
pub proof fn lemma_walk_on<T: Tracee>(
    target: &T,
    data: DwarfDataView,
    ip: usize,
    base: usize,
    limit: nat,
    return_addr: u64,
    caller_base: u64,
    rest: Result<Seq<FrameView>, DebugError>,
)
    requires
        limit > 0,
        frame_at(data, ip) is Some,
        frame_at(data, ip)->0.function != ENTRY_FUNCTION@,
        word_read(target, return_slot(base), Ok(return_addr)),
        word_read(target, base, Ok(caller_base)),
        walked(target, data, return_addr as usize, caller_base as usize, (limit - 1) as nat, rest),
    ensures
        walked(target, data, ip, base, limit, under(frame_at(data, ip)->0, rest)),
        beyond(under(frame_at(data, ip)->0, rest)) == rest,
{
    let frame = frame_at(data, ip)->0;
    let outcome = under(frame, rest);
    assert(beyond(outcome) == rest) by {
        match rest {
            Ok(outer) => {
                assert((seq![frame] + outer).drop_first() =~= outer);
            },
            Err(_) => {},
        }
    }
    let ret = Ok::<u64, DebugError>(return_addr);
    let saved = Ok::<u64, DebugError>(caller_base);
    assert(word_read(target, base, saved) && match saved {
        Err(e) => outcome == Err::<Seq<FrameView>, DebugError>(e),
        Ok(caller_base) => {
            &&& walked(
                target,
                data,
                return_addr as usize,
                caller_base as usize,
                (limit - 1) as nat,
                beyond(outcome),
            )
            &&& outcome == under(frame, beyond(outcome))
        },
    });
    assert(word_read(target, return_slot(base), ret) && match ret {
        Err(e) => outcome == Err::<Seq<FrameView>, DebugError>(e),
        Ok(return_addr) => exists|saved: Result<u64, DebugError>| #[trigger]
            word_read(target, base, saved) && match saved {
                Err(e) => outcome == Err::<Seq<FrameView>, DebugError>(e),
                Ok(caller_base) => {
                    &&& walked(
                        target,
                        data,
                        return_addr as usize,
                        caller_base as usize,
                        (limit - 1) as nat,
                        beyond(outcome),
                    )
                    &&& outcome == under(frame, beyond(outcome))
                },
            },
    });
}

/// A walk that succeeds gives a complete call stack of at most `limit`
/// frames, innermost frame first.
pub proof fn lemma_walked_stack<T: Tracee>(
    target: &T,
    data: DwarfDataView,
    ip: usize,
    base: usize,
    limit: nat,
    frames: Seq<FrameView>,
)
    requires
        walked(target, data, ip, base, limit, Ok(frames)),
    ensures
        complete_stack(data, frames),
        frames.len() <= limit,
        frames[0].address == ip,
    decreases limit,
{
    if limit > 0 {
        let frame = frame_at(data, ip)->0;
        if frame.function != ENTRY_FUNCTION@ {
            let outer = frames.drop_first();
            lemma_words_read(target, data, ip, base, limit, Ok(frames));
            let (return_addr, caller_base) = choose|return_addr: u64, caller_base: u64|
                #![trigger word_read(target, return_slot(base), Ok(return_addr)), word_read(target, base, Ok(caller_base))]
                word_read(target, return_slot(base), Ok(return_addr)) && word_read(
                    target,
                    base,
                    Ok(caller_base),
                ) && walked(
                    target,
                    data,
                    return_addr as usize,
                    caller_base as usize,
                    (limit - 1) as nat,
                    beyond(Ok(frames)),
                );
            lemma_walked_stack(
                target,
                data,
                return_addr as usize,
                caller_base as usize,
                (limit - 1) as nat,
                outer,
            );
            assert(frames =~= seq![frame] + outer);
            assert forall|i: int| 0 <= i < frames.len() implies frame_at(
                data,
                (#[trigger] frames[i]).address,
            ) == Some(frames[i]) by {
                if i > 0 {
                    assert(frames[i] == outer[i - 1]);
                }
            }
            assert(frames.last() == outer.last());
            assert forall|i: int| 0 <= i < frames.len() - 1 implies (#[trigger] frames[i]).function
                != ENTRY_FUNCTION@ by {
                if i > 0 {
                    assert(frames[i] == outer[i - 1]);
                }
            }
        }
    }
}

/// Resolves one instruction address to a frame.
pub fn resolve_frame(debug_data: &DwarfData, address: usize) -> (r: Result<Frame, DebugError>)
    ensures
        match frame_at(debug_data@, address) {
            Some(frame) => r is Ok && r->Ok_0@ == frame,
            None => r == Err::<Frame, DebugError>(DebugError::Unresolved(address)),
        },
{
    let function = match debug_data.get_function_from_addr(address) {
        Some(function) => function,
        None => { return Err(DebugError::Unresolved(address)); },
    };
    let line = match debug_data.get_line_from_addr(address) {
        Some(line) => line,
        None => { return Err(DebugError::Unresolved(address)); },
    };
    Ok(Frame { address, function, line })
}

/// The outcome of a walk that has the frames `inner` inside what the rest of
/// the walk gives.
pub open spec fn inside(inner: Seq<FrameView>, rest: Result<Seq<FrameView>, DebugError>) -> Result<
    Seq<FrameView>,
    DebugError,
> {
    match rest {
        Ok(frames) => Ok(inner + frames),
        Err(e) => Err(e),
    }
}

/// Walks the stack of a stopped target, innermost frame first.
///
/// Starting from the current instruction pointer and frame base, each round
/// resolves the instruction pointer to a frame and stops after the frame of
/// the entry function. Otherwise the caller's instruction pointer is read
/// from the word above the frame base and the caller's frame base from the
/// word at the frame base.
///
/// Fails with the target's error if a register or memory read fails, with
/// [`DebugError::Unresolved`] if an address has no known function or line,
/// and with [`DebugError::TooDeep`] if `max_frames` frames were walked
/// without reaching the entry function.
pub fn backtrace<T: Tracee>(target: &T, debug_data: &DwarfData, max_frames: usize) -> (r: Result<
    Vec<Frame>,
    DebugError,
>)
    ensures
        unwound(target, debug_data@, max_frames as nat, trace_of(r)),
        r matches Ok(frames) ==> {
            &&& frames@.len() <= max_frames
            &&& complete_stack(debug_data@, frames_of(frames@))
        },
{
    let rip = target.get_rip();
    assert(rip_read(target, rip));
    let mut instruction_ptr = match rip {
        Ok(rip) => rip,
        Err(e) => { return Err(e); },
    };
    let rbp = target.get_rbp();
    assert(rbp_read(target, rbp));
    let mut base_ptr = match rbp {
        Ok(rbp) => rbp,
        Err(e) => { return Err(e); },
    };
    let ghost first_ip = instruction_ptr;
    let ghost first_base = base_ptr;
    let ghost data = debug_data@;
    let mut frames: Vec<Frame> = Vec::new();
    proof {
        assert forall|rest: Result<Seq<FrameView>, DebugError>| #[trigger]
            walked(target, data, instruction_ptr, base_ptr, max_frames as nat, rest) implies walked(
            target,
            data,
            first_ip,
            first_base,
            max_frames as nat,
            inside(frames_of(frames@), rest),
        ) by {
            match rest {
                Ok(outer) => {
                    assert(frames_of(frames@) + outer =~= outer);
                },
                Err(_) => {},
            }
        }
    }
    while frames.len() < max_frames
        invariant
            data == debug_data@,
            frames@.len() <= max_frames,
            rip_read(target, rip),
            rbp_read(target, rbp),
            rip == Ok::<usize, DebugError>(first_ip),
            rbp == Ok::<usize, DebugError>(first_base),
            forall|rest: Result<Seq<FrameView>, DebugError>| #[trigger]
                walked(
                    target,
                    data,
                    instruction_ptr,
                    base_ptr,
                    (max_frames - frames@.len()) as nat,
                    rest,
                ) ==> walked(
                    target,
                    data,
                    first_ip,
                    first_base,
                    max_frames as nat,
                    inside(frames_of(frames@), rest),
                ),
        decreases max_frames - frames@.len(),
    {
        let ghost inner = frames_of(frames@);
        let ghost limit = (max_frames - frames@.len()) as nat;
        let frame = match resolve_frame(debug_data, instruction_ptr) {
            Ok(frame) => frame,
            Err(e) => {
                proof {
                    let rest = Err::<Seq<FrameView>, DebugError>(e);
                    assert(walked(target, data, instruction_ptr, base_ptr, limit, rest));
                    assert(inside(inner, rest) == rest);
                    lemma_unwound(target, data, max_frames as nat, rip, rbp, rest);
                }
                return Err(e);
            },
        };
        let ghost view = frame@;
        let at_entry = str_eq(frame.function.as_str(), ENTRY_FUNCTION);
        frames.push(frame);
        assert(frames_of(frames@) =~= inner.push(view));
        if at_entry {
            proof {
                let rest = Ok::<Seq<FrameView>, DebugError>(seq![view]);
                assert(walked(target, data, instruction_ptr, base_ptr, limit, rest));
                assert(inner + seq![view] =~= frames_of(frames@));
                let whole = Ok::<Seq<FrameView>, DebugError>(frames_of(frames@));
                assert(inside(inner, rest) == whole);
                lemma_unwound(target, data, max_frames as nat, rip, rbp, whole);
                lemma_walked_stack(
                    target,
                    data,
                    first_ip,
                    first_base,
                    max_frames as nat,
                    frames_of(frames@),
                );
            }
            return Ok(frames);
        }
        let slot = base_ptr.wrapping_add(WORD_SIZE);
        assert(slot == return_slot(base_ptr));
        let ret = target.read_word(slot);
        assert(word_read(target, slot, ret));
        let return_addr = match ret {
            Ok(word) => word,
            Err(e) => {
                proof {
                    let rest = Err::<Seq<FrameView>, DebugError>(e);
                    assert(walked(target, data, instruction_ptr, base_ptr, limit, rest));
                    assert(inside(inner, rest) == rest);
                    lemma_unwound(target, data, max_frames as nat, rip, rbp, rest);
                }
                return Err(e);
            },
        };
        let saved = target.read_word(base_ptr);
        assert(word_read(target, base_ptr, saved));
        let caller_base = match saved {
            Ok(word) => word,
            Err(e) => {
                proof {
                    let rest = Err::<Seq<FrameView>, DebugError>(e);
                    assert(walked(target, data, instruction_ptr, base_ptr, limit, rest));
                    assert(inside(inner, rest) == rest);
                    lemma_unwound(target, data, max_frames as nat, rip, rbp, rest);
                }
                return Err(e);
            },
        };
        proof {
            let next_ip = return_addr as usize;
            let next_base = caller_base as usize;
            assert(ret == Ok::<u64, DebugError>(return_addr));
            assert(saved == Ok::<u64, DebugError>(caller_base));
            assert forall|rest: Result<Seq<FrameView>, DebugError>| #[trigger]
                walked(
                    target,
                    data,
                    next_ip,
                    next_base,
                    (max_frames - frames@.len()) as nat,
                    rest,
                ) implies walked(
                target,
                data,
                first_ip,
                first_base,
                max_frames as nat,
                inside(frames_of(frames@), rest),
            ) by {
                lemma_walk_on(
                    target,
                    data,
                    instruction_ptr,
                    base_ptr,
                    limit,
                    return_addr,
                    caller_base,
                    rest,
                );
                let here = under(view, rest);
                assert(walked(target, data, instruction_ptr, base_ptr, limit, here));
                assert(walked(
                    target,
                    data,
                    first_ip,
                    first_base,
                    max_frames as nat,
                    inside(inner, here),
                ));
                assert(inside(inner, here) == inside(frames_of(frames@), rest)) by {
                    match rest {
                        Ok(outer) => {
                            assert(inner + (seq![view] + outer) =~= inner.push(view) + outer);
                        },
                        Err(_) => {},
                    }
                }
            }
        }
        instruction_ptr = return_addr as usize;
        base_ptr = caller_base as usize;
    }
    proof {
        let rest = Err::<Seq<FrameView>, DebugError>(DebugError::TooDeep);
        assert(walked(
            target,
            data,
            instruction_ptr,
            base_ptr,
            (max_frames - frames@.len()) as nat,
            rest,
        ));
        assert(inside(frames_of(frames@), rest) == rest);
        lemma_unwound(target, data, max_frames as nat, rip, rbp, rest);
    }
    Err(DebugError::TooDeep)
}

/// An unwinding is a walk from the registers that were read.
proof fn lemma_unwound<T: Tracee>(
    target: &T,
    data: DwarfDataView,
    limit: nat,
    rip: Result<usize, DebugError>,
    rbp: Result<usize, DebugError>,
    outcome: Result<Seq<FrameView>, DebugError>,
)
    requires
        rip_read(target, rip),
        rbp_read(target, rbp),
        rip is Ok,
        rbp is Ok,
        walked(target, data, rip->Ok_0, rbp->Ok_0, limit, outcome),
    ensures
        unwound(target, data, limit, outcome),
{
}

} // verus!
