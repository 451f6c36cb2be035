//! The stack machine that rebuilds an object graph from a pickle opcode
//! stream.
//!
//! The contract language is a small-step reference machine over
//! [`MachineState`]: [`spec_step`] says what one opcode does to the
//! operand stack, the memo table and the read position, and [`spec_run`]
//! chains steps to the terminal opcode.  [`PickleParser::parse`] promises
//! to return exactly what the reference machine computes, error for
//! error and value for value.

use vstd::prelude::*;

verus! {

use vstd::utf8::{valid_utf8, decode_utf8};
use crate::bytes::{ByteCursor, ReadError, le_u32_at, as_i32};
use crate::pickle::{
    Pickle,
    PickleNumber,
    PickleModule,
    PickleVal,
    ClassVal,
    seq_view,
    dict_view,
    lemma_seq_view,
    assoc_set,
};
use crate::pickle_ops::{PickleOpcode, PickleProtocol, PickleError, spec_opcode, spec_protocol};

/// One slot of the operand stack: a value, or the mark sentinel.
#[verifier::ext_equal]
pub enum StackEntry {
    Val(PickleVal),
    Mark,
}

/// One slot of the memo table: a stored value, or a never-written gap.
#[verifier::ext_equal]
pub enum MemoEntry {
    Val(PickleVal),
    Empty,
}

/// The whole state of the reference machine between two opcodes.
#[verifier::ext_equal]
pub struct MachineState {
    pub pos: int,
    pub proto: PickleProtocol,
    pub stack: Seq<StackEntry>,
    pub memo: Seq<MemoEntry>,
}

/// Pop the top of the stack: the mark sentinel or an empty stack are
/// stack-discipline errors.
pub open spec fn spop(stack: Seq<StackEntry>) -> Result<(PickleVal, Seq<StackEntry>), PickleError> {
    if stack.len() == 0 {
        Err(PickleError::StackEmpty)
    } else {
        match stack.last() {
            StackEntry::Val(v) => Ok((v, stack.drop_last())),
            StackEntry::Mark => Err(PickleError::StackMark),
        }
    }
}

/// Read the top of the stack without popping it.
pub open spec fn slast(stack: Seq<StackEntry>) -> Result<PickleVal, PickleError> {
    if stack.len() == 0 {
        Err(PickleError::StackEmpty)
    } else {
        match stack.last() {
            StackEntry::Val(v) => Ok(v),
            StackEntry::Mark => Err(PickleError::StackMark),
        }
    }
}

/// Pop every value above the nearest mark, and the mark itself.  The
/// values come back in original push order.  Running out of stack before
/// a mark is a stack-discipline error.
pub open spec fn spop_mark(stack: Seq<StackEntry>) -> Result<
    (Seq<PickleVal>, Seq<StackEntry>),
    PickleError,
>
    decreases stack.len(),
{
    if stack.len() == 0 {
        Err(PickleError::StackEmpty)
    } else {
        match stack.last() {
            StackEntry::Mark => Ok((Seq::empty(), stack.drop_last())),
            StackEntry::Val(v) => match spop_mark(stack.drop_last()) {
                Ok((items, rest)) => Ok((items.push(v), rest)),
                Err(e) => Err(e),
            },
        }
    }
}

/// Retrieve the value stored at `idx`.
pub open spec fn smemo_get(memo: Seq<MemoEntry>, idx: int) -> Result<PickleVal, PickleError> {
    if idx >= memo.len() {
        Err(PickleError::MemoIndexOutOfBounds)
    } else {
        match memo[idx] {
            MemoEntry::Val(v) => Ok(v),
            MemoEntry::Empty => Err(PickleError::MemoIndexEmpty),
        }
    }
}

/// Store `v` at `idx`, padding any skipped slots with explicit gaps.
pub open spec fn smemo_set(memo: Seq<MemoEntry>, idx: int, v: PickleVal) -> Seq<MemoEntry>
    recommends
        idx >= 0,
{
    let n = if idx + 1 > memo.len() {
        idx + 1
    } else {
        memo.len() as int
    };
    Seq::new(
        n as nat,
        |i: int|
            if i == idx {
                MemoEntry::Val(v)
            } else if i < memo.len() {
                memo[i]
            } else {
                MemoEntry::Empty
            },
    )
}

/// The operand stack: values interleaved with mark sentinels.
pub struct PickleStack {
    stack: Vec<PickleStackItem>,
}

pub enum PickleStackItem {
    Pickle(Pickle),
    Mark,
}

impl View for PickleStack {
    type V = Seq<StackEntry>;

    closed spec fn view(&self) -> Seq<StackEntry> {
        Seq::new(
            self.stack@.len(),
            |i: int|
                match self.stack@[i] {
                    PickleStackItem::Pickle(p) => StackEntry::Val(p.deep_view()),
                    PickleStackItem::Mark => StackEntry::Mark,
                },
        )
    }
}

impl PickleStack {
    pub fn new() -> (r: Self)
        ensures
            r@ =~= Seq::<StackEntry>::empty(),
    {
        PickleStack { stack: Vec::new() }
    }

    pub fn push(&mut self, item: Pickle)
        ensures
            final(self)@ =~= old(self)@.push(StackEntry::Val(item.deep_view())),
    {
        self.stack.push(PickleStackItem::Pickle(item));
    }

    pub fn push_mark(&mut self)
        ensures
            final(self)@ =~= old(self)@.push(StackEntry::Mark),
    {
        self.stack.push(PickleStackItem::Mark);
    }

    pub fn pop(&mut self) -> (r: Result<Pickle, PickleError>)
        ensures
            match r {
                Ok(p) => spop(old(self)@) matches Ok(pr) && pr.0 == p.deep_view() && pr.1 =~= final(self)@,
                Err(e) => spop(old(self)@) == Err::<(PickleVal, Seq<StackEntry>), PickleError>(e)
                    && final(self)@ =~= old(self)@,
            },
    {
        match self.stack.pop() {
            Some(PickleStackItem::Pickle(item)) => Ok(item),
            Some(PickleStackItem::Mark) => {
                self.stack.push(PickleStackItem::Mark);
                Err(PickleError::StackMark)
            },
            None => Err(PickleError::StackEmpty),
        }
    }

    pub fn last(&self) -> (r: Result<&Pickle, PickleError>)
        ensures
            match r {
                Ok(p) => slast(self@) == Ok::<PickleVal, PickleError>(p.deep_view()),
                Err(e) => slast(self@) == Err::<PickleVal, PickleError>(e),
            },
    {
        match self.stack.last() {
            Some(PickleStackItem::Pickle(item)) => Ok(item),
            Some(PickleStackItem::Mark) => Err(PickleError::StackMark),
            None => Err(PickleError::StackEmpty),
        }
    }

    /// Replace the top value, returning the one removed.
    pub fn set_last(&mut self, item: Pickle) -> (r: Result<Pickle, PickleError>)
        ensures
            match r {
                Ok(p) => spop(old(self)@) matches Ok(pr) && pr.0 == p.deep_view() && final(self)@
                    =~= pr.1.push(StackEntry::Val(item.deep_view())),
                Err(e) => spop(old(self)@) == Err::<(PickleVal, Seq<StackEntry>), PickleError>(e)
                    && final(self)@ =~= old(self)@,
            },
    {
        let removed_item = match self.pop() {
            Ok(p) => p,
            Err(e) => {
                return Err(e);
            },
        };
        self.push(item);
        Ok(removed_item)
    }

    /// Pop values down to the nearest mark, in original push order.
    pub fn pop_mark(&mut self) -> (r: Result<Vec<Pickle>, PickleError>)
        ensures
            match r {
                Ok(items) => spop_mark(old(self)@) matches Ok(pr) && pr.0 =~= seq_view(items@)
                    && pr.1 =~= final(self)@,
                Err(e) => spop_mark(old(self)@) == Err::<
                    (Seq<PickleVal>, Seq<StackEntry>),
                    PickleError,
                >(e),
            },
    {
        let mut items: Vec<Pickle> = Vec::new();
        loop
            invariant
                match spop_mark(old(self)@) {
                    Ok(pr) => spop_mark(self@) matches Ok(pr2) && pr.0 =~= pr2.0 + seq_view(items@)
                        && pr.1 =~= pr2.1,
                    Err(e) => spop_mark(self@) == Err::<
                        (Seq<PickleVal>, Seq<StackEntry>),
                        PickleError,
                    >(e),
                },
            decreases self@.len(),
        {
            let ghost pre = self@;
            let ghost pre_items = items@;
            match self.stack.pop() {
                Some(PickleStackItem::Pickle(item)) => {
                    proof {
                        assert(pre.drop_last() =~= self@);
                        assert(pre.last() == StackEntry::Val(item.deep_view()));
                    }
                    items.insert(0, item);
                    proof {
                        lemma_seq_view(items@);
                        lemma_seq_view(pre_items);
                        assert(seq_view(items@) =~= seq![item.deep_view()] + seq_view(pre_items));
                        if spop_mark(old(self)@) is Ok {
                            let pr2 = spop_mark(pre)->Ok_0;
                            assert(pr2.0 == (spop_mark(self@)->Ok_0).0.push(item.deep_view()));
                            assert((spop_mark(self@)->Ok_0).0.push(item.deep_view()) + seq_view(
                                pre_items,
                            ) =~= (spop_mark(self@)->Ok_0).0 + seq_view(items@));
                        }
                    }
                },
                Some(PickleStackItem::Mark) => {
                    proof {
                        assert(pre.drop_last() =~= self@);
                        assert(pre.last() == StackEntry::Mark);
                        if spop_mark(old(self)@) is Err {
                            assert(spop_mark(pre) is Err);
                            assert(false);
                        }
                        let pr = spop_mark(old(self)@)->Ok_0;
                        assert((spop_mark(pre)->Ok_0).0 =~= Seq::<PickleVal>::empty());
                        assert(pr.0 =~= Seq::<PickleVal>::empty() + seq_view(items@));
                        assert(pr.0 =~= seq_view(items@));
                        assert(pr.1 =~= pre.drop_last());
                    }
                    return Ok(items);
                },
                None => {
                    proof {
                        assert(pre.len() == 0);
                    }
                    return Err(PickleError::StackEmpty);
                },
            }
        }
    }
}

/// The memo table: an index-keyed store of previously materialized
/// values, sparsely populated with explicit gaps.
pub struct PickleMemo {
    items: Vec<PickleMemoItem>,
}

pub enum PickleMemoItem {
    Pickle(Pickle),
    Empty,
}

impl View for PickleMemo {
    type V = Seq<MemoEntry>;

    closed spec fn view(&self) -> Seq<MemoEntry> {
        Seq::new(
            self.items@.len(),
            |i: int|
                match self.items@[i] {
                    PickleMemoItem::Pickle(p) => MemoEntry::Val(p.deep_view()),
                    PickleMemoItem::Empty => MemoEntry::Empty,
                },
        )
    }
}

impl PickleMemo {
    pub fn new() -> (r: Self)
        ensures
            r@ =~= Seq::<MemoEntry>::empty(),
    {
        PickleMemo { items: Vec::new() }
    }

    /// Retrieve the value at `index`: an index past the end or a gap is a
    /// memo violation.
    pub fn get(&self, index: usize) -> (r: Result<&Pickle, PickleError>)
        ensures
            match r {
                Ok(p) => smemo_get(self@, index as int) == Ok::<PickleVal, PickleError>(
                    p.deep_view(),
                ),
                Err(e) => smemo_get(self@, index as int) == Err::<PickleVal, PickleError>(e),
            },
    {
        if index < self.items.len() {
            match &self.items[index] {
                PickleMemoItem::Pickle(item) => Ok(item),
                PickleMemoItem::Empty => Err(PickleError::MemoIndexEmpty),
            }
        } else {
            Err(PickleError::MemoIndexOutOfBounds)
        }
    }

    /// Store `value` at `index`, padding any gap with explicit empties.
    pub fn set(&mut self, index: usize, value: Pickle)
        ensures
            final(self)@ =~= smemo_set(old(self)@, index as int, value.deep_view()),
    {
        while index >= self.items.len()
            invariant
                self@.len() <= index + 1 || self@.len() == old(self)@.len(),
                old(self)@.len() <= self@.len(),
                forall|i: int| 0 <= i < old(self)@.len() ==> self@[i] == #[trigger] old(self)@[i],
                forall|i: int|
                    old(self)@.len() <= i < self@.len() ==> #[trigger] self@[i]
                        == MemoEntry::Empty,
            decreases index + 1 - self@.len(),
        {
            let ghost pre = self@;
            self.items.push(PickleMemoItem::Empty);
            proof {
                assert forall|i: int| 0 <= i < self@.len() implies #[trigger] self@[i] == (if i
                    < pre.len() {
                    pre[i]
                } else {
                    MemoEntry::Empty
                }) by {}
            }
        }
        let ghost pre = self@;
        self.items.set(index, PickleMemoItem::Pickle(value));
        proof {
            let target = smemo_set(old(self)@, index as int, value.deep_view());
            assert(self@.len() == pre.len());
            assert(self@.len() == target.len());
            assert forall|i: int| 0 <= i < self@.len() implies #[trigger] self@[i] == target[i] by {
                if i != index {
                    assert(self@[i] == pre[i]);
                }
            }
            assert(self@ =~= target);
        }
    }

    /// Append `value`, returning the table length after the append.
    pub fn push(&mut self, value: Pickle) -> (r: usize)
        ensures
            final(self)@ =~= old(self)@.push(MemoEntry::Val(value.deep_view())),
            r == final(self)@.len(),
    {
        self.items.push(PickleMemoItem::Pickle(value));
        self.items.len()
    }

    /// Read the most recently appended entry.
    pub fn last(&self) -> (r: Result<&Pickle, PickleError>)
        ensures
            match r {
                Ok(p) => self@.len() > 0 && self@.last() == MemoEntry::Val(p.deep_view()),
                Err(e) => e == PickleError::MemoEmpty && (self@.len() == 0 || self@.last()
                    == MemoEntry::Empty),
            },
    {
        match self.items.last() {
            Some(PickleMemoItem::Pickle(item)) => Ok(item),
            Some(PickleMemoItem::Empty) => Err(PickleError::MemoEmpty),
            None => Err(PickleError::MemoEmpty),
        }
    }
}

/// First position at or after `pos` holding byte `t`, or `-1`.
pub open spec fn find_byte(bytes: Seq<u8>, pos: int, t: u8) -> int
    decreases bytes.len() - pos,
{
    if pos < 0 || pos >= bytes.len() {
        -1
    } else if bytes[pos] == t {
        pos
    } else {
        find_byte(bytes, pos + 1, t)
    }
}

/// A length-prefixed UTF-8 field: the bytes `[start, start + len)`
/// decoded, or the error that reading them gives.
pub open spec fn str_field(bytes: Seq<u8>, start: int, len: int) -> Result<Seq<char>, PickleError> {
    if start + len > bytes.len() {
        Err(PickleError::OutOfData)
    } else if !valid_utf8(bytes.subrange(start, start + len)) {
        Err(PickleError::StringNotUtf8)
    } else {
        Ok(decode_utf8(bytes.subrange(start, start + len)))
    }
}

/// What one opcode does: a successor state, the terminal state, or a
/// fatal error.
#[verifier::ext_equal]
pub enum StepRes {
    Next(MachineState),
    Stop(MachineState),
    Fail(PickleError),
}

/// Successor state that pushes `v` and moves the read position to `pos`.
pub open spec fn spushed(st: MachineState, pos: int, v: PickleVal) -> StepRes {
    StepRes::Next(
        MachineState {
            pos,
            proto: st.proto,
            stack: st.stack.push(StackEntry::Val(v)),
            memo: st.memo,
        },
    )
}

/// Item-setting runs consume key/value pairs from the top of the popped
/// group downward, binding them into a dictionary or into a class
/// instance's named fields.  A group of odd length fails as a stack
/// error, a key that is not a string as a narrowing error, and any other
/// target as a narrowing error; an empty group leaves any target as it
/// was.
pub open spec fn ssetitems(target: PickleVal, items: Seq<PickleVal>) -> Result<
    PickleVal,
    PickleError,
>
    decreases items.len(),
{
    if items.len() == 0 {
        Ok(target)
    } else if items.len() == 1 {
        Err(PickleError::StackEmpty)
    } else {
        let value = items.last();
        match items[items.len() - 2] {
            PickleVal::Str(k) => match target {
                PickleVal::Dict(dv) => ssetitems(
                    PickleVal::Dict(assoc_set(dv, k, value)),
                    items.drop_last().drop_last(),
                ),
                PickleVal::Class(cv) => ssetitems(
                    PickleVal::Class(ClassVal { data: assoc_set(cv.data, k, value), ..cv }),
                    items.drop_last().drop_last(),
                ),
                _ => Err(PickleError::CannotTryInto),
            },
            _ => Err(PickleError::CannotTryInto),
        }
    }
}

/// The reference machine's small step: what the opcode at `st.pos` does
/// to the state.  This is the meaning of the wire format; the interpreter
/// is proved against it arm by arm.
pub open spec fn spec_step(bytes: Seq<u8>, st: MachineState) -> StepRes {
    if st.pos + 1 > bytes.len() {
        StepRes::Fail(PickleError::OutOfData)
    } else {
        let b = bytes[st.pos];
        let p = st.pos + 1;
        match spec_opcode(b) {
            Option::None => StepRes::Fail(PickleError::InvalidOperation(b)),
            Option::Some(op) => {
                if st.proto == PickleProtocol::Unknown {
                    if op == PickleOpcode::PROTO {
                        if p + 1 > bytes.len() {
                            StepRes::Fail(PickleError::OutOfData)
                        } else {
                            match spec_protocol(bytes[p]) {
                                Ok(proto) => StepRes::Next(
                                    MachineState { pos: p + 1, proto, stack: st.stack, memo: st.memo },
                                ),
                                Err(e) => StepRes::Fail(e),
                            }
                        }
                    } else {
                        StepRes::Fail(PickleError::PickleInvalidProtocolOperation)
                    }
                } else {
                    match op {
                        PickleOpcode::PROTO => StepRes::Fail(
                            PickleError::PickleInvalidProtocolOperation,
                        ),
                        PickleOpcode::STOP => StepRes::Stop(
                            MachineState { pos: p, proto: st.proto, stack: st.stack, memo: st.memo },
                        ),
                        PickleOpcode::FRAME => {
                            if p + 8 > bytes.len() {
                                StepRes::Fail(PickleError::OutOfData)
                            } else {
                                StepRes::Next(
                                    MachineState {
                                        pos: p + 8,
                                        proto: st.proto,
                                        stack: st.stack,
                                        memo: st.memo,
                                    },
                                )
                            }
                        },
                        PickleOpcode::MARK => StepRes::Next(
                            MachineState {
                                pos: p,
                                proto: st.proto,
                                stack: st.stack.push(StackEntry::Mark),
                                memo: st.memo,
                            },
                        ),
                        PickleOpcode::NONE => spushed(st, p, PickleVal::NoneVal),
                        PickleOpcode::NEWTRUE => spushed(st, p, PickleVal::Bool(true)),
                        PickleOpcode::NEWFALSE => spushed(st, p, PickleVal::Bool(false)),
                        PickleOpcode::EMPTY_DICT => spushed(st, p, PickleVal::Dict(Seq::empty())),
                        PickleOpcode::EMPTY_LIST => spushed(st, p, PickleVal::List(Seq::empty())),
                        PickleOpcode::EMPTY_TUPLE => spushed(st, p, PickleVal::Tuple(Seq::empty())),
                        PickleOpcode::BININT => {
                            if p + 4 > bytes.len() {
                                StepRes::Fail(PickleError::OutOfData)
                            } else {
                                spushed(
                                    st,
                                    p + 4,
                                    PickleVal::Int(as_i32(le_u32_at(bytes, p)) as i64),
                                )
                            }
                        },
                        PickleOpcode::BININT1 => {
                            if p + 1 > bytes.len() {
                                StepRes::Fail(PickleError::OutOfData)
                            } else {
                                spushed(st, p + 1, PickleVal::Uint(bytes[p] as u64))
                            }
                        },
                        PickleOpcode::SHORT_BINUNICODE => {
                            if p + 1 > bytes.len() {
                                StepRes::Fail(PickleError::OutOfData)
                            } else {
                                match str_field(bytes, p + 1, bytes[p] as int) {
                                    Ok(chars) => spushed(
                                        st,
                                        p + 1 + bytes[p],
                                        PickleVal::Str(chars),
                                    ),
                                    Err(e) => StepRes::Fail(e),
                                }
                            }
                        },
                        PickleOpcode::BINUNICODE => {
                            if p + 4 > bytes.len() {
                                StepRes::Fail(PickleError::OutOfData)
                            } else {
                                match str_field(bytes, p + 4, le_u32_at(bytes, p)) {
                                    Ok(chars) => spushed(
                                        st,
                                        p + 4 + le_u32_at(bytes, p),
                                        PickleVal::Str(chars),
                                    ),
                                    Err(e) => StepRes::Fail(e),
                                }
                            }
                        },
                        PickleOpcode::SHORT_BINBYTES => {
                            if p + 1 > bytes.len() {
                                StepRes::Fail(PickleError::OutOfData)
                            } else if p + 1 + bytes[p] > bytes.len() {
                                StepRes::Fail(PickleError::OutOfData)
                            } else {
                                spushed(
                                    st,
                                    p + 1 + bytes[p],
                                    PickleVal::Binary(
                                        bytes.subrange(p + 1, p + 1 + bytes[p]),
                                    ),
                                )
                            }
                        },
                        PickleOpcode::GLOBAL => {
                            let t1 = find_byte(bytes, p, 0x0A);
                            if t1 < 0 {
                                StepRes::Fail(PickleError::OutOfData)
                            } else {
                                match str_field(bytes, p, t1 - p) {
                                    Err(e) => StepRes::Fail(e),
                                    Ok(m) => {
                                        let t2 = find_byte(bytes, t1 + 1, 0x0A);
                                        if t2 < 0 {
                                            StepRes::Fail(PickleError::OutOfData)
                                        } else {
                                            match str_field(bytes, t1 + 1, t2 - (t1 + 1)) {
                                                Err(e) => StepRes::Fail(e),
                                                Ok(n) => spushed(
                                                    st,
                                                    t2 + 1,
                                                    PickleVal::Module(m, n),
                                                ),
                                            }
                                        }
                                    },
                                }
                            }
                        },
                        PickleOpcode::MEMOIZE => {
                            match slast(st.stack) {
                                Ok(v) => StepRes::Next(
                                    MachineState {
                                        pos: p,
                                        proto: st.proto,
                                        stack: st.stack,
                                        memo: st.memo.push(MemoEntry::Val(v)),
                                    },
                                ),
                                Err(e) => StepRes::Fail(e),
                            }
                        },
                        PickleOpcode::BINPUT => {
                            if p + 1 > bytes.len() {
                                StepRes::Fail(PickleError::OutOfData)
                            } else {
                                match slast(st.stack) {
                                    Ok(v) => StepRes::Next(
                                        MachineState {
                                            pos: p + 1,
                                            proto: st.proto,
                                            stack: st.stack,
                                            memo: smemo_set(st.memo, bytes[p] as int, v),
                                        },
                                    ),
                                    Err(e) => StepRes::Fail(e),
                                }
                            }
                        },
                        PickleOpcode::LONG_BINPUT => {
                            if p + 4 > bytes.len() {
                                StepRes::Fail(PickleError::OutOfData)
                            } else {
                                match slast(st.stack) {
                                    Ok(v) => StepRes::Next(
                                        MachineState {
                                            pos: p + 4,
                                            proto: st.proto,
                                            stack: st.stack,
                                            memo: smemo_set(st.memo, le_u32_at(bytes, p), v),
                                        },
                                    ),
                                    Err(e) => StepRes::Fail(e),
                                }
                            }
                        },
                        PickleOpcode::BINGET => {
                            if p + 1 > bytes.len() {
                                StepRes::Fail(PickleError::OutOfData)
                            } else {
                                match smemo_get(st.memo, bytes[p] as int) {
                                    Ok(v) => spushed(st, p + 1, v),
                                    Err(e) => StepRes::Fail(e),
                                }
                            }
                        },
                        PickleOpcode::LONG_BINGET => {
                            if p + 4 > bytes.len() {
                                StepRes::Fail(PickleError::OutOfData)
                            } else {
                                match smemo_get(st.memo, le_u32_at(bytes, p)) {
                                    Ok(v) => spushed(st, p + 4, v),
                                    Err(e) => StepRes::Fail(e),
                                }
                            }
                        },
                        PickleOpcode::TUPLE1 => {
                            match spop(st.stack) {
                                Ok((a, s1)) => StepRes::Next(
                                    MachineState {
                                        pos: p,
                                        proto: st.proto,
                                        stack: s1.push(
                                            StackEntry::Val(PickleVal::Tuple(seq![a])),
                                        ),
                                        memo: st.memo,
                                    },
                                ),
                                Err(e) => StepRes::Fail(e),
                            }
                        },
                        PickleOpcode::TUPLE2 => {
                            match spop(st.stack) {
                                Ok((a, s1)) => match spop(s1) {
                                    Ok((b, s2)) => StepRes::Next(
                                        MachineState {
                                            pos: p,
                                            proto: st.proto,
                                            stack: s2.push(
                                                StackEntry::Val(PickleVal::Tuple(seq![b, a])),
                                            ),
                                            memo: st.memo,
                                        },
                                    ),
                                    Err(e) => StepRes::Fail(e),
                                },
                                Err(e) => StepRes::Fail(e),
                            }
                        },
                        PickleOpcode::TUPLE3 => {
                            match spop(st.stack) {
                                Ok((a, s1)) => match spop(s1) {
                                    Ok((b, s2)) => match spop(s2) {
                                        Ok((c, s3)) => StepRes::Next(
                                            MachineState {
                                                pos: p,
                                                proto: st.proto,
                                                stack: s3.push(
                                                    StackEntry::Val(
                                                        PickleVal::Tuple(seq![c, b, a]),
                                                    ),
                                                ),
                                                memo: st.memo,
                                            },
                                        ),
                                        Err(e) => StepRes::Fail(e),
                                    },
                                    Err(e) => StepRes::Fail(e),
                                },
                                Err(e) => StepRes::Fail(e),
                            }
                        },
                        PickleOpcode::TUPLE => {
                            match spop_mark(st.stack) {
                                Ok((items, rest)) => StepRes::Next(
                                    MachineState {
                                        pos: p,
                                        proto: st.proto,
                                        stack: rest.push(
                                            StackEntry::Val(PickleVal::Tuple(items.reverse())),
                                        ),
                                        memo: st.memo,
                                    },
                                ),
                                Err(e) => StepRes::Fail(e),
                            }
                        },
                        PickleOpcode::APPEND => {
                            match spop(st.stack) {
                                Ok((item, s1)) => match spop(s1) {
                                    Ok((target, s2)) => match target {
                                        PickleVal::List(l) => StepRes::Next(
                                            MachineState {
                                                pos: p,
                                                proto: st.proto,
                                                stack: s2.push(
                                                    StackEntry::Val(PickleVal::List(l.push(item))),
                                                ),
                                                memo: st.memo,
                                            },
                                        ),
                                        PickleVal::Tuple(l) => StepRes::Next(
                                            MachineState {
                                                pos: p,
                                                proto: st.proto,
                                                stack: s2.push(
                                                    StackEntry::Val(PickleVal::List(l.push(item))),
                                                ),
                                                memo: st.memo,
                                            },
                                        ),
                                        _ => StepRes::Fail(PickleError::CannotTryInto),
                                    },
                                    Err(e) => StepRes::Fail(e),
                                },
                                Err(e) => StepRes::Fail(e),
                            }
                        },
                        PickleOpcode::APPENDS => {
                            match spop_mark(st.stack) {
                                Ok((items, rest)) => match spop(rest) {
                                    Ok((target, s2)) => match target {
                                        PickleVal::List(l) => StepRes::Next(
                                            MachineState {
                                                pos: p,
                                                proto: st.proto,
                                                stack: s2.push(
                                                    StackEntry::Val(PickleVal::List(l + items)),
                                                ),
                                                memo: st.memo,
                                            },
                                        ),
                                        PickleVal::Tuple(l) => StepRes::Next(
                                            MachineState {
                                                pos: p,
                                                proto: st.proto,
                                                stack: s2.push(
                                                    StackEntry::Val(PickleVal::List(l + items)),
                                                ),
                                                memo: st.memo,
                                            },
                                        ),
                                        _ => StepRes::Fail(PickleError::CannotTryInto),
                                    },
                                    Err(e) => StepRes::Fail(e),
                                },
                                Err(e) => StepRes::Fail(e),
                            }
                        },
                        PickleOpcode::SETITEM => {
                            match spop(st.stack) {
                                Ok((item, s1)) => match spop(s1) {
                                    Ok((key, s2)) => match key {
                                        PickleVal::Str(k) => match spop(s2) {
                                            Ok((d, s3)) => match d {
                                                PickleVal::Dict(dv) => StepRes::Next(
                                                    MachineState {
                                                        pos: p,
                                                        proto: st.proto,
                                                        stack: s3.push(
                                                            StackEntry::Val(
                                                                PickleVal::Dict(
                                                                    assoc_set(dv, k, item),
                                                                ),
                                                            ),
                                                        ),
                                                        memo: st.memo,
                                                    },
                                                ),
                                                _ => StepRes::Fail(PickleError::CannotTryInto),
                                            },
                                            Err(e) => StepRes::Fail(e),
                                        },
                                        _ => StepRes::Fail(PickleError::CannotTryInto),
                                    },
                                    Err(e) => StepRes::Fail(e),
                                },
                                Err(e) => StepRes::Fail(e),
                            }
                        },
                        PickleOpcode::SETITEMS => {
                            match spop_mark(st.stack) {
                                Ok((items, rest)) => match spop(rest) {
                                    Ok((target, s2)) => match ssetitems(target, items) {
                                        Ok(t2) => StepRes::Next(
                                            MachineState {
                                                pos: p,
                                                proto: st.proto,
                                                stack: s2.push(StackEntry::Val(t2)),
                                                memo: st.memo,
                                            },
                                        ),
                                        Err(e) => StepRes::Fail(e),
                                    },
                                    Err(e) => StepRes::Fail(e),
                                },
                                Err(e) => StepRes::Fail(e),
                            }
                        },
                        PickleOpcode::REDUCE | PickleOpcode::NEWOBJ => {
                            match spop(st.stack) {
                                Ok((args, s1)) => match spop(s1) {
                                    Ok((m, s2)) => match m {
                                        PickleVal::Module(md, nm) => StepRes::Next(
                                            MachineState {
                                                pos: p,
                                                proto: st.proto,
                                                stack: s2.push(
                                                    StackEntry::Val(
                                                        PickleVal::Class(
                                                            ClassVal {
                                                                module: md,
                                                                name: nm,
                                                                args: Box::new(args),
                                                                state: Option::None,
                                                                data: Seq::empty(),
                                                            },
                                                        ),
                                                    ),
                                                ),
                                                memo: st.memo,
                                            },
                                        ),
                                        _ => StepRes::Fail(PickleError::CannotTryInto),
                                    },
                                    Err(e) => StepRes::Fail(e),
                                },
                                Err(e) => StepRes::Fail(e),
                            }
                        },
                        PickleOpcode::BUILD => {
                            match spop(st.stack) {
                                Ok((state_v, s1)) => match spop(s1) {
                                    Ok((c, s2)) => match c {
                                        PickleVal::Class(cv) => StepRes::Next(
                                            MachineState {
                                                pos: p,
                                                proto: st.proto,
                                                stack: s2.push(
                                                    StackEntry::Val(
                                                        PickleVal::Class(
                                                            ClassVal {
                                                                state: Option::Some(
                                                                    Box::new(state_v),
                                                                ),
                                                                ..cv
                                                            },
                                                        ),
                                                    ),
                                                ),
                                                memo: st.memo,
                                            },
                                        ),
                                        _ => StepRes::Fail(PickleError::CannotTryInto),
                                    },
                                    Err(e) => StepRes::Fail(e),
                                },
                                Err(e) => StepRes::Fail(e),
                            }
                        },
                        _ => StepRes::Fail(PickleError::UnsupportedOperation(op)),
                    }
                }
            },
        }
    }
}

/// Run the reference machine from `st` to the terminal opcode.  A step
/// that would not move forward cannot arise; the guard only bounds the
/// recursion.
pub open spec fn spec_run(bytes: Seq<u8>, st: MachineState) -> Result<MachineState, PickleError>
    decreases bytes.len() - st.pos,
{
    match spec_step(bytes, st) {
        StepRes::Fail(e) => Err(e),
        StepRes::Stop(st2) => Ok(st2),
        StepRes::Next(st2) => {
            if st.pos < st2.pos <= bytes.len() {
                spec_run(bytes, st2)
            } else {
                Err(PickleError::OutOfData)
            }
        },
    }
}

/// The state the machine starts from.
pub open spec fn init_state(pos: int) -> MachineState {
    MachineState {
        pos,
        proto: PickleProtocol::Unknown,
        stack: Seq::empty(),
        memo: Seq::empty(),
    }
}

/// What a whole parse returns: the machine's run followed by popping the
/// single result value.
pub open spec fn parse_spec(bytes: Seq<u8>) -> Result<PickleVal, PickleError> {
    match spec_run(bytes, init_state(0)) {
        Err(e) => Err(e),
        Ok(st) => match spop(st.stack) {
            Ok((v, _)) => Ok(v),
            Err(e) => Err(e),
        },
    }
}

/// Read a string terminated by `terminator`, consuming the terminator
/// byte.  Failing to find the terminator before the input ends is an
/// out-of-data error.
fn read_terminated_string(cur: &mut ByteCursor, terminator: u8) -> (r: Result<String, PickleError>)
    requires
        old(cur).wf(),
    ensures
        final(cur).bytes() == old(cur).bytes(),
        final(cur).wf(),
        ({
            let t = find_byte(old(cur).bytes(), old(cur).pos as int, terminator);
            match r {
                Ok(s) => t >= 0 && t >= old(cur).pos && str_field(
                    old(cur).bytes(),
                    old(cur).pos as int,
                    t - old(cur).pos,
                ) == Ok::<Seq<char>, PickleError>(s@) && final(cur).pos == t + 1,
                Err(e) => if t < 0 {
                    e == PickleError::OutOfData
                } else {
                    str_field(old(cur).bytes(), old(cur).pos as int, t - old(cur).pos) == Err::<
                        Seq<char>,
                        PickleError,
                    >(e)
                },
            }
        }),
{
    let p0 = cur.pos;
    let mut i = p0;
    loop
        invariant
            cur.wf(),
            cur.bytes() == old(cur).bytes(),
            cur.pos == p0,
            p0 == old(cur).pos,
            p0 <= i,
            i <= cur.bytes().len(),
            find_byte(cur.bytes(), p0 as int, terminator) == find_byte(
                cur.bytes(),
                i as int,
                terminator,
            ),
        decreases cur.bytes().len() - i,
    {
        if i == cur.data.len() {
            return Err(PickleError::OutOfData);
        }
        if cur.data[i] == terminator {
            let ghost t = find_byte(cur.bytes(), p0 as int, terminator);
            proof {
                assert(t == i);
            }
            let s = match cur.read_string_len(i - p0) {
                Ok(s) => s,
                Err(_) => {
                    return Err(PickleError::StringNotUtf8);
                },
            };
            proof {
                assert(cur.pos + 1 <= cur.bytes().len());
            }
            match cur.skip(1) {
                Ok(()) => (),
                Err(_) => {
                    return Err(PickleError::OutOfData);
                },
            }
            return Ok(s);
        }
        i = i + 1;
    }
}

/// Move the items of `v` into a new vector in reverse order.
fn reversed_vec(v: Vec<Pickle>) -> (r: Vec<Pickle>)
    ensures
        seq_view(r@) =~= seq_view(v@).reverse(),
{
    let mut rem = v;
    let mut out: Vec<Pickle> = Vec::new();
    loop
        invariant
            out@.len() + rem@.len() == v@.len(),
            rem@ =~= v@.subrange(0, rem@.len() as int),
            forall|j: int| 0 <= j < out@.len() ==> #[trigger] out@[j].deep_view() == v@[v@.len() - 1
                - j].deep_view(),
        decreases rem@.len(),
    {
        let ghost pre = rem@;
        match rem.pop() {
            Some(x) => {
                proof {
                    assert(pre[pre.len() - 1] == v@[pre.len() - 1]);
                    assert(rem@ =~= v@.subrange(0, rem@.len() as int));
                }
                out.push(x);
            },
            None => {
                proof {
                    lemma_seq_view(out@);
                    lemma_seq_view(v@);
                    assert forall|j: int| 0 <= j < out@.len() implies #[trigger] seq_view(out@)[j]
                        == seq_view(v@).reverse()[j] by {
                        assert(seq_view(out@)[j] == out@[j].deep_view());
                        assert(seq_view(v@).reverse()[j] == seq_view(v@)[v@.len() - 1 - j]);
                        assert(seq_view(v@)[v@.len() - 1 - j] == v@[v@.len() - 1 - j].deep_view());
                    }
                    assert(seq_view(out@) =~= seq_view(v@).reverse());
                }
                return out;
            },
        }
    }
}

/// Pack two popped values into a pair vector, newest last popped first.
fn tuple2_vec(b: Pickle, a: Pickle) -> (r: Vec<Pickle>)
    ensures
        seq_view(r@) =~= seq![b.deep_view(), a.deep_view()],
{
    let ghost bv = b.deep_view();
    let ghost av = a.deep_view();
    let mut v: Vec<Pickle> = Vec::new();
    v.push(b);
    v.push(a);
    proof {
        lemma_seq_view(v@);
        assert(seq_view(v@) =~= seq![bv, av]);
    }
    v
}

fn tuple1_vec(a: Pickle) -> (r: Vec<Pickle>)
    ensures
        seq_view(r@) =~= seq![a.deep_view()],
{
    let ghost av = a.deep_view();
    let mut v: Vec<Pickle> = Vec::new();
    v.push(a);
    proof {
        lemma_seq_view(v@);
        assert(seq_view(v@) =~= seq![av]);
    }
    v
}

fn tuple3_vec(c: Pickle, b: Pickle, a: Pickle) -> (r: Vec<Pickle>)
    ensures
        seq_view(r@) =~= seq![c.deep_view(), b.deep_view(), a.deep_view()],
{
    let ghost cv = c.deep_view();
    let ghost bv = b.deep_view();
    let ghost av = a.deep_view();
    let mut v: Vec<Pickle> = Vec::new();
    v.push(c);
    v.push(b);
    v.push(a);
    proof {
        lemma_seq_view(v@);
        assert(seq_view(v@) =~= seq![cv, bv, av]);
    }
    v
}

/// Bind the key/value pairs of `items` into `target`, newest pair first,
/// exactly as [`ssetitems`] says.
fn apply_setitems(target: &mut Pickle, items: Vec<Pickle>) -> (r: Result<(), PickleError>)
    ensures
        match r {
            Ok(()) => ssetitems(old(target).deep_view(), seq_view(items@)) == Ok::<
                PickleVal,
                PickleError,
            >(final(target).deep_view()),
            Err(e) => ssetitems(old(target).deep_view(), seq_view(items@)) == Err::<
                PickleVal,
                PickleError,
            >(e),
        },
{
    let mut rem = items;
    while rem.len() > 0
        invariant
            ssetitems(old(target).deep_view(), seq_view(items@)) == ssetitems(
                target.deep_view(),
                seq_view(rem@),
            ),
        decreases rem@.len(),
    {
        let ghost pre_items = rem@;
        let ghost pre_target = target.deep_view();
        proof {
            lemma_seq_view(pre_items);
        }
        let value = match rem.pop() {
            Some(v) => v,
            None => {
                return Err(PickleError::StackEmpty);
            },
        };
        proof {
            lemma_seq_view(rem@);
            assert(seq_view(pre_items).last() == value.deep_view());
            assert(rem@ =~= pre_items.drop_last());
            assert(seq_view(rem@) =~= seq_view(pre_items).drop_last());
        }
        let key = match rem.pop() {
            Some(k) => k,
            None => {
                proof {
                    assert(seq_view(pre_items).len() == 1);
                }
                return Err(PickleError::StackEmpty);
            },
        };
        let ghost mid_items = rem@;
        proof {
            lemma_seq_view(mid_items);
            assert(seq_view(pre_items).len() >= 2);
            assert(seq_view(pre_items)[seq_view(pre_items).len() - 2] == key.deep_view());
            assert(mid_items =~= pre_items.drop_last().drop_last());
            assert(seq_view(mid_items) =~= seq_view(pre_items).drop_last().drop_last());
        }
        let key = match key.try_string() {
            Ok(k) => k,
            Err(e) => {
                return Err(e);
            },
        };
        match target {
            Pickle::Dict(d) => {
                Pickle::dict_set(d, key, value);
            },
            Pickle::Class(c) => {
                Pickle::dict_set(&mut c.data, key, value);
            },
            _ => {
                return Err(PickleError::CannotTryInto);
            },
        }
        proof {
            assert(ssetitems(pre_target, seq_view(pre_items)) == ssetitems(
                target.deep_view(),
                seq_view(rem@),
            ));
        }
    }
    proof {
        lemma_seq_view(rem@);
        assert(seq_view(rem@).len() == 0);
    }
    Ok(())
}

/// The interpreter: a protocol revision, an operand stack and a memo
/// table, driven one opcode at a time.
pub struct PickleParser {
    protocol: PickleProtocol,
    stack: PickleStack,
    memo: PickleMemo,
}

impl PickleParser {
    /// The reference-machine state this interpreter is in when the read
    /// position is `pos`.
    pub closed spec fn abs(&self, pos: int) -> MachineState {
        MachineState { pos, proto: self.protocol, stack: self.stack@, memo: self.memo@ }
    }

    pub fn new() -> (r: Self)
        ensures
            r.abs(0) == init_state(0),
    {
        let r = PickleParser {
            protocol: PickleProtocol::Unknown,
            stack: PickleStack::new(),
            memo: PickleMemo::new(),
        };
        proof {
            assert(r.abs(0) =~= init_state(0));
        }
        r
    }

    /// Opcodes that push a fixed or fixed-width immediate value,
    /// the mark, or consume a framing hint.
    #[verifier::rlimit(100)]
    fn op_immediate(&mut self, cur: &mut ByteCursor, opcode: PickleOpcode) -> (r: Result<
        PickleOpcode,
        PickleError,
    >)
        requires
            old(cur).wf(),
            old(cur).pos >= 1,
            spec_opcode(old(cur).bytes()[old(cur).pos - 1]) == Some(opcode),
            old(self).abs(0).proto != PickleProtocol::Unknown,
            (opcode == PickleOpcode::FRAME || opcode == PickleOpcode::MARK || opcode == PickleOpcode::NONE || opcode == PickleOpcode::NEWTRUE || opcode == PickleOpcode::NEWFALSE || opcode == PickleOpcode::EMPTY_DICT || opcode == PickleOpcode::EMPTY_LIST || opcode == PickleOpcode::EMPTY_TUPLE || opcode == PickleOpcode::BININT || opcode == PickleOpcode::BININT1),
        ensures
            final(cur).bytes() == old(cur).bytes(),
            final(cur).wf(),
            match r {
                Ok(op2) => op2 == opcode && (match spec_step(
                    old(cur).bytes(),
                    old(self).abs(old(cur).pos - 1),
                ) {
                    StepRes::Next(st2) => final(self).abs(final(cur).pos as int) == st2 && old(
                        cur,
                    ).pos - 1 < final(cur).pos,
                    _ => false,
                }),
                Err(e) => spec_step(old(cur).bytes(), old(self).abs(old(cur).pos - 1))
                    == StepRes::Fail(e),
            },
    {
        let ghost st0 = old(self).abs(old(cur).pos - 1);
        match opcode {
            PickleOpcode::FRAME => {
                match cur.read_u64() {
                    Ok(_) => (),
                    Err(_) => {
                        return Err(PickleError::OutOfData);
                    },
                }
                proof {
                    assert(self.abs(cur.pos as int) =~= spec_step(old(cur).bytes(), st0)->Next_0);
                }
                Ok(opcode)
            },
            PickleOpcode::MARK => {
                self.stack.push_mark();
                proof {
                    assert(self.abs(cur.pos as int) =~= spec_step(old(cur).bytes(), st0)->Next_0);
                }
                Ok(opcode)
            },
            PickleOpcode::NONE => {
                self.stack.push(Pickle::NoneVal);
                proof {
                    assert(self.abs(cur.pos as int) =~= spec_step(old(cur).bytes(), st0)->Next_0);
                }
                Ok(opcode)
            },
            PickleOpcode::NEWTRUE => {
                self.stack.push(Pickle::Bool(true));
                proof {
                    assert(self.abs(cur.pos as int) =~= spec_step(old(cur).bytes(), st0)->Next_0);
                }
                Ok(opcode)
            },
            PickleOpcode::NEWFALSE => {
                self.stack.push(Pickle::Bool(false));
                proof {
                    assert(self.abs(cur.pos as int) =~= spec_step(old(cur).bytes(), st0)->Next_0);
                }
                Ok(opcode)
            },
            PickleOpcode::EMPTY_DICT => {
                let d: Vec<(String, Pickle)> = Vec::new();
                proof {
                    assert(dict_view(d@) =~= Seq::<(Seq<char>, PickleVal)>::empty());
                }
                self.stack.push(Pickle::Dict(d));
                proof {
                    assert(self.abs(cur.pos as int) =~= spec_step(old(cur).bytes(), st0)->Next_0);
                }
                Ok(opcode)
            },
            PickleOpcode::EMPTY_LIST => {
                let v: Vec<Pickle> = Vec::new();
                proof {
                    assert(seq_view(v@) =~= Seq::<PickleVal>::empty());
                }
                self.stack.push(Pickle::List(v));
                proof {
                    assert(self.abs(cur.pos as int) =~= spec_step(old(cur).bytes(), st0)->Next_0);
                }
                Ok(opcode)
            },
            PickleOpcode::EMPTY_TUPLE => {
                let v: Vec<Pickle> = Vec::new();
                proof {
                    assert(seq_view(v@) =~= Seq::<PickleVal>::empty());
                }
                self.stack.push(Pickle::Tuple(v));
                proof {
                    assert(self.abs(cur.pos as int) =~= spec_step(old(cur).bytes(), st0)->Next_0);
                }
                Ok(opcode)
            },
            PickleOpcode::BININT => {
                let v = match cur.read_i32() {
                    Ok(v) => v,
                    Err(_) => {
                        return Err(PickleError::OutOfData);
                    },
                };
                self.stack.push(Pickle::Number(PickleNumber::Int(v as i64)));
                proof {
                    assert(self.abs(cur.pos as int) =~= spec_step(old(cur).bytes(), st0)->Next_0);
                }
                Ok(opcode)
            },
            PickleOpcode::BININT1 => {
                let v = match cur.read_u8() {
                    Ok(v) => v,
                    Err(_) => {
                        return Err(PickleError::OutOfData);
                    },
                };
                self.stack.push(Pickle::Number(PickleNumber::Uint(v as u64)));
                proof {
                    assert(self.abs(cur.pos as int) =~= spec_step(old(cur).bytes(), st0)->Next_0);
                }
                Ok(opcode)
            },
            _ => {
                proof {
                    assert(false);
                }
                Err(PickleError::CannotTryInto)
            },
        }
    }

    /// Opcodes whose operand is a length-prefixed or terminated string
    /// or byte run.
    #[verifier::rlimit(100)]
    fn op_string(&mut self, cur: &mut ByteCursor, opcode: PickleOpcode) -> (r: Result<
        PickleOpcode,
        PickleError,
    >)
        requires
            old(cur).wf(),
            old(cur).pos >= 1,
            spec_opcode(old(cur).bytes()[old(cur).pos - 1]) == Some(opcode),
            old(self).abs(0).proto != PickleProtocol::Unknown,
            (opcode == PickleOpcode::SHORT_BINUNICODE || opcode == PickleOpcode::BINUNICODE || opcode == PickleOpcode::SHORT_BINBYTES || opcode == PickleOpcode::GLOBAL),
        ensures
            final(cur).bytes() == old(cur).bytes(),
            final(cur).wf(),
            match r {
                Ok(op2) => op2 == opcode && (match spec_step(
                    old(cur).bytes(),
                    old(self).abs(old(cur).pos - 1),
                ) {
                    StepRes::Next(st2) => final(self).abs(final(cur).pos as int) == st2 && old(
                        cur,
                    ).pos - 1 < final(cur).pos,
                    _ => false,
                }),
                Err(e) => spec_step(old(cur).bytes(), old(self).abs(old(cur).pos - 1))
                    == StepRes::Fail(e),
            },
    {
        let ghost st0 = old(self).abs(old(cur).pos - 1);
        match opcode {
            PickleOpcode::SHORT_BINUNICODE => {
                let n = match cur.read_u8() {
                    Ok(v) => v,
                    Err(_) => {
                        return Err(PickleError::OutOfData);
                    },
                };
                let s = match cur.read_string_len(n as usize) {
                    Ok(s) => s,
                    Err(ReadError::InvalidUtf8) => {
                        return Err(PickleError::StringNotUtf8);
                    },
                    Err(_) => {
                        return Err(PickleError::OutOfData);
                    },
                };
                self.stack.push(Pickle::String(s));
                proof {
                    assert(self.abs(cur.pos as int) =~= spec_step(old(cur).bytes(), st0)->Next_0);
                }
                Ok(opcode)
            },
            PickleOpcode::BINUNICODE => {
                let n = match cur.read_u32() {
                    Ok(v) => v,
                    Err(_) => {
                        return Err(PickleError::OutOfData);
                    },
                };
                let s = match cur.read_string_len(n as usize) {
                    Ok(s) => s,
                    Err(ReadError::InvalidUtf8) => {
                        return Err(PickleError::StringNotUtf8);
                    },
                    Err(_) => {
                        return Err(PickleError::OutOfData);
                    },
                };
                self.stack.push(Pickle::String(s));
                proof {
                    assert(self.abs(cur.pos as int) =~= spec_step(old(cur).bytes(), st0)->Next_0);
                }
                Ok(opcode)
            },
            PickleOpcode::SHORT_BINBYTES => {
                let n = match cur.read_u8() {
                    Ok(v) => v,
                    Err(_) => {
                        return Err(PickleError::OutOfData);
                    },
                };
                let v = match cur.read_vec(n as usize) {
                    Ok(v) => v,
                    Err(_) => {
                        return Err(PickleError::OutOfData);
                    },
                };
                self.stack.push(Pickle::Binary(v));
                proof {
                    assert(self.abs(cur.pos as int) =~= spec_step(old(cur).bytes(), st0)->Next_0);
                }
                Ok(opcode)
            },
            PickleOpcode::GLOBAL => {
                let module = match read_terminated_string(cur, 0x0A) {
                    Ok(s) => s,
                    Err(e) => {
                        return Err(e);
                    },
                };
                let name = match read_terminated_string(cur, 0x0A) {
                    Ok(s) => s,
                    Err(e) => {
                        return Err(e);
                    },
                };
                self.stack.push(Pickle::Module(PickleModule::new(module, name)));
                proof {
                    assert(self.abs(cur.pos as int) =~= spec_step(old(cur).bytes(), st0)->Next_0);
                }
                Ok(opcode)
            },
            _ => {
                proof {
                    assert(false);
                }
                Err(PickleError::CannotTryInto)
            },
        }
    }

    /// Opcodes that store to or retrieve from the memo table.
    #[verifier::rlimit(100)]
    fn op_memo(&mut self, cur: &mut ByteCursor, opcode: PickleOpcode) -> (r: Result<
        PickleOpcode,
        PickleError,
    >)
        requires
            old(cur).wf(),
            old(cur).pos >= 1,
            spec_opcode(old(cur).bytes()[old(cur).pos - 1]) == Some(opcode),
            old(self).abs(0).proto != PickleProtocol::Unknown,
            (opcode == PickleOpcode::MEMOIZE || opcode == PickleOpcode::BINPUT || opcode == PickleOpcode::LONG_BINPUT || opcode == PickleOpcode::BINGET || opcode == PickleOpcode::LONG_BINGET),
        ensures
            final(cur).bytes() == old(cur).bytes(),
            final(cur).wf(),
            match r {
                Ok(op2) => op2 == opcode && (match spec_step(
                    old(cur).bytes(),
                    old(self).abs(old(cur).pos - 1),
                ) {
                    StepRes::Next(st2) => final(self).abs(final(cur).pos as int) == st2 && old(
                        cur,
                    ).pos - 1 < final(cur).pos,
                    _ => false,
                }),
                Err(e) => spec_step(old(cur).bytes(), old(self).abs(old(cur).pos - 1))
                    == StepRes::Fail(e),
            },
    {
        let ghost st0 = old(self).abs(old(cur).pos - 1);
        match opcode {
            PickleOpcode::MEMOIZE => {
                let item = match self.stack.last() {
                    Ok(p) => p.duplicate(),
                    Err(e) => {
                        return Err(e);
                    },
                };
                self.memo.push(item);
                proof {
                    assert(self.abs(cur.pos as int) =~= spec_step(old(cur).bytes(), st0)->Next_0);
                }
                Ok(opcode)
            },
            PickleOpcode::BINPUT => {
                let idx = match cur.read_u8() {
                    Ok(v) => v,
                    Err(_) => {
                        return Err(PickleError::OutOfData);
                    },
                };
                let item = match self.stack.last() {
                    Ok(p) => p.duplicate(),
                    Err(e) => {
                        return Err(e);
                    },
                };
                self.memo.set(idx as usize, item);
                proof {
                    assert(self.abs(cur.pos as int) =~= spec_step(old(cur).bytes(), st0)->Next_0);
                }
                Ok(opcode)
            },
            PickleOpcode::LONG_BINPUT => {
                let idx = match cur.read_u32() {
                    Ok(v) => v,
                    Err(_) => {
                        return Err(PickleError::OutOfData);
                    },
                };
                let item = match self.stack.last() {
                    Ok(p) => p.duplicate(),
                    Err(e) => {
                        return Err(e);
                    },
                };
                self.memo.set(idx as usize, item);
                proof {
                    assert(self.abs(cur.pos as int) =~= spec_step(old(cur).bytes(), st0)->Next_0);
                }
                Ok(opcode)
            },
            PickleOpcode::BINGET => {
                let idx = match cur.read_u8() {
                    Ok(v) => v,
                    Err(_) => {
                        return Err(PickleError::OutOfData);
                    },
                };
                let item = match self.memo.get(idx as usize) {
                    Ok(p) => p.duplicate(),
                    Err(e) => {
                        return Err(e);
                    },
                };
                self.stack.push(item);
                proof {
                    assert(self.abs(cur.pos as int) =~= spec_step(old(cur).bytes(), st0)->Next_0);
                }
                Ok(opcode)
            },
            PickleOpcode::LONG_BINGET => {
                let idx = match cur.read_u32() {
                    Ok(v) => v,
                    Err(_) => {
                        return Err(PickleError::OutOfData);
                    },
                };
                let item = match self.memo.get(idx as usize) {
                    Ok(p) => p.duplicate(),
                    Err(e) => {
                        return Err(e);
                    },
                };
                self.stack.push(item);
                proof {
                    assert(self.abs(cur.pos as int) =~= spec_step(old(cur).bytes(), st0)->Next_0);
                }
                Ok(opcode)
            },
            _ => {
                proof {
                    assert(false);
                }
                Err(PickleError::CannotTryInto)
            },
        }
    }

    /// Opcodes that build a tuple from popped values or a popped group.
    #[verifier::rlimit(100)]
    fn op_tuple(&mut self, cur: &mut ByteCursor, opcode: PickleOpcode) -> (r: Result<
        PickleOpcode,
        PickleError,
    >)
        requires
            old(cur).wf(),
            old(cur).pos >= 1,
            spec_opcode(old(cur).bytes()[old(cur).pos - 1]) == Some(opcode),
            old(self).abs(0).proto != PickleProtocol::Unknown,
            (opcode == PickleOpcode::TUPLE1 || opcode == PickleOpcode::TUPLE2 || opcode == PickleOpcode::TUPLE3 || opcode == PickleOpcode::TUPLE),
        ensures
            final(cur).bytes() == old(cur).bytes(),
            final(cur).wf(),
            match r {
                Ok(op2) => op2 == opcode && (match spec_step(
                    old(cur).bytes(),
                    old(self).abs(old(cur).pos - 1),
                ) {
                    StepRes::Next(st2) => final(self).abs(final(cur).pos as int) == st2 && old(
                        cur,
                    ).pos - 1 < final(cur).pos,
                    _ => false,
                }),
                Err(e) => spec_step(old(cur).bytes(), old(self).abs(old(cur).pos - 1))
                    == StepRes::Fail(e),
            },
    {
        let ghost st0 = old(self).abs(old(cur).pos - 1);
        match opcode {
            PickleOpcode::TUPLE1 => {
                let a = match self.stack.pop() {
                    Ok(p) => p,
                    Err(e) => {
                        return Err(e);
                    },
                };
                self.stack.push(Pickle::Tuple(tuple1_vec(a)));
                proof {
                    assert(self.abs(cur.pos as int) =~= spec_step(old(cur).bytes(), st0)->Next_0);
                }
                Ok(opcode)
            },
            PickleOpcode::TUPLE2 => {
                let a = match self.stack.pop() {
                    Ok(p) => p,
                    Err(e) => {
                        return Err(e);
                    },
                };
                let b = match self.stack.pop() {
                    Ok(p) => p,
                    Err(e) => {
                        return Err(e);
                    },
                };
                self.stack.push(Pickle::Tuple(tuple2_vec(b, a)));
                proof {
                    assert(self.abs(cur.pos as int) =~= spec_step(old(cur).bytes(), st0)->Next_0);
                }
                Ok(opcode)
            },
            PickleOpcode::TUPLE3 => {
                let a = match self.stack.pop() {
                    Ok(p) => p,
                    Err(e) => {
                        return Err(e);
                    },
                };
                let b = match self.stack.pop() {
                    Ok(p) => p,
                    Err(e) => {
                        return Err(e);
                    },
                };
                let c = match self.stack.pop() {
                    Ok(p) => p,
                    Err(e) => {
                        return Err(e);
                    },
                };
                self.stack.push(Pickle::Tuple(tuple3_vec(c, b, a)));
                proof {
                    assert(self.abs(cur.pos as int) =~= spec_step(old(cur).bytes(), st0)->Next_0);
                }
                Ok(opcode)
            },
            PickleOpcode::TUPLE => {
                let items = match self.stack.pop_mark() {
                    Ok(v) => v,
                    Err(e) => {
                        return Err(e);
                    },
                };
                let rev = reversed_vec(items);
                self.stack.push(Pickle::Tuple(rev));
                proof {
                    assert(self.abs(cur.pos as int) =~= spec_step(old(cur).bytes(), st0)->Next_0);
                }
                Ok(opcode)
            },
            _ => {
                proof {
                    assert(false);
                }
                Err(PickleError::CannotTryInto)
            },
        }
    }

    /// Opcodes that grow a list or bind dictionary items.
    #[verifier::rlimit(100)]
    fn op_container(&mut self, cur: &mut ByteCursor, opcode: PickleOpcode) -> (r: Result<
        PickleOpcode,
        PickleError,
    >)
        requires
            old(cur).wf(),
            old(cur).pos >= 1,
            spec_opcode(old(cur).bytes()[old(cur).pos - 1]) == Some(opcode),
            old(self).abs(0).proto != PickleProtocol::Unknown,
            (opcode == PickleOpcode::APPEND || opcode == PickleOpcode::APPENDS || opcode == PickleOpcode::SETITEM || opcode == PickleOpcode::SETITEMS),
        ensures
            final(cur).bytes() == old(cur).bytes(),
            final(cur).wf(),
            match r {
                Ok(op2) => op2 == opcode && (match spec_step(
                    old(cur).bytes(),
                    old(self).abs(old(cur).pos - 1),
                ) {
                    StepRes::Next(st2) => final(self).abs(final(cur).pos as int) == st2 && old(
                        cur,
                    ).pos - 1 < final(cur).pos,
                    _ => false,
                }),
                Err(e) => spec_step(old(cur).bytes(), old(self).abs(old(cur).pos - 1))
                    == StepRes::Fail(e),
            },
    {
        let ghost st0 = old(self).abs(old(cur).pos - 1);
        match opcode {
            PickleOpcode::APPEND => {
                let item = match self.stack.pop() {
                    Ok(p) => p,
                    Err(e) => {
                        return Err(e);
                    },
                };
                let target = match self.stack.pop() {
                    Ok(p) => p,
                    Err(e) => {
                        return Err(e);
                    },
                };
                let mut list = match target.try_items() {
                    Ok(v) => v,
                    Err(e) => {
                        return Err(e);
                    },
                };
                let ghost lv = seq_view(list@);
                let ghost pre_list = list@;
                let ghost itemv = item.deep_view();
                list.push(item);
                proof {
                    crate::pickle::lemma_seq_view_push(pre_list, list@[list@.len() - 1]);
                    assert(list@ =~= pre_list.push(list@[list@.len() - 1]));
                    assert(seq_view(list@) == lv.push(itemv));
                }
                self.stack.push(Pickle::List(list));
                proof {
                    assert(self.abs(cur.pos as int) =~= spec_step(old(cur).bytes(), st0)->Next_0);
                }
                Ok(opcode)
            },
            PickleOpcode::APPENDS => {
                let mut items = match self.stack.pop_mark() {
                    Ok(v) => v,
                    Err(e) => {
                        return Err(e);
                    },
                };
                let target = match self.stack.pop() {
                    Ok(p) => p,
                    Err(e) => {
                        return Err(e);
                    },
                };
                let mut list = match target.try_items() {
                    Ok(v) => v,
                    Err(e) => {
                        return Err(e);
                    },
                };
                let ghost lv = seq_view(list@);
                let ghost pre_list = list@;
                let ghost pre_items = items@;
                let ghost iv = seq_view(items@);
                list.append(&mut items);
                proof {
                    crate::pickle::lemma_seq_view_concat(pre_list, pre_items);
                    assert(list@ =~= pre_list + pre_items);
                    assert(seq_view(list@) == lv + iv);
                }
                self.stack.push(Pickle::List(list));
                proof {
                    assert(self.abs(cur.pos as int) =~= spec_step(old(cur).bytes(), st0)->Next_0);
                }
                Ok(opcode)
            },
            PickleOpcode::SETITEM => {
                let item = match self.stack.pop() {
                    Ok(p) => p,
                    Err(e) => {
                        return Err(e);
                    },
                };
                let key = match self.stack.pop() {
                    Ok(p) => p,
                    Err(e) => {
                        return Err(e);
                    },
                };
                let key = match key.try_string() {
                    Ok(k) => k,
                    Err(e) => {
                        return Err(e);
                    },
                };
                let d = match self.stack.pop() {
                    Ok(p) => p,
                    Err(e) => {
                        return Err(e);
                    },
                };
                let mut dict = match d.try_dict() {
                    Ok(d) => d,
                    Err(e) => {
                        return Err(e);
                    },
                };
                Pickle::dict_set(&mut dict, key, item);
                self.stack.push(Pickle::Dict(dict));
                proof {
                    assert(self.abs(cur.pos as int) =~= spec_step(old(cur).bytes(), st0)->Next_0);
                }
                Ok(opcode)
            },
            PickleOpcode::SETITEMS => {
                let items = match self.stack.pop_mark() {
                    Ok(v) => v,
                    Err(e) => {
                        return Err(e);
                    },
                };
                let mut target = match self.stack.pop() {
                    Ok(p) => p,
                    Err(e) => {
                        return Err(e);
                    },
                };
                match apply_setitems(&mut target, items) {
                    Ok(()) => (),
                    Err(e) => {
                        return Err(e);
                    },
                }
                self.stack.push(target);
                proof {
                    assert(self.abs(cur.pos as int) =~= spec_step(old(cur).bytes(), st0)->Next_0);
                }
                Ok(opcode)
            },
            _ => {
                proof {
                    assert(false);
                }
                Err(PickleError::CannotTryInto)
            },
        }
    }

    /// Opcodes that build a class instance or attach its state.
    #[verifier::rlimit(100)]
    fn op_class(&mut self, cur: &mut ByteCursor, opcode: PickleOpcode) -> (r: Result<
        PickleOpcode,
        PickleError,
    >)
        requires
            old(cur).wf(),
            old(cur).pos >= 1,
            spec_opcode(old(cur).bytes()[old(cur).pos - 1]) == Some(opcode),
            old(self).abs(0).proto != PickleProtocol::Unknown,
            (opcode == PickleOpcode::REDUCE || opcode == PickleOpcode::NEWOBJ || opcode == PickleOpcode::BUILD),
        ensures
            final(cur).bytes() == old(cur).bytes(),
            final(cur).wf(),
            match r {
                Ok(op2) => op2 == opcode && (match spec_step(
                    old(cur).bytes(),
                    old(self).abs(old(cur).pos - 1),
                ) {
                    StepRes::Next(st2) => final(self).abs(final(cur).pos as int) == st2 && old(
                        cur,
                    ).pos - 1 < final(cur).pos,
                    _ => false,
                }),
                Err(e) => spec_step(old(cur).bytes(), old(self).abs(old(cur).pos - 1))
                    == StepRes::Fail(e),
            },
    {
        let ghost st0 = old(self).abs(old(cur).pos - 1);
        match opcode {
            PickleOpcode::REDUCE | PickleOpcode::NEWOBJ => {
                let args = match self.stack.pop() {
                    Ok(p) => p,
                    Err(e) => {
                        return Err(e);
                    },
                };
                let m = match self.stack.pop() {
                    Ok(p) => p,
                    Err(e) => {
                        return Err(e);
                    },
                };
                let module = match m.try_module() {
                    Ok(m) => m,
                    Err(e) => {
                        return Err(e);
                    },
                };
                let class = module.class(args);
                self.stack.push(Pickle::Class(class));
                proof {
                    assert(self.abs(cur.pos as int) =~= spec_step(old(cur).bytes(), st0)->Next_0);
                }
                Ok(opcode)
            },
            PickleOpcode::BUILD => {
                let state_v = match self.stack.pop() {
                    Ok(p) => p,
                    Err(e) => {
                        return Err(e);
                    },
                };
                let c = match self.stack.pop() {
                    Ok(p) => p,
                    Err(e) => {
                        return Err(e);
                    },
                };
                let mut class = match c.try_class() {
                    Ok(c) => c,
                    Err(e) => {
                        return Err(e);
                    },
                };
                class.state = Some(Box::new(state_v));
                self.stack.push(Pickle::Class(class));
                proof {
                    assert(self.abs(cur.pos as int) =~= spec_step(old(cur).bytes(), st0)->Next_0);
                }
                Ok(opcode)
            },
            _ => {
                proof {
                    assert(false);
                }
                Err(PickleError::CannotTryInto)
            },
        }
    }

    /// Interpret the opcode at the cursor: the state changes exactly as
    /// [`spec_step`] says, and the opcode read is handed back.
    #[verifier::rlimit(100)]
    fn read_operation(&mut self, cur: &mut ByteCursor) -> (r: Result<PickleOpcode, PickleError>)
        requires
            old(cur).wf(),
        ensures
            final(cur).bytes() == old(cur).bytes(),
            final(cur).wf(),
            match r {
                Ok(op) => match spec_step(old(cur).bytes(), old(self).abs(old(cur).pos as int)) {
                    StepRes::Next(st2) => op != PickleOpcode::STOP && final(self).abs(
                        final(cur).pos as int,
                    ) == st2 && old(cur).pos < final(cur).pos,
                    StepRes::Stop(st2) => op == PickleOpcode::STOP && final(self).abs(
                        final(cur).pos as int,
                    ) == st2,
                    StepRes::Fail(_) => false,
                },
                Err(e) => spec_step(old(cur).bytes(), old(self).abs(old(cur).pos as int))
                    == StepRes::Fail(e),
            },
    {
        let ghost st0 = old(self).abs(old(cur).pos as int);
        let b = match cur.read_u8() {
            Ok(b) => b,
            Err(_) => {
                return Err(PickleError::OutOfData);
            },
        };
        let opcode = match PickleOpcode::new(b) {
            Ok(op) => op,
            Err(e) => {
                return Err(e);
            },
        };
        if self.protocol == PickleProtocol::Unknown {
            if opcode == PickleOpcode::PROTO {
                let v = match cur.read_u8() {
                    Ok(v) => v,
                    Err(_) => {
                        return Err(PickleError::OutOfData);
                    },
                };
                self.protocol = match PickleProtocol::from(v) {
                    Ok(p) => p,
                    Err(e) => {
                        return Err(e);
                    },
                };
                proof {
                    assert(self.abs(cur.pos as int) =~= spec_step(
                        old(cur).bytes(),
                        st0,
                    )->Next_0);
                }
                return Ok(opcode);
            } else {
                return Err(PickleError::PickleInvalidProtocolOperation);
            }
        }
        match opcode {
            PickleOpcode::PROTO => Err(PickleError::PickleInvalidProtocolOperation),
            PickleOpcode::STOP => {
                proof {
                    assert(self.abs(cur.pos as int) =~= spec_step(old(cur).bytes(), st0)->Stop_0);
                }
                Ok(opcode)
            },
            PickleOpcode::FRAME | PickleOpcode::MARK | PickleOpcode::NONE | PickleOpcode::NEWTRUE | PickleOpcode::NEWFALSE | PickleOpcode::EMPTY_DICT | PickleOpcode::EMPTY_LIST | PickleOpcode::EMPTY_TUPLE | PickleOpcode::BININT | PickleOpcode::BININT1 => self.op_immediate(cur, opcode),
            PickleOpcode::SHORT_BINUNICODE | PickleOpcode::BINUNICODE | PickleOpcode::SHORT_BINBYTES | PickleOpcode::GLOBAL => self.op_string(cur, opcode),
            PickleOpcode::MEMOIZE | PickleOpcode::BINPUT | PickleOpcode::LONG_BINPUT | PickleOpcode::BINGET | PickleOpcode::LONG_BINGET => self.op_memo(cur, opcode),
            PickleOpcode::TUPLE1 | PickleOpcode::TUPLE2 | PickleOpcode::TUPLE3 | PickleOpcode::TUPLE => self.op_tuple(cur, opcode),
            PickleOpcode::APPEND | PickleOpcode::APPENDS | PickleOpcode::SETITEM | PickleOpcode::SETITEMS => self.op_container(cur, opcode),
            PickleOpcode::REDUCE | PickleOpcode::NEWOBJ | PickleOpcode::BUILD => self.op_class(cur, opcode),
            _ => Err(PickleError::UnsupportedOperation(opcode)),
        }
    }

    /// Interpret opcodes until the terminal one, exactly as
    /// [`spec_run`] says.
    pub fn read(&mut self, cur: &mut ByteCursor) -> (r: Result<(), PickleError>)
        requires
            old(cur).wf(),
        ensures
            match r {
                Ok(()) => spec_run(old(cur).bytes(), old(self).abs(old(cur).pos as int)) == Ok::<
                    MachineState,
                    PickleError,
                >(final(self).abs(final(cur).pos as int)),
                Err(e) => spec_run(old(cur).bytes(), old(self).abs(old(cur).pos as int)) == Err::<
                    MachineState,
                    PickleError,
                >(e),
            },
    {
        loop
            invariant
                cur.wf(),
                cur.bytes() == old(cur).bytes(),
                spec_run(cur.bytes(), self.abs(cur.pos as int)) == spec_run(
                    old(cur).bytes(),
                    old(self).abs(old(cur).pos as int),
                ),
            decreases cur.bytes().len() - cur.pos,
        {
            match self.read_operation(cur) {
                Err(e) => {
                    return Err(e);
                },
                Ok(op) => {
                    if op == PickleOpcode::STOP {
                        return Ok(());
                    }
                },
            }
        }
    }

    /// Interpret one complete stream and pop the result value: the
    /// outcome, value or error, is exactly [`parse_spec`] of the input.
    pub fn parse(data: &[u8]) -> (r: Result<Pickle, PickleError>)
        ensures
            match r {
                Ok(p) => parse_spec(data@) == Ok::<PickleVal, PickleError>(p.deep_view()),
                Err(e) => parse_spec(data@) == Err::<PickleVal, PickleError>(e),
            },
    {
        let mut reader = PickleParser::new();
        let mut cur = ByteCursor::new(data);
        match reader.read(&mut cur) {
            Err(e) => {
                return Err(e);
            },
            Ok(()) => (),
        }
        match reader.stack.pop() {
            Ok(p) => Ok(p),
            Err(e) => Err(e),
        }
    }
}

/// A complete stream: when the reference machine runs to the terminal
/// opcode with exactly one value on the stack, the parse returns exactly
/// that value.
pub proof fn lemma_parse_complete(bytes: Seq<u8>, v: PickleVal)
    requires
        spec_run(bytes, init_state(0)) matches Ok(st) && st.stack == seq![StackEntry::Val(v)],
    ensures
        parse_spec(bytes) == Ok::<PickleVal, PickleError>(v),
{
    let st = spec_run(bytes, init_state(0))->Ok_0;
    assert(st.stack.last() == StackEntry::Val(v));
}

/// Memo round-trip: retrieving an index right after storing to it yields
/// the stored value, whatever the table held before.
pub proof fn lemma_memo_round_trip(m: Seq<MemoEntry>, i: int, v: PickleVal)
    requires
        0 <= i,
    ensures
        smemo_get(smemo_set(m, i, v), i) == Ok::<PickleVal, PickleError>(v),
{
}

/// The stack image of a run of plain values.
pub open spec fn vals_entries(xs: Seq<PickleVal>) -> Seq<StackEntry> {
    Seq::new(xs.len(), |i: int| StackEntry::Val(xs[i]))
}

/// Popping to the mark returns the values pushed since the mark, in their
/// original push order, and uncovers the stack below the mark.
pub proof fn lemma_pop_mark_order(s: Seq<StackEntry>, xs: Seq<PickleVal>)
    ensures
        spop_mark(s.push(StackEntry::Mark) + vals_entries(xs)) == Ok::<
            (Seq<PickleVal>, Seq<StackEntry>),
            PickleError,
        >((xs, s)),
    decreases xs.len(),
{
    let full = s.push(StackEntry::Mark) + vals_entries(xs);
    if xs.len() == 0 {
        assert(full =~= s.push(StackEntry::Mark));
        assert(full.last() == StackEntry::Mark);
        assert(full.drop_last() =~= s);
        assert(xs =~= Seq::<PickleVal>::empty());
    } else {
        let ys = xs.drop_last();
        lemma_pop_mark_order(s, ys);
        assert(full.last() == StackEntry::Val(xs.last()));
        assert(full.drop_last() =~= s.push(StackEntry::Mark) + vals_entries(ys));
        assert(ys.push(xs.last()) =~= xs);
    }
}

/// Popping to the mark on a stack that holds no mark is a
/// stack-discipline error.
pub proof fn lemma_pop_mark_no_mark(s: Seq<StackEntry>)
    requires
        forall|i: int| 0 <= i < s.len() ==> s[i] != StackEntry::Mark,
    ensures
        spop_mark(s) == Err::<(Seq<PickleVal>, Seq<StackEntry>), PickleError>(
            PickleError::StackEmpty,
        ),
    decreases s.len(),
{
    if s.len() > 0 {
        lemma_pop_mark_no_mark(s.drop_last());
    }
}

} // verus!
