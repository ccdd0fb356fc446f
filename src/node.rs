//! A node's registers and lifecycle, and the single-step executor.
use vstd::prelude::*;
use crate::dir::Dir;
use crate::program::{Dst, Instruction, NODE_LINES, Op, Program, Src};

verus! {

/// The value a node offers to its neighbours, until one of them takes it.
#[derive(PartialEq, Eq, Structural, Clone, Copy, Debug)]
pub enum NodeOutbox {
    Empty,
    Directional(Dir, i8),
    Any(i8),
}

/// Whether a stop found something running.
#[derive(PartialEq, Eq, Structural, Clone, Copy, Debug)]
pub enum StopResult {
    WasAlreadyStopped,
    Stopped,
}

impl StopResult {
    /// Folds in the result of stopping one more node: stopped if either was.
    pub fn reconcile(&mut self, other: StopResult)
        ensures
            (*final(self) == StopResult::Stopped) <==> (*old(self) == StopResult::Stopped
                || other == StopResult::Stopped),
    {
        match self {
            StopResult::WasAlreadyStopped => *self = other,
            StopResult::Stopped => {},
        }
    }
}

/// A source operand with the registers read: a value, or a port to wait on.
#[derive(PartialEq, Eq, Structural, Clone, Copy, Debug)]
pub enum ResolvedSrc {
    Value(i8),
    Dir(Dir),
    Any,
}

/// A destination operand with `LAST` settled.
#[derive(PartialEq, Eq, Structural, Clone, Copy, Debug)]
pub enum ResolvedDst {
    Nil,
    Acc,
    Dir(Dir),
    Any,
}

/// What an instruction does with the value it waits for.
#[derive(PartialEq, Eq, Structural, Clone, Copy, Debug)]
pub enum ReadContinuation {
    Mov(ResolvedDst),
    Add,
    Sub,
    Jro,
}

/// What one step of a running node asks of the grid.
#[derive(PartialEq, Eq, Structural, Clone, Copy, Debug)]
pub enum ExecNodeIO {
    /// Nothing: the step was done locally.
    Local,
    /// A value from the neighbour in that direction.
    InDir(Dir, ReadContinuation),
    /// A value from whichever neighbour offers one.
    InAny(ReadContinuation),
    /// To offer a value; the node stalls until it is taken.
    Out(NodeOutbox),
}

/// The registers of a running node, with its program.
pub struct RuntimeView {
    pub code: Seq<Instruction<u8>>,
    pub ip: u8,
    pub acc: i8,
    pub bak: i8,
    pub last: Option<Dir>,
}

impl RuntimeView {
    /// The instruction pointer is in the program, which is not empty.
    pub open spec fn wf(self) -> bool {
        0 < self.code.len() <= NODE_LINES && self.ip < self.code.len()
    }

    pub open spec fn with_ip(self, ip: u8) -> RuntimeView {
        RuntimeView { ip, ..self }
    }

    pub open spec fn with_acc(self, acc: i8) -> RuntimeView {
        RuntimeView { acc, ..self }
    }

    pub open spec fn with_last(self, d: Dir) -> RuntimeView {
        RuntimeView { last: Some(d), ..self }
    }

    pub open spec fn current(self) -> Instruction<u8> {
        self.code[self.ip as int]
    }

    /// The instruction after the current one, wrapping to the first.
    pub open spec fn next_ip(self) -> u8 {
        if self.ip + 1 >= self.code.len() {
            0
        } else {
            (self.ip + 1) as u8
        }
    }

    /// The target of a jump; a label at the very end wraps to the first.
    pub open spec fn jump_ip(self, t: u8) -> u8 {
        if t < self.code.len() {
            t
        } else {
            0
        }
    }

    /// A relative jump, clamped to the program.
    pub open spec fn jro_ip(self, v: i8) -> u8 {
        let t = self.ip + v;
        if t < 0 {
            0
        } else if t >= self.code.len() {
            (self.code.len() - 1) as u8
        } else {
            t as u8
        }
    }

    pub open spec fn advance(self) -> RuntimeView {
        self.with_ip(self.next_ip())
    }
}

/// An integer clamped to the `i8` range.
pub open spec fn sat(v: int) -> i8 {
    if v > 127 {
        127i8
    } else if v < -128 {
        -128i8
    } else {
        v as i8
    }
}

pub open spec fn spec_resolve_src(rt: RuntimeView, src: Src) -> ResolvedSrc {
    match src {
        Src::Acc => ResolvedSrc::Value(rt.acc),
        Src::Imm(v) => ResolvedSrc::Value(v),
        Src::Nil => ResolvedSrc::Value(0),
        Src::Dir(d) => ResolvedSrc::Dir(d),
        Src::Any => ResolvedSrc::Any,
        Src::Last => match rt.last {
            Some(d) => ResolvedSrc::Dir(d),
            None => ResolvedSrc::Value(0),
        },
    }
}

pub open spec fn spec_resolve_dst(rt: RuntimeView, dst: Dst) -> ResolvedDst {
    match dst {
        Dst::Acc => ResolvedDst::Acc,
        Dst::Dir(d) => ResolvedDst::Dir(d),
        Dst::Any => ResolvedDst::Any,
        Dst::Last => match rt.last {
            Some(d) => ResolvedDst::Dir(d),
            None => ResolvedDst::Nil,
        },
        Dst::Nil => ResolvedDst::Nil,
    }
}

/// The registers and outbox after the current instruction gets value `v`.
pub open spec fn spec_continue(rt: RuntimeView, k: ReadContinuation, v: i8) -> (RuntimeView, NodeOutbox) {
    match k {
        ReadContinuation::Mov(ResolvedDst::Nil) => (rt.advance(), NodeOutbox::Empty),
        ReadContinuation::Mov(ResolvedDst::Acc) => (rt.with_acc(v).advance(), NodeOutbox::Empty),
        ReadContinuation::Mov(ResolvedDst::Dir(d)) => (rt, NodeOutbox::Directional(d, v)),
        ReadContinuation::Mov(ResolvedDst::Any) => (rt, NodeOutbox::Any(v)),
        ReadContinuation::Add => (rt.with_acc(sat(rt.acc + v)).advance(), NodeOutbox::Empty),
        ReadContinuation::Sub => (rt.with_acc(sat(rt.acc - v)).advance(), NodeOutbox::Empty),
        ReadContinuation::Jro => (rt.with_ip(rt.jro_ip(v)), NodeOutbox::Empty),
    }
}

/// What an instruction reading `src` asks for, given its continuation.
pub open spec fn spec_read(rt: RuntimeView, src: Src, k: ReadContinuation) -> (RuntimeView, ExecNodeIO) {
    match spec_resolve_src(rt, src) {
        ResolvedSrc::Value(v) => {
            let (rt2, out) = spec_continue(rt, k, v);
            (rt2, if out == NodeOutbox::Empty { ExecNodeIO::Local } else { ExecNodeIO::Out(out) })
        },
        ResolvedSrc::Dir(d) => (rt, ExecNodeIO::InDir(d, k)),
        ResolvedSrc::Any => (rt, ExecNodeIO::InAny(k)),
    }
}

pub open spec fn spec_cond_jump(rt: RuntimeView, taken: bool, t: u8) -> RuntimeView {
    if taken {
        rt.with_ip(rt.jump_ip(t))
    } else {
        rt.advance()
    }
}

/// One step of a running node: the registers after it, and what it asks of
/// the grid. A read or a write to a port leaves the registers as they were.
pub open spec fn spec_step(rt: RuntimeView) -> (RuntimeView, ExecNodeIO) {
    match rt.current().op {
        Op::Mov(src, dst) => spec_read(rt, src, ReadContinuation::Mov(spec_resolve_dst(rt, dst))),
        Op::Nop => (rt.advance(), ExecNodeIO::Local),
        Op::Swp => (RuntimeView { acc: rt.bak, bak: rt.acc, ..rt }.advance(), ExecNodeIO::Local),
        Op::Sav => (RuntimeView { bak: rt.acc, ..rt }.advance(), ExecNodeIO::Local),
        Op::Add(src) => spec_read(rt, src, ReadContinuation::Add),
        Op::Sub(src) => spec_read(rt, src, ReadContinuation::Sub),
        Op::Neg => (rt.with_acc(sat(-rt.acc)).advance(), ExecNodeIO::Local),
        Op::Jmp(t) => (spec_cond_jump(rt, true, t), ExecNodeIO::Local),
        Op::Jez(t) => (spec_cond_jump(rt, rt.acc == 0, t), ExecNodeIO::Local),
        Op::Jnz(t) => (spec_cond_jump(rt, rt.acc != 0, t), ExecNodeIO::Local),
        Op::Jgz(t) => (spec_cond_jump(rt, rt.acc > 0, t), ExecNodeIO::Local),
        Op::Jlz(t) => (spec_cond_jump(rt, rt.acc < 0, t), ExecNodeIO::Local),
        Op::Jro(src) => spec_read(rt, src, ReadContinuation::Jro),
    }
}

/// The registers of a running node, with its program.
pub struct ExecNodeRuntime {
    code: Program,
    ip: u8,
    acc: i8,
    bak: i8,
    last: Option<Dir>,
}

impl View for ExecNodeRuntime {
    type V = RuntimeView;

    closed spec fn view(&self) -> RuntimeView {
        RuntimeView { code: self.code@, ip: self.ip, acc: self.acc, bak: self.bak, last: self.last }
    }
}

/// `a + b`, clamped to the `i8` range.
fn saturating_add(a: i8, b: i8) -> (r: i8)
    ensures
        r == sat(a + b),
{
    let s: i16 = a as i16 + b as i16;
    if s > 127 {
        127
    } else if s < -128 {
        -128
    } else {
        s as i8
    }
}

/// `a - b`, clamped to the `i8` range.
fn saturating_sub(a: i8, b: i8) -> (r: i8)
    ensures
        r == sat(a - b),
{
    let s: i16 = a as i16 - b as i16;
    if s > 127 {
        127
    } else if s < -128 {
        -128
    } else {
        s as i8
    }
}

impl ExecNodeRuntime {
    /// A fresh start of `code`: registers zero, no port used yet.
    pub fn start(code: Program) -> (r: ExecNodeRuntime)
        requires
            code@.len() > 0,
        ensures
            r@ == (RuntimeView { code: code@, ip: 0, acc: 0, bak: 0, last: None }),
            r@.wf(),
    {
        let len = code.len();
        assert(len <= NODE_LINES);
        ExecNodeRuntime { code, ip: 0, acc: 0, bak: 0, last: None }
    }

    pub fn ip(&self) -> (r: u8)
        ensures
            r == self@.ip,
    {
        self.ip
    }

    pub fn acc(&self) -> (r: i8)
        ensures
            r == self@.acc,
    {
        self.acc
    }

    pub fn bak(&self) -> (r: i8)
        ensures
            r == self@.bak,
    {
        self.bak
    }

    pub fn last(&self) -> (r: Option<Dir>)
        ensures
            r == self@.last,
    {
        self.last
    }

    /// The instruction about to run.
    pub fn current(&self) -> (r: Instruction<u8>)
        requires
            self@.wf(),
        ensures
            r == self@.current(),
    {
        self.code.get(self.ip as usize)
    }

    /// The program, detached from the registers.
    pub fn into_code(self) -> (r: Program)
        ensures
            r@ == self@.code,
    {
        self.code
    }

    pub fn duplicate(&self) -> (r: ExecNodeRuntime)
        ensures
            r@ == self@,
    {
        ExecNodeRuntime {
            code: self.code.duplicate(),
            ip: self.ip,
            acc: self.acc,
            bak: self.bak,
            last: self.last,
        }
    }

    /// Moves to the next instruction, wrapping to the first after the last.
    fn inc_ip(&mut self)
        requires
            old(self)@.wf(),
        ensures
            final(self)@ == old(self)@.advance(),
            final(self)@.wf(),
    {
        let n = self.code.len();
        if self.ip as usize + 1 >= n {
            self.ip = 0;
        } else {
            self.ip = self.ip + 1;
        }
    }

    fn resolve_src(&self, src: Src) -> (r: ResolvedSrc)
        ensures
            r == spec_resolve_src(self@, src),
    {
        match src {
            Src::Acc => ResolvedSrc::Value(self.acc),
            Src::Imm(immediate) => ResolvedSrc::Value(immediate),
            Src::Nil => ResolvedSrc::Value(0),
            Src::Dir(dir) => ResolvedSrc::Dir(dir),
            Src::Any => ResolvedSrc::Any,
            Src::Last => match self.last {
                Some(last) => ResolvedSrc::Dir(last),
                None => ResolvedSrc::Value(0),
            },
        }
    }

    fn resolve_dst(&self, dst: Dst) -> (r: ResolvedDst)
        ensures
            r == spec_resolve_dst(self@, dst),
    {
        match dst {
            Dst::Acc => ResolvedDst::Acc,
            Dst::Dir(dir) => ResolvedDst::Dir(dir),
            Dst::Any => ResolvedDst::Any,
            Dst::Last => match self.last {
                Some(last) => ResolvedDst::Dir(last),
                None => ResolvedDst::Nil,
            },
            Dst::Nil => ResolvedDst::Nil,
        }
    }

    /// Finishes the current instruction with the value it waited for.
    pub fn read_continuation(&mut self, and_then: ReadContinuation, input: i8) -> (r: NodeOutbox)
        requires
            old(self)@.wf(),
        ensures
            (final(self)@, r) == spec_continue(old(self)@, and_then, input),
            final(self)@.wf(),
    {
        match and_then {
            ReadContinuation::Mov(ResolvedDst::Nil) => {
                self.inc_ip();
                NodeOutbox::Empty
            },
            ReadContinuation::Mov(ResolvedDst::Acc) => {
                self.acc = input;
                self.inc_ip();
                NodeOutbox::Empty
            },
            ReadContinuation::Mov(ResolvedDst::Dir(dir)) => NodeOutbox::Directional(dir, input),
            ReadContinuation::Mov(ResolvedDst::Any) => NodeOutbox::Any(input),
            ReadContinuation::Add => {
                self.acc = saturating_add(self.acc, input);
                self.inc_ip();
                NodeOutbox::Empty
            },
            ReadContinuation::Sub => {
                self.acc = saturating_sub(self.acc, input);
                self.inc_ip();
                NodeOutbox::Empty
            },
            ReadContinuation::Jro => {
                let n = self.code.len();
                let t: i16 = self.ip as i16 + input as i16;
                if t < 0 {
                    self.ip = 0;
                } else if t as usize >= n {
                    self.ip = (n - 1) as u8;
                } else {
                    self.ip = t as u8;
                }
                NodeOutbox::Empty
            },
        }
    }

    /// Finishes a read from the neighbour in direction `from`, which becomes
    /// the last port used.
    pub fn receive(&mut self, and_then: ReadContinuation, from: Dir, input: i8) -> (r: NodeOutbox)
        requires
            old(self)@.wf(),
        ensures
            (final(self)@, r) == spec_continue(old(self)@.with_last(from), and_then, input),
            final(self)@.wf(),
    {
        self.last = Some(from);
        self.read_continuation(and_then, input)
    }

    /// Finishes the current write once the neighbour in direction `to` took
    /// the value.
    pub fn delivered(&mut self, to: Dir)
        requires
            old(self)@.wf(),
        ensures
            final(self)@ == old(self)@.with_last(to).advance(),
            final(self)@.wf(),
    {
        self.last = Some(to);
        self.inc_ip();
    }

    fn read(&mut self, src: Src, k: ReadContinuation) -> (r: ExecNodeIO)
        requires
            old(self)@.wf(),
        ensures
            (final(self)@, r) == spec_read(old(self)@, src, k),
            final(self)@.wf(),
    {
        match self.resolve_src(src) {
            ResolvedSrc::Value(v) => {
                let out = self.read_continuation(k, v);
                match out {
                    NodeOutbox::Empty => ExecNodeIO::Local,
                    _ => ExecNodeIO::Out(out),
                }
            },
            ResolvedSrc::Dir(d) => ExecNodeIO::InDir(d, k),
            ResolvedSrc::Any => ExecNodeIO::InAny(k),
        }
    }

    fn cond_jump(&mut self, taken: bool, t: u8)
        requires
            old(self)@.wf(),
        ensures
            final(self)@ == spec_cond_jump(old(self)@, taken, t),
            final(self)@.wf(),
    {
        if taken {
            let n = self.code.len();
            self.ip = if (t as usize) < n { t } else { 0 };
        } else {
            self.inc_ip();
        }
    }

    /// Runs at most one instruction. A local one completes; one that reads a
    /// port or writes to one changes nothing and says what it waits for.
    pub fn step(&mut self) -> (r: ExecNodeIO)
        requires
            old(self)@.wf(),
        ensures
            (final(self)@, r) == spec_step(old(self)@),
            final(self)@.wf(),
    {
        let ins = self.current();
        match ins.op {
            Op::Mov(src, dst) => {
                let d = self.resolve_dst(dst);
                self.read(src, ReadContinuation::Mov(d))
            },
            Op::Nop => {
                self.inc_ip();
                ExecNodeIO::Local
            },
            Op::Swp => {
                let a = self.acc;
                self.acc = self.bak;
                self.bak = a;
                self.inc_ip();
                ExecNodeIO::Local
            },
            Op::Sav => {
                self.bak = self.acc;
                self.inc_ip();
                ExecNodeIO::Local
            },
            Op::Add(src) => self.read(src, ReadContinuation::Add),
            Op::Sub(src) => self.read(src, ReadContinuation::Sub),
            Op::Neg => {
                self.acc = saturating_sub(0, self.acc);
                self.inc_ip();
                ExecNodeIO::Local
            },
            Op::Jmp(t) => {
                self.cond_jump(true, t);
                ExecNodeIO::Local
            },
            Op::Jez(t) => {
                let c = self.acc == 0;
                self.cond_jump(c, t);
                ExecNodeIO::Local
            },
            Op::Jnz(t) => {
                let c = self.acc != 0;
                self.cond_jump(c, t);
                ExecNodeIO::Local
            },
            Op::Jgz(t) => {
                let c = self.acc > 0;
                self.cond_jump(c, t);
                ExecNodeIO::Local
            },
            Op::Jlz(t) => {
                let c = self.acc < 0;
                self.cond_jump(c, t);
                ExecNodeIO::Local
            },
            Op::Jro(src) => self.read(src, ReadContinuation::Jro),
        }
    }
}

/// `JRO 0` jumps to itself: a step leaves every register, the pointer
/// included, as it was, and asks nothing of the grid; so it stalls forever.
pub proof fn lemma_jro_zero_stalls(rt: RuntimeView)
    requires
        rt.wf(),
        rt.current().op == Op::<u8>::Jro(Src::Imm(0)),
    ensures
        spec_step(rt) == (rt, ExecNodeIO::Local),
{
    assert(rt.jro_ip(0) == rt.ip);
    assert(rt.with_ip(rt.ip) == rt);
}

/// A step of a running node keeps its pointer inside its program.
pub proof fn lemma_step_keeps_ip(rt: RuntimeView)
    requires
        rt.wf(),
    ensures
        spec_step(rt).0.wf(),
        spec_step(rt).0.ip < rt.code.len(),
{
}

} // verus!
