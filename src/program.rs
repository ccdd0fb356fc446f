//! The node assembly language: its instructions, and the parser that turns a
//! node's source text into a label-resolved program.
use vstd::prelude::*;
use arrayvec::ArrayVec;
use crate::dir::Dir;
use crate::storage::{code_clone, code_get, code_items, code_len, code_new, code_push};
use crate::text::{
    chars_eq, chars_of, find_char, find_from, int_literal, is_word, parse_i8, slice_of, split_lines,
    split_on, tokens, tokens_of, views,
};

verus! {

/// Characters a node's line may hold.
pub const NODE_LINE_LENGTH: usize = 18;

/// Lines a node's text may hold, and so instructions a program may hold.
pub const NODE_LINES: usize = 15;

/// Bytes a node's text may take, newlines included.
pub const NODE_TEXT_BUFFER_SIZE: usize = (NODE_LINE_LENGTH + 1) * NODE_LINES;

/// Where an instruction takes a value from.
#[derive(PartialEq, Eq, Structural, Clone, Copy, Debug)]
pub enum Src {
    Imm(i8),
    Dir(Dir),
    Acc,
    Nil,
    Any,
    Last,
}

/// Where an instruction puts a value.
#[derive(PartialEq, Eq, Structural, Clone, Copy, Debug)]
pub enum Dst {
    Dir(Dir),
    Acc,
    Nil,
    Any,
    Last,
}

/// An operation; `L` is how a jump names its target: by label text while
/// parsing, by instruction index once resolved.
#[derive(PartialEq, Eq, Structural, Clone, Copy, Debug)]
pub enum Op<L> {
    Mov(Src, Dst),
    Nop,
    Swp,
    Sav,
    Add(Src),
    Sub(Src),
    Neg,
    Jmp(L),
    Jez(L),
    Jnz(L),
    Jgz(L),
    Jlz(L),
    Jro(Src),
}

/// An operation together with the source line it came from.
#[derive(PartialEq, Eq, Structural, Clone, Copy, Debug)]
pub struct Instruction<L> {
    pub op: Op<L>,
    pub src_line: u8,
}

/// What is wrong with a line of node text.
#[derive(PartialEq, Eq, Structural, Clone, Copy, Debug)]
pub enum ParseProblem {
    NotEnoughArgs,
    TooManyArgs,
    InvalidSrc,
    InvalidDst,
    InvalidInstruction,
    UndefinedLabel,
}

/// The first problem found in a node's text, and its line.
#[derive(PartialEq, Eq, Structural, Clone, Copy, Debug)]
pub struct ParseErr {
    pub problem: ParseProblem,
    pub line: u8,
}

impl ParseProblem {
    pub open spec fn spec_to_str(self) -> &'static str {
        match self {
            ParseProblem::NotEnoughArgs => "NOT ENOUGH ARGS",
            ParseProblem::TooManyArgs => "TOO MANY ARGS",
            ParseProblem::InvalidSrc => "INVALID SOURCE ARG",
            ParseProblem::InvalidDst => "INVALID DESTINATION ARG",
            ParseProblem::InvalidInstruction => "INVALID OPCODE",
            ParseProblem::UndefinedLabel => "UNDEFINED LABEL",
        }
    }

    /// The tag shown to the user for this problem.
    pub fn to_str(&self) -> (r: &'static str)
        ensures
            r == self.spec_to_str(),
    {
        match self {
            ParseProblem::NotEnoughArgs => "NOT ENOUGH ARGS",
            ParseProblem::TooManyArgs => "TOO MANY ARGS",
            ParseProblem::InvalidSrc => "INVALID SOURCE ARG",
            ParseProblem::InvalidDst => "INVALID DESTINATION ARG",
            ParseProblem::InvalidInstruction => "INVALID OPCODE",
            ParseProblem::UndefinedLabel => "UNDEFINED LABEL",
        }
    }
}

/// A label-resolved program of at most `NODE_LINES` instructions.
pub struct Program {
    code: ArrayVec<Instruction<u8>, NODE_LINES>,
}

impl View for Program {
    type V = Seq<Instruction<u8>>;

    closed spec fn view(&self) -> Seq<Instruction<u8>> {
        code_items(self.code)
    }
}

impl Program {
    pub fn new() -> (r: Program)
        ensures
            r@ == Seq::<Instruction<u8>>::empty(),
    {
        Program { code: code_new() }
    }

    pub fn len(&self) -> (r: usize)
        ensures
            r == self@.len(),
            r <= NODE_LINES,
    {
        code_len(&self.code)
    }

    pub fn is_empty(&self) -> (r: bool)
        ensures
            r == (self@.len() == 0),
    {
        code_len(&self.code) == 0
    }

    pub fn get(&self, i: usize) -> (r: Instruction<u8>)
        requires
            i < self@.len(),
        ensures
            r == self@[i as int],
    {
        code_get(&self.code, i)
    }

    pub fn push(&mut self, i: Instruction<u8>)
        requires
            old(self)@.len() < NODE_LINES,
        ensures
            final(self)@ == old(self)@.push(i),
    {
        code_push(&mut self.code, i)
    }

    pub fn duplicate(&self) -> (r: Program)
        ensures
            r@ == self@,
    {
        Program { code: code_clone(&self.code) }
    }
}

/// A source operand token: a register or port name, or an `i8` literal.
pub open spec fn spec_src(t: Seq<char>) -> Option<Src> {
    if t == "ACC"@ {
        Some(Src::Acc)
    } else if t == "UP"@ {
        Some(Src::Dir(Dir::Up))
    } else if t == "DOWN"@ {
        Some(Src::Dir(Dir::Down))
    } else if t == "LEFT"@ {
        Some(Src::Dir(Dir::Left))
    } else if t == "RIGHT"@ {
        Some(Src::Dir(Dir::Right))
    } else if t == "NIL"@ {
        Some(Src::Nil)
    } else if t == "ANY"@ {
        Some(Src::Any)
    } else if t == "LAST"@ {
        Some(Src::Last)
    } else if int_literal(t) is Some && -128 <= int_literal(t)->0 <= 127 {
        Some(Src::Imm(int_literal(t)->0 as i8))
    } else {
        None
    }
}

/// A destination operand token: a register or port name; never a literal.
pub open spec fn spec_dst(t: Seq<char>) -> Option<Dst> {
    if t == "ACC"@ {
        Some(Dst::Acc)
    } else if t == "UP"@ {
        Some(Dst::Dir(Dir::Up))
    } else if t == "DOWN"@ {
        Some(Dst::Dir(Dir::Down))
    } else if t == "LEFT"@ {
        Some(Dst::Dir(Dir::Left))
    } else if t == "RIGHT"@ {
        Some(Dst::Dir(Dir::Right))
    } else if t == "NIL"@ {
        Some(Dst::Nil)
    } else if t == "ANY"@ {
        Some(Dst::Any)
    } else if t == "LAST"@ {
        Some(Dst::Last)
    } else {
        None
    }
}

/// The source operand at token `i` of a line.
pub open spec fn arg_src(toks: Seq<Seq<char>>, i: int) -> Result<Src, ParseProblem> {
    if i >= toks.len() {
        Err(ParseProblem::NotEnoughArgs)
    } else {
        match spec_src(toks[i]) {
            Some(s) => Ok(s),
            None => Err(ParseProblem::InvalidSrc),
        }
    }
}

/// The destination operand at token `i` of a line.
pub open spec fn arg_dst(toks: Seq<Seq<char>>, i: int) -> Result<Dst, ParseProblem> {
    if i >= toks.len() {
        Err(ParseProblem::NotEnoughArgs)
    } else {
        match spec_dst(toks[i]) {
            Some(d) => Ok(d),
            None => Err(ParseProblem::InvalidDst),
        }
    }
}

/// The label operand at token `i` of a line: any token.
pub open spec fn arg_label(toks: Seq<Seq<char>>, i: int) -> Result<Seq<char>, ParseProblem> {
    if i >= toks.len() {
        Err(ParseProblem::NotEnoughArgs)
    } else {
        Ok(toks[i])
    }
}

pub open spec fn with_src(
    a: Result<Src, ParseProblem>,
    f: spec_fn(Src) -> Op<Seq<char>>,
) -> Result<(Op<Seq<char>>, int), ParseProblem> {
    match a {
        Err(p) => Err(p),
        Ok(s) => Ok((f(s), 2)),
    }
}

pub open spec fn with_label(
    a: Result<Seq<char>, ParseProblem>,
    f: spec_fn(Seq<char>) -> Op<Seq<char>>,
) -> Result<(Op<Seq<char>>, int), ParseProblem> {
    match a {
        Err(p) => Err(p),
        Ok(l) => Ok((f(l), 2)),
    }
}

/// The operation named by the first token, with its operands, and how many
/// tokens it takes.
pub open spec fn decode(toks: Seq<Seq<char>>) -> Result<(Op<Seq<char>>, int), ParseProblem> {
    let opc = toks[0];
    if opc == "MOV"@ {
        match arg_src(toks, 1) {
            Err(p) => Err(p),
            Ok(s) => match arg_dst(toks, 2) {
                Err(p) => Err(p),
                Ok(d) => Ok((Op::Mov(s, d), 3)),
            },
        }
    } else if opc == "NOP"@ {
        Ok((Op::Nop, 1))
    } else if opc == "SWP"@ {
        Ok((Op::Swp, 1))
    } else if opc == "SAV"@ {
        Ok((Op::Sav, 1))
    } else if opc == "ADD"@ {
        with_src(arg_src(toks, 1), |s: Src| Op::Add(s))
    } else if opc == "SUB"@ {
        with_src(arg_src(toks, 1), |s: Src| Op::Sub(s))
    } else if opc == "NEG"@ {
        Ok((Op::Neg, 1))
    } else if opc == "JMP"@ {
        with_label(arg_label(toks, 1), |l: Seq<char>| Op::Jmp(l))
    } else if opc == "JEZ"@ {
        with_label(arg_label(toks, 1), |l: Seq<char>| Op::Jez(l))
    } else if opc == "JNZ"@ {
        with_label(arg_label(toks, 1), |l: Seq<char>| Op::Jnz(l))
    } else if opc == "JGZ"@ {
        with_label(arg_label(toks, 1), |l: Seq<char>| Op::Jgz(l))
    } else if opc == "JLZ"@ {
        with_label(arg_label(toks, 1), |l: Seq<char>| Op::Jlz(l))
    } else if opc == "JRO"@ {
        with_src(arg_src(toks, 1), |s: Src| Op::Jro(s))
    } else {
        Err(ParseProblem::InvalidInstruction)
    }
}

/// The operation a line's tokens hold: none for an empty line.
pub open spec fn line_op(toks: Seq<Seq<char>>) -> Result<Option<Op<Seq<char>>>, ParseProblem> {
    if toks.len() == 0 {
        Ok(None)
    } else {
        match decode(toks) {
            Err(p) => Err(p),
            Ok((op, n)) => if toks.len() > n {
                Err(ParseProblem::TooManyArgs)
            } else {
                Ok(Some(op))
            },
        }
    }
}

/// A line without its comment: everything before the first `#`.
pub open spec fn strip_comment(line: Seq<char>) -> Seq<char> {
    line.take(find_from(line, '#', 0))
}

/// The label a line declares: the text before its first `:`.
pub open spec fn label_of(sem: Seq<char>) -> Option<Seq<char>> {
    let k = find_from(sem, ':', 0);
    if k < sem.len() {
        Some(sem.take(k))
    } else {
        None
    }
}

/// The instruction text of a line: what follows its first `:`, if any.
pub open spec fn op_text(sem: Seq<char>) -> Seq<char> {
    let k = find_from(sem, ':', 0);
    if k < sem.len() {
        sem.skip(k + 1)
    } else {
        sem
    }
}

pub type RawCode = Seq<Instruction<Seq<char>>>;

pub type Labels = Seq<(Seq<char>, nat)>;

/// The instructions, with jumps still naming labels, and the label
/// declarations, in order, of the given lines; or the first line's problem.
pub open spec fn parse_lines(lines: Seq<Seq<char>>) -> Result<(RawCode, Labels), ParseErr>
    decreases lines.len(),
{
    if lines.len() == 0 {
        Ok((Seq::empty(), Seq::empty()))
    } else {
        match parse_lines(lines.drop_last()) {
            Err(e) => Err(e),
            Ok((code, labels)) => {
                let ln = (lines.len() - 1) as u8;
                let sem = strip_comment(lines.last());
                let labels2 = match label_of(sem) {
                    Some(l) => labels.push((l, code.len())),
                    None => labels,
                };
                match line_op(tokens(op_text(sem))) {
                    Err(p) => Err(ParseErr { problem: p, line: ln }),
                    Ok(None) => Ok((code, labels2)),
                    Ok(Some(op)) => Ok((code.push(Instruction { op, src_line: ln }), labels2)),
                }
            },
        }
    }
}

/// The instruction index a label stands for: its last declaration wins.
pub open spec fn lookup_label(labels: Labels, name: Seq<char>) -> Option<nat>
    decreases labels.len(),
{
    if labels.len() == 0 {
        None
    } else if labels.last().0 == name {
        Some(labels.last().1)
    } else {
        lookup_label(labels.drop_last(), name)
    }
}

pub open spec fn resolve_target(
    labels: Labels,
    l: Seq<char>,
    f: spec_fn(u8) -> Op<u8>,
) -> Option<Op<u8>> {
    match lookup_label(labels, l) {
        Some(t) => Some(f(t as u8)),
        None => None,
    }
}

/// An operation with its jump target resolved; `None` for an undefined label.
pub open spec fn resolve_op(op: Op<Seq<char>>, labels: Labels) -> Option<Op<u8>> {
    match op {
        Op::Mov(s, d) => Some(Op::Mov(s, d)),
        Op::Nop => Some(Op::Nop),
        Op::Swp => Some(Op::Swp),
        Op::Sav => Some(Op::Sav),
        Op::Add(s) => Some(Op::Add(s)),
        Op::Sub(s) => Some(Op::Sub(s)),
        Op::Neg => Some(Op::Neg),
        Op::Jmp(l) => resolve_target(labels, l, |t: u8| Op::Jmp(t)),
        Op::Jez(l) => resolve_target(labels, l, |t: u8| Op::Jez(t)),
        Op::Jnz(l) => resolve_target(labels, l, |t: u8| Op::Jnz(t)),
        Op::Jgz(l) => resolve_target(labels, l, |t: u8| Op::Jgz(t)),
        Op::Jlz(l) => resolve_target(labels, l, |t: u8| Op::Jlz(t)),
        Op::Jro(s) => Some(Op::Jro(s)),
    }
}

/// All jumps resolved in order; the first undefined label fails at its line.
pub open spec fn resolve_all(code: RawCode, labels: Labels) -> Result<Seq<Instruction<u8>>, ParseErr>
    decreases code.len(),
{
    if code.len() == 0 {
        Ok(Seq::empty())
    } else {
        match resolve_all(code.drop_last(), labels) {
            Err(e) => Err(e),
            Ok(done) => match resolve_op(code.last().op, labels) {
                None => Err(ParseErr { problem: ParseProblem::UndefinedLabel, line: code.last().src_line }),
                Some(op) => Ok(done.push(Instruction { op, src_line: code.last().src_line })),
            },
        }
    }
}

/// The lines of a node's text.
pub open spec fn text_lines(text: Seq<char>) -> Seq<Seq<char>> {
    split_on(text, '\n')
}

/// What a node's text parses to: its resolved instructions, or the first
/// problem found.
pub open spec fn parse_text(text: Seq<char>) -> Result<Seq<Instruction<u8>>, ParseErr> {
    match parse_lines(text_lines(text)) {
        Err(e) => Err(e),
        Ok((code, labels)) => resolve_all(code, labels),
    }
}

/// The instructions of a parse result, as a sequence.
pub open spec fn parsed(r: Result<Program, ParseErr>) -> Result<Seq<Instruction<u8>>, ParseErr> {
    match r {
        Ok(p) => Ok(p@),
        Err(e) => Err(e),
    }
}

/// A parse step's problem, placed at its line.
pub open spec fn at_line<T>(r: Result<T, ParseProblem>, line: u8) -> Result<T, ParseErr> {
    match r {
        Ok(x) => Ok(x),
        Err(p) => Err(ParseErr { problem: p, line }),
    }
}

/// An operation whose jump names its label by characters.
pub open spec fn raw_op_view(op: Op<Vec<char>>) -> Op<Seq<char>> {
    match op {
        Op::Mov(s, d) => Op::Mov(s, d),
        Op::Nop => Op::Nop,
        Op::Swp => Op::Swp,
        Op::Sav => Op::Sav,
        Op::Add(s) => Op::Add(s),
        Op::Sub(s) => Op::Sub(s),
        Op::Neg => Op::Neg,
        Op::Jmp(l) => Op::Jmp(l@),
        Op::Jez(l) => Op::Jez(l@),
        Op::Jnz(l) => Op::Jnz(l@),
        Op::Jgz(l) => Op::Jgz(l@),
        Op::Jlz(l) => Op::Jlz(l@),
        Op::Jro(s) => Op::Jro(s),
    }
}

pub open spec fn raw_instr_view(i: Instruction<Vec<char>>) -> Instruction<Seq<char>> {
    Instruction { op: raw_op_view(i.op), src_line: i.src_line }
}

pub open spec fn raw_view(code: Seq<Instruction<Vec<char>>>) -> RawCode {
    code.map_values(|i: Instruction<Vec<char>>| raw_instr_view(i))
}

pub open spec fn labels_view(l: Seq<(Vec<char>, u8)>) -> Labels {
    l.map_values(|p: (Vec<char>, u8)| (p.0@, p.1 as nat))
}

/// Reads a source operand token.
pub fn src_of(t: &Vec<char>) -> (r: Option<Src>)
    ensures
        r == spec_src(t@),
{
    let t = t.as_slice();
    if is_word(t, "ACC") {
        Some(Src::Acc)
    } else if is_word(t, "UP") {
        Some(Src::Dir(Dir::Up))
    } else if is_word(t, "DOWN") {
        Some(Src::Dir(Dir::Down))
    } else if is_word(t, "LEFT") {
        Some(Src::Dir(Dir::Left))
    } else if is_word(t, "RIGHT") {
        Some(Src::Dir(Dir::Right))
    } else if is_word(t, "NIL") {
        Some(Src::Nil)
    } else if is_word(t, "ANY") {
        Some(Src::Any)
    } else if is_word(t, "LAST") {
        Some(Src::Last)
    } else {
        match parse_i8(t) {
            Some(v) => Some(Src::Imm(v)),
            None => None,
        }
    }
}

/// Reads a destination operand token.
pub fn dst_of(t: &Vec<char>) -> (r: Option<Dst>)
    ensures
        r == spec_dst(t@),
{
    let t = t.as_slice();
    if is_word(t, "ACC") {
        Some(Dst::Acc)
    } else if is_word(t, "UP") {
        Some(Dst::Dir(Dir::Up))
    } else if is_word(t, "DOWN") {
        Some(Dst::Dir(Dir::Down))
    } else if is_word(t, "LEFT") {
        Some(Dst::Dir(Dir::Left))
    } else if is_word(t, "RIGHT") {
        Some(Dst::Dir(Dir::Right))
    } else if is_word(t, "NIL") {
        Some(Dst::Nil)
    } else if is_word(t, "ANY") {
        Some(Dst::Any)
    } else if is_word(t, "LAST") {
        Some(Dst::Last)
    } else {
        None
    }
}

/// The source operand at token `i`, or the problem with it.
pub fn expect_src(tokens: &Vec<Vec<char>>, i: usize, line: u8) -> (r: Result<Src, ParseErr>)
    ensures
        r == at_line(arg_src(views(tokens@), i as int), line),
{
    if i >= tokens.len() {
        return Err(ParseErr { problem: ParseProblem::NotEnoughArgs, line });
    }
    match src_of(&tokens[i]) {
        Some(s) => Ok(s),
        None => Err(ParseErr { problem: ParseProblem::InvalidSrc, line }),
    }
}

/// The destination operand at token `i`, or the problem with it.
pub fn expect_dst(tokens: &Vec<Vec<char>>, i: usize, line: u8) -> (r: Result<Dst, ParseErr>)
    ensures
        r == at_line(arg_dst(views(tokens@), i as int), line),
{
    if i >= tokens.len() {
        return Err(ParseErr { problem: ParseProblem::NotEnoughArgs, line });
    }
    match dst_of(&tokens[i]) {
        Some(d) => Ok(d),
        None => Err(ParseErr { problem: ParseProblem::InvalidDst, line }),
    }
}

/// The label operand at token `i`, or the problem with it.
pub fn expect_label(tokens: &Vec<Vec<char>>, i: usize, line: u8) -> (r: Result<Vec<char>, ParseErr>)
    ensures
        match r {
            Ok(l) => arg_label(views(tokens@), i as int) == Ok::<Seq<char>, ParseProblem>(l@),
            Err(e) => at_line(arg_label(views(tokens@), i as int), line) == Err::<Seq<char>, ParseErr>(e),
        },
{
    if i >= tokens.len() {
        return Err(ParseErr { problem: ParseProblem::NotEnoughArgs, line });
    }
    let t = &tokens[i];
    let l = slice_of(t.as_slice(), 0, t.len());
    assert(l@ =~= t@);
    assert(views(tokens@)[i as int] == tokens@[i as int]@);
    Ok(l)
}

/// The operation on a line, given its tokens.
pub fn decode_line(toks: &Vec<Vec<char>>, line: u8) -> (r: Result<Option<Op<Vec<char>>>, ParseErr>)
    ensures
        match r {
            Ok(None) => line_op(views(toks@)) == Ok::<Option<Op<Seq<char>>>, ParseProblem>(None),
            Ok(Some(op)) => line_op(views(toks@)) == Ok::<Option<Op<Seq<char>>>, ParseProblem>(Some(raw_op_view(op))),
            Err(e) => at_line(line_op(views(toks@)), line) == Err::<Option<Op<Seq<char>>>, ParseErr>(e),
        },
{
    if toks.len() == 0 {
        return Ok(None);
    }
    let opc = toks[0].as_slice();
    let ghost tv = views(toks@);
    let n: usize;
    let op: Op<Vec<char>>;
    if is_word(opc, "MOV") {
        let s = expect_src(toks, 1, line)?;
        let d = expect_dst(toks, 2, line)?;
        op = Op::Mov(s, d);
        n = 3;
    } else if is_word(opc, "NOP") {
        op = Op::Nop;
        n = 1;
    } else if is_word(opc, "SWP") {
        op = Op::Swp;
        n = 1;
    } else if is_word(opc, "SAV") {
        op = Op::Sav;
        n = 1;
    } else if is_word(opc, "ADD") {
        op = Op::Add(expect_src(toks, 1, line)?);
        n = 2;
    } else if is_word(opc, "SUB") {
        op = Op::Sub(expect_src(toks, 1, line)?);
        n = 2;
    } else if is_word(opc, "NEG") {
        op = Op::Neg;
        n = 1;
    } else if is_word(opc, "JMP") {
        op = Op::Jmp(expect_label(toks, 1, line)?);
        n = 2;
    } else if is_word(opc, "JEZ") {
        op = Op::Jez(expect_label(toks, 1, line)?);
        n = 2;
    } else if is_word(opc, "JNZ") {
        op = Op::Jnz(expect_label(toks, 1, line)?);
        n = 2;
    } else if is_word(opc, "JGZ") {
        op = Op::Jgz(expect_label(toks, 1, line)?);
        n = 2;
    } else if is_word(opc, "JLZ") {
        op = Op::Jlz(expect_label(toks, 1, line)?);
        n = 2;
    } else if is_word(opc, "JRO") {
        op = Op::Jro(expect_src(toks, 1, line)?);
        n = 2;
    } else {
        return Err(ParseErr { problem: ParseProblem::InvalidInstruction, line });
    }
    assert(decode(tv) == Ok::<(Op<Seq<char>>, int), ParseProblem>((raw_op_view(op), n as int)));
    if toks.len() > n {
        return Err(ParseErr { problem: ParseProblem::TooManyArgs, line });
    }
    Ok(Some(op))
}

/// Once a prefix of the lines fails, every longer prefix fails the same way.
pub proof fn lemma_parse_lines_err_stays(lines: Seq<Seq<char>>, i: int, e: ParseErr)
    requires
        0 <= i <= lines.len(),
        parse_lines(lines.take(i)) == Err::<(RawCode, Labels), ParseErr>(e),
    ensures
        parse_lines(lines) == Err::<(RawCode, Labels), ParseErr>(e),
    decreases lines.len() - i,
{
    if i < lines.len() {
        assert(lines.take(i + 1).drop_last() =~= lines.take(i));
        lemma_parse_lines_err_stays(lines, i + 1, e);
    } else {
        assert(lines.take(i) =~= lines);
    }
}

/// Once a prefix of the code fails to resolve, every longer prefix fails the
/// same way.
pub proof fn lemma_resolve_err_stays(code: RawCode, labels: Labels, i: int, e: ParseErr)
    requires
        0 <= i <= code.len(),
        resolve_all(code.take(i), labels) == Err::<Seq<Instruction<u8>>, ParseErr>(e),
    ensures
        resolve_all(code, labels) == Err::<Seq<Instruction<u8>>, ParseErr>(e),
    decreases code.len() - i,
{
    if i < code.len() {
        assert(code.take(i + 1).drop_last() =~= code.take(i));
        lemma_resolve_err_stays(code, labels, i + 1, e);
    } else {
        assert(code.take(i) =~= code);
    }
}

/// The index the last declaration of `name` stands for.
fn lookup(labels: &Vec<(Vec<char>, u8)>, name: &Vec<char>) -> (r: Option<u8>)
    ensures
        match r {
            Some(t) => lookup_label(labels_view(labels@), name@) == Some(t as nat),
            None => lookup_label(labels_view(labels@), name@) is None,
        },
{
    let ghost lv = labels_view(labels@);
    let mut j = labels.len();
    assert(lv.take(j as int) =~= lv);
    while j > 0
        invariant
            j <= labels@.len(),
            lv == labels_view(labels@),
            lookup_label(lv, name@) == lookup_label(lv.take(j as int), name@),
        decreases j,
    {
        let entry = &labels[j - 1];
        assert(lv.take(j as int).drop_last() =~= lv.take(j as int - 1));
        assert(lv.take(j as int).last() == (entry.0@, entry.1 as nat));
        if chars_eq(entry.0.as_slice(), name.as_slice()) {
            return Some(entry.1);
        }
        j = j - 1;
    }
    None
}

/// An operation with its jump label replaced by the instruction index.
fn resolve(op: &Op<Vec<char>>, labels: &Vec<(Vec<char>, u8)>) -> (r: Option<Op<u8>>)
    ensures
        r == resolve_op(raw_op_view(*op), labels_view(labels@)),
{
    match op {
        Op::Mov(s, d) => Some(Op::Mov(*s, *d)),
        Op::Nop => Some(Op::Nop),
        Op::Swp => Some(Op::Swp),
        Op::Sav => Some(Op::Sav),
        Op::Add(s) => Some(Op::Add(*s)),
        Op::Sub(s) => Some(Op::Sub(*s)),
        Op::Neg => Some(Op::Neg),
        Op::Jmp(l) => match lookup(labels, l) {
            Some(t) => Some(Op::Jmp(t)),
            None => None,
        },
        Op::Jez(l) => match lookup(labels, l) {
            Some(t) => Some(Op::Jez(t)),
            None => None,
        },
        Op::Jnz(l) => match lookup(labels, l) {
            Some(t) => Some(Op::Jnz(t)),
            None => None,
        },
        Op::Jgz(l) => match lookup(labels, l) {
            Some(t) => Some(Op::Jgz(t)),
            None => None,
        },
        Op::Jlz(l) => match lookup(labels, l) {
            Some(t) => Some(Op::Jlz(t)),
            None => None,
        },
        Op::Jro(s) => Some(Op::Jro(*s)),
    }
}

/// Parses a node's text into a label-resolved program, or reports the first
/// problem. A line's problem wins over any undefined label.
pub fn parse_node_text(text: &str) -> (r: Result<Program, ParseErr>)
    requires
        text_lines(text@).len() <= NODE_LINES,
    ensures
        parsed(r) == parse_text(text@),
{
    let chars = chars_of(text);
    let lines = split_lines(chars.as_slice(), '\n');
    let ghost lv = views(lines@);
    let mut code: Vec<Instruction<Vec<char>>> = Vec::new();
    let mut labels: Vec<(Vec<char>, u8)> = Vec::new();
    let mut i: usize = 0;
    assert(lv.take(0) =~= Seq::<Seq<char>>::empty());
    assert(raw_view(code@) =~= Seq::<Instruction<Seq<char>>>::empty());
    assert(labels_view(labels@) =~= Seq::<(Seq<char>, nat)>::empty());
    while i < lines.len()
        invariant
            lv == views(lines@),
            lv == text_lines(text@),
            lines@.len() <= NODE_LINES,
            i <= lines@.len(),
            code@.len() <= i,
            parse_lines(lv.take(i as int)) == Ok::<(RawCode, Labels), ParseErr>(
                (raw_view(code@), labels_view(labels@)),
            ),
        decreases lines@.len() - i,
    {
        let line = &lines[i];
        let ghost before_code = code@;
        let ghost before_labels = labels@;
        proof {
            assert(lv.take(i as int + 1).drop_last() =~= lv.take(i as int));
            assert(lv.take(i as int + 1).last() == line@);
        }
        let sem_end = find_char(line.as_slice(), '#');
        proof {
            crate::text::lemma_find_bounds(line@, '#', 0);
        }
        let sem = slice_of(line.as_slice(), 0, sem_end);
        assert(sem@ == strip_comment(line@));
        let k = find_char(sem.as_slice(), ':');
        proof {
            crate::text::lemma_find_bounds(sem@, ':', 0);
        }
        let rest: Vec<char>;
        if k < sem.len() {
            let l = slice_of(sem.as_slice(), 0, k);
            labels.push((l, code.len() as u8));
            rest = slice_of(sem.as_slice(), k + 1, sem.len());
            assert(labels_view(labels@) =~= labels_view(before_labels).push((l@, code@.len() as nat)));
        } else {
            rest = sem;
        }
        assert(rest@ == op_text(sem@));
        let toks = tokens_of(rest.as_slice());
        match decode_line(&toks, i as u8) {
            Err(e) => {
                proof {
                    lemma_parse_lines_err_stays(lv, i as int + 1, e);
                }
                return Err(e);
            },
            Ok(None) => {},
            Ok(Some(op)) => {
                let ins = Instruction { op, src_line: i as u8 };
                code.push(ins);
                assert(raw_view(code@) =~= raw_view(before_code).push(raw_instr_view(ins)));
            },
        }
        i = i + 1;
    }
    assert(lv.take(i as int) =~= lv);
    let ghost rc = raw_view(code@);
    let ghost lbl = labels_view(labels@);
    let mut prog = Program::new();
    let mut j: usize = 0;
    assert(rc.take(0) =~= Seq::<Instruction<Seq<char>>>::empty());
    while j < code.len()
        invariant
            rc == raw_view(code@),
            lbl == labels_view(labels@),
            code@.len() <= NODE_LINES,
            j <= code@.len(),
            prog@.len() == j,
            parse_lines(lv) == Ok::<(RawCode, Labels), ParseErr>((rc, lbl)),
            lv == text_lines(text@),
            resolve_all(rc.take(j as int), lbl) == Ok::<Seq<Instruction<u8>>, ParseErr>(prog@),
        decreases code@.len() - j,
    {
        let ins = &code[j];
        proof {
            assert(rc.take(j as int + 1).drop_last() =~= rc.take(j as int));
            assert(rc.take(j as int + 1).last() == raw_instr_view(*ins));
        }
        match resolve(&ins.op, &labels) {
            None => {
                let e = ParseErr { problem: ParseProblem::UndefinedLabel, line: ins.src_line };
                proof {
                    lemma_resolve_err_stays(rc, lbl, j as int + 1, e);
                }
                return Err(e);
            },
            Some(op) => {
                prog.push(Instruction { op, src_line: ins.src_line });
            },
        }
        j = j + 1;
    }
    assert(rc.take(j as int) =~= rc);
    Ok(prog)
}

/// Parsing is a function of the text alone: two parses of the same text
/// give the same instructions, or the same problem at the same line.
pub proof fn lemma_parse_idempotent(
    text: Seq<char>,
    first: Result<Program, ParseErr>,
    second: Result<Program, ParseErr>,
)
    requires
        parsed(first) == parse_text(text),
        parsed(second) == parse_text(text),
    ensures
        parsed(first) == parsed(second),
{
}

} // verus!
