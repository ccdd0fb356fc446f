//! A programmable node: its bounded source text and its lifecycle, from
//! empty or errored through ready to running.
use vstd::prelude::*;
use arrayvec::ArrayString;
use vstd::string::StringSliceAdditionalSpecFns;
use crate::dir::Dir;
use crate::node::{
    ExecNodeIO, ExecNodeRuntime, NodeOutbox, ReadContinuation, RuntimeView, StopResult,
    spec_continue, spec_step,
};
use crate::program::{
    Instruction, NODE_LINES, NODE_LINE_LENGTH, NODE_TEXT_BUFFER_SIZE, ParseErr, Program,
    parse_lines, parse_node_text, parse_text, parsed, resolve_all, text_lines,
};
use crate::storage::{text_chars, text_from, text_new, text_str, text_try_push_str};
use crate::text::{decimal, find_from, push_decimal, string_of};
use vstd::string::StrSliceExecFns;
use vstd::utf8::encode_utf8;
use crate::text::{chars_of, split_lines, views};

verus! {

/// The lifecycle state of a programmable node, as values.
pub enum StateView {
    Empty,
    Errored(ParseErr),
    Ready(Seq<Instruction<u8>>),
    Running(RuntimeView),
}

pub struct ExecView {
    pub text: Seq<char>,
    pub state: StateView,
}

/// The text fits the node: at most `NODE_LINES` lines of at most
/// `NODE_LINE_LENGTH` characters.
pub open spec fn dims_ok(text: Seq<char>) -> bool {
    let lines = text_lines(text);
    lines.len() <= NODE_LINES && forall|i: int|
        0 <= i < lines.len() ==> #[trigger] lines[i].len() <= NODE_LINE_LENGTH
}

/// Text that fits a node's buffer and its lines.
pub open spec fn fits(t: Seq<char>) -> bool {
    encode_utf8(t).len() <= NODE_TEXT_BUFFER_SIZE && dims_ok(t)
}

pub proof fn lemma_encode_concat(a: Seq<char>, b: Seq<char>)
    ensures
        encode_utf8(a + b) == encode_utf8(a) + encode_utf8(b),
    decreases a.len(),
{
    if a.len() > 0 {
        assert((a + b).drop_first() =~= a.drop_first() + b);
        lemma_encode_concat(a.drop_first(), b);
        assert(encode_utf8(a + b) =~= encode_utf8(a) + encode_utf8(b));
    } else {
        assert(a + b =~= b);
        assert(encode_utf8(a) + encode_utf8(b) =~= encode_utf8(b));
    }
}

pub proof fn lemma_encode_len(a: Seq<char>)
    ensures
        encode_utf8(a).len() >= a.len(),
    decreases a.len(),
{
    if a.len() > 0 {
        lemma_encode_len(a.drop_first());
    }
}

/// The state a parse result puts a node in.
pub open spec fn classify(r: Result<Seq<Instruction<u8>>, ParseErr>) -> StateView {
    match r {
        Ok(code) => if code.len() == 0 {
            StateView::Empty
        } else {
            StateView::Ready(code)
        },
        Err(e) => StateView::Errored(e),
    }
}

pub enum ExecNodeState {
    Empty,
    Errored(ParseErr),
    Ready(Program),
    Running(ExecNodeRuntime),
}

impl View for ExecNodeState {
    type V = StateView;

    open spec fn view(&self) -> StateView {
        match self {
            ExecNodeState::Empty => StateView::Empty,
            ExecNodeState::Errored(e) => StateView::Errored(*e),
            ExecNodeState::Ready(p) => StateView::Ready(p@),
            ExecNodeState::Running(rt) => StateView::Running(rt@),
        }
    }
}

impl ExecNodeState {
    pub fn duplicate(&self) -> (r: ExecNodeState)
        ensures
            r@ == self@,
    {
        match self {
            ExecNodeState::Empty => ExecNodeState::Empty,
            ExecNodeState::Errored(e) => ExecNodeState::Errored(*e),
            ExecNodeState::Ready(p) => ExecNodeState::Ready(p.duplicate()),
            ExecNodeState::Running(rt) => ExecNodeState::Running(rt.duplicate()),
        }
    }
}

pub struct ExecNode {
    text: ArrayString<NODE_TEXT_BUFFER_SIZE>,
    cursor: usize,
    select_cursor: usize,
    state: ExecNodeState,
}

impl View for ExecNode {
    type V = ExecView;

    closed spec fn view(&self) -> ExecView {
        ExecView { text: text_chars(self.text), state: self.state@ }
    }
}

impl ExecView {
    /// The text fits, and the state is what the text parses to; a running
    /// node runs that very program, with its pointer inside it.
    pub open spec fn wf(self) -> bool {
        &&& dims_ok(self.text)
        &&& match self.state {
            StateView::Running(rt) => rt.wf() && parse_text(self.text) == Ok::<
                Seq<Instruction<u8>>,
                ParseErr,
            >(rt.code),
            s => s == classify(parse_text(self.text)),
        }
    }
}

/// Whether `text` fits a node.
pub fn validate_text_dimensions(text: &str) -> (r: bool)
    ensures
        r == dims_ok(text@),
{
    let chars = chars_of(text);
    let lines = split_lines(chars.as_slice(), '\n');
    let ghost lv = views(lines@);
    if lines.len() > NODE_LINES {
        return false;
    }
    let mut i: usize = 0;
    while i < lines.len()
        invariant
            lv == views(lines@),
            lv == text_lines(text@),
            i <= lines@.len(),
            forall|j: int| 0 <= j < i ==> #[trigger] lv[j].len() <= NODE_LINE_LENGTH,
        decreases lines@.len() - i,
    {
        assert(lv[i as int] == lines@[i as int]@);
        if lines[i].len() > NODE_LINE_LENGTH {
            return false;
        }
        i = i + 1;
    }
    true
}

/// The state that `text` puts a node in.
pub fn update_state(text: &str) -> (r: ExecNodeState)
    requires
        dims_ok(text@),
    ensures
        r@ == classify(parse_text(text@)),
{
    match parse_node_text(text) {
        Ok(code) => if code.is_empty() {
            ExecNodeState::Empty
        } else {
            ExecNodeState::Ready(code)
        },
        Err(e) => ExecNodeState::Errored(e),
    }
}

pub proof fn lemma_empty_text()
    ensures
        dims_ok(Seq::empty()),
        classify(parse_text(Seq::empty())) == StateView::Empty,
{
    let e = Seq::<char>::empty();
    assert(text_lines(e) =~= seq![e]);
    assert(seq![e].drop_last() =~= Seq::<Seq<char>>::empty());
    assert(e.take(0) =~= e);
    assert(parse_lines(Seq::<Seq<char>>::empty()) == Ok::<
        (Seq<Instruction<Seq<char>>>, Seq<(Seq<char>, nat)>),
        ParseErr,
    >((Seq::empty(), Seq::empty())));
    assert(resolve_all(Seq::empty(), Seq::empty()) == Ok::<Seq<Instruction<u8>>, ParseErr>(
        Seq::empty(),
    ));
}

impl ExecNode {
    /// A node with no text.
    pub fn empty() -> (r: ExecNode)
        ensures
            r@.text == Seq::<char>::empty(),
            r@.state == StateView::Empty,
            r@.wf(),
    {
        proof {
            lemma_empty_text();
        }
        ExecNode { text: text_new(), cursor: 0, select_cursor: 0, state: ExecNodeState::Empty }
    }

    /// Whether `text` fits a node's buffer and its lines.
    pub open spec fn with_text_fits(text: &str) -> bool {
        text.spec_bytes().len() <= NODE_TEXT_BUFFER_SIZE && dims_ok(text@)
    }

    /// A node holding `text`, parsed; `None` when the text does not fit.
    pub fn with_text(text: &str) -> (r: Option<ExecNode>)
        ensures
            r is Some <==> Self::with_text_fits(text),
            r is Some ==> r->0@.text == text@,
            r is Some ==> r->0@.state == classify(parse_text(text@)),
            r is Some ==> r->0@.wf(),
    {
        let t = match text_from(text) {
            Some(t) => t,
            None => return None,
        };
        if !validate_text_dimensions(text) {
            return None;
        }
        let state = update_state(text);
        Some(ExecNode { text: t, cursor: 0, select_cursor: 0, state })
    }

    pub fn state(&self) -> (r: &ExecNodeState)
        ensures
            r@ == self@.state,
    {
        &self.state
    }

    pub fn text(&self) -> (r: &str)
        ensures
            r@ == self@.text,
    {
        text_str(&self.text)
    }

    /// Whether the node runs its program.
    pub fn is_in_edit_mode(&self) -> (r: bool)
        ensures
            r == (self@.state is Running),
    {
        match self.state {
            ExecNodeState::Running(_) => true,
            _ => false,
        }
    }

    pub fn duplicate(&self) -> (r: ExecNode)
        ensures
            r@ == self@,
    {
        ExecNode {
            text: self.text,
            cursor: self.cursor,
            select_cursor: self.select_cursor,
            state: self.state.duplicate(),
        }
    }

    /// Back from running to ready, dropping the registers; any other state
    /// stays as it is.
    pub fn stop(&mut self) -> (r: StopResult)
        requires
            old(self)@.wf(),
        ensures
            final(self)@.wf(),
            final(self)@.text == old(self)@.text,
            r == (if old(self)@.state is Running {
                StopResult::Stopped
            } else {
                StopResult::WasAlreadyStopped
            }),
            final(self)@.state == (match old(self)@.state {
                StateView::Running(rt) => StateView::Ready(rt.code),
                s => s,
            }),
    {
        let mut old_state = ExecNodeState::Empty;
        core::mem::swap(&mut self.state, &mut old_state);
        match old_state {
            ExecNodeState::Running(rt) => {
                self.state = ExecNodeState::Ready(rt.into_code());
                StopResult::Stopped
            },
            other => {
                self.state = other;
                StopResult::WasAlreadyStopped
            },
        }
    }

    /// Finishes the running instruction with value `input`, read from the
    /// neighbour in direction `from`.
    pub fn receive(&mut self, and_then: ReadContinuation, from: Dir, input: i8) -> (r: NodeOutbox)
        requires
            old(self)@.wf(),
            old(self)@.state is Running,
        ensures
            final(self)@.wf(),
            final(self)@.text == old(self)@.text,
            final(self)@.state == StateView::Running(
                spec_continue(old(self)@.state->Running_0.with_last(from), and_then, input).0,
            ),
            r == spec_continue(old(self)@.state->Running_0.with_last(from), and_then, input).1,
    {
        match &mut self.state {
            ExecNodeState::Running(rt) => rt.receive(and_then, from, input),
            _ => NodeOutbox::Empty,
        }
    }

    /// Finishes the running write: the neighbour in direction `to` took the
    /// value.
    pub fn delivered(&mut self, to: Dir)
        requires
            old(self)@.wf(),
            old(self)@.state is Running,
        ensures
            final(self)@.wf(),
            final(self)@.text == old(self)@.text,
            final(self)@.state == StateView::Running(
                old(self)@.state->Running_0.with_last(to).advance(),
            ),
    {
        match &mut self.state {
            ExecNodeState::Running(rt) => rt.delivered(to),
            _ => {},
        }
    }

    /// One tick of this node alone: a ready node starts (running nothing
    /// yet); a running one runs at most one instruction; others stay.
    pub fn step(&mut self) -> (r: ExecNodeIO)
        requires
            old(self)@.wf(),
        ensures
            final(self)@.wf(),
            final(self)@.text == old(self)@.text,
            match old(self)@.state {
                StateView::Ready(code) => r == ExecNodeIO::Local && final(self)@.state
                    == StateView::Running(
                    RuntimeView { code, ip: 0, acc: 0, bak: 0, last: None },
                ),
                StateView::Running(rt) => (final(self)@.state, r) == (
                    StateView::Running(spec_step(rt).0),
                    spec_step(rt).1,
                ),
                _ => r == ExecNodeIO::Local && final(self)@.state == old(self)@.state,
            },
    {
        match &mut self.state {
            ExecNodeState::Running(rt) => {
                return rt.step();
            },
            _ => {},
        }
        let mut old_state = ExecNodeState::Empty;
        core::mem::swap(&mut self.state, &mut old_state);
        match old_state {
            ExecNodeState::Ready(code) => {
                self.state = ExecNodeState::Running(ExecNodeRuntime::start(code));
            },
            other => {
                self.state = other;
            },
        }
        ExecNodeIO::Local
    }
}

/// The line and column of the position just after the characters `s`.
pub open spec fn spec_line_column(s: Seq<char>) -> (nat, nat)
    decreases s.len(),
{
    if s.len() == 0 {
        (0, 0)
    } else {
        let (l, c) = spec_line_column(s.drop_last());
        if s.last() == '\n' {
            (l + 1, 0)
        } else {
            (l, c + 1)
        }
    }
}

proof fn lemma_line_column_bound(s: Seq<char>)
    ensures
        spec_line_column(s).0 + spec_line_column(s).1 <= s.len(),
    decreases s.len(),
{
    if s.len() > 0 {
        lemma_line_column_bound(s.drop_last());
    }
}

/// The line and column of character position `index` of `text`.
pub fn line_column(text: &str, index: usize) -> (r: (usize, usize))
    requires
        index <= text@.len(),
    ensures
        (r.0 as nat, r.1 as nat) == spec_line_column(text@.take(index as int)),
{
    let chars = chars_of(text);
    let mut line: usize = 0;
    let mut column: usize = 0;
    let mut i: usize = 0;
    assert(chars@.take(0) =~= Seq::<char>::empty());
    while i < index
        invariant
            chars@ == text@,
            i <= index <= chars@.len(),
            (line as nat, column as nat) == spec_line_column(chars@.take(i as int)),
        decreases index - i,
    {
        proof {
            assert(chars@.take(i as int + 1).drop_last() =~= chars@.take(i as int));
            lemma_line_column_bound(chars@.take(i as int));
        }
        if chars[i] == '\n' {
            line = line + 1;
            column = 0;
        } else {
            column = column + 1;
        }
        i = i + 1;
    }
    (line, column)
}

/// `v` in decimal, as a string.
fn i8_text(v: i8) -> (r: String)
    ensures
        r@ == decimal(v as int),
{
    let mut out: Vec<char> = Vec::new();
    push_decimal(&mut out, v as i128);
    assert(out@ =~= decimal(v as int));
    string_of(&out)
}

/// `v` in decimal between parentheses, as a string.
fn i8_text_in_parens(v: i8) -> (r: String)
    ensures
        r@ == seq!['('] + decimal(v as int) + seq![')'],
{
    let mut out: Vec<char> = Vec::new();
    out.push('(');
    push_decimal(&mut out, v as i128);
    out.push(')');
    assert(out@ =~= seq!['('] + decimal(v as int) + seq![')']);
    string_of(&out)
}

/// What the renderer shows beside a node: its registers, the last port it
/// used, and what it is doing.
pub struct Gizmos {
    pub acc: String,
    pub bak: String,
    pub last: &'static str,
    pub mode: &'static str,
}

/// The name of a port, or `N/A` for none.
pub open spec fn port_name(d: Option<Dir>) -> &'static str {
    match d {
        Some(Dir::Up) => "UP",
        Some(Dir::Down) => "DOWN",
        Some(Dir::Left) => "LEFT",
        Some(Dir::Right) => "RIGHT",
        None => "N/A",
    }
}

/// What a running node is doing: waiting to read, waiting for its value to
/// be taken, or running local instructions.
pub open spec fn mode_name(rt: RuntimeView) -> &'static str {
    match spec_step(rt).1 {
        ExecNodeIO::InDir(_, _) | ExecNodeIO::InAny(_) => "READ",
        ExecNodeIO::Out(_) => "WRITE",
        ExecNodeIO::Local => "EXEC",
    }
}

impl ExecNode {
    /// The registers and status as the renderer shows them; a node that does
    /// not run shows zeros in `EDIT` mode. The backup register is shown in
    /// parentheses unless its value takes four characters.
    pub fn gizmos(&self) -> (r: Gizmos)
        requires
            self@.wf(),
        ensures
            match self@.state {
                StateView::Running(rt) => r.acc@ == decimal(rt.acc as int) && r.bak@ == (if rt.bak < -99 {
                    decimal(rt.bak as int)
                } else {
                    seq!['('] + decimal(rt.bak as int) + seq![')']
                }) && r.last == port_name(rt.last) && r.mode == mode_name(rt),
                _ => r.acc@ == decimal(0) && r.bak@ == seq!['('] + decimal(0) + seq![')'] && r.last
                    == "N/A" && r.mode == "EDIT",
            },
    {
        match &self.state {
            ExecNodeState::Running(rt) => {
                let acc = i8_text(rt.acc());
                let b = rt.bak();
                let bak = if b < -99 {
                    i8_text(b)
                } else {
                    i8_text_in_parens(b)
                };
                let last = match rt.last() {
                    Some(Dir::Up) => "UP",
                    Some(Dir::Down) => "DOWN",
                    Some(Dir::Left) => "LEFT",
                    Some(Dir::Right) => "RIGHT",
                    None => "N/A",
                };
                let mut probe = rt.duplicate();
                let mode = match probe.step() {
                    ExecNodeIO::InDir(_, _) | ExecNodeIO::InAny(_) => "READ",
                    ExecNodeIO::Out(_) => "WRITE",
                    ExecNodeIO::Local => "EXEC",
                };
                Gizmos { acc, bak, last, mode }
            },
            _ => Gizmos { acc: i8_text(0), bak: i8_text_in_parens(0), last: "N/A", mode: "EDIT" },
        }
    }
}

/// The position after skipping `k` line breaks from `i`, or the end.
pub open spec fn skip_lines(s: Seq<char>, i: int, k: nat) -> int
    decreases s.len() - i,
{
    if k == 0 || i >= s.len() {
        i
    } else {
        skip_lines(s, i + 1, if s[i] == '\n' { (k - 1) as nat } else { k })
    }
}

/// The position after moving right by up to `k` characters from `i`,
/// without leaving the line.
pub open spec fn advance_col(s: Seq<char>, i: int, k: nat) -> int
    decreases s.len() - i,
{
    if k == 0 || i >= s.len() || s[i] == '\n' {
        i
    } else {
        advance_col(s, i + 1, (k - 1) as nat)
    }
}

/// Column `col` of line `line`, or as near as the text allows.
pub open spec fn spec_target(s: Seq<char>, line: nat, col: nat) -> int {
    advance_col(s, skip_lines(s, 0, line), col)
}

/// The start of the line that position `i` is on.
pub open spec fn line_start(s: Seq<char>, i: int) -> int
    decreases i,
{
    if i <= 0 || s[i - 1] == '\n' {
        i
    } else {
        line_start(s, i - 1)
    }
}

pub open spec fn clamp_to(i: nat, n: nat) -> nat {
    if i <= n {
        i
    } else {
        n
    }
}

impl ExecNode {
    /// The cursor, as a character position inside the text.
    pub closed spec fn spec_cursor(&self) -> nat {
        clamp_to(self.cursor as nat, text_chars(self.text).len())
    }

    /// The other end of the selection; equal to the cursor when nothing is
    /// selected.
    pub closed spec fn spec_select(&self) -> nat {
        clamp_to(self.select_cursor as nat, text_chars(self.text).len())
    }

    pub open spec fn sel_start(&self) -> nat {
        if self.spec_cursor() <= self.spec_select() {
            self.spec_cursor()
        } else {
            self.spec_select()
        }
    }

    pub open spec fn sel_end(&self) -> nat {
        if self.spec_cursor() <= self.spec_select() {
            self.spec_select()
        } else {
            self.spec_cursor()
        }
    }

    /// The text with the selection replaced by `t`.
    pub open spec fn replaced(&self, t: Seq<char>) -> Seq<char> {
        self@.text.take(self.sel_start() as int) + t + self@.text.skip(self.sel_end() as int)
    }

    /// The cursor, the selection's other end and the text's length.
    fn positions(&self) -> (r: (usize, usize, usize))
        ensures
            r.0 as nat == self.spec_cursor(),
            r.1 as nat == self.spec_select(),
            r.2 as nat == self@.text.len(),
            r.2 <= NODE_TEXT_BUFFER_SIZE,
    {
        let t = text_str(&self.text);
        proof {
            lemma_encode_len(t@);
        }
        let n = t.unicode_len();
        let c = if self.cursor <= n { self.cursor } else { n };
        let s = if self.select_cursor <= n { self.select_cursor } else { n };
        (c, s, n)
    }

    pub fn text_selected(&self) -> (r: bool)
        ensures
            r == (self.spec_cursor() != self.spec_select()),
    {
        let (c, s, _) = self.positions();
        c != s
    }

    fn selection_range(&self) -> (r: (usize, usize))
        ensures
            r.0 as nat == self.sel_start(),
            r.1 as nat == self.sel_end(),
    {
        let (c, s, _) = self.positions();
        if c > s {
            (s, c)
        } else {
            (c, s)
        }
    }

    /// The selected text.
    pub fn selection(&self) -> (r: &str)
        ensures
            r@ == self@.text.subrange(self.sel_start() as int, self.sel_end() as int),
    {
        let (s, e) = self.selection_range();
        text_str(&self.text).substring_char(s, e)
    }

    /// Replaces characters `s..e` by `txt` and reparses; an edit whose text
    /// would not fit is refused and changes nothing.
    fn replace_range(&mut self, s: usize, e: usize, txt: &str)
        requires
            old(self)@.wf(),
            s <= e <= old(self)@.text.len(),
        ensures
            final(self)@.wf(),
            ({
                let nt = old(self)@.text.take(s as int) + txt@ + old(self)@.text.skip(e as int);
                if fits(nt) {
                    &&& final(self)@.text == nt
                    &&& final(self)@.state == classify(parse_text(nt))
                    &&& final(self).spec_cursor() == s + txt@.len()
                    &&& final(self).spec_select() == s + txt@.len()
                } else {
                    *final(self) == *old(self)
                }
            }),
    {
        let t = text_str(&self.text);
        let n = t.unicode_len();
        let ghost a = t@.subrange(0, s as int);
        let ghost b = t@.subrange(e as int, n as int);
        let ghost nt = t@.take(s as int) + txt@ + t@.skip(e as int);
        assert(a =~= t@.take(s as int));
        assert(b =~= t@.skip(e as int));
        let mut new_text = text_new();
        let ok1 = text_try_push_str(&mut new_text, t.substring_char(0, s));
        let ok2 = text_try_push_str(&mut new_text, txt);
        let ok3 = text_try_push_str(&mut new_text, t.substring_char(e, n));
        proof {
            lemma_encode_concat(a, txt@);
            lemma_encode_concat(a + txt@, b);
            assert(Seq::<char>::empty() + a =~= a);
            assert(encode_utf8(Seq::<char>::empty()) =~= Seq::<u8>::empty());
            if ok1 && ok2 && ok3 {
                assert(text_chars(new_text) =~= nt);
            }
        }
        if ok1 && ok2 && ok3 && validate_text_dimensions(text_str(&new_text)) {
            let len = txt.unicode_len();
            proof {
                lemma_encode_len(nt);
            }
            self.text = new_text;
            self.cursor = s + len;
            self.select_cursor = s + len;
            self.state = update_state(text_str(&self.text));
        }
    }

    /// Replaces the selection by `txt` (inserts it at the cursor when
    /// nothing is selected), leaving the cursor after it; refused when the
    /// text would not fit.
    pub fn insert(&mut self, txt: &str)
        requires
            old(self)@.wf(),
        ensures
            final(self)@.wf(),
            fits(old(self).replaced(txt@)) ==> final(self)@.text == old(self).replaced(txt@)
                && final(self)@.state == classify(parse_text(old(self).replaced(txt@)))
                && final(self).spec_cursor() == old(self).sel_start() + txt@.len()
                && final(self).spec_select() == final(self).spec_cursor(),
            !fits(old(self).replaced(txt@)) ==> *final(self) == *old(self),
    {
        let (s, e) = self.selection_range();
        self.replace_range(s, e, txt);
    }

    /// Deletes the selection, or else the character before the cursor.
    pub fn backspace(&mut self)
        requires
            old(self)@.wf(),
        ensures
            final(self)@.wf(),
            old(self).spec_cursor() == old(self).spec_select() && old(self).spec_cursor() == 0
                ==> *final(self) == *old(self),
            old(self).spec_cursor() == old(self).spec_select() && old(self).spec_cursor() > 0 && fits(
                old(self)@.text.take(old(self).spec_cursor() - 1) + old(self)@.text.skip(
                    old(self).spec_cursor() as int,
                ),
            ) ==> final(self)@.text == old(self)@.text.take(old(self).spec_cursor() - 1)
                + old(self)@.text.skip(old(self).spec_cursor() as int) && final(self).spec_cursor()
                == old(self).spec_cursor() - 1,
            old(self).spec_cursor() != old(self).spec_select() && fits(old(self).replaced(Seq::empty()))
                ==> final(self)@.text == old(self).replaced(Seq::empty()) && final(self).spec_cursor()
                == old(self).sel_start(),
    {
        let (c, s, _) = self.positions();
        if c != s {
            proof {
                reveal_strlit("");
            }
            self.insert("");
            assert(old(self).replaced(""@) =~= old(self).replaced(Seq::empty()));
        } else if c > 0 {
            proof {
                reveal_strlit("");
            }
            self.replace_range(c - 1, c, "");
            assert(old(self)@.text.take(c - 1) + ""@ + old(self)@.text.skip(c as int)
                =~= old(self)@.text.take(c - 1) + old(self)@.text.skip(c as int));
        }
    }

    /// Inserts a line break; `select` keeps nothing selected either way, as
    /// an insertion leaves no selection.
    pub fn enter(&mut self, select: bool)
        requires
            old(self)@.wf(),
        ensures
            final(self)@.wf(),
            fits(old(self).replaced(seq!['\n'])) ==> final(self)@.text == old(self).replaced(seq!['\n'])
                && final(self).spec_cursor() == old(self).sel_start() + 1
                && final(self).spec_select() == final(self).spec_cursor(),
            !fits(old(self).replaced(seq!['\n'])) ==> final(self)@ == old(self)@,
    {
        proof {
            reveal_strlit("\n");
        }
        assert("\n"@ =~= seq!['\n']);
        self.insert("\n");
        if !select {
            self.deselect();
        }
    }

    /// Ends the selection at the cursor.
    pub fn deselect(&mut self)
        ensures
            final(self)@ == old(self)@,
            final(self).spec_cursor() == old(self).spec_cursor(),
            final(self).spec_select() == old(self).spec_cursor(),
    {
        let (c, _, _) = self.positions();
        self.cursor = c;
        self.select_cursor = c;
    }

    /// Selects the whole text, the cursor at its end.
    pub fn select_all(&mut self)
        ensures
            final(self)@ == old(self)@,
            final(self).spec_select() == 0,
            final(self).spec_cursor() == old(self)@.text.len(),
    {
        let (_, _, n) = self.positions();
        self.select_cursor = 0;
        self.cursor = n;
    }

    /// Moves the cursor to `to`; without `select`, nothing stays selected.
    fn move_to(&mut self, to: usize, select: bool)
        requires
            to <= old(self)@.text.len(),
        ensures
            final(self)@ == old(self)@,
            final(self).spec_cursor() == to,
            final(self).spec_select() == (if select {
                old(self).spec_select()
            } else {
                to as nat
            }),
    {
        let (_, s, _) = self.positions();
        self.cursor = to;
        self.select_cursor = if select { s } else { to };
    }

    /// One character right, stopping at the end.
    pub fn right(&mut self, select: bool)
        ensures
            final(self)@ == old(self)@,
            final(self).spec_cursor() == clamp_to(old(self).spec_cursor() + 1, old(self)@.text.len()),
            !select ==> final(self).spec_select() == final(self).spec_cursor(),
            select ==> final(self).spec_select() == old(self).spec_select(),
    {
        let (c, _, n) = self.positions();
        let to = if c < n { c + 1 } else { n };
        self.move_to(to, select);
    }

    /// One character left, stopping at the start.
    pub fn left(&mut self, select: bool)
        ensures
            final(self)@ == old(self)@,
            final(self).spec_cursor() == (if old(self).spec_cursor() > 0 {
                (old(self).spec_cursor() - 1) as nat
            } else {
                0
            }),
            !select ==> final(self).spec_select() == final(self).spec_cursor(),
            select ==> final(self).spec_select() == old(self).spec_select(),
    {
        let (c, _, _) = self.positions();
        let to = if c > 0 { c - 1 } else { 0 };
        self.move_to(to, select);
    }

    /// The position of column `target_column` of line `target_line`, or as
    /// near as the text allows.
    fn target(&self, target_line: usize, target_column: usize) -> (r: usize)
        ensures
            r as int == spec_target(self@.text, target_line as nat, target_column as nat),
            r <= self@.text.len(),
    {
        let chars = chars_of(text_str(&self.text));
        let ghost s = chars@;
        let mut i: usize = 0;
        let mut k: usize = target_line;
        while k > 0 && i < chars.len()
            invariant
                s == chars@,
                i <= s.len(),
                skip_lines(s, i as int, k as nat) == skip_lines(s, 0, target_line as nat),
            decreases s.len() - i,
        {
            if chars[i] == '\n' {
                k = k - 1;
            }
            i = i + 1;
        }
        let mut col: usize = target_column;
        while col > 0 && i < chars.len() && chars[i] != '\n'
            invariant
                s == chars@,
                i <= s.len(),
                advance_col(s, i as int, col as nat) == spec_target(s, target_line as nat, target_column as nat),
            decreases s.len() - i,
        {
            i = i + 1;
            col = col - 1;
        }
        i
    }

    /// Up one line, keeping the column where the line is long enough; from
    /// the first line, to the start of the text.
    pub fn up(&mut self, select: bool)
        ensures
            final(self)@ == old(self)@,
            final(self).spec_cursor() == (if spec_line_column(old(self)@.text.take(old(self).spec_cursor() as int)).0 == 0 {
                0
            } else {
                spec_target(
                    old(self)@.text,
                    (spec_line_column(old(self)@.text.take(old(self).spec_cursor() as int)).0 - 1) as nat,
                    spec_line_column(old(self)@.text.take(old(self).spec_cursor() as int)).1,
                )
            }),
            !select ==> final(self).spec_select() == final(self).spec_cursor(),
    {
        let (c, _, _) = self.positions();
        let (line, column) = line_column(text_str(&self.text), c);
        let to = if line > 0 { self.target(line - 1, column) } else { 0 };
        self.move_to(to, select);
    }

    /// Down one line, keeping the column where the line is long enough; from
    /// the last line, to the end of the text.
    pub fn down(&mut self, select: bool)
        ensures
            final(self)@ == old(self)@,
            final(self).spec_cursor() == spec_target(
                old(self)@.text,
                spec_line_column(old(self)@.text.take(old(self).spec_cursor() as int)).0 + 1,
                spec_line_column(old(self)@.text.take(old(self).spec_cursor() as int)).1,
            ),
            !select ==> final(self).spec_select() == final(self).spec_cursor(),
    {
        let (c, _, _) = self.positions();
        let (line, column) = line_column(text_str(&self.text), c);
        proof {
            lemma_line_column_bound(old(self)@.text.take(c as int));
        }
        let to = self.target(line + 1, column);
        self.move_to(to, select);
    }

    /// To the start of the cursor's line.
    pub fn home(&mut self, select: bool)
        ensures
            final(self)@ == old(self)@,
            final(self).spec_cursor() == line_start(old(self)@.text, old(self).spec_cursor() as int),
            !select ==> final(self).spec_select() == final(self).spec_cursor(),
    {
        let (c, _, _) = self.positions();
        let chars = chars_of(text_str(&self.text));
        let mut i = c;
        while i > 0 && chars[i - 1] != '\n'
            invariant
                chars@ == old(self)@.text,
                i <= c <= chars@.len(),
                line_start(chars@, i as int) == line_start(chars@, c as int),
            decreases i,
        {
            i = i - 1;
        }
        self.move_to(i, select);
    }

    /// To the end of the cursor's line.
    pub fn end(&mut self, select: bool)
        ensures
            final(self)@ == old(self)@,
            final(self).spec_cursor() == find_from(old(self)@.text, '\n', old(self).spec_cursor() as int),
            !select ==> final(self).spec_select() == final(self).spec_cursor(),
    {
        let (c, _, _) = self.positions();
        let chars = chars_of(text_str(&self.text));
        let mut i = c;
        while i < chars.len() && chars[i] != '\n'
            invariant
                chars@ == old(self)@.text,
                c <= i <= chars@.len(),
                find_from(chars@, '\n', i as int) == find_from(chars@, '\n', c as int),
            decreases chars@.len() - i,
        {
            i = i + 1;
        }
        self.move_to(i, select);
    }

    /// The line and column of the cursor.
    pub fn cursor_line_column(&self) -> (r: (usize, usize))
        ensures
            (r.0 as nat, r.1 as nat) == spec_line_column(self@.text.take(self.spec_cursor() as int)),
    {
        let (c, _, _) = self.positions();
        line_column(text_str(&self.text), c)
    }

    /// Whether the selection (or the cursor) touches line `error_line`.
    pub fn cursor_at_error_line(&self, error_line: u8) -> (r: bool)
        ensures
            r == (spec_line_column(self@.text.take(self.sel_start() as int)).0 <= error_line
                && error_line <= spec_line_column(self@.text.take(self.sel_end() as int)).0),
    {
        let (s, e) = self.selection_range();
        let t = text_str(&self.text);
        let start_line = line_column(t, s).0;
        let end_line = line_column(t, e).0;
        start_line <= error_line as usize && error_line as usize <= end_line
    }
}

} // verus!
