//! Loading a workspace: a table from cell coordinates (`"x, y"`) to a node's
//! source text or to an input node's values, with an optional highlighted
//! cell.
use vstd::prelude::*;
use crate::dir::NodeCoord;
use crate::seek::{ascending, sorted_cells};
use crate::exec_node::{ExecView, classify, fits};
use crate::grid::{Grid, Node, NodeType, NodeView, VariantView};
use crate::input_node::{INPUT_NODE_CAP, InputNode, InputView};
use crate::node::NodeOutbox;
use crate::program::parse_text;
use crate::text::{decimal, push_decimal, push_str, string_of, all_digits, chars_of, digits_value, int_literal, is_word, split_lines, split_on, views};
use vstd::string::StrSliceExecFns;

verus! {

/// Why a workspace could not be loaded.
#[derive(PartialEq, Eq, Structural, Clone, Copy, Debug)]
pub enum ImportErr {
    InvalidToml,
    InvalidCoord,
    NodeTextDoesntFit,
    InvalidRhs,
    DuplicateCoord,
    InvalidHighlightRhs,
    IntOutOfRange,
    NotAnInt,
}

impl ImportErr {
    pub open spec fn spec_description(self) -> &'static str {
        match self {
            ImportErr::InvalidToml => "# INVALID TOML",
            ImportErr::InvalidCoord => "# INVALID COORD",
            ImportErr::NodeTextDoesntFit => "# CODE DOESN'T FIT",
            ImportErr::InvalidRhs => "# INVALID RHS",
            ImportErr::DuplicateCoord => "# DUPLICATE COORD",
            ImportErr::InvalidHighlightRhs => "# INVALID LOC",
            ImportErr::IntOutOfRange => "# INT OVERFLOW",
            ImportErr::NotAnInt => "# NOT AN INT",
        }
    }

    /// The comment line that the diagnostic node shows for this error.
    pub fn description(&self) -> (r: &'static str)
        ensures
            r == self.spec_description(),
    {
        match self {
            ImportErr::InvalidToml => "# INVALID TOML",
            ImportErr::InvalidCoord => "# INVALID COORD",
            ImportErr::NodeTextDoesntFit => "# CODE DOESN'T FIT",
            ImportErr::InvalidRhs => "# INVALID RHS",
            ImportErr::DuplicateCoord => "# DUPLICATE COORD",
            ImportErr::InvalidHighlightRhs => "# INVALID LOC",
            ImportErr::IntOutOfRange => "# INT OVERFLOW",
            ImportErr::NotAnInt => "# NOT AN INT",
        }
    }
}

/// The right-hand side of a workspace entry: text, an array whose items
/// are integers or not, or anything else.
pub enum TomlRhs {
    Text(String),
    Array(Vec<Option<i64>>),
    Other,
}

pub enum RhsView {
    Text(Seq<char>),
    Array(Seq<Option<i64>>),
    Other,
}

impl View for TomlRhs {
    type V = RhsView;

    open spec fn view(&self) -> RhsView {
        match self {
            TomlRhs::Text(t) => RhsView::Text(t@),
            TomlRhs::Array(a) => RhsView::Array(a@),
            TomlRhs::Other => RhsView::Other,
        }
    }
}

pub open spec fn entries_view(es: Seq<(String, TomlRhs)>) -> Seq<(Seq<char>, RhsView)> {
    es.map_values(|e: (String, TomlRhs)| (e.0@, e.1@))
}

/// White space as `char::is_whitespace` has it (Unicode `White_Space`).
pub open spec fn is_space(c: char) -> bool {
    ('\t' <= c <= '\r') || c == ' ' || c == '\u{85}' || c == '\u{A0}' || c == '\u{1680}' || (
    '\u{2000}' <= c <= '\u{200A}') || c == '\u{2028}' || c == '\u{2029}' || c == '\u{202F}' || c
        == '\u{205F}' || c == '\u{3000}'
}

/// `s` without trailing white space, as `str::trim_end` gives it.
pub open spec fn trim_end(s: Seq<char>) -> Seq<char>
    decreases s.len(),
{
    if s.len() > 0 && is_space(s.last()) {
        trim_end(s.drop_last())
    } else {
        s
    }
}

/// `s` without leading white space, as `str::trim_start` gives it.
pub open spec fn trim_start(s: Seq<char>) -> Seq<char>
    decreases s.len(),
{
    if s.len() > 0 && is_space(s[0]) {
        trim_start(s.drop_first())
    } else {
        s
    }
}

/// A cell written `x, y`: two integers separated by a comma, white space
/// around each allowed; what follows a second comma is ignored.
pub open spec fn coord_of(s: Seq<char>) -> Result<NodeCoord, ImportErr> {
    let parts = split_on(s, ',');
    let x = int_literal(trim_start(trim_end(parts[0])));
    let y = int_literal(trim_start(trim_end(parts[1])));
    if parts.len() >= 2 && x is Some && isize::MIN <= x->0 <= isize::MAX && y is Some
        && isize::MIN <= y->0 <= isize::MAX {
        Ok(NodeCoord { x: x->0 as isize, y: y->0 as isize })
    } else {
        Err(ImportErr::InvalidCoord)
    }
}

/// The values of an input node's array; the first bad item decides the error.
pub open spec fn data_of(items: Seq<Option<i64>>) -> Result<Seq<i8>, ImportErr>
    decreases items.len(),
{
    if items.len() == 0 {
        Ok(Seq::empty())
    } else {
        match data_of(items.drop_last()) {
            Err(e) => Err(e),
            Ok(done) => match items.last() {
                None => Err(ImportErr::NotAnInt),
                Some(v) => if -128 <= v <= 127 {
                    Ok(done.push(v as i8))
                } else {
                    Err(ImportErr::IntOutOfRange)
                },
            },
        }
    }
}

/// A stopped programmable node holding `t`.
pub open spec fn text_node(t: Seq<char>) -> NodeView {
    NodeView {
        variant: VariantView::Exec(ExecView { text: t, state: classify(parse_text(t)) }),
        outbox: NodeOutbox::Empty,
    }
}

/// A stopped input node holding `d`.
pub open spec fn data_node(d: Seq<i8>) -> NodeView {
    NodeView { variant: VariantView::Input(InputView { data: d, index: None }), outbox: NodeOutbox::Empty }
}

/// The node an entry describes: its text without trailing white space, or
/// its values; an array longer than an input node holds does not fit.
pub open spec fn node_of(key: Seq<char>, rhs: RhsView) -> Result<(NodeCoord, NodeView), ImportErr> {
    match coord_of(key) {
        Err(e) => Err(e),
        Ok(c) => match rhs {
            RhsView::Text(t) => if fits(trim_end(t)) {
                Ok((c, text_node(trim_end(t))))
            } else {
                Err(ImportErr::NodeTextDoesntFit)
            },
            RhsView::Array(a) => match data_of(a) {
                Err(e) => Err(e),
                Ok(d) => if d.len() <= INPUT_NODE_CAP {
                    Ok((c, data_node(d)))
                } else {
                    Err(ImportErr::NodeTextDoesntFit)
                },
            },
            RhsView::Other => Err(ImportErr::InvalidRhs),
        },
    }
}

pub type Loaded = (Map<NodeCoord, NodeView>, Option<NodeCoord>);

/// The nodes and the highlighted cell of the given entries, in order; the
/// first bad entry decides the error.
pub open spec fn load_fold(es: Seq<(Seq<char>, RhsView)>) -> Result<Loaded, ImportErr>
    decreases es.len(),
{
    if es.len() == 0 {
        Ok((Map::empty(), None))
    } else {
        match load_fold(es.drop_last()) {
            Err(e) => Err(e),
            Ok((m, h)) => {
                let (key, rhs) = es.last();
                if key == "highlighted"@ {
                    match rhs {
                        RhsView::Text(t) => match coord_of(t) {
                            Err(e) => Err(e),
                            Ok(c) => Ok((m, Some(c))),
                        },
                        _ => Err(ImportErr::InvalidHighlightRhs),
                    }
                } else {
                    match node_of(key, rhs) {
                        Err(e) => Err(e),
                        Ok((c, n)) => if m.contains_key(c) {
                            Err(ImportErr::DuplicateCoord)
                        } else {
                            Ok((m.insert(c, n), h))
                        },
                    }
                }
            },
        }
    }
}

/// The grid and the highlighted cell (the origin when none is given) that
/// the entries describe.
pub open spec fn load_spec(es: Seq<(Seq<char>, RhsView)>) -> Result<(Map<NodeCoord, NodeView>, NodeCoord), ImportErr> {
    match load_fold(es) {
        Err(e) => Err(e),
        Ok((m, h)) => Ok((m, match h {
            Some(c) => c,
            None => NodeCoord { x: 0, y: 0 },
        })),
    }
}

pub open spec fn loaded(r: Result<(Grid, NodeCoord), ImportErr>) -> Result<(Map<NodeCoord, NodeView>, NodeCoord), ImportErr> {
    match r {
        Ok((g, c)) => Ok((g@, c)),
        Err(e) => Err(e),
    }
}

pub fn is_space_char(c: char) -> (r: bool)
    ensures
        r == is_space(c),
{
    ('\t' <= c && c <= '\r') || c == ' ' || c == '\u{85}' || c == '\u{A0}' || c == '\u{1680}' || (
    '\u{2000}' <= c && c <= '\u{200A}') || c == '\u{2028}' || c == '\u{2029}' || c == '\u{202F}'
        || c == '\u{205F}' || c == '\u{3000}'
}

/// How many characters of `s` remain once trailing white space is cut.
pub fn trim_end_len(s: &[char]) -> (r: usize)
    ensures
        r <= s@.len(),
        s@.take(r as int) == trim_end(s@),
{
    let mut n = s.len();
    assert(s@.take(n as int) =~= s@);
    while n > 0 && is_space_char(s[n - 1])
        invariant
            n <= s@.len(),
            trim_end(s@.take(n as int)) == trim_end(s@),
        decreases n,
    {
        assert(s@.take(n as int).drop_last() =~= s@.take(n as int - 1));
        n = n - 1;
    }
    n
}

/// How many leading characters of `s` are white space.
pub fn trim_start_len(s: &[char]) -> (r: usize)
    ensures
        r <= s@.len(),
        s@.skip(r as int) == trim_start(s@),
{
    let mut n: usize = 0;
    assert(s@.skip(0) =~= s@);
    while n < s.len() && is_space_char(s[n])
        invariant
            n <= s@.len(),
            trim_start(s@.skip(n as int)) == trim_start(s@),
        decreases s@.len() - n,
    {
        assert(s@.skip(n as int).drop_first() =~= s@.skip(n as int + 1));
        n = n + 1;
    }
    n
}

/// Reads `s` as an `isize` literal the way `str::parse::<isize>` does.
pub fn parse_isize(s: &[char]) -> (r: Option<isize>)
    ensures
        r is Some <==> (int_literal(s@) is Some && isize::MIN <= int_literal(s@)->0 <= isize::MAX),
        r is Some ==> r->0 as int == int_literal(s@)->0,
{
    let n = s.len();
    if n == 0 {
        return None;
    }
    let neg = s[0] == '-';
    let start: usize = if s[0] == '-' || s[0] == '+' { 1 } else { 0 };
    if start == n {
        return None;
    }
    let ghost digits = s@.skip(start as int);
    let cap: u128 = 0x1_0000_0000_0000_0000;
    let mut v: u128 = 0;
    let mut i: usize = start;
    while i < n
        invariant
            start <= i <= n == s@.len(),
            n > 0,
            cap == 0x1_0000_0000_0000_0000u128,
            start == (if s@[0] == '-' || s@[0] == '+' { 1usize } else { 0usize }),
            neg == (s@[0] == '-'),
            digits == s@.skip(start as int),
            all_digits(s@.subrange(start as int, i as int)),
            v == (if digits_value(s@.subrange(start as int, i as int)) > cap {
                cap as int
            } else {
                digits_value(s@.subrange(start as int, i as int))
            }),
            digits_value(s@.subrange(start as int, i as int)) >= 0,
        decreases n - i,
    {
        let c = s[i];
        if !('0' <= c && c <= '9') {
            proof {
                assert(digits[i - start] == c);
                assert(!all_digits(digits));
                if start == 1 {
                    assert(s@.drop_first() =~= digits);
                    assert(!crate::text::is_digit(s@[0]));
                } else {
                    assert(s@ =~= digits);
                }
            }
            return None;
        }
        proof {
            let p = s@.subrange(start as int, i as int + 1);
            assert(p.drop_last() =~= s@.subrange(start as int, i as int));
        }
        let d = (c as u32 - '0' as u32) as u128;
        v = if v * 10 + d > cap { cap } else { v * 10 + d };
        i = i + 1;
        assert(all_digits(s@.subrange(start as int, i as int)));
    }
    assert(s@.subrange(start as int, n as int) =~= digits);
    proof {
        if start == 1 {
            assert(s@.drop_first() =~= digits);
        } else {
            assert(s@ =~= digits);
        }
    }
    if neg {
        if v <= (isize::MAX as u128) + 1 {
            Some((0i128 - v as i128) as isize)
        } else {
            None
        }
    } else {
        if v <= isize::MAX as u128 {
            Some(v as isize)
        } else {
            None
        }
    }
}

/// One trimmed number of a cell written `x, y`.
fn coord_part(part: &Vec<char>) -> (r: Option<isize>)
    ensures
        r is Some <==> (int_literal(trim_start(trim_end(part@))) is Some && isize::MIN
            <= int_literal(trim_start(trim_end(part@)))->0 <= isize::MAX),
        r is Some ==> r->0 as int == int_literal(trim_start(trim_end(part@)))->0,
{
    let e = trim_end_len(part.as_slice());
    let t = crate::text::slice_of(part.as_slice(), 0, e);
    let b = trim_start_len(t.as_slice());
    let u = crate::text::slice_of(t.as_slice(), b, t.len());
    assert(u@ =~= t@.skip(b as int));
    parse_isize(u.as_slice())
}

/// Reads a cell written `x, y`.
pub fn parse_coord(s: &str) -> (r: Result<NodeCoord, ImportErr>)
    ensures
        r == coord_of(s@),
{
    let chars = chars_of(s);
    let parts = split_lines(chars.as_slice(), ',');
    let ghost pv = views(parts@);
    if parts.len() < 2 {
        return Err(ImportErr::InvalidCoord);
    }
    assert(pv[0] == parts@[0]@ && pv[1] == parts@[1]@);
    let x = match coord_part(&parts[0]) {
        Some(x) => x,
        None => return Err(ImportErr::InvalidCoord),
    };
    let y = match coord_part(&parts[1]) {
        Some(y) => y,
        None => return Err(ImportErr::InvalidCoord),
    };
    Ok(NodeCoord { x, y })
}

/// The values of an input node's array, or the first bad item's error.
pub fn data_from(items: &Vec<Option<i64>>) -> (r: Result<Vec<i8>, ImportErr>)
    ensures
        match r {
            Ok(d) => data_of(items@) == Ok::<Seq<i8>, ImportErr>(d@),
            Err(e) => data_of(items@) == Err::<Seq<i8>, ImportErr>(e),
        },
{
    let mut d: Vec<i8> = Vec::new();
    let mut i: usize = 0;
    assert(items@.take(0) =~= Seq::<Option<i64>>::empty());
    while i < items.len()
        invariant
            i <= items@.len(),
            data_of(items@.take(i as int)) == Ok::<Seq<i8>, ImportErr>(d@),
        decreases items@.len() - i,
    {
        assert(items@.take(i as int + 1).drop_last() =~= items@.take(i as int));
        let e = match items[i] {
            None => ImportErr::NotAnInt,
            Some(v) => if -128 <= v && v <= 127 {
                d.push(v as i8);
                i = i + 1;
                continue;
            } else {
                ImportErr::IntOutOfRange
            },
        };
        proof {
            lemma_data_err_stays(items@, i as int + 1, e);
        }
        return Err(e);
    }
    assert(items@.take(i as int) =~= items@);
    Ok(d)
}

proof fn lemma_data_err_stays(items: Seq<Option<i64>>, i: int, e: ImportErr)
    requires
        0 <= i <= items.len(),
        data_of(items.take(i)) == Err::<Seq<i8>, ImportErr>(e),
    ensures
        data_of(items) == Err::<Seq<i8>, ImportErr>(e),
    decreases items.len() - i,
{
    if i < items.len() {
        assert(items.take(i + 1).drop_last() =~= items.take(i));
        lemma_data_err_stays(items, i + 1, e);
    } else {
        assert(items.take(i) =~= items);
    }
}

/// The cell and the node that one workspace entry describes.
pub fn parse_node(key: &str, value: &TomlRhs) -> (r: Result<(NodeCoord, Node), ImportErr>)
    ensures
        match r {
            Ok((c, n)) => node_of(key@, value@) == Ok::<(NodeCoord, NodeView), ImportErr>((c, n@)),
            Err(e) => node_of(key@, value@) == Err::<(NodeCoord, NodeView), ImportErr>(e),
        },
        r is Ok ==> r->Ok_0.1@.wf(),
{
    let c = parse_coord(key)?;
    match value {
        TomlRhs::Text(text) => {
            let t = text.as_str();
            let chars = chars_of(t);
            let e = trim_end_len(chars.as_slice());
            let trimmed = t.substring_char(0, e);
            match Node::exec_with_text(trimmed) {
                Some(n) => Ok((c, n)),
                None => Err(ImportErr::NodeTextDoesntFit),
            }
        },
        TomlRhs::Array(items) => {
            let d = data_from(items)?;
            match InputNode::from_values(&d) {
                Some(inp) => Ok((c, Node { variant: NodeType::Input(inp), outbox: NodeOutbox::Empty })),
                None => Err(ImportErr::NodeTextDoesntFit),
            }
        },
        TomlRhs::Other => Err(ImportErr::InvalidRhs),
    }
}

proof fn lemma_load_err_stays(es: Seq<(Seq<char>, RhsView)>, i: int, e: ImportErr)
    requires
        0 <= i <= es.len(),
        load_fold(es.take(i)) == Err::<Loaded, ImportErr>(e),
    ensures
        load_fold(es) == Err::<Loaded, ImportErr>(e),
    decreases es.len() - i,
{
    if i < es.len() {
        assert(es.take(i + 1).drop_last() =~= es.take(i));
        lemma_load_err_stays(es, i + 1, e);
    } else {
        assert(es.take(i) =~= es);
    }
}

/// The grid and highlighted cell that the entries describe, in order; the
/// first bad entry decides the error.
pub fn load_entries(entries: &Vec<(String, TomlRhs)>) -> (r: Result<(Grid, NodeCoord), ImportErr>)
    ensures
        loaded(r) == load_spec(entries_view(entries@)),
        r is Ok ==> r->Ok_0.0.wf(),
{
    let ghost ev = entries_view(entries@);
    let mut grid = Grid::new();
    let mut highlighted: Option<NodeCoord> = None;
    let mut i: usize = 0;
    assert(ev.take(0) =~= Seq::<(Seq<char>, RhsView)>::empty());
    while i < entries.len()
        invariant
            ev == entries_view(entries@),
            i <= entries@.len(),
            grid.wf(),
            load_fold(ev.take(i as int)) == Ok::<Loaded, ImportErr>((grid@, highlighted)),
        decreases entries@.len() - i,
    {
        let (key, value) = &entries[i];
        assert(ev.take(i as int + 1).drop_last() =~= ev.take(i as int));
        assert(ev.take(i as int + 1).last() == (key@, value@));
        let kc = chars_of(key.as_str());
        let step: Result<(), ImportErr> = if is_word(kc.as_slice(), "highlighted") {
            match value {
                TomlRhs::Text(t) => match parse_coord(t.as_str()) {
                    Ok(c) => {
                        highlighted = Some(c);
                        Ok(())
                    },
                    Err(e) => Err(e),
                },
                _ => Err(ImportErr::InvalidHighlightRhs),
            }
        } else {
            match parse_node(key.as_str(), value) {
                Ok((c, n)) => if grid.contains(c) {
                    Err(ImportErr::DuplicateCoord)
                } else {
                    grid.insert(c, n);
                    Ok(())
                },
                Err(e) => Err(e),
            }
        };
        match step {
            Err(e) => {
                proof {
                    lemma_load_err_stays(ev, i as int + 1, e);
                }
                return Err(e);
            },
            Ok(()) => {},
        }
        i = i + 1;
    }
    assert(ev.take(i as int) =~= ev);
    let h = match highlighted {
        Some(c) => c,
        None => NodeCoord { x: 0, y: 0 },
    };
    Ok((grid, h))
}

/// The entries of a TOML table, keys in ascending order, or `None` when the
/// text is no TOML table.
pub uninterp spec fn toml_entries_of(s: Seq<char>) -> Option<Seq<(Seq<char>, RhsView)>>;

/// Relies on toml::from_str into a toml::Table: its result depends on the
/// text alone (the table is a BTreeMap, so it is walked in key order).
/// Strings, arrays whose items are integers or not, and other values are
/// told apart; nothing else is read.
#[verifier::external_body]
fn toml_entries(s: &str) -> (r: Option<Vec<(String, TomlRhs)>>)
    ensures
        match r {
            Some(es) => toml_entries_of(s@) == Some(entries_view(es@)),
            None => toml_entries_of(s@) is None,
        },
{
    let table: toml::Table = toml::from_str(s).ok()?;
    Some(table.into_iter().map(|(k, v)| (k, match v {
        toml::Value::String(t) => TomlRhs::Text(t),
        toml::Value::Array(a) => TomlRhs::Array(a.iter().map(toml::Value::as_integer).collect()),
        _ => TomlRhs::Other,
    })).collect())
}

/// Loads a workspace from its TOML text.
pub fn parse_toml(toml: &str) -> (r: Result<(Grid, NodeCoord), ImportErr>)
    ensures
        match toml_entries_of(toml@) {
            None => r == Err::<(Grid, NodeCoord), ImportErr>(ImportErr::InvalidToml),
            Some(es) => loaded(r) == load_spec(es),
        },
        r is Ok ==> r->Ok_0.0.wf(),
{
    match toml_entries(toml) {
        None => Err(ImportErr::InvalidToml),
        Some(es) => load_entries(&es),
    }
}


/// A cell written `x, y`.
pub open spec fn coord_text(c: NodeCoord) -> Seq<char> {
    decimal(c.x as int) + ", "@ + decimal(c.y as int)
}

/// Values written `a, b, ` (each followed by a comma and a space).
pub open spec fn values_text(d: Seq<i8>) -> Seq<char>
    decreases d.len(),
{
    if d.len() == 0 {
        Seq::empty()
    } else {
        values_text(d.drop_last()) + decimal(d.last() as int) + ", "@
    }
}

/// One node's entry: its text as a multi-line literal string, or its values
/// as an array.
pub open spec fn entry_text(c: NodeCoord, n: NodeView) -> Seq<char> {
    let key = "\""@ + coord_text(c) + "\""@;
    match n.variant {
        VariantView::Exec(e) => key + " = '''\n"@ + e.text + "\n'''\n\n"@,
        VariantView::Input(i) => key + " = [ "@ + values_text(i.data) + "]\n\n"@,
    }
}

/// The entries of the cells of `order`, in that order.
pub open spec fn entries_text(g: Map<NodeCoord, NodeView>, order: Seq<NodeCoord>) -> Seq<char>
    decreases order.len(),
{
    if order.len() == 0 {
        Seq::empty()
    } else {
        entries_text(g, order.drop_last()) + entry_text(order.last(), g[order.last()])
    }
}

/// A workspace's text: the entries of the cells of `order`, then the
/// highlighted cell, if any.
pub open spec fn serialized(g: Map<NodeCoord, NodeView>, order: Seq<NodeCoord>, h: Option<NodeCoord>) -> Seq<char> {
    entries_text(g, order) + match h {
        Some(c) => "highlighted = \""@ + coord_text(c) + "\"\n"@,
        None => Seq::empty(),
    }
}

fn push_coord(out: &mut Vec<char>, c: NodeCoord)
    ensures
        final(out)@ == old(out)@ + coord_text(c),
{
    push_decimal(out, c.x as i128);
    push_str(out, ", ");
    push_decimal(out, c.y as i128);
    assert(final(out)@ =~= old(out)@ + coord_text(c));
}

/// A cell written `x, y`.
pub fn fmt_coord(node_loc: &NodeCoord) -> (r: String)
    ensures
        r@ == coord_text(*node_loc),
{
    let mut out: Vec<char> = Vec::new();
    push_coord(&mut out, *node_loc);
    assert(out@ =~= coord_text(*node_loc));
    string_of(&out)
}

fn push_entry(out: &mut Vec<char>, c: NodeCoord, n: &Node)
    ensures
        final(out)@ == old(out)@ + entry_text(c, n@),
{
    let ghost start = out@;
    push_str(out, "\"");
    push_coord(out, c);
    push_str(out, "\"");
    let ghost key = "\""@ + coord_text(c) + "\""@;
    assert(out@ =~= start + key);
    match &n.variant {
        NodeType::Exec(e) => {
            push_str(out, " = '''\n");
            push_str(out, e.text());
            push_str(out, "\n'''\n\n");
            assert(out@ =~= start + entry_text(c, n@));
        },
        NodeType::Input(i) => {
            push_str(out, " = [ ");
            let data = i.data();
            let ghost mid = out@;
            let mut k: usize = 0;
            assert(data@.take(0) =~= Seq::<i8>::empty());
            assert(mid =~= mid + values_text(data@.take(0)));
            while k < data.len()
                invariant
                    k <= data@.len(),
                    out@ == mid + values_text(data@.take(k as int)),
                decreases data@.len() - k,
            {
                push_decimal(out, data[k] as i128);
                push_str(out, ", ");
                assert(data@.take(k as int + 1).drop_last() =~= data@.take(k as int));
                k = k + 1;
                assert(out@ =~= mid + values_text(data@.take(k as int)));
            }
            assert(data@.take(k as int) =~= data@);
            push_str(out, "]\n\n");
            assert(out@ =~= start + entry_text(c, n@));
        },
    }
}

/// The workspace's text: one entry per occupied cell, in row-major order,
/// then the highlighted cell, if any.
pub fn serialize_toml(nodes: &Grid, highlighted: Option<NodeCoord>) -> (r: String)
    requires
        nodes.inv(),
    ensures
        exists|order: Seq<NodeCoord>|
            ascending(order) && order.to_set() == nodes@.dom() && r@ == serialized(
                nodes@,
                order,
                highlighted,
            ),
{
    let cells = nodes.coords();
    let order = sorted_cells(&cells);
    proof {
        assert forall|c: NodeCoord| order@.to_set().contains(c) <==> nodes@.dom().contains(c) by {
            assert(order@.to_set().contains(c) <==> cells@.to_set().contains(c));
        }
        assert(order@.to_set() =~= nodes@.dom());
    }
    let mut out: Vec<char> = Vec::new();
    let mut i: usize = 0;
    assert(order@.take(0) =~= Seq::<NodeCoord>::empty());
    while i < order.len()
        invariant
            nodes.inv(),
            i <= order@.len(),
            order@.to_set() == nodes@.dom(),
            out@ == entries_text(nodes@, order@.take(i as int)),
        decreases order@.len() - i,
    {
        let c = order[i];
        assert(order@.to_set().contains(c));
        assert(order@.take(i as int + 1).drop_last() =~= order@.take(i as int));
        match nodes.get(c) {
            Some(n) => push_entry(&mut out, c, n),
            None => {},
        }
        i = i + 1;
    }
    assert(order@.take(i as int) =~= order@);
    match highlighted {
        Some(h) => {
            push_str(&mut out, "highlighted = \"");
            push_coord(&mut out, h);
            push_str(&mut out, "\"\n");
        },
        None => {},
    }
    assert(out@ =~= serialized(nodes@, order@, highlighted));
    string_of(&out)
}

} // verus!
