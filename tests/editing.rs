use tis_net::dir::{Dir, NodeCoord};
use tis_net::exec_node::{ExecNode, ExecNodeState, line_column};
use tis_net::grid::Grid;
use tis_net::input_node::InputNode;
use tis_net::node::StopResult;
use tis_net::seek::seek_nodes;
use tis_net::grid::Node;

fn node(text: &str) -> ExecNode {
    ExecNode::with_text(text).unwrap()
}

#[test]
fn line_columns() {
    assert_eq!(line_column("ab\ncd", 0), (0, 0));
    assert_eq!(line_column("ab\ncd", 2), (0, 2));
    assert_eq!(line_column("ab\ncd", 3), (1, 0));
    assert_eq!(line_column("ab\ncd", 5), (1, 2));
}

#[test]
fn insert_and_reparse() {
    let mut n = ExecNode::empty();
    n.insert("NOP");
    assert_eq!(n.text(), "NOP");
    assert_eq!(n.cursor_line_column(), (0, 3));
    assert!(matches!(n.state(), ExecNodeState::Ready(_)));
    n.enter(false);
    n.insert("FOO");
    assert_eq!(n.text(), "NOP\nFOO");
    assert!(matches!(n.state(), ExecNodeState::Errored(_)));
    assert!(n.cursor_at_error_line(1));
    assert!(!n.cursor_at_error_line(0));
}

#[test]
fn insert_refuses_overflow() {
    let mut n = node("123456789012345678");
    n.end(false);
    n.insert("9");
    assert_eq!(n.text(), "123456789012345678");
    assert_eq!(n.cursor_line_column(), (0, 18));
    let mut n = node(&vec!["NOP"; 15].join("\n"));
    n.enter(false);
    assert_eq!(n.text().lines().count(), 15);
}

#[test]
fn backspace_deletes() {
    let mut n = node("NOPX");
    n.end(false);
    n.backspace();
    assert_eq!(n.text(), "NOP");
    n.home(false);
    n.backspace();
    assert_eq!(n.text(), "NOP");
    n.select_all();
    assert_eq!(n.selection(), "NOP");
    assert!(n.text_selected());
    n.backspace();
    assert_eq!(n.text(), "");
    assert!(matches!(n.state(), ExecNodeState::Empty));
}

#[test]
fn backspace_refuses_too_long_line() {
    let mut n = node("123456789\n123456789012");
    n.down(false);
    n.home(false);
    n.backspace();
    assert_eq!(n.text(), "123456789\n123456789012");
}

#[test]
fn selection_replaced() {
    let mut n = node("MOV 1 ACC");
    n.right(false);
    n.right(false);
    n.right(false);
    n.right(false);
    n.right(true);
    assert_eq!(n.selection(), "1");
    n.insert("42");
    assert_eq!(n.text(), "MOV 42 ACC");
    assert!(!n.text_selected());
    assert_eq!(n.cursor_line_column(), (0, 6));
}

#[test]
fn cursor_moves() {
    let mut n = node("abcd\nxy\nlonger");
    n.end(false);
    assert_eq!(n.cursor_line_column(), (0, 4));
    n.down(false);
    assert_eq!(n.cursor_line_column(), (1, 2));
    n.down(false);
    assert_eq!(n.cursor_line_column(), (2, 2));
    n.down(false);
    assert_eq!(n.cursor_line_column(), (2, 6));
    n.up(false);
    assert_eq!(n.cursor_line_column(), (1, 2));
    n.home(false);
    assert_eq!(n.cursor_line_column(), (1, 0));
    n.left(false);
    assert_eq!(n.cursor_line_column(), (0, 4));
    n.up(false);
    assert_eq!(n.cursor_line_column(), (0, 0));
    n.left(false);
    assert_eq!(n.cursor_line_column(), (0, 0));
    n.select_all();
    n.right(false);
    assert_eq!(n.cursor_line_column(), (2, 6));
}

#[test]
fn gizmos_show_registers() {
    let g = node("NOP").gizmos();
    assert_eq!((g.acc.as_str(), g.bak.as_str(), g.last, g.mode), ("0", "(0)", "N/A", "EDIT"));
    let mut grid = Grid::new();
    grid.insert(NodeCoord::at(0, 0), Node::exec_with_text("MOV -100 ACC\nSAV\nMOV 5 ACC\nMOV 1 UP").unwrap());
    for _ in 0..5 {
        grid = tis_net::sim::step_execution(&grid, NodeCoord::at(0, 0));
    }
    match &grid.get(NodeCoord::at(0, 0)).unwrap().variant {
        tis_net::grid::NodeType::Exec(e) => {
            let g = e.gizmos();
            assert_eq!((g.acc.as_str(), g.bak.as_str(), g.last, g.mode), ("5", "-100", "N/A", "WRITE"));
        }
        _ => panic!("input node"),
    }
}

#[test]
fn input_node_lifecycle() {
    let mut i = InputNode::from_values(&vec![4, 5]).unwrap();
    assert_eq!(i.current(), None);
    assert_eq!(i.stop(), StopResult::WasAlreadyStopped);
    i.start();
    assert_eq!(i.current(), Some(4));
    i.advance();
    assert_eq!(i.current(), Some(5));
    assert_eq!(i.stop(), StopResult::Stopped);
    assert_eq!(i.index(), None);
    assert!(InputNode::from_values(&vec![0; 40]).is_none());
}

#[test]
fn flood_fill_order() {
    let mut g = Grid::new();
    g.insert(NodeCoord::at(1, 0), Node::empty_exec());
    g.insert(NodeCoord::at(0, 0), Node::empty_exec());
    g.insert(NodeCoord::at(5, 5), Node::empty_exec());
    let order = seek_nodes(&g, NodeCoord::at(0, 0));
    assert_eq!(
        order,
        vec![
            NodeCoord::at(0, -1),
            NodeCoord::at(1, -1),
            NodeCoord::at(-1, 0),
            NodeCoord::at(0, 0),
            NodeCoord::at(1, 0),
            NodeCoord::at(2, 0),
            NodeCoord::at(0, 1),
            NodeCoord::at(1, 1),
        ]
    );
    let empty_start = seek_nodes(&g, NodeCoord::at(9, 9));
    assert_eq!(empty_start, vec![NodeCoord::at(9, 9)]);
    assert!(NodeCoord::at(5, 0) < NodeCoord::at(0, 1));
    assert_eq!(NodeCoord::at(0, 0).neighbor(Dir::Left), Some(NodeCoord::at(-1, 0)));
    assert_eq!(NodeCoord::at(isize::MIN, 0).neighbor(Dir::Left), None);
}
