use tis_net::dir::{Dir, NodeCoord};
use tis_net::exec_node::{ExecNode, ExecNodeState};
use tis_net::grid::{Grid, Node, NodeType};
use tis_net::node::{NodeOutbox, StopResult};
use tis_net::sim::{step_execution, stop_execution};

fn grid_of(cells: &[(isize, isize, &str)]) -> Grid {
    let mut g = Grid::new();
    for (x, y, text) in cells {
        g.insert(NodeCoord::at(*x, *y), Node::exec_with_text(text).unwrap());
    }
    g
}

fn exec_at(g: &Grid, x: isize, y: isize) -> &ExecNode {
    match &g.get(NodeCoord::at(x, y)).unwrap().variant {
        NodeType::Exec(e) => e,
        NodeType::Input(_) => panic!("not a programmable node"),
    }
}

fn outbox_at(g: &Grid, x: isize, y: isize) -> NodeOutbox {
    g.get(NodeCoord::at(x, y)).unwrap().outbox
}

/// (ip, acc, bak) of a running node.
fn regs(g: &Grid, x: isize, y: isize) -> (u8, i8, i8) {
    match exec_at(g, x, y).state() {
        ExecNodeState::Running(rt) => (rt.ip(), rt.acc(), rt.bak()),
        _ => panic!("node is not running"),
    }
}

fn ticks(g: Grid, n: usize) -> Grid {
    let mut g = g;
    for _ in 0..n {
        g = step_execution(&g, NodeCoord::at(0, 0));
    }
    g
}

#[test]
fn first_tick_only_boots() {
    let g = ticks(grid_of(&[(0, 0, "MOV 5 ACC")]), 1);
    assert_eq!(regs(&g, 0, 0), (0, 0, 0));
}

#[test]
fn jro_zero_stalls_forever() {
    let mut g = ticks(grid_of(&[(0, 0, "JRO 0")]), 1);
    for _ in 0..20 {
        g = ticks(g, 1);
        assert_eq!(regs(&g, 0, 0).0, 0);
    }
}

#[test]
fn jro_zero_stalls_on_later_line() {
    let g = ticks(grid_of(&[(0, 0, "NOP\nJRO 0\nNOP")]), 2);
    assert_eq!(regs(&g, 0, 0).0, 1);
    let g = ticks(g, 7);
    assert_eq!(regs(&g, 0, 0).0, 1);
}

#[test]
fn jro_clamps_to_program() {
    let g = ticks(grid_of(&[(0, 0, "JRO 100\nNOP\nNOP")]), 2);
    assert_eq!(regs(&g, 0, 0).0, 2);
    let g = ticks(grid_of(&[(0, 0, "NOP\nJRO -100\nNOP")]), 3);
    assert_eq!(regs(&g, 0, 0).0, 0);
    let g = ticks(grid_of(&[(0, 0, "NOP\nNOP\nJRO -1")]), 4);
    assert_eq!(regs(&g, 0, 0).0, 1);
}

#[test]
fn add_saturates_at_max() {
    let g = ticks(grid_of(&[(0, 0, "MOV 120 ACC\nADD 100")]), 3);
    assert_eq!(regs(&g, 0, 0).1, 127);
}

#[test]
fn sub_saturates_at_min() {
    let g = ticks(grid_of(&[(0, 0, "MOV -120 ACC\nSUB 100")]), 3);
    assert_eq!(regs(&g, 0, 0).1, -128);
}

#[test]
fn neg_saturates() {
    let g = ticks(grid_of(&[(0, 0, "MOV -128 ACC\nNEG")]), 3);
    assert_eq!(regs(&g, 0, 0).1, 127);
    let g = ticks(grid_of(&[(0, 0, "MOV 7 ACC\nNEG")]), 3);
    assert_eq!(regs(&g, 0, 0).1, -7);
}

#[test]
fn swp_and_sav() {
    let g = ticks(grid_of(&[(0, 0, "MOV 9 ACC\nSAV\nMOV 4 ACC\nSWP")]), 5);
    assert_eq!(regs(&g, 0, 0), (0, 9, 4));
}

#[test]
fn ip_wraps_after_last_instruction() {
    let g = ticks(grid_of(&[(0, 0, "NOP\nNOP")]), 3);
    assert_eq!(regs(&g, 0, 0).0, 0);
}

#[test]
fn conditional_jumps() {
    let text = "JEZ Z\nMOV 1 ACC\nZ:MOV 2 ACC";
    let g = ticks(grid_of(&[(0, 0, text)]), 2);
    assert_eq!(regs(&g, 0, 0).0, 2);
    let text = "MOV 3 ACC\nJGZ P\nNOP\nP:JLZ P\nJNZ P";
    let g = ticks(grid_of(&[(0, 0, text)]), 5);
    assert_eq!(regs(&g, 0, 0).0, 3);
}

#[test]
fn jump_to_label_at_end_wraps() {
    let g = ticks(grid_of(&[(0, 0, "NOP\nJMP END\nEND:")]), 3);
    assert_eq!(regs(&g, 0, 0).0, 0);
}

#[test]
fn self_loop_label_runs() {
    let mut g = grid_of(&[(0, 0, "A:JMP A")]);
    assert!(matches!(exec_at(&g, 0, 0).state(), ExecNodeState::Ready(_)));
    for _ in 0..10 {
        g = ticks(g, 1);
        assert!(matches!(exec_at(&g, 0, 0).state(), ExecNodeState::Running(_)));
        assert_eq!(regs(&g, 0, 0).0, 0);
    }
}

#[test]
fn rendezvous_between_neighbours() {
    // the receiver sits above the sender
    let g = grid_of(&[(0, 1, "MOV 5 UP"), (0, 0, "L:MOV DOWN ACC\nJMP L")]);
    let g = ticks(g, 1);
    let g = ticks(g, 1);
    assert_eq!(outbox_at(&g, 0, 1), NodeOutbox::Directional(Dir::Up, 5));
    assert_eq!(regs(&g, 0, 1).0, 0);
    assert_eq!(regs(&g, 0, 0), (0, 0, 0));
    let g = ticks(g, 1);
    assert_eq!(regs(&g, 0, 0).1, 5);
    assert_eq!(regs(&g, 0, 0).0, 1);
    assert_eq!(outbox_at(&g, 0, 1), NodeOutbox::Empty);
    assert_eq!(outbox_at(&g, 0, 0), NodeOutbox::Empty);
    match exec_at(&g, 0, 1).state() {
        ExecNodeState::Running(rt) => assert_eq!(rt.last(), Some(Dir::Up)),
        _ => panic!("sender stopped"),
    }
}

#[test]
fn numeric_jump_target_is_a_label() {
    let g = grid_of(&[(0, 0, "MOV DOWN ACC\nJMP 0")]);
    assert!(matches!(exec_at(&g, 0, 0).state(), ExecNodeState::Errored(_)));
}

#[test]
fn rendezvous_sender_advances() {
    let g = grid_of(&[(0, 1, "MOV 5 UP\nNOP"), (0, 0, "MOV DOWN ACC\nJRO 0")]);
    let g = ticks(g, 3);
    assert_eq!(regs(&g, 0, 1).0, 1);
    assert_eq!(regs(&g, 0, 0), (1, 5, 0));
}

#[test]
fn reader_waits_for_sender() {
    let g = grid_of(&[(0, 0, "MOV RIGHT ACC"), (1, 0, "NOP\nNOP\nMOV 7 LEFT")]);
    let g = ticks(g, 3);
    assert_eq!(regs(&g, 0, 0), (0, 0, 0));
    let g = ticks(g, 1);
    assert_eq!(outbox_at(&g, 1, 0), NodeOutbox::Directional(Dir::Left, 7));
    let g = ticks(g, 1);
    assert_eq!(regs(&g, 0, 0).1, 7);
}

#[test]
fn sender_pointing_elsewhere_is_not_read() {
    let g = grid_of(&[(0, 0, "MOV RIGHT ACC"), (1, 0, "MOV 7 DOWN")]);
    let g = ticks(g, 4);
    assert_eq!(regs(&g, 0, 0).1, 0);
    assert_eq!(outbox_at(&g, 1, 0), NodeOutbox::Directional(Dir::Down, 7));
}

#[test]
fn any_read_prefers_up_then_down() {
    let g = grid_of(&[
        (0, 0, "MOV 1 DOWN"),
        (0, 1, "MOV ANY ACC\nMOV ANY ACC"),
        (0, 2, "MOV 2 UP"),
    ]);
    let g = ticks(g, 3);
    assert_eq!(regs(&g, 0, 1).1, 1);
    match exec_at(&g, 0, 1).state() {
        ExecNodeState::Running(rt) => assert_eq!(rt.last(), Some(Dir::Up)),
        _ => panic!("reader stopped"),
    }
    let g = ticks(g, 1);
    assert_eq!(regs(&g, 0, 1).1, 2);
}

#[test]
fn any_write_goes_to_first_reader() {
    let g = grid_of(&[(0, 0, "MOV 9 ANY"), (1, 0, "MOV LEFT ACC")]);
    let g = ticks(g, 3);
    assert_eq!(regs(&g, 1, 0).1, 9);
    match exec_at(&g, 0, 0).state() {
        ExecNodeState::Running(rt) => assert_eq!(rt.last(), Some(Dir::Right)),
        _ => panic!("sender stopped"),
    }
}

#[test]
fn one_value_goes_to_one_reader() {
    let g = grid_of(&[
        (0, 0, "MOV DOWN ACC"),
        (1, 1, "MOV LEFT ACC"),
        (0, 1, "MOV 3 ANY\nJRO 0"),
    ]);
    let g = ticks(g, 3);
    assert_eq!(regs(&g, 0, 0).1, 3);
    assert_eq!(regs(&g, 1, 1).1, 0);
    assert_eq!(regs(&g, 0, 1).0, 1);
}

#[test]
fn last_without_port_acts_as_nil() {
    let g = ticks(grid_of(&[(0, 0, "MOV 4 ACC\nADD LAST\nMOV 6 LAST")]), 4);
    assert_eq!(regs(&g, 0, 0), (0, 4, 0));
    assert_eq!(outbox_at(&g, 0, 0), NodeOutbox::Empty);
}

#[test]
fn input_node_feeds_reader() {
    let mut g = Grid::new();
    g.insert(
        NodeCoord::at(0, 0),
        Node {
            variant: NodeType::Input(tis_net::input_node::InputNode::from_values(&vec![3, 4]).unwrap()),
            outbox: NodeOutbox::Empty,
        },
    );
    g.insert(NodeCoord::at(0, 1), Node::exec_with_text("ADD UP").unwrap());
    let g = ticks(g, 3);
    assert_eq!(regs(&g, 0, 1).1, 3);
    let g = ticks(g, 2);
    assert_eq!(regs(&g, 0, 1).1, 7);
    let g = ticks(g, 4);
    assert_eq!(regs(&g, 0, 1).1, 7);
}

#[test]
fn unreached_nodes_do_not_run() {
    let g = grid_of(&[(0, 0, "NOP"), (5, 5, "NOP")]);
    let g = ticks(g, 2);
    assert!(matches!(exec_at(&g, 0, 0).state(), ExecNodeState::Running(_)));
    assert!(matches!(exec_at(&g, 5, 5).state(), ExecNodeState::Ready(_)));
}

#[test]
fn errored_and_empty_nodes_stay() {
    let g = grid_of(&[(0, 0, "FOO"), (1, 0, "# nothing")]);
    let g = ticks(g, 3);
    assert!(matches!(exec_at(&g, 0, 0).state(), ExecNodeState::Errored(_)));
    assert!(matches!(exec_at(&g, 1, 0).state(), ExecNodeState::Empty));
}

#[test]
fn stop_with_nothing_running() {
    let mut g = grid_of(&[(0, 0, "NOP"), (1, 0, "MOV 1 ACC")]);
    assert_eq!(stop_execution(&mut g, NodeCoord::at(0, 0)), StopResult::WasAlreadyStopped);
    assert!(matches!(exec_at(&g, 0, 0).state(), ExecNodeState::Ready(_)));
    let mut empty = Grid::new();
    assert_eq!(stop_execution(&mut empty, NodeCoord::at(0, 0)), StopResult::WasAlreadyStopped);
}

#[test]
fn stop_running_grid() {
    let g = grid_of(&[(0, 1, "MOV 5 UP"), (0, 0, "MOV 2 ACC\nMOV DOWN ACC")]);
    let mut g = ticks(g, 2);
    assert_eq!(outbox_at(&g, 0, 1), NodeOutbox::Directional(Dir::Up, 5));
    assert_eq!(stop_execution(&mut g, NodeCoord::at(0, 0)), StopResult::Stopped);
    assert!(matches!(exec_at(&g, 0, 0).state(), ExecNodeState::Ready(_)));
    assert!(matches!(exec_at(&g, 0, 1).state(), ExecNodeState::Ready(_)));
    assert_eq!(outbox_at(&g, 0, 1), NodeOutbox::Empty);
    assert_eq!(stop_execution(&mut g, NodeCoord::at(0, 0)), StopResult::WasAlreadyStopped);
    let g = ticks(g, 1);
    assert_eq!(regs(&g, 0, 0), (0, 0, 0));
}

#[test]
fn with_text_rejects_oversized_text() {
    assert!(ExecNode::with_text("NOP NOP NOP NOP NOP").is_none());
    assert!(ExecNode::with_text("123456789012345678").is_some());
    let lines = vec!["NOP"; 16].join("\n");
    assert!(ExecNode::with_text(&lines).is_none());
    let lines = vec!["NOP"; 15].join("\n");
    assert!(ExecNode::with_text(&lines).is_some());
}

#[test]
fn stop_result_reconcile() {
    let mut r = StopResult::WasAlreadyStopped;
    r.reconcile(StopResult::WasAlreadyStopped);
    assert_eq!(r, StopResult::WasAlreadyStopped);
    r.reconcile(StopResult::Stopped);
    assert_eq!(r, StopResult::Stopped);
    r.reconcile(StopResult::WasAlreadyStopped);
    assert_eq!(r, StopResult::Stopped);
}

#[test]
fn grid_remove_and_move() {
    let mut g = grid_of(&[(0, 0, "NOP"), (1, 0, "NEG")]);
    assert!(!g.move_node(NodeCoord::at(0, 0), NodeCoord::at(1, 0)));
    assert!(!g.move_node(NodeCoord::at(3, 3), NodeCoord::at(4, 4)));
    assert!(g.move_node(NodeCoord::at(1, 0), NodeCoord::at(0, 1)));
    assert!(!g.contains(NodeCoord::at(1, 0)));
    assert_eq!(exec_at(&g, 0, 1).text(), "NEG");
    let removed = g.remove(NodeCoord::at(0, 0)).unwrap();
    match &removed.variant {
        NodeType::Exec(e) => assert_eq!(e.text(), "NOP"),
        NodeType::Input(_) => panic!("input node"),
    }
    assert!(g.remove(NodeCoord::at(0, 0)).is_none());
    assert_eq!(g.coords(), vec![NodeCoord::at(0, 1)]);
}

#[test]
fn neighbour_offers() {
    let g = grid_of(&[(0, 0, "MOV 1 RIGHT"), (1, 0, "NOP"), (0, 1, "MOV 2 ANY")]);
    let g = ticks(g, 2);
    assert!(tis_net::sim::neighbor_sending_io(&g, NodeCoord::at(1, 0), Dir::Left));
    assert!(!tis_net::sim::neighbor_sending_io(&g, NodeCoord::at(0, 1), Dir::Up));
    assert!(tis_net::sim::neighbor_sending_io(&g, NodeCoord::at(0, 0), Dir::Down));
    assert!(!tis_net::sim::neighbor_sending_io(&g, NodeCoord::at(1, 0), Dir::Right));
}
