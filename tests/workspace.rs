use tis_net::dir::NodeCoord;
use tis_net::exec_node::ExecNodeState;
use tis_net::grid::{Node, NodeType};
use tis_net::workspace::{
    ImportErr, TomlRhs, data_from, load_entries, parse_coord, parse_isize, parse_node, parse_toml,
};

fn entry(k: &str, v: TomlRhs) -> (String, TomlRhs) {
    (k.to_string(), v)
}

#[test]
fn coords_parse() {
    assert_eq!(parse_coord("1, 2"), Ok(NodeCoord::at(1, 2)));
    assert_eq!(parse_coord("  -3 ,\t4 "), Ok(NodeCoord::at(-3, 4)));
    assert_eq!(parse_coord("+7,0,99"), Ok(NodeCoord::at(7, 0)));
    assert_eq!(parse_coord("1"), Err(ImportErr::InvalidCoord));
    assert_eq!(parse_coord("a, 2"), Err(ImportErr::InvalidCoord));
    assert_eq!(parse_coord("1, 2x"), Err(ImportErr::InvalidCoord));
    assert_eq!(parse_coord(""), Err(ImportErr::InvalidCoord));
}

#[test]
fn isize_limits() {
    let max = isize::MAX.to_string();
    let min = isize::MIN.to_string();
    let chars = |s: &str| s.chars().collect::<Vec<char>>();
    assert_eq!(parse_isize(&chars(&max)), Some(isize::MAX));
    assert_eq!(parse_isize(&chars(&min)), Some(isize::MIN));
    assert_eq!(parse_isize(&chars("99999999999999999999999")), None);
    assert_eq!(parse_isize(&chars("-")), None);
    assert_eq!(parse_isize(&chars("12")), Some(12));
}

#[test]
fn array_items() {
    assert_eq!(data_from(&vec![Some(1), Some(-128), Some(127)]), Ok(vec![1, -128, 127]));
    assert_eq!(data_from(&vec![Some(1), Some(128)]), Err(ImportErr::IntOutOfRange));
    assert_eq!(data_from(&vec![None, Some(128)]), Err(ImportErr::NotAnInt));
    assert_eq!(data_from(&vec![Some(-129), None]), Err(ImportErr::IntOutOfRange));
}

#[test]
fn node_entries() {
    let (c, n) = parse_node("2, 3", &TomlRhs::Text("NOP\n\n  ".to_string())).unwrap();
    assert_eq!(c, NodeCoord::at(2, 3));
    match &n.variant {
        NodeType::Exec(e) => {
            assert_eq!(e.text(), "NOP");
            assert!(matches!(e.state(), ExecNodeState::Ready(_)));
        }
        NodeType::Input(_) => panic!("input node"),
    }
    let (_, n) = parse_node("0,0", &TomlRhs::Array(vec![Some(5), Some(6)])).unwrap();
    match &n.variant {
        NodeType::Input(i) => assert_eq!(i.data(), vec![5, 6]),
        NodeType::Exec(_) => panic!("programmable node"),
    }
    assert!(matches!(parse_node("0,0", &TomlRhs::Other), Err(ImportErr::InvalidRhs)));
    assert!(matches!(parse_node("x", &TomlRhs::Other), Err(ImportErr::InvalidCoord)));
    assert!(matches!(
        parse_node("0,0", &TomlRhs::Text("12345678901234567890".to_string())),
        Err(ImportErr::NodeTextDoesntFit)
    ));
    assert!(matches!(
        parse_node("0,0", &TomlRhs::Array(vec![Some(1); 40])),
        Err(ImportErr::NodeTextDoesntFit)
    ));
    assert!(parse_node("0,0", &TomlRhs::Array(vec![Some(1); 39])).is_ok());
}

#[test]
fn entries_load() {
    let es = vec![
        entry("0, 0", TomlRhs::Text("MOV 1 ACC".to_string())),
        entry("highlighted", TomlRhs::Text("0, 0".to_string())),
        entry("1, 0", TomlRhs::Array(vec![Some(3)])),
    ];
    let (g, h) = load_entries(&es).unwrap();
    assert_eq!(h, NodeCoord::at(0, 0));
    assert!(g.contains(NodeCoord::at(0, 0)));
    assert!(g.contains(NodeCoord::at(1, 0)));
    assert!(!g.contains(NodeCoord::at(2, 0)));
    let (_, h) = load_entries(&vec![entry("4, 5", TomlRhs::Text(String::new()))]).unwrap();
    assert_eq!(h, NodeCoord::at(0, 0));
}

#[test]
fn entries_errors() {
    let dup = vec![
        entry("0, 0", TomlRhs::Text("NOP".to_string())),
        entry("0,0", TomlRhs::Text("NOP".to_string())),
    ];
    assert!(matches!(load_entries(&dup), Err(ImportErr::DuplicateCoord)));
    let bad_h = vec![entry("highlighted", TomlRhs::Other)];
    assert!(matches!(load_entries(&bad_h), Err(ImportErr::InvalidHighlightRhs)));
    let bad_hc = vec![entry("highlighted", TomlRhs::Text("nowhere".to_string()))];
    assert!(matches!(load_entries(&bad_hc), Err(ImportErr::InvalidCoord)));
    let first_wins = vec![
        entry("a", TomlRhs::Other),
        entry("0,0", TomlRhs::Other),
    ];
    assert!(matches!(load_entries(&first_wins), Err(ImportErr::InvalidCoord)));
}

#[test]
fn toml_text_loads() {
    let text = "\"0, 0\" = \"\"\"\nMOV 1 ACC\n\"\"\"\n\"0, 1\" = [1, 2, 3]\nhighlighted = \"0, 1\"\n";
    let (g, h) = parse_toml(text).unwrap();
    assert_eq!(h, NodeCoord::at(0, 1));
    match &g.get(NodeCoord::at(0, 0)).unwrap().variant {
        NodeType::Exec(e) => assert_eq!(e.text(), "MOV 1 ACC"),
        NodeType::Input(_) => panic!("input node"),
    }
    match &g.get(NodeCoord::at(0, 1)).unwrap().variant {
        NodeType::Input(i) => assert_eq!(i.data(), vec![1, 2, 3]),
        NodeType::Exec(_) => panic!("programmable node"),
    }
}

#[test]
fn toml_errors() {
    assert!(matches!(parse_toml("this is = = not toml"), Err(ImportErr::InvalidToml)));
    assert!(matches!(parse_toml("\"0,0\" = 5"), Err(ImportErr::InvalidRhs)));
    assert!(matches!(parse_toml("\"0,0\" = [1, \"a\"]"), Err(ImportErr::NotAnInt)));
    assert!(matches!(parse_toml("\"0,0\" = [1000]"), Err(ImportErr::IntOutOfRange)));
    assert!(matches!(parse_toml("highlighted = 3"), Err(ImportErr::InvalidHighlightRhs)));
}

#[test]
fn error_descriptions() {
    assert_eq!(ImportErr::InvalidToml.description(), "# INVALID TOML");
    assert_eq!(ImportErr::InvalidCoord.description(), "# INVALID COORD");
    assert_eq!(ImportErr::NodeTextDoesntFit.description(), "# CODE DOESN'T FIT");
    assert_eq!(ImportErr::InvalidRhs.description(), "# INVALID RHS");
    assert_eq!(ImportErr::DuplicateCoord.description(), "# DUPLICATE COORD");
    assert_eq!(ImportErr::InvalidHighlightRhs.description(), "# INVALID LOC");
    assert_eq!(ImportErr::IntOutOfRange.description(), "# INT OVERFLOW");
    assert_eq!(ImportErr::NotAnInt.description(), "# NOT AN INT");
}

#[test]
fn diagnostic_node_from_lines() {
    let n = Node::exec_with_lines(&vec!["## ERROR", "", ImportErr::InvalidToml.description()]).unwrap();
    match &n.variant {
        NodeType::Exec(e) => {
            assert_eq!(e.text(), "## ERROR\n\n# INVALID TOML");
            assert!(matches!(e.state(), ExecNodeState::Empty));
        }
        NodeType::Input(_) => panic!("input node"),
    }
    assert!(Node::exec_with_lines(&vec!["NOP"; 16]).is_none());
}

#[test]
fn coordinates_format() {
    assert_eq!(tis_net::workspace::fmt_coord(&NodeCoord::at(-3, 12)), "-3, 12");
    assert_eq!(tis_net::workspace::fmt_coord(&NodeCoord::at(0, 0)), "0, 0");
}

#[test]
fn workspace_serializes() {
    let mut g = tis_net::grid::Grid::new();
    g.insert(NodeCoord::at(1, 0), Node::exec_with_text("MOV 1 ACC\nNOP").unwrap());
    g.insert(NodeCoord::at(0, 1), Node::input_with_data({
        let mut d = arrayvec::ArrayVec::new();
        d.push(-5);
        d.push(7);
        d
    }));
    let text = tis_net::workspace::serialize_toml(&g, Some(NodeCoord::at(1, 0)));
    assert_eq!(
        text,
        "\"1, 0\" = '''\nMOV 1 ACC\nNOP\n'''\n\n\"0, 1\" = [ -5, 7, ]\n\nhighlighted = \"1, 0\"\n"
    );
    let (back, h) = parse_toml(&text).unwrap();
    assert_eq!(h, NodeCoord::at(1, 0));
    match &back.get(NodeCoord::at(1, 0)).unwrap().variant {
        NodeType::Exec(e) => assert_eq!(e.text(), "MOV 1 ACC\nNOP"),
        NodeType::Input(_) => panic!("input node"),
    }
    match &back.get(NodeCoord::at(0, 1)).unwrap().variant {
        NodeType::Input(i) => assert_eq!(i.data(), vec![-5, 7]),
        NodeType::Exec(_) => panic!("programmable node"),
    }
    assert_eq!(tis_net::workspace::serialize_toml(&tis_net::grid::Grid::new(), None), "");
}
