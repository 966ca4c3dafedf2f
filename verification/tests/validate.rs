use calyx_verilog::backend::validate::{validate_control, validate_guard, validate_structure};
use calyx_verilog::backend::verilog::VerilogBackend;
use calyx_verilog::errors::{Error, ErrorKind, Pos};
use calyx_verilog::ir::{
    Assignment, Attributes, BackendConf, Cell, CellType, Component, Context, Control, Direction,
    Group, Guard, Port, PortComp, PortParent,
};

fn attrs(start: Option<u64>) -> Attributes {
    Attributes {
        span: start.map(|start| Pos {
            file: 0,
            start,
            end: start + 1,
        }),
        attrs: vec![],
    }
}

fn cell_port(start: Option<u64>) -> Port {
    Port {
        name: "out".to_string(),
        width: 1,
        direction: Direction::Output,
        parent: PortParent::Cell {
            name: "r".to_string(),
            prototype: CellType::Component {
                name: "std_reg".to_string(),
            },
        },
        attributes: attrs(start),
    }
}

fn hole(start: Option<u64>) -> Port {
    Port {
        name: "done".to_string(),
        width: 1,
        direction: Direction::Input,
        parent: PortParent::Group {
            name: "g".to_string(),
        },
        attributes: attrs(start),
    }
}

fn assignment(dst: Port, guard: Guard) -> Assignment {
    Assignment {
        dst,
        src: cell_port(None),
        guard,
    }
}

fn group(assignments: Vec<Assignment>) -> Group {
    Group {
        name: "g".to_string(),
        assignments,
    }
}

fn component(groups: Vec<Group>, control: Control) -> Component {
    Component {
        name: "main".to_string(),
        signature: Cell {
            name: "_this".to_string(),
            prototype: CellType::ThisComponent,
            ports: vec![],
            attributes: attrs(None),
        },
        cells: vec![],
        groups,
        continuous_assignments: vec![],
        control,
    }
}

fn context(components: Vec<Component>) -> Context {
    Context {
        components,
        extern_paths: vec![],
        bc: BackendConf {
            synthesis_mode: false,
            enable_verification: false,
            initialize_inputs: false,
        },
    }
}

fn empty() -> Control {
    Control::Empty {
        attributes: attrs(None),
    }
}

fn groups_error(start: Option<u64>) -> Error {
    Error {
        kind: ErrorKind::MalformedStructure(
            "Groups / Holes can not be turned into Verilog".to_string(),
        ),
        pos: attrs(start).span,
    }
}

#[test]
fn guard_without_holes_is_valid() {
    assert!(validate_guard(&Guard::True));
    assert!(validate_guard(&Guard::Port(cell_port(None))));
    assert!(validate_guard(&Guard::Not(Box::new(Guard::CompOp(
        PortComp::Lt,
        cell_port(None),
        cell_port(None)
    )))));
}

#[test]
fn guard_with_a_hole_is_not_valid() {
    assert!(!validate_guard(&Guard::Port(hole(None))));
    assert!(!validate_guard(&Guard::CompOp(
        PortComp::Eq,
        cell_port(None),
        hole(None)
    )));
    assert!(!validate_guard(&Guard::CompOp(
        PortComp::Eq,
        hole(None),
        cell_port(None)
    )));
    assert!(!validate_guard(&Guard::And(
        Box::new(Guard::True),
        Box::new(Guard::Not(Box::new(Guard::Port(hole(None)))))
    )));
    assert!(!validate_guard(&Guard::Or(
        Box::new(Guard::Port(hole(None))),
        Box::new(Guard::True)
    )));
}

#[test]
fn no_groups_are_valid() {
    assert_eq!(validate_structure(&vec![]), Ok(()));
}

#[test]
fn group_without_holes_is_reported_at_its_first_assignment() {
    let groups = vec![
        group(vec![]),
        group(vec![
            assignment(cell_port(Some(5)), Guard::True),
            assignment(cell_port(Some(6)), Guard::True),
        ]),
    ];
    assert_eq!(validate_structure(&groups), Err(groups_error(Some(5))));
}

#[test]
fn group_without_assignments_is_reported_without_a_position() {
    assert_eq!(
        validate_structure(&vec![group(vec![])]),
        Err(groups_error(None))
    );
}

#[test]
fn driven_hole_is_reported_where_it_stands() {
    let groups = vec![
        group(vec![assignment(cell_port(Some(1)), Guard::True)]),
        group(vec![
            assignment(cell_port(Some(2)), Guard::True),
            assignment(hole(Some(3)), Guard::True),
            assignment(hole(Some(4)), Guard::True),
        ]),
    ];
    assert_eq!(validate_structure(&groups), Err(groups_error(Some(3))));
}

#[test]
fn hole_in_a_guard_is_reported_at_the_driven_port() {
    let groups = vec![group(vec![assignment(
        cell_port(Some(8)),
        Guard::Port(hole(Some(9))),
    )])];
    assert_eq!(validate_structure(&groups), Err(groups_error(Some(8))));
}

#[test]
fn empty_control_is_valid() {
    assert_eq!(validate_control(&empty()), Ok(()));
}

#[test]
fn control_that_is_not_empty_is_reported() {
    let expected = Err(Error {
        kind: ErrorKind::MalformedStructure("Control must be empty".to_string()),
        pos: attrs(Some(6)).span,
    });
    assert_eq!(
        validate_control(&Control::Enable {
            group: "g".to_string(),
            attributes: attrs(Some(6))
        }),
        expected
    );
    assert_eq!(
        validate_control(&Control::Sequence {
            stmts: vec![empty()],
            attributes: attrs(Some(6))
        }),
        expected
    );
    assert_eq!(
        validate_control(&Control::While {
            port: cell_port(None),
            body: Box::new(empty()),
            attributes: attrs(Some(6))
        }),
        expected
    );
}

#[test]
fn flat_program_is_accepted() {
    let ctx = context(vec![component(vec![], empty()), component(vec![], empty())]);
    assert_eq!(VerilogBackend::validate(&ctx), Ok(()));
    assert_eq!(VerilogBackend::validate(&context(vec![])), Ok(()));
}

#[test]
fn program_with_a_group_is_rejected() {
    let ctx = context(vec![component(vec![group(vec![])], empty())]);
    assert_eq!(VerilogBackend::validate(&ctx), Err(groups_error(None)));
    let ctx = context(vec![
        component(vec![], empty()),
        component(
            vec![group(vec![assignment(cell_port(Some(7)), Guard::True)])],
            empty(),
        ),
    ]);
    assert_eq!(VerilogBackend::validate(&ctx), Err(groups_error(Some(7))));
}

#[test]
fn groups_are_reported_before_control() {
    let ctx = context(vec![
        component(vec![], empty()),
        component(
            vec![group(vec![assignment(hole(Some(3)), Guard::True)])],
            Control::Enable {
                group: "g".to_string(),
                attributes: attrs(Some(6)),
            },
        ),
    ]);
    assert_eq!(VerilogBackend::validate(&ctx), Err(groups_error(Some(3))));
}

#[test]
fn control_of_an_earlier_component_is_reported_first() {
    let ctx = context(vec![
        component(
            vec![],
            Control::Invoke {
                comp: "c".to_string(),
                attributes: attrs(Some(6)),
            },
        ),
        component(
            vec![group(vec![assignment(hole(Some(3)), Guard::True)])],
            empty(),
        ),
    ]);
    assert_eq!(
        VerilogBackend::validate(&ctx),
        Err(Error {
            kind: ErrorKind::MalformedStructure("Control must be empty".to_string()),
            pos: attrs(Some(6)).span,
        })
    );
}

#[test]
fn unwritable_output_is_named() {
    assert_eq!(
        Error::unwritable("out/main.sv"),
        Error {
            kind: ErrorKind::WriteError("File not found: out/main.sv".to_string()),
            pos: None,
        }
    );
}
