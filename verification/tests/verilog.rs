use calyx_verilog::backend::precheck::{
    component_obstacle, emit_obstacle, guard_is_readable, port_is_readable, Obstacle,
};
use calyx_verilog::backend::validate::validate_guard;
use calyx_verilog::backend::verilog::{
    assignments_by_port, cell_instance, emit_assignment, emit_guard_disjoint_check, guard_to_expr,
    memory_names, port_to_ref, wire_decls, VerilogBackend,
};
use calyx_verilog::ir::{
    Assignment, Attributes, BackendConf, Cell, CellType, Component, Context, Control, Direction,
    Guard, Port, PortComp, PortParent,
};
use calyx_verilog::text::to_decimal;

fn attrs() -> Attributes {
    Attributes {
        span: None,
        attrs: vec![],
    }
}

fn primitive(name: &str, params: &[(&str, u64)]) -> CellType {
    CellType::Primitive {
        name: name.to_string(),
        param_binding: params
            .iter()
            .map(|(name, value)| (name.to_string(), *value))
            .collect(),
    }
}

fn port(cell: &str, prototype: CellType, name: &str, width: u64, direction: Direction) -> Port {
    Port {
        name: name.to_string(),
        width,
        direction,
        parent: PortParent::Cell {
            name: cell.to_string(),
            prototype,
        },
        attributes: attrs(),
    }
}

fn wire(cell: &str, name: &str, width: u64) -> Port {
    port(
        cell,
        primitive("std_reg", &[]),
        name,
        width,
        Direction::Input,
    )
}

fn constant(val: u64, width: u64) -> Port {
    port(
        "_c",
        CellType::Constant { val, width },
        "out",
        width,
        Direction::Output,
    )
}

fn this(name: &str, width: u64, direction: Direction) -> Port {
    port("_this", CellType::ThisComponent, name, width, direction)
}

fn hole() -> Port {
    Port {
        name: "go".to_string(),
        width: 1,
        direction: Direction::Output,
        parent: PortParent::Group {
            name: "g".to_string(),
        },
        attributes: attrs(),
    }
}

fn assignment(dst: Port, src: Port, guard: Guard) -> Assignment {
    Assignment { dst, src, guard }
}

fn cell(name: &str, prototype: CellType, ports: &[(&str, u64, Direction)]) -> Cell {
    Cell {
        name: name.to_string(),
        prototype: prototype.clone(),
        ports: ports
            .iter()
            .map(|(p, width, direction)| port(name, prototype.clone(), p, *width, *direction))
            .collect(),
        attributes: attrs(),
    }
}

fn component(name: &str, signature: Vec<Port>, cells: Vec<Cell>) -> Component {
    Component {
        name: name.to_string(),
        signature: Cell {
            name: "_this".to_string(),
            prototype: CellType::ThisComponent,
            ports: signature,
            attributes: attrs(),
        },
        cells,
        groups: vec![],
        continuous_assignments: vec![],
        control: Control::Empty {
            attributes: attrs(),
        },
    }
}

fn context(
    components: Vec<Component>,
    synthesis_mode: bool,
    enable_verification: bool,
    initialize_inputs: bool,
) -> Context {
    Context {
        components,
        extern_paths: vec![],
        bc: BackendConf {
            synthesis_mode,
            enable_verification,
            initialize_inputs,
        },
    }
}

fn emit(ctx: &Context) -> String {
    assert_eq!(emit_obstacle(ctx), None);
    VerilogBackend::emit(ctx)
}

/// The text, without what stands at the ends of its lines.
fn trimmed(text: &str) -> Vec<&str> {
    text.lines().map(|line| line.trim_end()).collect()
}

#[test]
fn numbers_in_decimal() {
    assert_eq!(to_decimal(0), "0");
    assert_eq!(to_decimal(9), "9");
    assert_eq!(to_decimal(10), "10");
    assert_eq!(to_decimal(1234567890), "1234567890");
    assert_eq!(to_decimal(u64::MAX), "18446744073709551615");
}

#[test]
fn backend_has_a_name() {
    assert_eq!(VerilogBackend.name(), "verilog");
}

#[test]
fn port_of_a_cell() {
    assert_eq!(port_to_ref(&wire("r", "out", 8)).to_string(), "r_out");
    let comp = CellType::Component {
        name: "foo".to_string(),
    };
    assert_eq!(
        port_to_ref(&port("f0", comp, "done", 1, Direction::Output)).to_string(),
        "f0_done"
    );
}

#[test]
fn port_of_a_constant() {
    assert_eq!(port_to_ref(&constant(0, 1)).to_string(), "1'd0");
    assert_eq!(port_to_ref(&constant(42, 32)).to_string(), "32'd42");
    assert_eq!(
        port_to_ref(&constant(u64::MAX, 64)).to_string(),
        "64'd18446744073709551615"
    );
    // Only the lower half of the width counts.
    assert_eq!(port_to_ref(&constant(3, (1 << 32) + 2)).to_string(), "2'd3");
}

#[test]
fn port_of_the_component_itself() {
    assert_eq!(
        port_to_ref(&this("go", 1, Direction::Output)).to_string(),
        "go"
    );
}

#[test]
fn guards_as_expressions() {
    let a = || wire("a", "out", 4);
    let b = || wire("b", "out", 4);
    let comp = |op| guard_to_expr(&Guard::CompOp(op, a(), b())).to_string();
    assert_eq!(comp(PortComp::Eq), "a_out == b_out");
    assert_eq!(comp(PortComp::Neq), "a_out != b_out");
    assert_eq!(comp(PortComp::Gt), "a_out > b_out");
    assert_eq!(comp(PortComp::Lt), "a_out < b_out");
    assert_eq!(comp(PortComp::Geq), "a_out >= b_out");
    assert_eq!(comp(PortComp::Leq), "a_out <= b_out");
    assert_eq!(guard_to_expr(&Guard::True).to_string(), "1'b1");
    assert_eq!(guard_to_expr(&Guard::Port(a())).to_string(), "a_out");
    assert_eq!(
        guard_to_expr(&Guard::Not(Box::new(Guard::Port(a())))).to_string(),
        "~a_out"
    );
    assert_eq!(
        guard_to_expr(&Guard::And(
            Box::new(Guard::Port(a())),
            Box::new(Guard::Port(b()))
        ))
        .to_string(),
        "a_out & b_out"
    );
    assert_eq!(
        guard_to_expr(&Guard::Or(
            Box::new(Guard::Port(a())),
            Box::new(Guard::Port(b()))
        ))
        .to_string(),
        "a_out | b_out"
    );
}

#[test]
fn nested_guard_as_an_expression() {
    // (fsm.out < 1'd1 & go) | !done
    let guard = Guard::Or(
        Box::new(Guard::And(
            Box::new(Guard::CompOp(
                PortComp::Lt,
                wire("fsm", "out", 1),
                constant(1, 1),
            )),
            Box::new(Guard::Port(this("go", 1, Direction::Output))),
        )),
        Box::new(Guard::Not(Box::new(Guard::Port(wire("r", "done", 1))))),
    );
    assert_eq!(
        guard_to_expr(&guard).to_string(),
        "fsm_out < 1'd1 & go | ~r_done"
    );
}

#[test]
fn assignment_selects_the_first_active_source() {
    // a.in = foo ? 2'd0; a.in = bar ? 2'd1;
    let foo = assignment(
        wire("a", "in", 2),
        constant(0, 2),
        Guard::Port(this("foo", 1, Direction::Output)),
    );
    let bar = assignment(
        wire("a", "in", 2),
        constant(1, 2),
        Guard::Port(this("bar", 1, Direction::Output)),
    );
    let asgn = emit_assignment(&(&foo.dst, vec![&foo, &bar])).to_string();
    let words: Vec<&str> = asgn.split_whitespace().collect();
    assert_eq!(
        words.join(" "),
        "assign a_in = foo ? 2'd0 : bar ? 2'd1 : 2'd0;"
    );
}

#[test]
fn assignment_without_sources_is_zero() {
    let dst = wire("a", "in", 7);
    assert_eq!(
        emit_assignment(&(&dst, vec![])).to_string(),
        "assign a_in = 7'd0;"
    );
}

#[test]
fn single_assignment_needs_no_check() {
    let asgn = assignment(wire("r", "in", 1), constant(1, 1), Guard::True);
    assert!(emit_guard_disjoint_check(&(&asgn.dst, vec![])).is_none());
    assert!(emit_guard_disjoint_check(&(&asgn.dst, vec![&asgn])).is_none());
}

#[test]
fn check_holds_all_guards() {
    let one = assignment(
        wire("r", "in", 1),
        constant(1, 1),
        Guard::Port(wire("x", "out", 1)),
    );
    let two = assignment(
        wire("r", "in", 1),
        constant(0, 1),
        Guard::Port(wire("y", "out", 1)),
    );
    let check = emit_guard_disjoint_check(&(&one.dst, vec![&one, &two])).unwrap();
    assert_eq!(
        check.to_string(),
        "if(~$onehot0({y_out, x_out})) begin\n    \
         $error(\"Multiple assignments to r_in\");\nend"
    );
}

#[test]
fn check_of_two_equal_guards() {
    let guard = || {
        Guard::And(
            Box::new(Guard::CompOp(
                PortComp::Lt,
                wire("fsm", "out", 1),
                constant(1, 1),
            )),
            Box::new(Guard::Port(this("go", 1, Direction::Output))),
        )
    };
    let one = assignment(wire("r", "in", 1), constant(1, 1), guard());
    let two = assignment(wire("r", "in", 1), constant(0, 1), guard());
    let check = emit_guard_disjoint_check(&(&one.dst, vec![&one, &two])).unwrap();
    assert_eq!(
        check.to_string(),
        "if(~$onehot0({fsm_out < 1'd1 & go, fsm_out < 1'd1 & go})) begin\n    \
         $error(\"Multiple assignments to r_in\");\nend"
    );
}

#[test]
fn conflict_on_a_port_of_the_component_is_reported_under_its_bare_name() {
    let dst = || this("done", 1, Direction::Input);
    let one = assignment(dst(), constant(1, 1), Guard::True);
    let two = assignment(dst(), constant(0, 1), Guard::True);
    let check = emit_guard_disjoint_check(&(&one.dst, vec![&one, &two])).unwrap();
    assert_eq!(
        check.to_string(),
        "if(~$onehot0({1'b1, 1'b1})) begin\n    $error(\"Multiple assignments to done\");\nend"
    );
    assert_eq!(port_to_ref(&one.dst).to_string(), "done");
}

#[test]
fn assignments_are_grouped_and_sorted_by_port() {
    let asgns = vec![
        assignment(wire("b", "x", 1), constant(0, 1), Guard::True),
        assignment(wire("a", "y", 1), constant(1, 1), Guard::True),
        assignment(wire("b", "x", 1), constant(2, 2), Guard::True),
        assignment(wire("a", "x", 1), constant(3, 2), Guard::True),
        assignment(wire("B", "z", 1), constant(4, 3), Guard::True),
    ];
    let groups = assignments_by_port(&asgns);
    let names: Vec<(String, usize)> = groups
        .iter()
        .map(|(dst, members)| (port_to_ref(dst).to_string(), members.len()))
        .collect();
    assert_eq!(
        names,
        vec![
            ("B_z".to_string(), 1),
            ("a_x".to_string(), 1),
            ("a_y".to_string(), 1),
            ("b_x".to_string(), 2),
        ]
    );
    let sources: Vec<String> = groups[3]
        .1
        .iter()
        .map(|a| port_to_ref(&a.src).to_string())
        .collect();
    assert_eq!(sources, vec!["1'd0".to_string(), "2'd2".to_string()]);
    assert!(assignments_by_port(&vec![]).is_empty());
}

#[test]
fn wires_of_primitives_and_components() {
    let r = cell(
        "r",
        primitive("std_reg", &[("WIDTH", 8)]),
        &[("in", 8, Direction::Input), ("out", 8, Direction::Output)],
    );
    assert_eq!(
        wire_decls(&r),
        vec![
            ("r_in".to_string(), 8, Direction::Input),
            ("r_out".to_string(), 8, Direction::Output),
        ]
    );
    let c = cell(
        "_c",
        CellType::Constant { val: 1, width: 1 },
        &[("out", 1, Direction::Output)],
    );
    assert!(wire_decls(&c).is_empty());
}

#[test]
fn instance_of_a_primitive() {
    let r = cell(
        "r0",
        primitive("std_reg", &[("WIDTH", 32)]),
        &[("out", 32, Direction::Output), ("in", 32, Direction::Input)],
    );
    assert_eq!(
        cell_instance(&r).unwrap().port_map()["in"].to_string(),
        "r0_in"
    );
    let inst = cell_instance(&r).unwrap();
    assert_eq!(inst.id(), "r0");
    assert_eq!(inst.prim(), "std_reg");
    assert_eq!(inst.param_map()["WIDTH"].to_string(), "32");
    assert_eq!(inst.port_map()["out"].to_string(), "r0_out");
    assert_eq!(inst.param_map().len(), 1);
    assert_eq!(inst.port_map().len(), 2);
}

#[test]
fn instance_of_a_constant_primitive() {
    let c = cell(
        "c0",
        primitive("std_const", &[("WIDTH", 64), ("VALUE", u64::MAX)]),
        &[("out", 64, Direction::Output)],
    );
    let inst = cell_instance(&c).unwrap();
    assert_eq!(inst.param_map()["WIDTH"].to_string(), "64");
    assert_eq!(
        inst.param_map()["VALUE"].to_string(),
        "64'd18446744073709551615"
    );
}

#[test]
fn instance_of_a_component() {
    let f = cell(
        "f0",
        CellType::Component {
            name: "foo".to_string(),
        },
        &[("go", 1, Direction::Input)],
    );
    let inst = cell_instance(&f).unwrap();
    assert_eq!(inst.prim(), "foo");
    assert!(inst.param_map().is_empty());
    assert_eq!(inst.port_map()["go"].to_string(), "f0_go");
}

#[test]
fn no_instance_of_a_constant() {
    let c = cell("_c", CellType::Constant { val: 1, width: 1 }, &[]);
    assert!(cell_instance(&c).is_none());
    assert!(cell_instance(&cell("_this", CellType::ThisComponent, &[])).is_none());
}

#[test]
fn external_memories_are_found() {
    let memory = |name: &str, proto: &str, external: bool| {
        let mut m = cell(name, primitive(proto, &[]), &[]);
        if external {
            m.attributes.attrs.push(("external".to_string(), 1));
        }
        m
    };
    let cells = vec![
        memory("m0", "std_mem_d1", true),
        memory("m1", "std_mem_d1", false),
        memory("r", "std_reg", true),
        memory("m2", "my_mem", true),
        memory("m3", "mem", true),
    ];
    assert_eq!(memory_names(&cells), vec!["m0", "m2", "m3"]);
    assert_eq!(cells[0].get_attribute("external"), Some(1));
    assert_eq!(cells[1].get_attribute("external"), None);
}

#[test]
fn holes_cannot_be_read() {
    assert!(!port_is_readable(&hole()));
    assert!(!port_is_readable(&constant(0, 1 << 32)));
    assert!(port_is_readable(&constant(0, 1)));
    assert!(!guard_is_readable(&Guard::Not(Box::new(Guard::Port(
        hole()
    )))));
    assert!(guard_is_readable(&Guard::True));
}

#[test]
fn what_cannot_be_emitted_is_found() {
    let reg = || primitive("std_reg", &[("WIDTH", 1)]);
    let one = |c: Component| emit_obstacle(&context(vec![c], true, true, true)).is_none();
    assert!(one(component("m", vec![], vec![])));
    assert!(!one(component(
        "m",
        vec![this("x", 1, Direction::Inout)],
        vec![]
    )));
    assert!(!one(component(
        "m",
        vec![this("x", 0, Direction::Input)],
        vec![]
    )));
    assert!(!one(component(
        "m",
        vec![],
        vec![cell("r", reg(), &[("in", 0, Direction::Input)])]
    )));
    assert!(!one(component(
        "m",
        vec![],
        vec![cell("r", reg(), &[("in", 1 << 32, Direction::Input)])]
    )));
    assert!(one(component(
        "m",
        vec![],
        vec![cell("r", reg(), &[("out", 1 << 32, Direction::Output)])]
    )));
    assert!(!one(component(
        "m",
        vec![],
        vec![cell("r", primitive("p", &[("P", 1 << 31)]), &[])]
    )));
    assert!(one(component(
        "m",
        vec![],
        vec![cell("r", primitive("p", &[("P", (1 << 31) - 1)]), &[])]
    )));
    assert!(!one(component(
        "m",
        vec![],
        vec![cell("c", primitive("std_const", &[("WIDTH", 1)]), &[])]
    )));
    let mut bad = component("m", vec![], vec![]);
    bad.continuous_assignments
        .push(assignment(wire("r", "in", 1), hole(), Guard::True));
    assert!(!one(bad));
    let mut bad = component("m", vec![], vec![]);
    bad.continuous_assignments
        .push(assignment(hole(), constant(1, 1), Guard::True));
    assert!(!one(bad));
    let mut bad = component("m", vec![], vec![]);
    bad.continuous_assignments
        .push(assignment(wire("r", "in", 0), constant(1, 1), Guard::True));
    assert!(!one(bad));
}

fn inout(name: &str) -> Option<Obstacle> {
    Some(Obstacle::InoutPort {
        name: name.to_string(),
    })
}

fn wide(name: &str, value: u64) -> Option<Obstacle> {
    Some(Obstacle::WideParameter {
        name: name.to_string(),
        value,
    })
}

#[test]
fn first_inout_port_is_named() {
    let c = component(
        "m",
        vec![
            this("a", 1, Direction::Input),
            this("b", 1, Direction::Inout),
            this("c", 1, Direction::Inout),
        ],
        vec![cell("r", primitive("p", &[("P", 1 << 31)]), &[])],
    );
    assert_eq!(
        emit_obstacle(&context(vec![c], true, true, true)),
        inout("b")
    );
}

#[test]
fn first_wide_parameter_is_named() {
    let c = component(
        "m",
        vec![this("a", 0, Direction::Input)],
        vec![
            cell("k", primitive("std_const", &[("W", 1), ("V", 1 << 40)]), &[]),
            cell(
                "r",
                primitive("p", &[("P", 1), ("Q", 1 << 31), ("R", 1 << 32)]),
                &[],
            ),
            cell("s", primitive("p", &[("S", 1 << 33)]), &[]),
        ],
    );
    assert_eq!(
        emit_obstacle(&context(vec![c], true, true, true)),
        wide("Q", 1 << 31)
    );
}

#[test]
fn wires_come_before_parameters() {
    let c = component(
        "m",
        vec![],
        vec![
            cell("r", primitive("p", &[("P", 1 << 31)]), &[]),
            cell("s", primitive("p", &[]), &[("in", 0, Direction::Input)]),
        ],
    );
    assert_eq!(
        emit_obstacle(&context(vec![c], true, true, true)),
        Some(Obstacle::Other)
    );
}

#[test]
fn an_earlier_instance_comes_before_parameters() {
    let c = component(
        "m",
        vec![],
        vec![
            cell("k", primitive("std_const", &[("W", 1)]), &[]),
            cell("r", primitive("p", &[("P", 1 << 31)]), &[]),
        ],
    );
    assert_eq!(
        emit_obstacle(&context(vec![c], true, true, true)),
        Some(Obstacle::Other)
    );
}

#[test]
fn obstacle_of_the_first_component_is_named() {
    let ctx = context(
        vec![
            component("a", vec![], vec![]),
            component(
                "b",
                vec![],
                vec![cell("r", primitive("p", &[("P", u64::MAX)]), &[])],
            ),
            component("c", vec![this("x", 1, Direction::Inout)], vec![]),
        ],
        true,
        true,
        true,
    );
    assert_eq!(emit_obstacle(&ctx), wide("P", u64::MAX));
    assert_eq!(component_obstacle(&ctx.components[0], &ctx.bc), None);
    assert_eq!(component_obstacle(&ctx.components[2], &ctx.bc), inout("x"));
}

#[test]
fn readable_guards_are_the_valid_ones() {
    let valid = Guard::And(
        Box::new(Guard::CompOp(
            PortComp::Eq,
            wire("fsm", "out", 2),
            constant(1, 2),
        )),
        Box::new(Guard::Not(Box::new(Guard::Port(wire("r", "out", 1))))),
    );
    assert!(validate_guard(&valid));
    assert!(guard_is_readable(&valid));
    let invalid = Guard::Or(
        Box::new(Guard::Port(wire("r", "out", 1))),
        Box::new(Guard::CompOp(PortComp::Neq, hole(), constant(1, 1))),
    );
    assert!(!validate_guard(&invalid));
    assert!(!guard_is_readable(&invalid));
    // A constant without a width is no hole, and still cannot be read.
    let empty = Guard::Port(constant(0, 0));
    assert!(validate_guard(&empty));
    assert!(!guard_is_readable(&empty));
}

#[test]
fn empty_component() {
    let ctx = context(vec![component("main", vec![], vec![])], true, false, false);
    assert_eq!(emit(&ctx), "module main ();\nendmodule\n");
}

#[test]
fn no_components() {
    assert_eq!(emit(&context(vec![], false, true, true)), "");
}

#[test]
fn modules_are_separated_by_a_line_break() {
    let ctx = context(
        vec![
            component("a", vec![], vec![]),
            component("b", vec![], vec![]),
            component("c", vec![], vec![]),
        ],
        true,
        false,
        false,
    );
    assert_eq!(
        emit(&ctx),
        "module a ();\nendmodule\n\nmodule b ();\nendmodule\n\nmodule c ();\nendmodule\n"
    );
}

#[test]
fn signature_is_reversed() {
    let ctx = context(
        vec![component(
            "main",
            vec![
                this("go", 1, Direction::Output),
                this("x", 8, Direction::Output),
                this("done", 1, Direction::Input),
            ],
            vec![],
        )],
        true,
        false,
        false,
    );
    assert_eq!(
        emit(&ctx),
        "module main (\n    input logic go,\n    input logic [7:0] x,\n    output logic done\n);\n\
         endmodule\n"
    );
}

fn small_component() -> Component {
    let reg = primitive("std_reg", &[("WIDTH", 4)]);
    let mut mem = cell(
        "mem0",
        primitive("std_mem_d1", &[("WIDTH", 4), ("SIZE", 2)]),
        &[("addr0", 1, Direction::Input)],
    );
    mem.attributes.attrs.push(("external".to_string(), 1));
    let mut comp = component(
        "main",
        vec![
            this("go", 1, Direction::Output),
            this("done", 1, Direction::Input),
        ],
        vec![
            cell(
                "r",
                reg,
                &[("in", 4, Direction::Input), ("out", 4, Direction::Output)],
            ),
            mem,
            cell(
                "_c",
                CellType::Constant { val: 1, width: 1 },
                &[("out", 1, Direction::Output)],
            ),
        ],
    );
    let go = || Guard::Port(this("go", 1, Direction::Output));
    comp.continuous_assignments = vec![
        assignment(wire("r", "in", 4), constant(3, 4), go()),
        assignment(
            this("done", 1, Direction::Input),
            constant(1, 1),
            Guard::True,
        ),
        assignment(
            wire("r", "in", 4),
            wire("r", "out", 4),
            Guard::Not(Box::new(go())),
        ),
    ];
    comp
}

#[test]
fn component_for_simulation() {
    let text = emit(&context(vec![small_component()], false, true, true));
    let expected = r#"module main (
    input logic go,
    output logic done
);
    string DATA;
    int CODE;
    initial begin
        CODE = $value$plusargs("DATA=%s", DATA);
        $display("DATA: %s", DATA);
        $readmemh({DATA, "/mem0.dat"}, mem0.mem);
    end
    final begin
        $writememh({DATA, "/mem0.out"}, mem0.mem);
    end
    logic [3:0] r_in;
    logic [3:0] r_out;
    logic mem0_addr0;
    initial begin
        r_in = 4'd0;
        mem0_addr0 = 1'd0;
    end
    std_reg # (
        .WIDTH(4)
    ) r (
        .in(r_in),
        .out(r_out)
    );
    std_mem_d1 # (
        .SIZE(2),
        .WIDTH(4)
    ) mem0 (
        .addr0(mem0_addr0)
    );
    assign done =
     1'b1 ? 1'd1 : 1'd0;
    assign r_in =
     go ? 4'd3 :
     ~go ? r_out : 4'd0;
    always_comb begin
        if(~$onehot0({~go, go})) begin
            $error("Multiple assignments to r_in");
        end
    end
endmodule
"#;
    assert_eq!(text, expected);
}

fn clocked_component() -> Component {
    let mut comp = small_component();
    let clk = this("clk", 1, Direction::Output);
    comp.signature.ports.push(clk);
    comp
}

#[test]
fn checks_run_on_the_clock() {
    let text = emit(&context(vec![clocked_component()], false, true, false));
    let checks = r#"
    always_ff @(posedge clk) begin
        if(~$onehot0({~go, go})) begin
            $error("Multiple assignments to r_in");
        end
    end
endmodule
"#;
    assert!(text.contains("    input logic clk\n"));
    assert!(text.ends_with(checks));
    assert!(!text.contains("always_comb"));
}

#[test]
fn no_checks_unless_asked_for() {
    for comp in [small_component(), clocked_component()] {
        let text = emit(&context(vec![comp], false, false, false));
        assert!(!text.contains("always"));
        assert!(!text.contains("$error"));
    }
    let text = emit(&context(vec![clocked_component()], true, true, false));
    assert!(!text.contains("always"));
}

#[test]
fn component_for_synthesis() {
    let text = emit(&context(vec![small_component()], true, true, false));
    let expected = r#"module main (
    input logic go,
    output logic done
);
    logic [3:0] r_in;
    logic [3:0] r_out;
    logic mem0_addr0;
    std_reg # (
        .WIDTH(4)
    ) r (
        .in(r_in),
        .out(r_out)
    );
    std_mem_d1 # (
        .SIZE(2),
        .WIDTH(4)
    ) mem0 (
        .addr0(mem0_addr0)
    );
    assign done =
     1'b1 ? 1'd1 : 1'd0;
    assign r_in =
     go ? 4'd3 :
     ~go ? r_out : 4'd0;
endmodule
"#;
    assert_eq!(text, expected);
}

#[test]
fn component_without_verification_has_no_checks() {
    let text = emit(&context(vec![small_component()], false, false, false));
    assert!(!text.contains("$onehot0"));
    assert!(!text.contains("always_comb"));
    let lines = trimmed(&text);
    assert_eq!(lines.iter().filter(|l| l.contains("initial begin")).count(), 1);
    assert_eq!(lines[lines.len() - 1], "endmodule");
}

#[test]
fn order_of_assignments_to_different_ports_makes_no_difference() {
    let mut other = small_component();
    other.continuous_assignments.swap(0, 1);
    assert_eq!(
        emit(&context(vec![other], false, true, false)),
        emit(&context(vec![small_component()], false, true, false))
    );
}
