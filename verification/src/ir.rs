//! The programs that the backend reads.

use crate::errors::Pos;
use vstd::prelude::*;

verus! {

/// The direction of a port, seen from the cell that it belongs to.
#[derive(Debug, Copy, Clone, PartialEq, Eq, Structural)]
pub enum Direction {
    Input,
    Output,
    Inout,
}

/// What is attached to a node: its place in the source, and named numbers.
#[derive(Debug, Clone)]
pub struct Attributes {
    pub span: Option<Pos>,
    pub attrs: Vec<(String, u64)>,
}

/// What a cell is an instance of.
#[derive(Debug, Clone)]
pub enum CellType {
    /// A primitive, with the values of its parameters.
    Primitive { name: String, param_binding: Vec<(String, u64)> },
    /// A component of the program.
    Component { name: String },
    /// The component that the cell stands in.
    ThisComponent,
    /// A constant.
    Constant { val: u64, width: u64 },
}

/// What a port belongs to.
#[derive(Debug, Clone)]
pub enum PortParent {
    Cell { name: String, prototype: CellType },
    Group { name: String },
}

/// A port of a cell, or a hole of a group.
#[derive(Debug, Clone)]
pub struct Port {
    pub name: String,
    pub width: u64,
    pub direction: Direction,
    pub parent: PortParent,
    pub attributes: Attributes,
}

/// The name of a port in its component: that of its parent, and its own.
#[derive(Debug, Clone)]
pub struct Canonical(pub String, pub String);

impl View for Canonical {
    type V = (Seq<char>, Seq<char>);

    open spec fn view(&self) -> (Seq<char>, Seq<char>) {
        (self.0@, self.1@)
    }
}

impl Port {
    /// The port is a hole: it belongs to a group.
    pub open spec fn hole(self) -> bool {
        self.parent is Group
    }

    /// The name of what the port belongs to, and its own.
    pub open spec fn spec_canonical(self) -> (Seq<char>, Seq<char>) {
        match self.parent {
            PortParent::Cell { name, .. } => (name@, self.name@),
            PortParent::Group { name } => (name@, self.name@),
        }
    }

    pub fn is_hole(&self) -> (b: bool)
        ensures
            b == self.hole(),
    {
        match &self.parent {
            PortParent::Cell { .. } => false,
            PortParent::Group { .. } => true,
        }
    }

    pub fn canonical(&self) -> (c: Canonical)
        ensures
            c@ == self.spec_canonical(),
    {
        match &self.parent {
            PortParent::Cell { name, .. } => Canonical(name.clone(), self.name.clone()),
            PortParent::Group { name } => Canonical(name.clone(), self.name.clone()),
        }
    }
}

/// How two ports are compared.
#[derive(Debug, Copy, Clone, PartialEq, Eq, Structural)]
pub enum PortComp {
    Eq,
    Neq,
    Gt,
    Lt,
    Geq,
    Leq,
}

/// When an assignment is active.
#[derive(Debug)]
pub enum Guard {
    Or(Box<Guard>, Box<Guard>),
    And(Box<Guard>, Box<Guard>),
    Not(Box<Guard>),
    CompOp(PortComp, Port, Port),
    Port(Port),
    True,
}

impl Guard {
    /// The ports that the guard reads, from left to right.
    pub open spec fn ports(self) -> Seq<Port>
        decreases self,
    {
        match self {
            Guard::Or(l, r) => l.ports() + r.ports(),
            Guard::And(l, r) => l.ports() + r.ports(),
            Guard::Not(g) => g.ports(),
            Guard::CompOp(_, l, r) => seq![l, r],
            Guard::Port(p) => seq![p],
            Guard::True => Seq::empty(),
        }
    }
}

/// While the guard holds, `src` drives `dst`.
#[derive(Debug)]
pub struct Assignment {
    pub dst: Port,
    pub src: Port,
    pub guard: Guard,
}

/// A named set of assignments.
#[derive(Debug)]
pub struct Group {
    pub name: String,
    pub assignments: Vec<Assignment>,
}

/// A cell, with its ports.
#[derive(Debug, Clone)]
pub struct Cell {
    pub name: String,
    pub prototype: CellType,
    pub ports: Vec<Port>,
    pub attributes: Attributes,
}

impl Cell {
    /// The name of what the cell is an instance of, where it is one of a primitive or a component.
    pub open spec fn spec_proto_name(self) -> Option<Seq<char>> {
        match self.prototype {
            CellType::Primitive { name, .. } => Some(name@),
            CellType::Component { name } => Some(name@),
            CellType::ThisComponent => None,
            CellType::Constant { .. } => None,
        }
    }

    /// The cell carries an attribute of this name.
    pub open spec fn has_attribute(self, name: Seq<char>) -> bool {
        exists|i: int|
            0 <= i < self.attributes.attrs@.len() && (#[trigger] self.attributes.attrs@[i]).0@
                == name
    }

    pub fn proto_name(&self) -> (name: Option<&String>)
        ensures
            self.spec_proto_name() == (match name {
                Some(n) => Some(n@),
                None => None,
            }),
    {
        match &self.prototype {
            CellType::Primitive { name, .. } => Some(name),
            CellType::Component { name } => Some(name),
            CellType::ThisComponent => None,
            CellType::Constant { .. } => None,
        }
    }

    /// The number that the first attribute of this name carries.
    pub fn get_attribute(&self, name: &str) -> (value: Option<u64>)
        ensures
            value is Some <==> self.has_attribute(name@),
            value matches Some(n) ==> exists|i: int|
                0 <= i < self.attributes.attrs@.len() && (#[trigger] self.attributes.attrs@[i]).0@
                    == name@ && self.attributes.attrs@[i].1 == n && forall|j: int|
                    0 <= j < i ==> (#[trigger] self.attributes.attrs@[j]).0@ != name@,
    {
        let wanted = name.to_string();
        let mut i: usize = 0;
        while i < self.attributes.attrs.len()
            invariant
                i <= self.attributes.attrs@.len(),
                wanted@ == name@,
                forall|j: int| 0 <= j < i ==> (#[trigger] self.attributes.attrs@[j]).0@ != name@,
            decreases self.attributes.attrs@.len() - i,
        {
            if self.attributes.attrs[i].0 == wanted {
                return Some(self.attributes.attrs[i].1);
            }
            i += 1;
        }
        None
    }
}

/// The schedule of a component.
#[derive(Debug)]
pub enum Control {
    Empty { attributes: Attributes },
    Enable { group: String, attributes: Attributes },
    Invoke { comp: String, attributes: Attributes },
    Sequence { stmts: Vec<Control>, attributes: Attributes },
    Parallel { stmts: Vec<Control>, attributes: Attributes },
    If { port: Port, tbranch: Box<Control>, fbranch: Box<Control>, attributes: Attributes },
    While { port: Port, body: Box<Control>, attributes: Attributes },
}

impl Control {
    /// What is attached to the outermost node.
    pub open spec fn spec_attributes(self) -> Attributes {
        match self {
            Control::Empty { attributes } => attributes,
            Control::Enable { attributes, .. } => attributes,
            Control::Invoke { attributes, .. } => attributes,
            Control::Sequence { attributes, .. } => attributes,
            Control::Parallel { attributes, .. } => attributes,
            Control::If { attributes, .. } => attributes,
            Control::While { attributes, .. } => attributes,
        }
    }

    pub fn attributes(&self) -> (a: &Attributes)
        ensures
            *a == self.spec_attributes(),
    {
        match self {
            Control::Empty { attributes } => attributes,
            Control::Enable { attributes, .. } => attributes,
            Control::Invoke { attributes, .. } => attributes,
            Control::Sequence { attributes, .. } => attributes,
            Control::Parallel { attributes, .. } => attributes,
            Control::If { attributes, .. } => attributes,
            Control::While { attributes, .. } => attributes,
        }
    }
}

/// A component. The ports of its signature face inwards: what the component takes in, the
/// signature puts out.
#[derive(Debug)]
pub struct Component {
    pub name: String,
    pub signature: Cell,
    pub cells: Vec<Cell>,
    pub groups: Vec<Group>,
    pub continuous_assignments: Vec<Assignment>,
    pub control: Control,
}

/// How the backend is to work.
#[derive(Debug, Copy, Clone, PartialEq, Eq, Structural)]
pub struct BackendConf {
    /// The output is meant for synthesis: leave out what only a simulator runs.
    pub synthesis_mode: bool,
    /// Check at run time that no port is driven twice.
    pub enable_verification: bool,
    /// Start with all inputs of the cells at zero.
    pub initialize_inputs: bool,
}

/// A program.
#[derive(Debug)]
pub struct Context {
    pub components: Vec<Component>,
    /// The files that the primitives are defined in.
    pub extern_paths: Vec<String>,
    pub bc: BackendConf,
}

} // verus!
