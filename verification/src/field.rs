//! Fields: the members of a module (parameters, pins, signals and instances).

use vstd::prelude::*;
use crate::ids::{FieldId, ModuleId, QualifiedName};
use crate::text::{dec_digits, decimal, push_char, push_str};
use crate::token::Span;

verus! {

/// A field within a module.
#[derive(Debug, Clone)]
pub struct Field {
    /// Unique identifier for this field.
    pub id: FieldId,
    /// The module that contains this field.
    pub parent: ModuleId,
    /// The name of this field.
    pub name: String,
    /// The kind of field (parameter, pin, signal, instance).
    pub kind: FieldKind,
    /// Source location for error reporting.
    pub span: Option<Span>,
}

impl Field {
    /// A new field without a source location.
    pub fn new(id: FieldId, parent: ModuleId, name: &str, kind: FieldKind) -> (f: Self)
        ensures
            f.id == id,
            f.parent == parent,
            f.name@ == name@,
            f.kind == kind,
            f.span is None,
    {
        Field { id, parent, name: name.to_owned(), kind, span: None }
    }

    /// This field with its source span set.
    pub fn with_span(self, span: Span) -> (f: Self)
        ensures
            f == (Field { span: Some(span), ..self }),
    {
        let mut f = self;
        f.span = Some(span);
        f
    }

    /// Whether this field is a parameter.
    pub fn is_parameter(&self) -> (b: bool)
        ensures
            b == (self.kind is Parameter),
    {
        matches!(self.kind, FieldKind::Parameter { .. })
    }

    /// Whether this field is a pin.
    pub fn is_pin(&self) -> (b: bool)
        ensures
            b == (self.kind is Pin),
    {
        matches!(self.kind, FieldKind::Pin { .. })
    }

    /// Whether this field is a signal.
    pub fn is_signal(&self) -> (b: bool)
        ensures
            b == (self.kind is Signal),
    {
        matches!(self.kind, FieldKind::Signal)
    }

    /// Whether this field is an instance.
    pub fn is_instance(&self) -> (b: bool)
        ensures
            b == (self.kind is Instance),
    {
        matches!(self.kind, FieldKind::Instance { .. })
    }

    /// Whether this field can be connected: a pin, a signal or an instance.
    pub fn is_connectable(&self) -> (b: bool)
        ensures
            b == is_connectable_kind(self.kind),
    {
        matches!(self.kind, FieldKind::Pin { .. } | FieldKind::Signal | FieldKind::Instance { .. })
    }
}

/// Whether a field of this kind can take part in a connection.
pub open spec fn is_connectable_kind(k: FieldKind) -> bool {
    k is Pin || k is Signal || k is Instance
}

/// The kind of a field.
#[derive(Debug, Clone)]
pub enum FieldKind {
    /// A parameter with an optional unit (e.g., `resistance: ohm`).
    Parameter {
        /// The unit (e.g., "ohm", "V", "F").
        unit: Option<String>,
    },
    /// A pin declaration (e.g., `pin p1`, `pin 1`, `pin "GND"`).
    Pin {
        /// The pin name.
        pin_name: PinNameKind,
    },
    /// A signal definition (e.g., `signal sig`).
    Signal,
    /// An instance of another module (e.g., `r1 = new Resistor`).
    Instance {
        /// The type being instantiated.
        type_ref: QualifiedName,
        /// The element count of an array instance.
        count: Option<u32>,
        /// The resolved module (filled in during semantic analysis).
        resolved_type: Option<ModuleId>,
    },
}

impl FieldKind {
    /// A parameter without a unit.
    pub fn parameter() -> (k: Self)
        ensures
            k == (FieldKind::Parameter { unit: None }),
    {
        FieldKind::Parameter { unit: None }
    }

    /// A parameter with the unit `unit`.
    pub fn parameter_with_unit(unit: &str) -> (k: Self)
        ensures
            k matches FieldKind::Parameter { unit: Some(u) } && u@ == unit@,
    {
        FieldKind::Parameter { unit: Some(unit.to_owned()) }
    }

    /// A pin with a named identifier.
    pub fn pin(name: &str) -> (k: Self)
        ensures
            k matches FieldKind::Pin { pin_name: PinNameKind::Identifier(n) } && n@ == name@,
    {
        FieldKind::Pin { pin_name: PinNameKind::Identifier(name.to_owned()) }
    }

    /// A pin with a numeric identifier.
    pub fn pin_number(num: u32) -> (k: Self)
        ensures
            k == (FieldKind::Pin { pin_name: PinNameKind::Number(num) }),
    {
        FieldKind::Pin { pin_name: PinNameKind::Number(num) }
    }

    /// A pin with a string identifier.
    pub fn pin_string(s: &str) -> (k: Self)
        ensures
            k matches FieldKind::Pin { pin_name: PinNameKind::String(n) } && n@ == s@,
    {
        FieldKind::Pin { pin_name: PinNameKind::String(s.to_owned()) }
    }

    /// A signal.
    pub fn signal() -> (k: Self)
        ensures
            k == FieldKind::Signal,
    {
        FieldKind::Signal
    }

    /// A single instance of `type_ref`, not yet resolved.
    pub fn instance(type_ref: QualifiedName) -> (k: Self)
        ensures
            k == (FieldKind::Instance { type_ref, count: None, resolved_type: None }),
    {
        FieldKind::Instance { type_ref, count: None, resolved_type: None }
    }

    /// An array of `count` instances of `type_ref`, not yet resolved.
    pub fn instance_array(type_ref: QualifiedName, count: u32) -> (k: Self)
        ensures
            k == (FieldKind::Instance { type_ref, count: Some(count), resolved_type: None }),
    {
        FieldKind::Instance { type_ref, count: Some(count), resolved_type: None }
    }
}

/// The kind of pin name.
#[derive(Debug, Clone, PartialEq, Eq)]
pub enum PinNameKind {
    /// A named identifier (e.g., `pin p1`).
    Identifier(String),
    /// A numeric identifier (e.g., `pin 1`).
    Number(u32),
    /// A string identifier (e.g., `pin "GND"`).
    String(String),
}

/// How a pin name is displayed: identifiers as they are, numbers in decimal,
/// strings in double quotes.
pub open spec fn pin_display(p: PinNameKind) -> Seq<char> {
    match p {
        PinNameKind::Identifier(s) => s@,
        PinNameKind::Number(n) => dec_digits(n as nat),
        PinNameKind::String(s) => seq!['"'] + s@ + seq!['"'],
    }
}

impl PinNameKind {
    /// The display name of this pin.
    pub fn display_name(&self) -> (s: String)
        ensures
            s@ == pin_display(*self),
    {
        match self {
            PinNameKind::Identifier(s) => s.clone(),
            PinNameKind::Number(n) => decimal(*n as u64),
            PinNameKind::String(s) => {
                let mut r = String::new();
                push_char(&mut r, '"');
                push_str(&mut r, s.as_str());
                push_char(&mut r, '"');
                assert(r@ =~= seq!['"'] + s@ + seq!['"']);
                r
            },
        }
    }
}

/// A reference to a field, possibly through nested instances.
#[derive(Debug, Clone, PartialEq, Eq, Hash)]
pub struct FieldPath {
    /// The path components, from the root to the referenced field.
    pub parts: Vec<FieldPathPart>,
}

/// A part of a field path.
#[derive(Debug, Clone, PartialEq, Eq, Hash)]
pub enum FieldPathPart {
    /// A named field access.
    Name(String),
    /// An array index access.
    Index(u32),
    /// A pin reference (e.g., `.1`).
    PinRef(u32),
}

impl FieldPath {
    /// A field path from its parts.
    pub fn new(parts: Vec<FieldPathPart>) -> (p: Self)
        ensures
            p.parts@ == parts@,
    {
        FieldPath { parts }
    }

    /// The one-part path naming `name`.
    pub fn simple(name: &str) -> (p: Self)
        ensures
            p.parts@.len() == 1,
            p.parts@[0] matches FieldPathPart::Name(n) && n@ == name@,
    {
        let mut parts: Vec<FieldPathPart> = Vec::new();
        parts.push(FieldPathPart::Name(name.to_owned()));
        FieldPath { parts }
    }

    /// Whether this path is a single name.
    pub fn is_simple(&self) -> (b: bool)
        ensures
            b == (self.parts@.len() == 1 && self.parts@[0] is Name),
    {
        self.parts.len() == 1 && matches!(self.parts[0], FieldPathPart::Name(_))
    }

    /// The first part, when it is a name.
    pub fn first_name(&self) -> (n: Option<&str>)
        ensures
            n is Some <==> (self.parts@.len() > 0 && self.parts@[0] is Name),
            n is Some ==> (self.parts@[0] matches FieldPathPart::Name(s) && n->0@ == s@),
    {
        if self.parts.len() == 0 {
            return None;
        }
        match &self.parts[0] {
            FieldPathPart::Name(s) => Some(s.as_str()),
            _ => None,
        }
    }
}

} // verus!
