//! Modules: the building blocks of a design (modules, components and interfaces).

use vstd::prelude::*;
use crate::ids::{ConnectionId, ConstraintId, FieldId, ModuleId, QualifiedName};
use crate::text::str_eq;
use crate::token::Span;

verus! {

/// A table from names to values, in which a name occurs at most once.
#[derive(Debug, Clone)]
pub struct NameTable<V> {
    names: Vec<String>,
    values: Vec<V>,
}

/// The position of `name` in `names`.
spec fn name_position(names: Seq<String>, name: Seq<char>) -> int {
    choose|i: int| 0 <= i < names.len() && names[i]@ == name
}

impl<V> View for NameTable<V> {
    type V = Map<Seq<char>, V>;

    /// Each name mapped to its value.
    closed spec fn view(&self) -> Map<Seq<char>, V> {
        Map::new(
            |n: Seq<char>| exists|i: int| 0 <= i < self.names.len() && self.names@[i]@ == n,
            |n: Seq<char>| self.values@[name_position(self.names@, n)],
        )
    }
}

impl<V: Copy> NameTable<V> {
    /// The names are distinct and each has a value.
    pub closed spec fn wf(&self) -> bool {
        &&& self.names.len() == self.values.len()
        &&& forall|i: int, j: int|
            0 <= i < j < self.names.len() ==> self.names@[i]@ != self.names@[j]@
    }

    proof fn lemma_position(&self, i: int)
        requires
            self.wf(),
            0 <= i < self.names.len(),
        ensures
            name_position(self.names@, self.names@[i]@) == i,
    {
        let n = self.names@[i]@;
        let j = name_position(self.names@, n);
        assert(0 <= j < self.names.len() && self.names@[j]@ == n);
        if j < i {
        } else if i < j {
        }
    }

    /// An empty table.
    pub fn new() -> (t: Self)
        ensures
            t.wf(),
            t@ == Map::<Seq<char>, V>::empty(),
    {
        let t = NameTable { names: Vec::new(), values: Vec::new() };
        assert(t@ =~= Map::<Seq<char>, V>::empty());
        t
    }

    fn position_of(&self, name: &str) -> (r: Option<usize>)
        requires
            self.wf(),
        ensures
            r is Some <==> self@.contains_key(name@),
            r is Some ==> r->0 < self.names.len() && self.names@[r->0 as int]@ == name@
                && self@[name@] == self.values@[r->0 as int],
    {
        let mut i: usize = 0;
        while i < self.names.len()
            invariant
                self.wf(),
                i <= self.names.len(),
                forall|j: int| 0 <= j < i ==> self.names@[j]@ != name@,
            decreases self.names.len() - i,
        {
            if str_eq(self.names[i].as_str(), name) {
                proof { self.lemma_position(i as int); }
                return Some(i);
            }
            i = i + 1;
        }
        None
    }

    /// The value of `name`, if it has one.
    pub fn get(&self, name: &str) -> (r: Option<V>)
        requires
            self.wf(),
        ensures
            r == (if self@.contains_key(name@) { Some(self@[name@]) } else { None::<V> }),
    {
        match self.position_of(name) {
            Some(i) => Some(self.values[i]),
            None => None,
        }
    }

    /// Gives `name` the value `value`, replacing any earlier value.
    pub fn insert(&mut self, name: &str, value: V)
        requires
            old(self).wf(),
        ensures
            final(self).wf(),
            final(self)@ == old(self)@.insert(name@, value),
    {
        let ghost m0 = self@;
        match self.position_of(name) {
            Some(i) => {
                self.values.set(i, value);
                proof {
                    assert forall|n: Seq<char>| #[trigger] self@.contains_key(n) implies
                        self@[n] == m0.insert(name@, value)[n] by {
                        let j = name_position(self.names@, n);
                        self.lemma_position(j);
                        old(self).lemma_position(j);
                    }
                    assert(self@ =~= m0.insert(name@, value));
                }
            },
            None => {
                self.names.push(name.to_owned());
                self.values.push(value);
                proof {
                    let k = self.names.len() - 1;
                    assert(self.names@[k]@ == name@);
                    assert forall|n: Seq<char>| #[trigger] self@.contains_key(n) <==>
                        m0.insert(name@, value).contains_key(n) by {
                        if self@.contains_key(n) && n != name@ {
                            let j = choose|j: int| 0 <= j < self.names.len() && self.names@[j]@ == n;
                            assert(old(self).names@[j]@ == n);
                        }
                        if m0.contains_key(n) {
                            let j = choose|j: int| 0 <= j < old(self).names.len() && old(self).names@[j]@ == n;
                            assert(self.names@[j]@ == n);
                        }
                    }
                    assert forall|n: Seq<char>| #[trigger] self@.contains_key(n) implies
                        self@[n] == m0.insert(name@, value)[n] by {
                        let j = name_position(self.names@, n);
                        self.lemma_position(j);
                        if n != name@ {
                            old(self).lemma_position(j);
                        }
                    }
                    assert(self@ =~= m0.insert(name@, value));
                }
            },
        }
    }

    /// The number of names.
    pub fn len(&self) -> (n: usize)
        requires
            self.wf(),
        ensures
            n == self@.dom().len(),
    {
        proof { self.lemma_len(); }
        self.names.len()
    }

    proof fn lemma_len(&self)
        requires
            self.wf(),
        ensures
            self@.dom().len() == self.names.len(),
    {
        let views = self.names@.map_values(|s: String| s@);
        assert(views.no_duplicates()) by {
            assert forall|i: int, j: int| 0 <= i < views.len() && 0 <= j < views.len() && i != j
                implies views[i] != views[j] by {
                if i < j {
                } else {
                }
            }
        }
        views.unique_seq_to_set();
        assert(self@.dom() =~= views.to_set()) by {
            assert forall|n: Seq<char>| self@.dom().contains(n) implies views.to_set().contains(n) by {
                let j = choose|j: int| 0 <= j < self.names.len() && self.names@[j]@ == n;
                assert(views[j] == n);
            }
            assert forall|n: Seq<char>| views.to_set().contains(n) implies self@.dom().contains(n) by {
                let j = choose|j: int| 0 <= j < views.len() && views[j] == n;
                assert(self.names@[j]@ == n);
            }
        }
    }
}

/// A module definition.
#[derive(Debug, Clone)]
pub struct Module {
    /// Unique identifier for this module.
    pub id: ModuleId,
    /// The name of this module.
    pub name: String,
    /// The fully qualified name.
    pub qualified_name: QualifiedName,
    /// The kind of module.
    pub kind: ModuleKind,
    /// The super type this module extends.
    pub super_type: Option<ModuleId>,
    /// Fields defined in this module, in order.
    pub fields: Vec<FieldId>,
    /// Field names mapped to fields, for lookup.
    pub field_names: NameTable<FieldId>,
    /// Connections defined in this module.
    pub connections: Vec<ConnectionId>,
    /// Constraints defined in this module.
    pub constraints: Vec<ConstraintId>,
    /// Modules nested inside this module.
    pub nested_modules: Vec<ModuleId>,
    /// Traits applied to this module.
    pub traits: Vec<TraitRef>,
    /// Source file path (for error reporting).
    pub source_file: Option<String>,
    /// Source location for error reporting.
    pub span: Option<Span>,
}

impl Module {
    /// The module's field table is well formed.
    pub open spec fn wf(&self) -> bool {
        self.field_names.wf()
    }

    /// A new module with nothing in it.
    pub fn new(id: ModuleId, name: &str, kind: ModuleKind) -> (m: Self)
        ensures
            m.wf(),
            m.id == id,
            m.name@ == name@,
            m.qualified_name@ == seq![name@],
            m.kind == kind,
            m.super_type is None,
            m.fields@.len() == 0,
            m.field_names@ == Map::<Seq<char>, FieldId>::empty(),
            m.connections@.len() == 0,
            m.constraints@.len() == 0,
            m.nested_modules@.len() == 0,
            m.traits@.len() == 0,
            m.source_file is None,
            m.span is None,
    {
        Module {
            id,
            name: name.to_owned(),
            qualified_name: QualifiedName::simple(name),
            kind,
            super_type: None,
            fields: Vec::new(),
            field_names: NameTable::new(),
            connections: Vec::new(),
            constraints: Vec::new(),
            nested_modules: Vec::new(),
            traits: Vec::new(),
            source_file: None,
            span: None,
        }
    }

    /// This module with its qualified name set.
    pub fn with_qualified_name(self, name: QualifiedName) -> (m: Self)
        ensures
            m == (Module { qualified_name: name, ..self }),
    {
        let mut m = self;
        m.qualified_name = name;
        m
    }

    /// This module with its super type set.
    pub fn with_super_type(self, super_type: ModuleId) -> (m: Self)
        ensures
            m == (Module { super_type: Some(super_type), ..self }),
    {
        let mut m = self;
        m.super_type = Some(super_type);
        m
    }

    /// This module with its source file set.
    pub fn with_source_file(self, path: &str) -> (m: Self)
        ensures
            m.source_file matches Some(p) && p@ == path@,
            m == (Module { source_file: m.source_file, ..self }),
    {
        let mut m = self;
        m.source_file = Some(path.to_owned());
        m
    }

    /// This module with its source span set.
    pub fn with_span(self, span: Span) -> (m: Self)
        ensures
            m == (Module { span: Some(span), ..self }),
    {
        let mut m = self;
        m.span = Some(span);
        m
    }

    /// Adds the field `field_id` under `name`; a later field of the same name
    /// takes the name over.
    pub fn add_field(&mut self, name: &str, field_id: FieldId)
        requires
            old(self).wf(),
        ensures
            final(self).wf(),
            final(self).field_names@ == old(self).field_names@.insert(name@, field_id),
            final(self).fields@ == old(self).fields@.push(field_id),
            *final(self) == (Module { field_names: final(self).field_names, fields: final(self).fields, ..*old(self) }),
    {
        self.field_names.insert(name, field_id);
        self.fields.push(field_id);
    }

    /// The field called `name`.
    pub fn get_field(&self, name: &str) -> (r: Option<FieldId>)
        requires
            self.wf(),
        ensures
            r == (if self.field_names@.contains_key(name@) {
                Some(self.field_names@[name@])
            } else {
                None::<FieldId>
            }),
    {
        self.field_names.get(name)
    }

    /// Records a connection of this module.
    pub fn add_connection(&mut self, connection_id: ConnectionId)
        ensures
            final(self).connections@ == old(self).connections@.push(connection_id),
            *final(self) == (Module { connections: final(self).connections, ..*old(self) }),
    {
        self.connections.push(connection_id);
    }

    /// Records a constraint of this module.
    pub fn add_constraint(&mut self, constraint_id: ConstraintId)
        ensures
            final(self).constraints@ == old(self).constraints@.push(constraint_id),
            *final(self) == (Module { constraints: final(self).constraints, ..*old(self) }),
    {
        self.constraints.push(constraint_id);
    }

    /// Records a module nested in this one.
    pub fn add_nested_module(&mut self, module_id: ModuleId)
        ensures
            final(self).nested_modules@ == old(self).nested_modules@.push(module_id),
            *final(self) == (Module { nested_modules: final(self).nested_modules, ..*old(self) }),
    {
        self.nested_modules.push(module_id);
    }

    /// Applies a trait to this module.
    pub fn add_trait(&mut self, trait_ref: TraitRef)
        ensures
            final(self).traits@ == old(self).traits@.push(trait_ref),
            *final(self) == (Module { traits: final(self).traits, ..*old(self) }),
    {
        self.traits.push(trait_ref);
    }

    /// Whether this is a plain module.
    pub fn is_module(&self) -> (b: bool)
        ensures
            b == (self.kind == ModuleKind::Module),
    {
        self.kind == ModuleKind::Module
    }

    /// Whether this is a component.
    pub fn is_component(&self) -> (b: bool)
        ensures
            b == (self.kind == ModuleKind::Component),
    {
        self.kind == ModuleKind::Component
    }

    /// Whether this is an interface.
    pub fn is_interface(&self) -> (b: bool)
        ensures
            b == (self.kind == ModuleKind::Interface),
    {
        self.kind == ModuleKind::Interface
    }
}

/// The kind of module.
#[derive(Debug, Clone, Copy, PartialEq, Eq, Hash, Structural)]
pub enum ModuleKind {
    /// A regular module.
    Module,
    /// A component.
    Component,
    /// An interface definition.
    Interface,
}

/// The keyword that introduces a module of this kind.
pub open spec fn module_keyword(k: ModuleKind) -> Seq<char> {
    match k {
        ModuleKind::Module => "module"@,
        ModuleKind::Component => "component"@,
        ModuleKind::Interface => "interface"@,
    }
}

impl ModuleKind {
    /// The keyword for this module kind.
    pub fn keyword(&self) -> (s: &'static str)
        ensures
            s@ == module_keyword(*self),
    {
        match self {
            ModuleKind::Module => "module",
            ModuleKind::Component => "component",
            ModuleKind::Interface => "interface",
        }
    }
}

/// A trait applied to a module, e.g. `trait has_designator_prefix<prefix="R">`.
#[derive(Debug, Clone)]
pub struct TraitRef {
    /// The name of the trait.
    pub name: QualifiedName,
    /// The constructor name, if any.
    pub constructor: Option<String>,
    /// Named template arguments, in order.
    pub template_args: Vec<NamedTemplateArg>,
    /// Source location for error reporting.
    pub span: Option<Span>,
}

/// A named template argument.
#[derive(Debug, Clone)]
pub struct NamedTemplateArg {
    /// The argument name.
    pub name: String,
    /// The argument value.
    pub value: TemplateArgValue,
}

/// A template argument value.
#[derive(Debug, Clone, PartialEq)]
pub enum TemplateArgValue {
    /// An integer.
    Int(i64),
    /// A floating-point number, by the bit pattern of its IEEE 754
    /// double-precision representation.
    Float(u64),
    /// A string.
    String(String),
    /// A boolean.
    Bool(bool),
}

/// The index of the first argument called `name`, if any.
pub open spec fn first_arg_index(args: Seq<NamedTemplateArg>, name: Seq<char>) -> Option<int> {
    if exists|i: int| 0 <= i < args.len() && args[i].name@ == name {
        Some(choose|i: int| 0 <= i < args.len() && args[i].name@ == name
            && forall|j: int| 0 <= j < i ==> args[j].name@ != name)
    } else {
        None
    }
}

/// The value of the first argument called `name`, if any.
pub open spec fn arg_value(args: Seq<NamedTemplateArg>, name: Seq<char>) -> Option<TemplateArgValue> {
    match first_arg_index(args, name) {
        Some(i) => Some(args[i].value),
        None => None,
    }
}

/// The text of the first argument called `name`, when that argument is a string.
pub open spec fn string_arg(args: Seq<NamedTemplateArg>, name: Seq<char>) -> Option<Seq<char>> {
    match arg_value(args, name) {
        Some(TemplateArgValue::String(s)) => Some(s@),
        _ => None,
    }
}

impl TraitRef {
    /// A trait reference without constructor or arguments.
    pub fn new(name: QualifiedName) -> (t: Self)
        ensures
            t.name == name,
            t.constructor is None,
            t.template_args@.len() == 0,
            t.span is None,
    {
        TraitRef { name, constructor: None, template_args: Vec::new(), span: None }
    }

    /// This reference with its constructor set.
    pub fn with_constructor(self, constructor: &str) -> (t: Self)
        ensures
            t.constructor matches Some(c) && c@ == constructor@,
            t == (TraitRef { constructor: t.constructor, ..self }),
    {
        let mut t = self;
        t.constructor = Some(constructor.to_owned());
        t
    }

    /// This reference with one more template argument.
    pub fn with_arg(self, name: &str, value: TemplateArgValue) -> (t: Self)
        ensures
            t.template_args@.len() == self.template_args@.len() + 1,
            t.template_args@.drop_last() == self.template_args@,
            t.template_args@.last().name@ == name@,
            t.template_args@.last().value == value,
            t == (TraitRef { template_args: t.template_args, ..self }),
    {
        let mut t = self;
        t.template_args.push(NamedTemplateArg { name: name.to_owned(), value });
        assert(t.template_args@.drop_last() =~= self.template_args@);
        t
    }

    /// This reference with its source span set.
    pub fn with_span(self, span: Span) -> (t: Self)
        ensures
            t == (TraitRef { span: Some(span), ..self }),
    {
        let mut t = self;
        t.span = Some(span);
        t
    }

    /// The value of the first template argument called `name`.
    pub fn get_arg(&self, name: &str) -> (r: Option<&TemplateArgValue>)
        ensures
            r is Some <==> arg_value(self.template_args@, name@) is Some,
            r is Some ==> *r->0 == arg_value(self.template_args@, name@)->0,
    {
        let mut i: usize = 0;
        while i < self.template_args.len()
            invariant
                i <= self.template_args.len(),
                forall|j: int| 0 <= j < i ==> self.template_args@[j].name@ != name@,
            decreases self.template_args.len() - i,
        {
            if str_eq(self.template_args[i].name.as_str(), name) {
                proof {
                    let args = self.template_args@;
                    let k = choose|k: int| 0 <= k < args.len() && args[k].name@ == name@
                        && forall|j: int| 0 <= j < k ==> args[j].name@ != name@;
                    assert(k == i) by {
                        if k < i {
                        } else if k > i {
                            assert(args[i as int].name@ == name@);
                        }
                    }
                }
                return Some(&self.template_args[i].value);
            }
            i = i + 1;
        }
        None
    }

    /// The text of the first template argument called `name`, when it is a string.
    pub fn get_string_arg(&self, name: &str) -> (r: Option<&str>)
        ensures
            r is Some <==> string_arg(self.template_args@, name@) is Some,
            r is Some ==> r->0@ == string_arg(self.template_args@, name@)->0,
    {
        match self.get_arg(name) {
            Some(TemplateArgValue::String(s)) => Some(s.as_str()),
            _ => None,
        }
    }
}

/// An import of names, possibly from another file.
#[derive(Debug, Clone)]
pub struct Import {
    /// The source file (when `from "path"` was used).
    pub from_path: Option<String>,
    /// The imported names.
    pub names: Vec<QualifiedName>,
    /// The resolved modules, one per name (filled in during semantic analysis).
    pub resolved: Vec<Option<ModuleId>>,
    /// Source location for error reporting.
    pub span: Option<Span>,
}

impl Import {
    /// An import of `names`, none of them resolved yet.
    pub fn new(names: Vec<QualifiedName>) -> (i: Self)
        ensures
            i.from_path is None,
            i.names@ == names@,
            i.resolved@ == Seq::new(names@.len(), |k: int| None::<ModuleId>),
            i.span is None,
    {
        let mut resolved: Vec<Option<ModuleId>> = Vec::new();
        let mut k: usize = 0;
        while k < names.len()
            invariant
                k <= names.len(),
                resolved@ == Seq::new(k as nat, |j: int| None::<ModuleId>),
            decreases names.len() - k,
        {
            resolved.push(None);
            assert(resolved@ =~= Seq::new((k + 1) as nat, |j: int| None::<ModuleId>));
            k = k + 1;
        }
        Import { from_path: None, names, resolved, span: None }
    }

    /// This import with its source file set.
    pub fn with_from_path(self, path: &str) -> (i: Self)
        ensures
            i.from_path matches Some(p) && p@ == path@,
            i == (Import { from_path: i.from_path, ..self }),
    {
        let mut i = self;
        i.from_path = Some(path.to_owned());
        i
    }

    /// This import with its source span set.
    pub fn with_span(self, span: Span) -> (i: Self)
        ensures
            i == (Import { span: Some(span), ..self }),
    {
        let mut i = self;
        i.span = Some(span);
        i
    }
}

} // verus!
