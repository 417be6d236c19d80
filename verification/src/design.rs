//! The design: the root container of modules, fields, connections and
//! constraints, with the lookups and the connection graph built from them.

use vstd::prelude::*;
use crate::connection::{
    link, Connection, ConnectionEndpoint, ConnectionGraph, ConnectionKind, neighbors,
};
use crate::constraint::{Constraint, ConstraintExpr};
use crate::field::{Field, FieldKind};
use crate::ids::{ConnectionId, ConstraintId, FieldId, ModuleId, QualifiedName, join_seqs, last_part};
use crate::module::{Import, Module, ModuleKind, NameTable};

verus! {

/// Errors reported when working with a design.
#[derive(Debug)]
pub enum IrError {
    /// No module has this identifier.
    ModuleNotFound(ModuleId),
    /// No field has this identifier.
    FieldNotFound(FieldId),
    /// No connection has this identifier.
    ConnectionNotFound(ConnectionId),
    /// A name is defined twice.
    DuplicateDefinition(String),
    /// A connection is not valid.
    InvalidConnection(String),
    /// A value has the wrong type.
    TypeMismatch { expected: String, found: String },
    /// A reference could not be resolved.
    UnresolvedReference(String),
}

/// A design as a mathematical value.
pub struct DesignView {
    /// All modules, indexed by their identifiers.
    pub modules: Seq<Module>,
    /// Module names mapped to modules.
    pub module_names: Map<Seq<char>, ModuleId>,
    /// All fields, indexed by their identifiers.
    pub fields: Seq<Field>,
    /// All connections, indexed by their identifiers.
    pub connections: Seq<Connection>,
    /// All constraints, in the order they were added.
    pub constraints: Seq<Constraint>,
    /// All imports, in the order they were added.
    pub imports: Seq<Import>,
    /// The connection graph, as an adjacency map.
    pub graph: Map<FieldId, Seq<FieldId>>,
    /// The entry module, if one was set.
    pub entry_module: Option<ModuleId>,
}

/// The root container of an Ato design.
#[derive(Debug)]
pub struct Design {
    modules: Vec<Module>,
    module_names: NameTable<ModuleId>,
    fields: Vec<Field>,
    connections: Vec<Connection>,
    constraints: Vec<Constraint>,
    imports: Vec<Import>,
    connection_graph: ConnectionGraph,
    entry_module: Option<ModuleId>,
}

impl View for Design {
    type V = DesignView;

    closed spec fn view(&self) -> DesignView {
        DesignView {
            modules: self.modules@,
            module_names: self.module_names@,
            fields: self.fields@,
            connections: self.connections@,
            constraints: self.constraints@,
            imports: self.imports@,
            graph: self.connection_graph@,
            entry_module: self.entry_module,
        }
    }
}

/// A module as [`Module::new`] makes it.
pub open spec fn fresh_module(m: Module, id: ModuleId, name: Seq<char>, kind: ModuleKind) -> bool {
    &&& m.wf()
    &&& m.id == id
    &&& m.name@ == name
    &&& m.qualified_name@ == seq![name]
    &&& m.kind == kind
    &&& m.super_type is None
    &&& m.fields@.len() == 0
    &&& m.field_names@ == Map::<Seq<char>, FieldId>::empty()
    &&& m.connections@.len() == 0
    &&& m.constraints@.len() == 0
    &&& m.nested_modules@.len() == 0
    &&& m.traits@.len() == 0
    &&& m.source_file is None
    &&& m.span is None
}

/// The module `id` refers to, if any.
pub open spec fn module_at(v: DesignView, id: ModuleId) -> Option<Module> {
    if id.0 < v.modules.len() {
        Some(v.modules[id.0 as int])
    } else {
        None
    }
}

/// The field `id` refers to, if any.
pub open spec fn field_at(v: DesignView, id: FieldId) -> Option<Field> {
    if id.0 < v.fields.len() {
        Some(v.fields[id.0 as int])
    } else {
        None
    }
}

/// The field called `name` in the module `m`, if any.
pub open spec fn field_named(v: DesignView, m: ModuleId, name: Seq<char>) -> Option<FieldId> {
    match module_at(v, m) {
        Some(module) => if module.field_names@.contains_key(name) {
            Some(module.field_names@[name])
        } else {
            None
        },
        None => None,
    }
}

/// The module called `name`, if any.
pub open spec fn module_named(v: DesignView, name: Seq<char>) -> Option<ModuleId> {
    if v.module_names.contains_key(name) {
        Some(v.module_names[name])
    } else {
        None
    }
}

/// The links that one endpoint list contributes as a chain: each pair of
/// consecutive endpoints whose fields are both resolved.
pub open spec fn chain_links(eps: Seq<ConnectionEndpoint>) -> Seq<(FieldId, FieldId)>
    decreases eps.len(),
{
    if eps.len() < 2 {
        Seq::empty()
    } else {
        let a = eps[eps.len() - 2];
        let b = eps[eps.len() - 1];
        chain_links(eps.drop_last()) + if a.resolved is Some && b.resolved is Some {
            seq![(a.resolved->0, b.resolved->0)]
        } else {
            Seq::empty()
        }
    }
}

/// The links one connection contributes to the graph: for a simple
/// connection, its first two endpoints when both are resolved; for a
/// directed one, each resolved consecutive pair.
pub open spec fn connection_links(c: Connection) -> Seq<(FieldId, FieldId)> {
    if c.kind is Simple {
        if c.endpoints@.len() >= 2 && c.endpoints@[0].resolved is Some && c.endpoints@[1].resolved is Some {
            seq![(c.endpoints@[0].resolved->0, c.endpoints@[1].resolved->0)]
        } else {
            Seq::empty()
        }
    } else {
        chain_links(c.endpoints@)
    }
}

/// The links of all connections, in order.
pub open spec fn all_links(cs: Seq<Connection>) -> Seq<(FieldId, FieldId)>
    decreases cs.len(),
{
    if cs.len() == 0 {
        Seq::empty()
    } else {
        all_links(cs.drop_last()) + connection_links(cs.last())
    }
}

/// The adjacency map after adding `links` in order.
pub open spec fn apply_links(m: Map<FieldId, Seq<FieldId>>, links: Seq<(FieldId, FieldId)>) -> Map<FieldId, Seq<FieldId>>
    decreases links.len(),
{
    if links.len() == 0 {
        m
    } else {
        let l = links.last();
        link(apply_links(m, links.drop_last()), l.0, l.1)
    }
}

proof fn lemma_apply_links_concat(m: Map<FieldId, Seq<FieldId>>, a: Seq<(FieldId, FieldId)>, b: Seq<(FieldId, FieldId)>)
    ensures
        apply_links(m, a + b) == apply_links(apply_links(m, a), b),
    decreases b.len(),
{
    if b.len() == 0 {
        assert(a + b =~= a);
    } else {
        assert((a + b).drop_last() =~= a + b.drop_last());
        lemma_apply_links_concat(m, a, b.drop_last());
    }
}

impl Design {
    /// The tables agree with each other and every module's field table is well formed.
    pub closed spec fn wf(&self) -> bool {
        &&& self.module_names.wf()
        &&& self.connection_graph.wf()
        &&& forall|i: int| 0 <= i < self.modules.len() ==> (#[trigger] self.modules@[i]).wf()
    }

    /// A new empty design.
    pub fn new() -> (d: Self)
        ensures
            d.wf(),
            d@.modules.len() == 0,
            d@.module_names == Map::<Seq<char>, ModuleId>::empty(),
            d@.fields.len() == 0,
            d@.connections.len() == 0,
            d@.constraints.len() == 0,
            d@.imports.len() == 0,
            d@.graph == Map::<FieldId, Seq<FieldId>>::empty(),
            d@.entry_module is None,
    {
        Design {
            modules: Vec::new(),
            module_names: NameTable::new(),
            fields: Vec::new(),
            connections: Vec::new(),
            constraints: Vec::new(),
            imports: Vec::new(),
            connection_graph: ConnectionGraph::new(),
            entry_module: None,
        }
    }

    /// Creates a module called `name` and returns its identifier, the next
    /// free index; the name now refers to it.
    pub fn create_module(&mut self, name: &str, kind: ModuleKind) -> (id: ModuleId)
        requires
            old(self).wf(),
            old(self)@.modules.len() < u32::MAX,
        ensures
            final(self).wf(),
            id.0 == old(self)@.modules.len(),
            final(self)@.modules.len() == old(self)@.modules.len() + 1,
            final(self)@.modules.drop_last() == old(self)@.modules,
            fresh_module(final(self)@.modules.last(), id, name@, kind),
            final(self)@.module_names == old(self)@.module_names.insert(name@, id),
            final(self)@ == (DesignView {
                modules: final(self)@.modules,
                module_names: final(self)@.module_names,
                ..old(self)@
            }),
    {
        let id = ModuleId::new(self.modules.len() as u32);
        let module = Module::new(id, name, kind);
        self.module_names.insert(name, id);
        self.modules.push(module);
        assert(self@.modules.drop_last() =~= old(self)@.modules);
        id
    }

    /// Creates a module with a qualified name and returns its identifier;
    /// the dotted form of the name now refers to it.
    pub fn create_module_qualified(&mut self, name: QualifiedName, kind: ModuleKind) -> (id: ModuleId)
        requires
            old(self).wf(),
            old(self)@.modules.len() < u32::MAX,
        ensures
            final(self).wf(),
            id.0 == old(self)@.modules.len(),
            final(self)@.modules.len() == old(self)@.modules.len() + 1,
            final(self)@.modules.drop_last() == old(self)@.modules,
            ({
                let m = final(self)@.modules.last();
                &&& m.wf()
                &&& m.id == id
                &&& m.name@ == last_part(name@)
                &&& m.qualified_name@ == name@
                &&& m.kind == kind
            }),
            final(self)@.module_names == old(self)@.module_names.insert(join_seqs(name@, "."@), id),
            final(self)@ == (DesignView {
                modules: final(self)@.modules,
                module_names: final(self)@.module_names,
                ..old(self)@
            }),
    {
        let id = ModuleId::new(self.modules.len() as u32);
        let simple_name = name.name().to_owned();
        let mut module = Module::new(id, simple_name.as_str(), kind);
        let dotted = name.join(".");
        module.qualified_name = name;
        self.module_names.insert(dotted.as_str(), id);
        self.modules.push(module);
        assert(self@.modules.drop_last() =~= old(self)@.modules);
        id
    }

    /// The module `id` refers to.
    pub fn get_module(&self, id: ModuleId) -> (r: Option<&Module>)
        ensures
            r is Some <==> module_at(self@, id) is Some,
            r is Some ==> *r->0 == module_at(self@, id)->0,
            self.wf() && r is Some ==> r->0.wf(),
    {
        if (id.0 as usize) < self.modules.len() {
            Some(&self.modules[id.0 as usize])
        } else {
            None
        }
    }

    /// The module `id` refers to, for changing it.
    pub fn get_module_mut(&mut self, id: ModuleId) -> (r: Option<&mut Module>)
        ensures
            r is Some <==> id.0 < old(self)@.modules.len(),
            r is None ==> final(self)@ == old(self)@,
    {
        if (id.0 as usize) < self.modules.len() {
            Some(&mut self.modules[id.0 as usize])
        } else {
            None
        }
    }

    /// The module called `name`.
    pub fn find_module(&self, name: &str) -> (r: Option<ModuleId>)
        requires
            self.wf(),
        ensures
            r == module_named(self@, name@),
    {
        self.module_names.get(name)
    }

    /// All modules.
    pub fn modules(&self) -> (r: &[Module])
        ensures
            r@ == self@.modules,
    {
        self.modules.as_slice()
    }

    /// Makes `id` the entry module.
    pub fn set_entry_module(&mut self, id: ModuleId)
        requires
            old(self).wf(),
        ensures
            final(self).wf(),
            final(self)@ == (DesignView { entry_module: Some(id), ..old(self)@ }),
    {
        self.entry_module = Some(id);
    }

    /// The entry module, if one was set.
    pub fn entry_module(&self) -> (r: Option<ModuleId>)
        ensures
            r == self@.entry_module,
    {
        self.entry_module
    }

    /// Adds a field called `name` to the module `module_id` and returns its
    /// identifier, the next free index. When the module exists, it records
    /// the field, and the name refers to it there.
    pub fn add_field(&mut self, module_id: ModuleId, name: &str, kind: FieldKind) -> (id: FieldId)
        requires
            old(self).wf(),
            old(self)@.fields.len() < u32::MAX,
        ensures
            final(self).wf(),
            id.0 == old(self)@.fields.len(),
            final(self)@.fields.len() == old(self)@.fields.len() + 1,
            final(self)@.fields.drop_last() == old(self)@.fields,
            ({
                let f = final(self)@.fields.last();
                &&& f.id == id
                &&& f.parent == module_id
                &&& f.name@ == name@
                &&& f.kind == kind
                &&& f.span is None
            }),
            module_id.0 < old(self)@.modules.len() ==> ({
                let m0 = old(self)@.modules[module_id.0 as int];
                let m1 = final(self)@.modules[module_id.0 as int];
                &&& final(self)@.modules == old(self)@.modules.update(module_id.0 as int, m1)
                &&& m1.field_names@ == m0.field_names@.insert(name@, id)
                &&& m1.fields@ == m0.fields@.push(id)
                &&& m1 == (Module { field_names: m1.field_names, fields: m1.fields, ..m0 })
            }),
            module_id.0 >= old(self)@.modules.len() ==> final(self)@.modules == old(self)@.modules,
            final(self)@ == (DesignView {
                modules: final(self)@.modules,
                fields: final(self)@.fields,
                ..old(self)@
            }),
    {
        let id = FieldId::new(self.fields.len() as u32);
        let field = Field::new(id, module_id, name, kind);
        self.fields.push(field);
        if (module_id.0 as usize) < self.modules.len() {
            let i = module_id.0 as usize;
            assert(self.modules@[i as int].wf());
            self.modules[i].add_field(name, id);
            assert forall|k: int| 0 <= k < self.modules.len() implies (#[trigger] self.modules@[k]).wf() by {
                if k != i {
                    assert(self.modules@[k] == old(self).modules@[k]);
                }
            }
        }
        assert(self@.fields.drop_last() =~= old(self)@.fields);
        id
    }

    /// The field `id` refers to.
    pub fn get_field(&self, id: FieldId) -> (r: Option<&Field>)
        ensures
            r is Some <==> field_at(self@, id) is Some,
            r is Some ==> *r->0 == field_at(self@, id)->0,
    {
        if (id.0 as usize) < self.fields.len() {
            Some(&self.fields[id.0 as usize])
        } else {
            None
        }
    }

    /// The field `id` refers to, for changing it.
    pub fn get_field_mut(&mut self, id: FieldId) -> (r: Option<&mut Field>)
        ensures
            r is Some <==> id.0 < old(self)@.fields.len(),
            r is None ==> final(self)@ == old(self)@,
    {
        if (id.0 as usize) < self.fields.len() {
            Some(&mut self.fields[id.0 as usize])
        } else {
            None
        }
    }

    /// All fields.
    pub fn fields(&self) -> (r: &[Field])
        ensures
            r@ == self@.fields,
    {
        self.fields.as_slice()
    }

    /// The field called `name` in the module `module_id`.
    pub fn find_field(&self, module_id: ModuleId, name: &str) -> (r: Option<FieldId>)
        requires
            self.wf(),
        ensures
            r == field_named(self@, module_id, name@),
    {
        match self.get_module(module_id) {
            Some(m) => {
                assert(m.wf());
                m.get_field(name)
            },
            None => None,
        }
    }

    fn register_connection(&mut self, module_id: ModuleId, id: ConnectionId)
        requires
            old(self).wf(),
        ensures
            final(self).wf(),
            module_id.0 < old(self)@.modules.len() ==> ({
                let m0 = old(self)@.modules[module_id.0 as int];
                let m1 = final(self)@.modules[module_id.0 as int];
                &&& final(self)@.modules == old(self)@.modules.update(module_id.0 as int, m1)
                &&& m1.connections@ == m0.connections@.push(id)
                &&& m1 == (Module { connections: m1.connections, ..m0 })
            }),
            module_id.0 >= old(self)@.modules.len() ==> final(self)@.modules == old(self)@.modules,
            final(self)@ == (DesignView { modules: final(self)@.modules, ..old(self)@ }),
    {
        if (module_id.0 as usize) < self.modules.len() {
            let i = module_id.0 as usize;
            self.modules[i].add_connection(id);
            assert forall|k: int| 0 <= k < self.modules.len() implies (#[trigger] self.modules@[k]).wf() by {
                if k != i {
                    assert(self.modules@[k] == old(self).modules@[k]);
                } else {
                    assert(self.modules@[k].field_names == old(self).modules@[k].field_names);
                    assert(old(self).modules@[k].wf());
                }
            }
        }
    }

    /// Adds a simple connection between two endpoints in the module
    /// `module_id` and returns its identifier, the next free index; the
    /// module, when it exists, records it.
    pub fn add_connection(&mut self, module_id: ModuleId, left: ConnectionEndpoint, right: ConnectionEndpoint) -> (id: ConnectionId)
        requires
            old(self).wf(),
            old(self)@.connections.len() < u32::MAX,
        ensures
            final(self).wf(),
            id.0 == old(self)@.connections.len(),
            final(self)@.connections == old(self)@.connections.push(final(self)@.connections.last()),
            ({
                let c = final(self)@.connections.last();
                &&& c.id == id
                &&& c.parent == module_id
                &&& c.endpoints@ == seq![left, right]
                &&& c.kind == ConnectionKind::Simple
                &&& c.span is None
            }),
            module_id.0 < old(self)@.modules.len() ==> ({
                let m0 = old(self)@.modules[module_id.0 as int];
                let m1 = final(self)@.modules[module_id.0 as int];
                &&& final(self)@.modules == old(self)@.modules.update(module_id.0 as int, m1)
                &&& m1.connections@ == m0.connections@.push(id)
                &&& m1 == (Module { connections: m1.connections, ..m0 })
            }),
            module_id.0 >= old(self)@.modules.len() ==> final(self)@.modules == old(self)@.modules,
            final(self)@ == (DesignView {
                modules: final(self)@.modules,
                connections: final(self)@.connections,
                ..old(self)@
            }),
    {
        let id = ConnectionId::new(self.connections.len() as u32);
        let connection = Connection::new(id, module_id, left, right);
        self.connections.push(connection);
        self.register_connection(module_id, id);
        id
    }

    /// Adds a connection of the given kind through `endpoints` in the module
    /// `module_id` and returns its identifier, the next free index; the
    /// module, when it exists, records it.
    pub fn add_directed_connection(&mut self, module_id: ModuleId, endpoints: Vec<ConnectionEndpoint>, kind: ConnectionKind) -> (id: ConnectionId)
        requires
            old(self).wf(),
            old(self)@.connections.len() < u32::MAX,
        ensures
            final(self).wf(),
            id.0 == old(self)@.connections.len(),
            final(self)@.connections == old(self)@.connections.push(final(self)@.connections.last()),
            ({
                let c = final(self)@.connections.last();
                &&& c.id == id
                &&& c.parent == module_id
                &&& c.endpoints@ == endpoints@
                &&& c.kind == kind
                &&& c.span is None
            }),
            module_id.0 < old(self)@.modules.len() ==> ({
                let m0 = old(self)@.modules[module_id.0 as int];
                let m1 = final(self)@.modules[module_id.0 as int];
                &&& final(self)@.modules == old(self)@.modules.update(module_id.0 as int, m1)
                &&& m1.connections@ == m0.connections@.push(id)
                &&& m1 == (Module { connections: m1.connections, ..m0 })
            }),
            module_id.0 >= old(self)@.modules.len() ==> final(self)@.modules == old(self)@.modules,
            final(self)@ == (DesignView {
                modules: final(self)@.modules,
                connections: final(self)@.connections,
                ..old(self)@
            }),
    {
        let id = ConnectionId::new(self.connections.len() as u32);
        let connection = Connection { id, parent: module_id, endpoints, kind, span: None };
        self.connections.push(connection);
        self.register_connection(module_id, id);
        id
    }

    /// The connection `id` refers to.
    pub fn get_connection(&self, id: ConnectionId) -> (r: Option<&Connection>)
        ensures
            r is Some <==> id.0 < self@.connections.len(),
            r is Some ==> *r->0 == self@.connections[id.0 as int],
    {
        if (id.0 as usize) < self.connections.len() {
            Some(&self.connections[id.0 as usize])
        } else {
            None
        }
    }

    /// All connections.
    pub fn connections(&self) -> (r: &[Connection])
        ensures
            r@ == self@.connections,
    {
        self.connections.as_slice()
    }

    /// The connection graph.
    pub fn connection_graph(&self) -> (g: &ConnectionGraph)
        requires
            self.wf(),
        ensures
            g.wf(),
            g@ == self@.graph,
    {
        &self.connection_graph
    }

    fn add_links_of(graph: &mut ConnectionGraph, c: &Connection)
        requires
            old(graph).wf(),
        ensures
            final(graph).wf(),
            final(graph)@ == apply_links(old(graph)@, connection_links(*c)),
    {
        let ghost g0 = graph@;
        if c.is_simple() {
            if c.endpoints.len() >= 2 {
                match (c.endpoints[0].resolved, c.endpoints[1].resolved) {
                    (Some(a), Some(b)) => {
                        graph.add_connection(a, b);
                        proof {
                            let ls = connection_links(*c);
                            assert(ls == seq![(a, b)]);
                            assert(ls.drop_last() =~= Seq::<(FieldId, FieldId)>::empty());
                            assert(apply_links(g0, ls.drop_last()) == g0);
                        }
                    },
                    _ => {
                        assert(connection_links(*c) =~= Seq::<(FieldId, FieldId)>::empty());
                    },
                }
            } else {
                assert(connection_links(*c) =~= Seq::<(FieldId, FieldId)>::empty());
            }
        } else if c.endpoints.len() < 2 {
            assert(chain_links(c.endpoints@) =~= Seq::<(FieldId, FieldId)>::empty());
        } else {
            let mut k: usize = 1;
            proof {
                assert(c.endpoints@.take(1).len() == 1);
                assert(chain_links(c.endpoints@.take(1)) =~= Seq::<(FieldId, FieldId)>::empty());
            }
            while k < c.endpoints.len()
                invariant
                    1 <= k <= c.endpoints.len(),
                    graph.wf(),
                    graph@ == apply_links(g0, chain_links(c.endpoints@.take(k as int))),
                decreases c.endpoints.len() - k,
            {
                let ghost before = chain_links(c.endpoints@.take(k as int));
                let ghost eps = c.endpoints@.take(k + 1);
                proof {
                    assert(eps.drop_last() =~= c.endpoints@.take(k as int));
                    assert(eps[eps.len() - 2] == c.endpoints@[k - 1]);
                    assert(eps[eps.len() - 1] == c.endpoints@[k as int]);
                }
                match (c.endpoints[k - 1].resolved, c.endpoints[k].resolved) {
                    (Some(a), Some(b)) => {
                        graph.add_connection(a, b);
                        proof {
                            assert(chain_links(eps) == before + seq![(a, b)]);
                            lemma_apply_links_concat(g0, before, seq![(a, b)]);
                            let one = seq![(a, b)];
                            assert(one.drop_last() =~= Seq::<(FieldId, FieldId)>::empty());
                            let x = apply_links(g0, before);
                            assert(apply_links(x, one.drop_last()) == x);
                            assert(apply_links(x, one) == link(x, a, b));
                            assert(graph@ == apply_links(g0, chain_links(eps)));
                        }
                    },
                    _ => {
                        proof {
                            assert(chain_links(eps) =~= before);
                        }
                    },
                }
                k = k + 1;
            }
            assert(c.endpoints@.take(c.endpoints.len() as int) =~= c.endpoints@);
        }
    }

    /// Rebuilds the connection graph from the resolved endpoints of all
    /// connections: simple connections link their two endpoints, directed
    /// ones each consecutive pair.
    pub fn rebuild_connection_graph(&mut self)
        requires
            old(self).wf(),
        ensures
            final(self).wf(),
            final(self)@.graph == apply_links(Map::empty(), all_links(old(self)@.connections)),
            final(self)@ == (DesignView { graph: final(self)@.graph, ..old(self)@ }),
    {
        let mut graph = ConnectionGraph::new();
        let mut i: usize = 0;
        while i < self.connections.len()
            invariant
                i <= self.connections.len(),
                graph.wf(),
                graph@ == apply_links(Map::empty(), all_links(self.connections@.take(i as int))),
            decreases self.connections.len() - i,
        {
            let ghost before = all_links(self.connections@.take(i as int));
            Self::add_links_of(&mut graph, &self.connections[i]);
            proof {
                let t = self.connections@.take(i + 1);
                assert(t.drop_last() =~= self.connections@.take(i as int));
                lemma_apply_links_concat(Map::empty(), before, connection_links(self.connections@[i as int]));
            }
            i = i + 1;
        }
        assert(self.connections@.take(self.connections.len() as int) =~= self.connections@);
        self.connection_graph = graph;
    }

    /// Adds `constraint` to the module `module_id` and returns the
    /// constraint's own identifier; the module, when it exists, records it.
    pub fn add_constraint(&mut self, module_id: ModuleId, constraint: Constraint) -> (id: ConstraintId)
        requires
            old(self).wf(),
        ensures
            final(self).wf(),
            id == constraint.id,
            final(self)@.constraints == old(self)@.constraints.push(constraint),
            module_id.0 < old(self)@.modules.len() ==> ({
                let m0 = old(self)@.modules[module_id.0 as int];
                let m1 = final(self)@.modules[module_id.0 as int];
                &&& final(self)@.modules == old(self)@.modules.update(module_id.0 as int, m1)
                &&& m1.constraints@ == m0.constraints@.push(id)
                &&& m1 == (Module { constraints: m1.constraints, ..m0 })
            }),
            module_id.0 >= old(self)@.modules.len() ==> final(self)@.modules == old(self)@.modules,
            final(self)@ == (DesignView {
                modules: final(self)@.modules,
                constraints: final(self)@.constraints,
                ..old(self)@
            }),
    {
        let id = constraint.id;
        self.constraints.push(constraint);
        if (module_id.0 as usize) < self.modules.len() {
            let i = module_id.0 as usize;
            self.modules[i].add_constraint(id);
            assert forall|k: int| 0 <= k < self.modules.len() implies (#[trigger] self.modules@[k]).wf() by {
                if k != i {
                    assert(self.modules@[k] == old(self).modules@[k]);
                } else {
                    assert(old(self).modules@[k].wf());
                }
            }
        }
        id
    }

    /// Creates a constraint on `expression` in the module `module_id`, with
    /// the next free index as its identifier, and adds it.
    pub fn create_constraint(&mut self, module_id: ModuleId, expression: ConstraintExpr) -> (id: ConstraintId)
        requires
            old(self).wf(),
            old(self)@.constraints.len() < u32::MAX,
        ensures
            final(self).wf(),
            id.0 == old(self)@.constraints.len(),
            final(self)@.constraints == old(self)@.constraints.push(
                Constraint { id, parent: module_id, expression, span: None }),
            module_id.0 < old(self)@.modules.len() ==> ({
                let m0 = old(self)@.modules[module_id.0 as int];
                let m1 = final(self)@.modules[module_id.0 as int];
                &&& final(self)@.modules == old(self)@.modules.update(module_id.0 as int, m1)
                &&& m1.constraints@ == m0.constraints@.push(id)
                &&& m1 == (Module { constraints: m1.constraints, ..m0 })
            }),
            module_id.0 >= old(self)@.modules.len() ==> final(self)@.modules == old(self)@.modules,
            final(self)@ == (DesignView {
                modules: final(self)@.modules,
                constraints: final(self)@.constraints,
                ..old(self)@
            }),
    {
        let id = ConstraintId::new(self.constraints.len() as u32);
        let constraint = Constraint::new(id, module_id, expression);
        self.add_constraint(module_id, constraint)
    }

    /// The constraint at index `id` of the constraint list.
    pub fn get_constraint(&self, id: ConstraintId) -> (r: Option<&Constraint>)
        ensures
            r is Some <==> id.0 < self@.constraints.len(),
            r is Some ==> *r->0 == self@.constraints[id.0 as int],
    {
        if (id.0 as usize) < self.constraints.len() {
            Some(&self.constraints[id.0 as usize])
        } else {
            None
        }
    }

    /// All constraints.
    pub fn constraints(&self) -> (r: &[Constraint])
        ensures
            r@ == self@.constraints,
    {
        self.constraints.as_slice()
    }

    /// Adds an import.
    pub fn add_import(&mut self, import: Import)
        requires
            old(self).wf(),
        ensures
            final(self).wf(),
            final(self)@ == (DesignView { imports: old(self)@.imports.push(import), ..old(self)@ }),
    {
        self.imports.push(import);
    }

    /// All imports.
    pub fn imports(&self) -> (r: &[Import])
        ensures
            r@ == self@.imports,
    {
        self.imports.as_slice()
    }

    /// Succeeds exactly when `id` refers to a module.
    pub fn validate_module_id(&self, id: ModuleId) -> (r: Result<(), IrError>)
        ensures
            r is Ok <==> id.0 < self@.modules.len(),
            r is Err ==> (r matches Err(IrError::ModuleNotFound(m)) && m == id),
    {
        if (id.0 as usize) < self.modules.len() {
            Ok(())
        } else {
            Err(IrError::ModuleNotFound(id))
        }
    }

    /// Succeeds exactly when `id` refers to a field.
    pub fn validate_field_id(&self, id: FieldId) -> (r: Result<(), IrError>)
        ensures
            r is Ok <==> id.0 < self@.fields.len(),
            r is Err ==> (r matches Err(IrError::FieldNotFound(f)) && f == id),
    {
        if (id.0 as usize) < self.fields.len() {
            Ok(())
        } else {
            Err(IrError::FieldNotFound(id))
        }
    }

    /// Succeeds exactly when `id` refers to a connection.
    pub fn validate_connection_id(&self, id: ConnectionId) -> (r: Result<(), IrError>)
        ensures
            r is Ok <==> id.0 < self@.connections.len(),
            r is Err ==> (r matches Err(IrError::ConnectionNotFound(c)) && c == id),
    {
        if (id.0 as usize) < self.connections.len() {
            Ok(())
        } else {
            Err(IrError::ConnectionNotFound(id))
        }
    }

    /// The number of modules.
    pub fn module_count(&self) -> (n: usize)
        ensures
            n == self@.modules.len(),
    {
        self.modules.len()
    }

    /// The number of fields.
    pub fn field_count(&self) -> (n: usize)
        ensures
            n == self@.fields.len(),
    {
        self.fields.len()
    }

    /// The number of connections.
    pub fn connection_count(&self) -> (n: usize)
        ensures
            n == self@.connections.len(),
    {
        self.connections.len()
    }

    /// The number of constraints.
    pub fn constraint_count(&self) -> (n: usize)
        ensures
            n == self@.constraints.len(),
    {
        self.constraints.len()
    }
}

impl Default for Design {
    /// A new empty design.
    fn default() -> (d: Self)
        ensures
            d.wf(),
            d@.modules.len() == 0,
            d@.fields.len() == 0,
            d@.connections.len() == 0,
            d@.constraints.len() == 0,
    {
        Design::new()
    }
}

/// A module created under a name is what that name finds afterwards, and it
/// is the module its identifier refers to.
pub proof fn lemma_created_module_found(d0: DesignView, d1: DesignView, name: Seq<char>, kind: ModuleKind, id: ModuleId)
    requires
        id.0 == d0.modules.len(),
        d1.modules.drop_last() == d0.modules,
        d1.modules.len() == d0.modules.len() + 1,
        fresh_module(d1.modules.last(), id, name, kind),
        d1.module_names == d0.module_names.insert(name, id),
    ensures
        module_named(d1, name) == Some(id),
        module_at(d1, id) matches Some(m) && m.name@ == name && m.kind == kind && m.id == id,
        forall|other: ModuleId| other.0 < d0.modules.len() ==> module_at(d1, other) == module_at(d0, other),
{
    assert forall|other: ModuleId| other.0 < d0.modules.len() implies module_at(d1, other) == module_at(d0, other) by {
        assert(d1.modules[other.0 as int] == d1.modules.drop_last()[other.0 as int]);
    }
}

/// A field added to an existing module under a name is what that name finds
/// in the module afterwards, and it is the field its identifier refers to.
pub proof fn lemma_added_field_found(d0: DesignView, d1: DesignView, m: ModuleId, name: Seq<char>, id: FieldId)
    requires
        m.0 < d0.modules.len(),
        id.0 == d0.fields.len(),
        d1.fields.drop_last() == d0.fields,
        d1.fields.len() == d0.fields.len() + 1,
        d1.fields.last().id == id,
        d1.fields.last().name@ == name,
        d1.modules == d0.modules.update(m.0 as int, d1.modules[m.0 as int]),
        d1.modules[m.0 as int].field_names@ == d0.modules[m.0 as int].field_names@.insert(name, id),
    ensures
        field_named(d1, m, name) == Some(id),
        field_at(d1, id) matches Some(f) && f.id == id && f.name@ == name,
{
}

/// Linking the endpoints of a connection links them both ways: after a
/// rebuild, each resolved pair a connection contributes is connected in the
/// graph in both directions.
pub proof fn lemma_link_both_ways(m: Map<FieldId, Seq<FieldId>>, links: Seq<(FieldId, FieldId)>, k: int)
    requires
        0 <= k < links.len(),
    ensures
        neighbors(apply_links(m, links), links[k].0).contains(links[k].1),
        neighbors(apply_links(m, links), links[k].1).contains(links[k].0),
    decreases links.len(),
{
    let l = links.last();
    let rest = links.drop_last();
    let m0 = apply_links(m, rest);
    if k == links.len() - 1 {
        crate::connection::lemma_link_symmetric(m0, l.0, l.1);
    } else {
        lemma_link_both_ways(m, rest, k);
        assert(rest[k] == links[k]);
        lemma_link_keeps(m0, l.0, l.1, links[k].0, links[k].1);
        lemma_link_keeps(m0, l.0, l.1, links[k].1, links[k].0);
    }
}

/// Linking never removes a neighbour.
pub proof fn lemma_link_keeps(m: Map<FieldId, Seq<FieldId>>, a: FieldId, b: FieldId, x: FieldId, y: FieldId)
    requires
        neighbors(m, x).contains(y),
    ensures
        neighbors(link(m, a, b), x).contains(y),
{
    let m1 = m.insert(a, neighbors(m, a).push(b));
    let i = choose|i: int| 0 <= i < neighbors(m, x).len() && neighbors(m, x)[i] == y;
    assert(neighbors(m1, x)[i] == y);
    assert(neighbors(link(m, a, b), x)[i] == y);
}

} // verus!
