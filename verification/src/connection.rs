//! Connections: the electrical links between connectable fields, and the
//! graph that answers which fields are linked.

use vstd::prelude::*;
use vstd::set_lib::lemma_len_subset;
use crate::field::{FieldPath, FieldPathPart};
use crate::ids::{ConnectionId, FieldId, ModuleId};
use crate::text::{dec_digits, push_char, push_decimal, push_str};
use crate::token::Span;

verus! {

/// A connection between endpoints in a module.
#[derive(Debug, Clone)]
pub struct Connection {
    /// Unique identifier for this connection.
    pub id: ConnectionId,
    /// The module that contains this connection.
    pub parent: ModuleId,
    /// The connection endpoints, in source order.
    pub endpoints: Vec<ConnectionEndpoint>,
    /// The kind of connection.
    pub kind: ConnectionKind,
    /// Source location for error reporting.
    pub span: Option<Span>,
}

/// The kind of connection.
#[derive(Debug, Clone, Copy, PartialEq, Eq, Structural)]
pub enum ConnectionKind {
    /// A simple bidirectional connection: `a ~ b`.
    Simple,
    /// A directed (bridge) connection: `a ~> b ~> c` or `a <~ b <~ c`.
    Directed(ConnectionDirection),
}

/// The direction of a directed connection.
#[derive(Debug, Clone, Copy, PartialEq, Eq, Structural)]
pub enum ConnectionDirection {
    /// Forward direction: `~>`.
    Forward,
    /// Backward direction: `<~`.
    Backward,
}

impl Connection {
    /// A simple connection between two endpoints.
    pub fn new(
        id: ConnectionId,
        parent: ModuleId,
        left: ConnectionEndpoint,
        right: ConnectionEndpoint,
    ) -> (c: Self)
        ensures
            c.id == id,
            c.parent == parent,
            c.endpoints@ == seq![left, right],
            c.kind == ConnectionKind::Simple,
            c.span is None,
    {
        let mut endpoints: Vec<ConnectionEndpoint> = Vec::new();
        endpoints.push(left);
        endpoints.push(right);
        Connection { id, parent, endpoints, kind: ConnectionKind::Simple, span: None }
    }

    /// A directed (bridge) connection through `endpoints`.
    pub fn directed(
        id: ConnectionId,
        parent: ModuleId,
        endpoints: Vec<ConnectionEndpoint>,
        direction: ConnectionDirection,
    ) -> (c: Self)
        ensures
            c.id == id,
            c.parent == parent,
            c.endpoints@ == endpoints@,
            c.kind == ConnectionKind::Directed(direction),
            c.span is None,
    {
        Connection { id, parent, endpoints, kind: ConnectionKind::Directed(direction), span: None }
    }

    /// This connection with its source span set.
    pub fn with_span(self, span: Span) -> (c: Self)
        ensures
            c == (Connection { span: Some(span), ..self }),
    {
        let mut c = self;
        c.span = Some(span);
        c
    }

    /// Whether this is a simple connection.
    pub fn is_simple(&self) -> (b: bool)
        ensures
            b == (self.kind is Simple),
    {
        matches!(self.kind, ConnectionKind::Simple)
    }

    /// Whether this is a directed connection.
    pub fn is_directed(&self) -> (b: bool)
        ensures
            b == (self.kind is Directed),
    {
        matches!(self.kind, ConnectionKind::Directed(_))
    }

    /// The first endpoint.
    pub fn left(&self) -> (e: Option<&ConnectionEndpoint>)
        ensures
            e is Some <==> self.endpoints@.len() > 0,
            e is Some ==> *e->0 == self.endpoints@[0],
    {
        if self.endpoints.len() > 0 {
            Some(&self.endpoints[0])
        } else {
            None
        }
    }

    /// The second endpoint.
    pub fn right(&self) -> (e: Option<&ConnectionEndpoint>)
        ensures
            e is Some <==> self.endpoints@.len() > 1,
            e is Some ==> *e->0 == self.endpoints@[1],
    {
        if self.endpoints.len() > 1 {
            Some(&self.endpoints[1])
        } else {
            None
        }
    }
}

/// An endpoint in a connection.
#[derive(Debug, Clone, PartialEq, Eq)]
pub struct ConnectionEndpoint {
    /// The kind of endpoint.
    pub kind: EndpointKind,
    /// The resolved field (filled in during semantic analysis).
    pub resolved: Option<FieldId>,
}

/// The kind of connection endpoint.
#[derive(Debug, Clone, PartialEq, Eq)]
pub enum EndpointKind {
    /// A reference to an existing field.
    FieldRef(FieldPath),
    /// An inline signal definition.
    SignalDef(String),
    /// An inline pin definition.
    PinDef(String),
    /// A resolved field (after semantic analysis).
    Resolved,
}

/// How one part of a field reference is shown in an endpoint's name.
pub open spec fn path_part_display(p: FieldPathPart) -> Seq<char> {
    match p {
        FieldPathPart::Name(n) => n@,
        FieldPathPart::Index(i) => seq!['['] + dec_digits(i as nat) + seq![']'],
        FieldPathPart::PinRef(n) => seq!['.'] + dec_digits(n as nat),
    }
}

/// The displayed parts of a field reference joined with dots.
pub open spec fn path_display(parts: Seq<FieldPathPart>) -> Seq<char>
    decreases parts.len(),
{
    if parts.len() == 0 {
        Seq::empty()
    } else if parts.len() == 1 {
        path_part_display(parts[0])
    } else {
        path_display(parts.drop_last()) + seq!['.'] + path_part_display(parts.last())
    }
}

/// How an optional field identifier is shown by its debug form.
pub open spec fn resolved_debug(r: Option<FieldId>) -> Seq<char> {
    match r {
        Some(f) => "Some(FieldId("@ + dec_digits(f.0 as nat) + "))"@,
        None => "None"@,
    }
}

/// The display name of an endpoint.
pub open spec fn endpoint_display(e: ConnectionEndpoint) -> Seq<char> {
    match e.kind {
        EndpointKind::FieldRef(p) => path_display(p.parts@),
        EndpointKind::SignalDef(n) => "signal "@ + n@,
        EndpointKind::PinDef(n) => "pin "@ + n@,
        EndpointKind::Resolved => "Field("@ + resolved_debug(e.resolved) + ")"@,
    }
}

fn push_part(out: &mut String, p: &FieldPathPart)
    ensures
        final(out)@ == old(out)@ + path_part_display(*p),
{
    match p {
        FieldPathPart::Name(n) => push_str(out, n.as_str()),
        FieldPathPart::Index(i) => {
            push_char(out, '[');
            push_decimal(out, *i as u64);
            push_char(out, ']');
        },
        FieldPathPart::PinRef(n) => {
            push_char(out, '.');
            push_decimal(out, *n as u64);
        },
    }
    assert(out@ =~= old(out)@ + path_part_display(*p));
}

impl ConnectionEndpoint {
    /// An endpoint referring to an existing field.
    pub fn field(path: FieldPath) -> (e: Self)
        ensures
            e == (ConnectionEndpoint { kind: EndpointKind::FieldRef(path), resolved: None }),
    {
        ConnectionEndpoint { kind: EndpointKind::FieldRef(path), resolved: None }
    }

    /// An endpoint defining a signal inline.
    pub fn signal(name: &str) -> (e: Self)
        ensures
            e.kind matches EndpointKind::SignalDef(n) && n@ == name@,
            e.resolved is None,
    {
        ConnectionEndpoint { kind: EndpointKind::SignalDef(name.to_owned()), resolved: None }
    }

    /// An endpoint defining a pin inline.
    pub fn pin(name: &str) -> (e: Self)
        ensures
            e.kind matches EndpointKind::PinDef(n) && n@ == name@,
            e.resolved is None,
    {
        ConnectionEndpoint { kind: EndpointKind::PinDef(name.to_owned()), resolved: None }
    }

    /// An endpoint already resolved to `field_id`.
    pub fn resolved(field_id: FieldId) -> (e: Self)
        ensures
            e == (ConnectionEndpoint { kind: EndpointKind::Resolved, resolved: Some(field_id) }),
    {
        ConnectionEndpoint { kind: EndpointKind::Resolved, resolved: Some(field_id) }
    }

    /// Whether this endpoint is resolved.
    pub fn is_resolved(&self) -> (b: bool)
        ensures
            b == (self.resolved is Some),
    {
        self.resolved.is_some()
    }

    /// The display name of this endpoint.
    pub fn display_name(&self) -> (s: String)
        ensures
            s@ == endpoint_display(*self),
    {
        let mut s = String::new();
        match &self.kind {
            EndpointKind::FieldRef(path) => {
                let mut i: usize = 0;
                while i < path.parts.len()
                    invariant
                        i <= path.parts.len(),
                        s@ == path_display(path.parts@.take(i as int)),
                    decreases path.parts.len() - i,
                {
                    if i > 0 {
                        push_char(&mut s, '.');
                    }
                    push_part(&mut s, &path.parts[i]);
                    proof {
                        let t = path.parts@.take(i + 1);
                        assert(t.drop_last() =~= path.parts@.take(i as int));
                        assert(t.last() == path.parts@[i as int]);
                    }
                    i = i + 1;
                }
                assert(path.parts@.take(path.parts.len() as int) =~= path.parts@);
            },
            EndpointKind::SignalDef(name) => {
                push_str(&mut s, "signal ");
                push_str(&mut s, name.as_str());
            },
            EndpointKind::PinDef(name) => {
                push_str(&mut s, "pin ");
                push_str(&mut s, name.as_str());
            },
            EndpointKind::Resolved => {
                push_str(&mut s, "Field(");
                match self.resolved {
                    Some(f) => {
                        push_str(&mut s, "Some(FieldId(");
                        push_decimal(&mut s, f.0 as u64);
                        push_str(&mut s, "))");
                    },
                    None => push_str(&mut s, "None"),
                }
                push_str(&mut s, ")");
            },
        }
        assert(s@ =~= endpoint_display(*self));
        s
    }
}

/// The neighbours of `f` in an adjacency map: its list, or nothing.
pub open spec fn neighbors(m: Map<FieldId, Seq<FieldId>>, f: FieldId) -> Seq<FieldId> {
    if m.contains_key(f) {
        m[f]
    } else {
        Seq::empty()
    }
}

/// The adjacency map after linking `a` and `b`: `b` appended to the list of
/// `a`, then `a` appended to the list of `b`.
pub open spec fn link(m: Map<FieldId, Seq<FieldId>>, a: FieldId, b: FieldId) -> Map<FieldId, Seq<FieldId>> {
    let m1 = m.insert(a, neighbors(m, a).push(b));
    m1.insert(b, neighbors(m1, b).push(a))
}

/// Whether `p` is a walk: a non-empty sequence of fields, each a neighbour of the previous.
pub open spec fn is_walk(m: Map<FieldId, Seq<FieldId>>, p: Seq<FieldId>) -> bool {
    &&& p.len() >= 1
    &&& forall|k: int| 0 <= k < p.len() - 1 ==> #[trigger] neighbors(m, p[k]).contains(p[k + 1])
}

/// Whether `x` can be reached from `start` by following connections.
pub open spec fn reachable(m: Map<FieldId, Seq<FieldId>>, start: FieldId, x: FieldId) -> bool {
    exists|p: Seq<FieldId>| #[trigger] is_walk(m, p) && p[0] == start && p.last() == x
}

/// A connection graph for efficient querying of connections.
#[derive(Debug, Clone)]
pub struct ConnectionGraph {
    nodes: Vec<FieldId>,
    adjacency: Vec<Vec<FieldId>>,
}

/// The position of `f` in `nodes`.
spec fn position(nodes: Seq<FieldId>, f: FieldId) -> int {
    choose|i: int| 0 <= i < nodes.len() && nodes[i] == f
}

impl View for ConnectionGraph {
    type V = Map<FieldId, Seq<FieldId>>;

    /// Each field that takes part in a connection, mapped to the fields it
    /// is linked to, in the order the links were added.
    closed spec fn view(&self) -> Map<FieldId, Seq<FieldId>> {
        Map::new(
            |f: FieldId| self.nodes@.contains(f),
            |f: FieldId| self.adjacency@[position(self.nodes@, f)]@,
        )
    }
}

impl ConnectionGraph {
    /// The internal representation is consistent, and every neighbour of a
    /// field is itself a field of the graph.
    pub closed spec fn wf(&self) -> bool {
        &&& self.nodes.len() == self.adjacency.len()
        &&& self.nodes@.no_duplicates()
        &&& forall|x: FieldId, y: FieldId|
            self@.contains_key(x) && #[trigger] self@[x].contains(y) ==> self@.contains_key(y)
    }

    proof fn lemma_position(&self, i: int)
        requires
            self.nodes@.no_duplicates(),
            0 <= i < self.nodes.len(),
        ensures
            position(self.nodes@, self.nodes@[i]) == i,
    {
        let f = self.nodes@[i];
        assert(0 <= i < self.nodes@.len() && self.nodes@[i] == f);
        let j = position(self.nodes@, f);
        assert(self.nodes@[j] == f);
    }

    /// The graph without any connection.
    pub fn new() -> (g: Self)
        ensures
            g.wf(),
            g@ == Map::<FieldId, Seq<FieldId>>::empty(),
    {
        let g = ConnectionGraph { nodes: Vec::new(), adjacency: Vec::new() };
        assert(g@ =~= Map::<FieldId, Seq<FieldId>>::empty());
        g
    }

    fn find(&self, f: FieldId) -> (r: Option<usize>)
        requires
            self.nodes.len() == self.adjacency.len(),
            self.nodes@.no_duplicates(),
        ensures
            r is Some ==> r->0 < self.nodes.len() && self.nodes@[r->0 as int] == f,
            r is None ==> !self.nodes@.contains(f),
            r is Some <==> self@.contains_key(f),
            r is Some ==> self@[f] == self.adjacency@[r->0 as int]@,
    {
        let mut i: usize = 0;
        while i < self.nodes.len()
            invariant
                self.nodes.len() == self.adjacency.len(),
                self.nodes@.no_duplicates(),
                i <= self.nodes.len(),
                forall|j: int| 0 <= j < i ==> self.nodes@[j] != f,
            decreases self.nodes.len() - i,
        {
            if self.nodes[i] == f {
                proof { self.lemma_position(i as int); }
                return Some(i);
            }
            i = i + 1;
        }
        None
    }

    fn push_neighbor(&mut self, x: FieldId, y: FieldId)
        requires
            old(self).nodes.len() == old(self).adjacency.len(),
            old(self).nodes@.no_duplicates(),
        ensures
            final(self).nodes.len() == final(self).adjacency.len(),
            final(self).nodes@.no_duplicates(),
            final(self)@ == old(self)@.insert(x, neighbors(old(self)@, x).push(y)),
    {
        let ghost old_view = self@;
        match self.find(x) {
            Some(i) => {
                let mut list = self.adjacency[i].clone();
                list.push(y);
                self.adjacency.set(i, list);
                proof {
                    assert forall|f: FieldId| self.nodes@.contains(f) implies #[trigger] self@[f]
                        == old_view.insert(x, neighbors(old_view, x).push(y))[f] by {
                        let j = choose|j: int| 0 <= j < self.nodes.len() && self.nodes@[j] == f;
                        self.lemma_position(j);
                        if f == x {
                            assert(j == i);
                        }
                    }
                    assert(self@ =~= old_view.insert(x, neighbors(old_view, x).push(y)));
                }
            },
            None => {
                let mut list: Vec<FieldId> = Vec::new();
                list.push(y);
                self.nodes.push(x);
                self.adjacency.push(list);
                proof {
                    assert(self.nodes@.no_duplicates()) by {
                        assert forall|a: int, b: int| 0 <= a < b < self.nodes.len() implies
                            self.nodes@[a] != self.nodes@[b] by {
                            if b == self.nodes.len() - 1 {
                                assert(old(self).nodes@.contains(old(self).nodes@[a]));
                            }
                        }
                    }
                    assert forall|f: FieldId| self.nodes@.contains(f) implies #[trigger] self@[f]
                        == old_view.insert(x, neighbors(old_view, x).push(y))[f] by {
                        let j = choose|j: int| 0 <= j < self.nodes.len() && self.nodes@[j] == f;
                        self.lemma_position(j);
                        if f != x {
                            old(self).lemma_position(j);
                        } else {
                            assert(list@ =~= seq![y]);
                        }
                    }
                    assert forall|f: FieldId| #[trigger] self.nodes@.contains(f) <==>
                        old_view.insert(x, neighbors(old_view, x).push(y)).contains_key(f) by {
                        if f != x && self.nodes@.contains(f) {
                            let j = choose|j: int| 0 <= j < self.nodes.len() && self.nodes@[j] == f;
                            assert(j < old(self).nodes.len());
                        }
                        if old(self).nodes@.contains(f) {
                            let j = choose|j: int| 0 <= j < old(self).nodes.len() && old(self).nodes@[j] == f;
                            assert(self.nodes@[j] == f);
                        }
                        if f == x {
                            assert(self.nodes@[self.nodes.len() - 1] == x);
                        }
                    }
                    assert(self@ =~= old_view.insert(x, neighbors(old_view, x).push(y)));
                }
            },
        }
    }

    /// Links the fields `a` and `b`, in both directions.
    pub fn add_connection(&mut self, a: FieldId, b: FieldId)
        requires
            old(self).wf(),
        ensures
            final(self).wf(),
            final(self)@ == link(old(self)@, a, b),
    {
        let ghost m0 = self@;
        self.push_neighbor(a, b);
        let ghost m1 = self@;
        self.push_neighbor(b, a);
        proof {
            let m2 = self@;
            assert(m2 =~= link(m0, a, b));
            assert forall|x: FieldId, y: FieldId|
                m2.contains_key(x) && #[trigger] m2[x].contains(y) implies m2.contains_key(y) by {
                if x == b {
                    if y != a {
                        let k = choose|k: int| 0 <= k < m2[x].len() && m2[x][k] == y;
                        assert(k < neighbors(m1, b).len());
                        assert(neighbors(m1, b).contains(y));
                        if x == a {
                            assert(neighbors(m0, a).contains(y) || y == b);
                        } else {
                            assert(m0.contains_key(b) && m0[b].contains(y));
                        }
                    }
                } else if x == a {
                    let k = choose|k: int| 0 <= k < m2[x].len() && m2[x][k] == y;
                    if y != b {
                        assert(k < neighbors(m0, a).len());
                        assert(m0[a].contains(y));
                    }
                } else {
                    assert(m0[x] == m2[x]);
                }
            }
        }
    }

    /// The fields linked to `field`, in the order the links were added.
    pub fn connected_to(&self, field: FieldId) -> (r: &[FieldId])
        requires
            self.wf(),
        ensures
            r@ == neighbors(self@, field),
    {
        match self.find(field) {
            Some(i) => self.adjacency[i].as_slice(),
            None => &[],
        }
    }

    /// Whether `b` is directly linked to `a`.
    pub fn are_connected(&self, a: FieldId, b: FieldId) -> (r: bool)
        requires
            self.wf(),
        ensures
            r == neighbors(self@, a).contains(b),
    {
        let list = self.connected_to(a);
        let mut i: usize = 0;
        while i < list.len()
            invariant
                i <= list.len(),
                list@ == neighbors(self@, a),
                forall|j: int| 0 <= j < i ==> list@[j] != b,
            decreases list.len() - i,
        {
            if list[i] == b {
                return true;
            }
            i = i + 1;
        }
        false
    }

    /// Every field that is transitively linked to `start`, `start` itself
    /// included, each once, in breadth-first order.
    pub fn connected_component(&self, start: FieldId) -> (r: Vec<FieldId>)
        requires
            self.wf(),
        ensures
            r@.no_duplicates(),
            r@.len() > 0 && r@[0] == start,
            forall|x: FieldId| r@.contains(x) <==> reachable(self@, start, x),
    {
        let ghost m = self@;
        let ghost universe = self.nodes@.push(start);
        let mut visited: Vec<FieldId> = Vec::new();
        visited.push(start);
        proof {
            assert(is_walk(m, seq![start]));
            assert(universe[universe.len() - 1] == start);
        }
        let mut i: usize = 0;
        while i < visited.len()
            invariant
                self.wf(),
                m == self@,
                universe == self.nodes@.push(start),
                i <= visited.len(),
                visited@.len() > 0 && visited@[0] == start,
                visited@.no_duplicates(),
                forall|k: int| 0 <= k < visited.len() ==> reachable(m, start, #[trigger] visited@[k]),
                forall|k: int| 0 <= k < visited.len() ==> universe.contains(#[trigger] visited@[k]),
                forall|k: int, y: FieldId| 0 <= k < i && #[trigger] neighbors(m, visited@[k]).contains(y)
                    ==> visited@.contains(y),
            decreases universe.len() - i,
        {
            let cur = visited[i];
            let list = self.connected_to(cur);
            let ghost before = visited@;
            let mut j: usize = 0;
            while j < list.len()
                invariant
                    self.wf(),
                    m == self@,
                    universe == self.nodes@.push(start),
                    i < visited.len(),
                    visited@[i as int] == cur,
                    list@ == neighbors(m, cur),
                    j <= list.len(),
                    visited@.len() > 0 && visited@[0] == start,
                    visited@.no_duplicates(),
                    visited@.take(before.len() as int) == before,
                    before.len() <= visited.len(),
                    reachable(m, start, cur),
                    forall|k: int| 0 <= k < visited.len() ==> reachable(m, start, #[trigger] visited@[k]),
                    forall|k: int| 0 <= k < visited.len() ==> universe.contains(#[trigger] visited@[k]),
                    forall|t: int| 0 <= t < j ==> visited@.contains(#[trigger] list@[t]),
                decreases list.len() - j,
            {
                let n = list[j];
                let ghost old_visited = visited@;
                let mut seen = false;
                let mut k: usize = 0;
                while k < visited.len()
                    invariant
                        k <= visited.len(),
                        seen == (exists|t: int| 0 <= t < k && visited@[t] == n),
                    decreases visited.len() - k,
                {
                    if visited[k] == n {
                        seen = true;
                    }
                    k = k + 1;
                }
                if !seen {
                    proof {
                        let w = choose|p: Seq<FieldId>| #[trigger] is_walk(m, p) && p[0] == start && p.last() == cur;
                        let w2 = w.push(n);
                        assert(neighbors(m, cur).contains(n)) by {
                            assert(list@[j as int] == n);
                        }
                        assert forall|q: int| 0 <= q < w2.len() - 1 implies
                            #[trigger] neighbors(m, w2[q]).contains(w2[q + 1]) by {
                            if q < w.len() - 1 {
                                assert(w2[q] == w[q] && w2[q + 1] == w[q + 1]);
                            }
                        }
                        assert(is_walk(m, w2));
                        assert(m.contains_key(cur)) by {
                            assert(neighbors(m, cur).len() > 0);
                        }
                        assert(m[cur].contains(n));
                        assert(universe.contains(n)) by {
                            assert(m.contains_key(n));
                            assert(self.nodes@.contains(n));
                            let t = choose|t: int| 0 <= t < self.nodes.len() && self.nodes@[t] == n;
                            assert(universe[t] == n);
                        }
                    }
                    visited.push(n);
                    proof {
                        assert(visited@.no_duplicates()) by {
                            assert forall|a: int, b: int| 0 <= a < b < visited.len() implies
                                visited@[a] != visited@[b] by {
                                if b == visited.len() - 1 {
                                    assert(!(exists|t: int| 0 <= t < visited.len() - 1 && visited@[t] == n));
                                }
                            }
                        }
                        assert(visited@.take(before.len() as int) =~= before);
                    }
                }
                proof {
                    assert(visited@.contains(n)) by {
                        if seen {
                            let t = choose|t: int| 0 <= t < k && visited@[t] == n;
                        } else {
                            assert(visited@[visited.len() - 1] == n);
                        }
                    }
                    assert forall|t: int| 0 <= t < j + 1 implies visited@.contains(#[trigger] list@[t]) by {
                        if t < j {
                            assert(old_visited.contains(list@[t]));
                            let idx = choose|idx: int| 0 <= idx < old_visited.len() && old_visited[idx] == list@[t];
                            assert(visited@[idx] == old_visited[idx]);
                        }
                    }
                }
                j = j + 1;
            }
            proof {
                assert(j == list@.len());
                assert(forall|t: int| 0 <= t < list@.len() ==> visited@.contains(#[trigger] list@[t]));
                assert forall|k: int, y: FieldId| 0 <= k < i + 1 && #[trigger] neighbors(m, visited@[k]).contains(y)
                    implies visited@.contains(y) by {
                    if k < i {
                        assert(before[k] == visited@[k]);
                        assert(before.contains(y));
                        let t = choose|t: int| 0 <= t < before.len() && before[t] == y;
                        assert(visited@[t] == y);
                    } else {
                        assert(k == i);
                        assert(visited@[k] == cur);
                        assert(list@.contains(y));
                        let t = choose|t: int| 0 <= t < list@.len() && list@[t] == y;
                        assert(visited@.contains(list@[t]));
                    }
                }
                lemma_no_dup_bound(visited@, universe);
            }
            i = i + 1;
        }
        proof {
            assert forall|x: FieldId| reachable(m, start, x) implies visited@.contains(x) by {
                let p = choose|p: Seq<FieldId>| #[trigger] is_walk(m, p) && p[0] == start && p.last() == x;
                lemma_walk_closed(m, visited@, p);
            }
        }
        visited
    }
}

/// A duplicate-free sequence drawn from `universe` is no longer than it.
proof fn lemma_no_dup_bound(s: Seq<FieldId>, universe: Seq<FieldId>)
    requires
        s.no_duplicates(),
        forall|k: int| 0 <= k < s.len() ==> universe.contains(#[trigger] s[k]),
    ensures
        s.len() <= universe.len(),
{
    s.unique_seq_to_set();
    universe.lemma_cardinality_of_set();
    vstd::seq_lib::seq_to_set_is_finite(universe);
    assert(s.to_set().subset_of(universe.to_set())) by {
        assert forall|x: FieldId| s.to_set().contains(x) implies universe.to_set().contains(x) by {
            let k = choose|k: int| 0 <= k < s.len() && s[k] == x;
        }
    }
    lemma_len_subset(s.to_set(), universe.to_set());
}

/// A set of fields that holds the start of a walk and is closed under
/// neighbours holds the whole walk.
proof fn lemma_walk_closed(m: Map<FieldId, Seq<FieldId>>, vs: Seq<FieldId>, p: Seq<FieldId>)
    requires
        is_walk(m, p),
        vs.contains(p[0]),
        forall|k: int, y: FieldId| 0 <= k < vs.len() && #[trigger] neighbors(m, vs[k]).contains(y)
            ==> vs.contains(y),
    ensures
        vs.contains(p.last()),
    decreases p.len(),
{
    if p.len() > 1 {
        let q = p.drop_last();
        assert forall|k: int| 0 <= k < q.len() - 1 implies #[trigger] neighbors(m, q[k]).contains(q[k + 1]) by {
            assert(neighbors(m, p[k]).contains(p[k + 1]));
        }
        lemma_walk_closed(m, vs, q);
        let a = q.last();
        let t = choose|t: int| 0 <= t < vs.len() && vs[t] == a;
        let k = p.len() - 2;
        assert(neighbors(m, p[k]).contains(p[k + 1]));
        assert(p[k] == a && p[k + 1] == p.last());
        assert(neighbors(m, vs[t]).contains(p.last()));
    }
}

/// Linking two fields makes each a neighbour of the other.
pub proof fn lemma_link_symmetric(m: Map<FieldId, Seq<FieldId>>, a: FieldId, b: FieldId)
    ensures
        neighbors(link(m, a, b), a).contains(b),
        neighbors(link(m, a, b), b).contains(a),
{
    let m1 = m.insert(a, neighbors(m, a).push(b));
    let m2 = link(m, a, b);
    assert(neighbors(m2, b).last() == a);
    if a == b {
        assert(neighbors(m2, a).contains(b));
    } else {
        assert(m2[a] == m1[a]);
        assert(m1[a].last() == b);
        assert(m2[a][m2[a].len() - 1] == b);
    }
}

} // verus!
