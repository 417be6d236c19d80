//! The generic netlist: components, nets and the nodes that join them.

use vstd::prelude::*;
use crate::text::{replace_char, replace_char_seq, str_eq};

verus! {

broadcast use vstd::seq_lib::group_to_multiset_ensures;

/// The value of `key` in a list of key/value pairs, if the key occurs.
pub open spec fn lookup(entries: Seq<(Seq<char>, Seq<char>)>, key: Seq<char>) -> Option<Seq<char>> {
    if exists|i: int| 0 <= i < entries.len() && entries[i].0 == key {
        Some(entries[choose|i: int| 0 <= i < entries.len() && entries[i].0 == key].1)
    } else {
        None
    }
}

/// The keys of a list of key/value pairs are distinct.
pub open spec fn distinct_keys(entries: Seq<(Seq<char>, Seq<char>)>) -> bool {
    forall|i: int, j: int| 0 <= i < j < entries.len() ==> entries[i].0 != entries[j].0
}

/// The list after setting `key` to `value`: in place when the key occurs,
/// appended at the end otherwise.
pub open spec fn set_entry(entries: Seq<(Seq<char>, Seq<char>)>, key: Seq<char>, value: Seq<char>) -> Seq<(Seq<char>, Seq<char>)> {
    if exists|i: int| 0 <= i < entries.len() && entries[i].0 == key {
        entries.update(choose|i: int| 0 <= i < entries.len() && entries[i].0 == key, (key, value))
    } else {
        entries.push((key, value))
    }
}

/// Named properties of a component, each name once, in the order the names
/// were first set.
#[derive(Debug, PartialEq, Eq)]
pub struct PropertyMap {
    entries: Vec<(String, String)>,
}

impl View for PropertyMap {
    type V = Seq<(Seq<char>, Seq<char>)>;

    closed spec fn view(&self) -> Seq<(Seq<char>, Seq<char>)> {
        self.entries@.map_values(|e: (String, String)| (e.0@, e.1@))
    }
}

impl PropertyMap {
    #[verifier::type_invariant]
    spec fn keys_distinct(self) -> bool {
        distinct_keys(self@)
    }

    /// No properties.
    pub fn new() -> (m: Self)
        ensures
            m@ == Seq::<(Seq<char>, Seq<char>)>::empty(),
    {
        let m = PropertyMap { entries: Vec::new() };
        assert(m@ =~= Seq::<(Seq<char>, Seq<char>)>::empty());
        m
    }

    fn position(&self, key: &str) -> (r: Option<usize>)
        ensures
            r is Some ==> r->0 < self@.len() && self@[r->0 as int].0 == key@,
            r is None ==> !(exists|i: int| 0 <= i < self@.len() && self@[i].0 == key@),
    {
        let mut i: usize = 0;
        while i < self.entries.len()
            invariant
                i <= self.entries.len(),
                forall|j: int| 0 <= j < i ==> self@[j].0 != key@,
            decreases self.entries.len() - i,
        {
            if str_eq(self.entries[i].0.as_str(), key) {
                return Some(i);
            }
            i = i + 1;
        }
        None
    }

    /// The value of the property `key`.
    pub fn get(&self, key: &str) -> (r: Option<&String>)
        ensures
            r is Some <==> lookup(self@, key@) is Some,
            r is Some ==> r->0@ == lookup(self@, key@)->0,
    {
        proof { use_type_invariant(self); }
        match self.position(key) {
            Some(i) => {
                proof {
                    let k = choose|k: int| 0 <= k < self@.len() && self@[k].0 == key@;
                    if k != i {
                        assert(self@[k].0 == self@[i as int].0);
                    }
                }
                Some(&self.entries[i].1)
            },
            None => None,
        }
    }

    /// Sets the property `key` to `value`.
    pub fn insert(&mut self, key: &str, value: &str)
        ensures
            final(self)@ == set_entry(old(self)@, key@, value@),
    {
        proof { use_type_invariant(&*self); }
        let ghost v0 = self@;
        match self.position(key) {
            Some(i) => {
                proof {
                    let k = choose|k: int| 0 <= k < v0.len() && v0[k].0 == key@;
                    if k != i {
                        assert(v0[k].0 == v0[i as int].0);
                    }
                }
                let mut entries: Vec<(String, String)> = Vec::new();
                std::mem::swap(&mut entries, &mut self.entries);
                entries.set(i, (key.to_owned(), value.to_owned()));
                proof {
                    let m = entries@.map_values(|e: (String, String)| (e.0@, e.1@));
                    assert(m =~= v0.update(i as int, (key@, value@)));
                    assert(distinct_keys(m)) by {
                        assert forall|a: int, b: int| 0 <= a < b < m.len() implies m[a].0 != m[b].0 by {
                            if a != i && b != i {
                                assert(m[a] == v0[a] && m[b] == v0[b]);
                            } else if a == i {
                                assert(m[b] == v0[b]);
                                assert(v0[a].0 == key@);
                            } else {
                                assert(m[a] == v0[a]);
                                assert(v0[b].0 == key@);
                            }
                        }
                    }
                }
                *self = PropertyMap { entries };
            },
            None => {
                let mut entries: Vec<(String, String)> = Vec::new();
                std::mem::swap(&mut entries, &mut self.entries);
                entries.push((key.to_owned(), value.to_owned()));
                proof {
                    let m = entries@.map_values(|e: (String, String)| (e.0@, e.1@));
                    assert(m =~= v0.push((key@, value@)));
                    assert(distinct_keys(m)) by {
                        assert forall|a: int, b: int| 0 <= a < b < m.len() implies m[a].0 != m[b].0 by {
                            if b == m.len() - 1 {
                                assert(m[a] == v0[a]);
                            } else {
                                assert(m[a] == v0[a] && m[b] == v0[b]);
                            }
                        }
                    }
                }
                *self = PropertyMap { entries };
            },
        }
    }

    /// The number of properties.
    pub fn len(&self) -> (n: usize)
        ensures
            n == self@.len(),
    {
        self.entries.len()
    }

    /// Whether there are no properties.
    pub fn is_empty(&self) -> (b: bool)
        ensures
            b == (self@.len() == 0),
    {
        self.entries.len() == 0
    }

    /// The name of the `i`-th property.
    pub fn key_at(&self, i: usize) -> (k: &String)
        requires
            i < self@.len(),
        ensures
            k@ == self@[i as int].0,
    {
        &self.entries[i].0
    }

    /// The value of the `i`-th property.
    pub fn value_at(&self, i: usize) -> (v: &String)
        requires
            i < self@.len(),
        ensures
            v@ == self@[i as int].1,
    {
        &self.entries[i].1
    }
}

impl Clone for PropertyMap {
    /// A copy with the same properties in the same order.
    fn clone(&self) -> (r: Self)
        ensures
            r@ == self@,
    {
        proof { use_type_invariant(self); }
        let mut entries: Vec<(String, String)> = Vec::new();
        let mut i: usize = 0;
        while i < self.entries.len()
            invariant
                i <= self.entries.len(),
                entries@.len() == i,
                forall|k: int| 0 <= k < i ==> #[trigger] entries@[k] == self.entries@[k],
            decreases self.entries.len() - i,
        {
            let k = self.entries[i].0.clone();
            let v = self.entries[i].1.clone();
            entries.push((k, v));
            i = i + 1;
        }
        assert(entries@ =~= self.entries@);
        PropertyMap { entries }
    }
}

/// A component in the netlist.
#[derive(Debug, Clone, PartialEq, Eq)]
pub struct NetlistComponent {
    /// Unique reference designator (e.g., "R1", "C1", "U1").
    pub reference: String,
    /// Component value (e.g., "10k", "100nF").
    pub value: String,
    /// Footprint name (e.g., "Resistor_SMD:R_0402_1005Metric").
    pub footprint: Option<String>,
    /// Additional properties.
    pub properties: PropertyMap,
}

impl NetlistComponent {
    /// A component without footprint or properties.
    pub fn new(reference: &str, value: &str) -> (c: Self)
        ensures
            c.reference@ == reference@,
            c.value@ == value@,
            c.footprint is None,
            c.properties@ == Seq::<(Seq<char>, Seq<char>)>::empty(),
    {
        NetlistComponent {
            reference: reference.to_owned(),
            value: value.to_owned(),
            footprint: None,
            properties: PropertyMap::new(),
        }
    }

    /// This component with its footprint set.
    pub fn with_footprint(self, footprint: &str) -> (c: Self)
        ensures
            c.footprint matches Some(f) && f@ == footprint@,
            c == (NetlistComponent { footprint: c.footprint, ..self }),
    {
        let mut c = self;
        c.footprint = Some(footprint.to_owned());
        c
    }

    /// This component with the property `key` set to `value`.
    pub fn with_property(self, key: &str, value: &str) -> (c: Self)
        ensures
            c.properties@ == set_entry(self.properties@, key@, value@),
            c == (NetlistComponent { properties: c.properties, ..self }),
    {
        let mut c = self;
        c.properties.insert(key, value);
        c
    }
}

/// The text of an optional string.
pub open spec fn opt_text(o: Option<String>) -> Option<Seq<char>> {
    match o {
        Some(s) => Some(s@),
        None => None,
    }
}

/// A netlist component as a mathematical value.
pub struct ComponentView {
    /// The reference designator.
    pub reference: Seq<char>,
    /// The value.
    pub value: Seq<char>,
    /// The footprint name, if any.
    pub footprint: Option<Seq<char>>,
    /// The properties, in the order their names were first set.
    pub properties: Seq<(Seq<char>, Seq<char>)>,
}

impl View for NetlistComponent {
    type V = ComponentView;

    open spec fn view(&self) -> ComponentView {
        ComponentView {
            reference: self.reference@,
            value: self.value@,
            footprint: opt_text(self.footprint),
            properties: self.properties@,
        }
    }
}

/// A node of a net: a pin of a component.
#[derive(Debug, Clone, PartialEq, Eq, Hash)]
pub struct NetNode {
    /// The component reference.
    pub component: String,
    /// The pin name.
    pub pin: String,
}

impl NetNode {
    /// The node for pin `pin` of component `component`.
    pub fn new(component: &str, pin: &str) -> (n: Self)
        ensures
            n.component@ == component@,
            n.pin@ == pin@,
    {
        NetNode { component: component.to_owned(), pin: pin.to_owned() }
    }
}

impl View for NetNode {
    type V = (Seq<char>, Seq<char>);

    /// The component reference and the pin name.
    open spec fn view(&self) -> (Seq<char>, Seq<char>) {
        (self.component@, self.pin@)
    }
}

/// The views of a list of nodes.
pub open spec fn node_views(ns: Seq<NetNode>) -> Seq<(Seq<char>, Seq<char>)> {
    ns.map_values(|n: NetNode| n@)
}

/// A net: an electrical connection between component pins.
#[derive(Debug, Clone, PartialEq, Eq)]
pub struct Net {
    /// The net name.
    pub name: String,
    /// The nodes on this net.
    pub nodes: Vec<NetNode>,
}

impl Net {
    /// A net without nodes.
    pub fn new(name: &str) -> (n: Self)
        ensures
            n.name@ == name@,
            n.nodes@.len() == 0,
    {
        Net { name: name.to_owned(), nodes: Vec::new() }
    }

    /// Adds a node.
    pub fn add_node(&mut self, node: NetNode)
        ensures
            final(self).name == old(self).name,
            final(self).nodes@ == old(self).nodes@.push(node),
    {
        self.nodes.push(node);
    }

    /// This net with one more node.
    pub fn with_node(self, component: &str, pin: &str) -> (n: Self)
        ensures
            n.name == self.name,
            n.nodes@.len() == self.nodes@.len() + 1,
            n.nodes@.drop_last() == self.nodes@,
            n.nodes@.last().component@ == component@,
            n.nodes@.last().pin@ == pin@,
    {
        let mut n = self;
        n.nodes.push(NetNode::new(component, pin));
        assert(n.nodes@.drop_last() =~= self.nodes@);
        n
    }
}

/// A net as a mathematical value.
pub struct NetView {
    /// The net name.
    pub name: Seq<char>,
    /// The nodes, as component references and pin names.
    pub nodes: Seq<(Seq<char>, Seq<char>)>,
}

impl View for Net {
    type V = NetView;

    open spec fn view(&self) -> NetView {
        NetView { name: self.name@, nodes: node_views(self.nodes@) }
    }
}

/// A complete netlist.
#[derive(Debug, Clone)]
pub struct Netlist {
    /// All components of the design.
    pub components: Vec<NetlistComponent>,
    /// All nets of the design.
    pub nets: Vec<Net>,
    /// Design metadata.
    pub metadata: NetlistMetadata,
}

/// Metadata about the netlist.
#[derive(Debug, Clone)]
pub struct NetlistMetadata {
    /// Design title.
    pub title: Option<String>,
    /// Design date.
    pub date: Option<String>,
    /// Tool that generated the netlist.
    pub tool: Option<String>,
    /// Source file.
    pub source: Option<String>,
}

impl Default for NetlistMetadata {
    /// No metadata.
    fn default() -> (m: Self)
        ensures
            m.title is None,
            m.date is None,
            m.tool is None,
            m.source is None,
    {
        NetlistMetadata { title: None, date: None, tool: None, source: None }
    }
}

impl Default for Netlist {
    /// An empty netlist.
    fn default() -> (n: Self)
        ensures
            n.components@.len() == 0,
            n.nets@.len() == 0,
            n.metadata.title is None,
            n.metadata.date is None,
            n.metadata.tool is None,
            n.metadata.source is None,
    {
        Netlist::new()
    }
}

/// The index of the first element of `cs` with reference `r`, if any.
pub open spec fn first_component(cs: Seq<NetlistComponent>, r: Seq<char>) -> Option<int> {
    if exists|i: int| 0 <= i < cs.len() && cs[i].reference@ == r {
        Some(choose|i: int| 0 <= i < cs.len() && cs[i].reference@ == r
            && forall|j: int| 0 <= j < i ==> cs[j].reference@ != r)
    } else {
        None
    }
}

/// The index of the first net of `ns` called `name`, if any.
pub open spec fn first_net(ns: Seq<Net>, name: Seq<char>) -> Option<int> {
    if exists|i: int| 0 <= i < ns.len() && ns[i].name@ == name {
        Some(choose|i: int| 0 <= i < ns.len() && ns[i].name@ == name
            && forall|j: int| 0 <= j < i ==> ns[j].name@ != name)
    } else {
        None
    }
}

impl Netlist {
    /// An empty netlist.
    pub fn new() -> (n: Self)
        ensures
            n.components@.len() == 0,
            n.nets@.len() == 0,
            n.metadata.title is None,
            n.metadata.date is None,
            n.metadata.tool is None,
            n.metadata.source is None,
    {
        Netlist {
            components: Vec::new(),
            nets: Vec::new(),
            metadata: NetlistMetadata { title: None, date: None, tool: None, source: None },
        }
    }

    /// Adds a component.
    pub fn add_component(&mut self, component: NetlistComponent)
        ensures
            final(self).components@ == old(self).components@.push(component),
            final(self).nets == old(self).nets,
            final(self).metadata == old(self).metadata,
    {
        self.components.push(component);
    }

    /// Adds a net.
    pub fn add_net(&mut self, net: Net)
        ensures
            final(self).nets@ == old(self).nets@.push(net),
            final(self).components == old(self).components,
            final(self).metadata == old(self).metadata,
    {
        self.nets.push(net);
    }

    /// This netlist with its title set.
    pub fn with_title(self, title: &str) -> (n: Self)
        ensures
            n.metadata.title matches Some(t) && t@ == title@,
            n.metadata == (NetlistMetadata { title: n.metadata.title, ..self.metadata }),
            n.components == self.components,
            n.nets == self.nets,
    {
        let mut n = self;
        n.metadata.title = Some(title.to_owned());
        n
    }

    /// This netlist with its tool name set.
    pub fn with_tool(self, tool: &str) -> (n: Self)
        ensures
            n.metadata.tool matches Some(t) && t@ == tool@,
            n.metadata == (NetlistMetadata { tool: n.metadata.tool, ..self.metadata }),
            n.components == self.components,
            n.nets == self.nets,
    {
        let mut n = self;
        n.metadata.tool = Some(tool.to_owned());
        n
    }

    /// The first component with reference `reference`.
    pub fn get_component(&self, reference: &str) -> (r: Option<&NetlistComponent>)
        ensures
            r is Some <==> first_component(self.components@, reference@) is Some,
            r is Some ==> *r->0 == self.components@[first_component(self.components@, reference@)->0],
    {
        let mut i: usize = 0;
        while i < self.components.len()
            invariant
                i <= self.components.len(),
                forall|j: int| 0 <= j < i ==> self.components@[j].reference@ != reference@,
            decreases self.components.len() - i,
        {
            if str_eq(self.components[i].reference.as_str(), reference) {
                proof {
                    let cs = self.components@;
                    let k = choose|k: int| 0 <= k < cs.len() && cs[k].reference@ == reference@
                        && forall|j: int| 0 <= j < k ==> cs[j].reference@ != reference@;
                    assert(k == i) by {
                        if k > i {
                            assert(cs[i as int].reference@ == reference@);
                        }
                    }
                }
                return Some(&self.components[i]);
            }
            i = i + 1;
        }
        None
    }

    /// The first net called `name`.
    pub fn get_net(&self, name: &str) -> (r: Option<&Net>)
        ensures
            r is Some <==> first_net(self.nets@, name@) is Some,
            r is Some ==> *r->0 == self.nets@[first_net(self.nets@, name@)->0],
    {
        let mut i: usize = 0;
        while i < self.nets.len()
            invariant
                i <= self.nets.len(),
                forall|j: int| 0 <= j < i ==> self.nets@[j].name@ != name@,
            decreases self.nets.len() - i,
        {
            if str_eq(self.nets[i].name.as_str(), name) {
                proof {
                    let ns = self.nets@;
                    let k = choose|k: int| 0 <= k < ns.len() && ns[k].name@ == name@
                        && forall|j: int| 0 <= j < k ==> ns[j].name@ != name@;
                    assert(k == i) by {
                        if k > i {
                            assert(ns[i as int].name@ == name@);
                        }
                    }
                }
                return Some(&self.nets[i]);
            }
            i = i + 1;
        }
        None
    }

    /// The number of components.
    pub fn component_count(&self) -> (n: usize)
        ensures
            n == self.components@.len(),
    {
        self.components.len()
    }

    /// The number of nets.
    pub fn net_count(&self) -> (n: usize)
        ensures
            n == self.nets@.len(),
    {
        self.nets.len()
    }
}

/// The net name derived from a sorted list of endpoint paths: the first path
/// with its dots turned into underscores, or `Net` when there is none.
pub open spec fn net_name_of(paths: Seq<Seq<char>>) -> Seq<char> {
    if paths.len() == 0 {
        "Net"@
    } else {
        replace_char_seq(paths[0], '.', '_')
    }
}

/// Derives a deterministic net name from sorted endpoint paths: the first
/// (alphabetically smallest) path, with dots replaced by underscores
/// (`power_3v3.hv` becomes `power_3v3_hv`), or `Net` for an empty list.
pub fn derive_net_name(sorted_paths: &[String]) -> (n: String)
    ensures
        n@ == net_name_of(sorted_paths@.map_values(|s: String| s@)),
{
    if sorted_paths.len() > 0 {
        replace_char(sorted_paths[0].as_str(), '.', '_')
    } else {
        "Net".to_owned()
    }
}

} // verus!
