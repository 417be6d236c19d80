//! The KiCad netlist format (S-expressions).

use vstd::prelude::*;
use crate::ids::strings_view;
use crate::netlist::{Net, NetNode, Netlist, NetlistComponent};
use crate::text::{chars_of, contains_seq, dec_digits, decimal, occurs_at, push_char, push_decimal, push_str};

verus! {

/// Errors that can occur during export.
#[derive(Debug)]
pub enum ExportError {
    /// An I/O error.
    Io(std::io::Error),
    /// An encoding error.
    Encoding(String),
    /// The design is not valid.
    InvalidDesign(String),
    /// Required data is missing.
    MissingData(String),
}

/// A standard I/O error, carried by the export and command-line errors.
#[verifier::external_type_specification]
#[verifier::external_body]
pub struct ExIoError(std::io::Error);

/// How one character is written inside a quoted KiCad string.
pub open spec fn escape_char(c: char) -> Seq<char> {
    if c == '\\' {
        seq!['\\', '\\']
    } else if c == '"' {
        seq!['\\', '"']
    } else if c == '\n' {
        seq!['\\', 'n']
    } else if c == '\r' {
        seq!['\\', 'r']
    } else {
        seq![c]
    }
}

/// A string escaped for a quoted KiCad string: backslash, double quote,
/// newline and carriage return are written with a backslash.
pub open spec fn escaped(s: Seq<char>) -> Seq<char>
    decreases s.len(),
{
    if s.len() == 0 {
        Seq::empty()
    } else {
        escaped(s.drop_last()) + escape_char(s.last())
    }
}

/// Escapes special characters of `s` for the KiCad format.
pub fn escape_string(s: &str) -> (r: String)
    ensures
        r@ == escaped(s@),
{
    let v = chars_of(s);
    let mut r = String::new();
    let mut i: usize = 0;
    while i < v.len()
        invariant
            i <= v.len(),
            r@ == escaped(v@.take(i as int)),
        decreases v.len() - i,
    {
        let c = v[i];
        if c == '\\' {
            push_char(&mut r, '\\');
            push_char(&mut r, '\\');
        } else if c == '"' {
            push_char(&mut r, '\\');
            push_char(&mut r, '"');
        } else if c == '\n' {
            push_char(&mut r, '\\');
            push_char(&mut r, 'n');
        } else if c == '\r' {
            push_char(&mut r, '\\');
            push_char(&mut r, 'r');
        } else {
            push_char(&mut r, c);
        }
        proof {
            let t = v@.take(i + 1);
            assert(t.drop_last() =~= v@.take(i as int));
            assert(t.last() == c);
            assert(r@ =~= escaped(v@.take(i as int)) + escape_char(c));
        }
        i = i + 1;
    }
    assert(v@.take(v.len() as int) =~= v@);
    r
}

/// A line `prefix "value")` for an optional value, or nothing.
pub open spec fn optional_line(prefix: Seq<char>, value: Option<String>) -> Seq<char> {
    match value {
        Some(v) => prefix + escaped(v@) + "\")\n"@,
        None => Seq::empty(),
    }
}

/// The text of the design section.
pub open spec fn design_text(n: Netlist) -> Seq<char> {
    "  (design\n"@
        + optional_line("    (source \""@, n.metadata.title)
        + optional_line("    (date \""@, n.metadata.date)
        + optional_line("    (tool \""@, n.metadata.tool)
        + "  )\n"@
}

/// The text of the first `k` fields of a component.
pub open spec fn fields_text(props: Seq<(Seq<char>, Seq<char>)>) -> Seq<char>
    decreases props.len(),
{
    if props.len() == 0 {
        Seq::empty()
    } else {
        let p = props.last();
        fields_text(props.drop_last()) + "        (field (name \""@ + escaped(p.0) + "\") \""@ + escaped(p.1) + "\")\n"@
    }
}

/// The text of one component with its timestamp.
pub open spec fn component_text(c: NetlistComponent, tstamp: nat) -> Seq<char> {
    "    (comp (ref \""@ + escaped(c.reference@) + "\")\n"@
        + "      (value \""@ + escaped(c.value@) + "\")\n"@
        + optional_line("      (footprint \""@, c.footprint)
        + (if c.properties@.len() > 0 {
            "      (fields\n"@ + fields_text(c.properties@) + "      )\n"@
        } else {
            Seq::empty()
        })
        + "      (tstamps "@ + dec_digits(tstamp) + ")\n"@
        + "    )\n"@
}

/// The text of a list of components, numbered from 1.
pub open spec fn components_list_text(cs: Seq<NetlistComponent>) -> Seq<char>
    decreases cs.len(),
{
    if cs.len() == 0 {
        Seq::empty()
    } else {
        components_list_text(cs.drop_last()) + component_text(cs.last(), cs.len())
    }
}

/// The text of one node.
pub open spec fn node_text(n: NetNode) -> Seq<char> {
    "      (node (ref \""@ + escaped(n.component@) + "\") (pin \""@ + escaped(n.pin@) + "\"))\n"@
}

/// The text of a list of nodes.
pub open spec fn nodes_text(ns: Seq<NetNode>) -> Seq<char>
    decreases ns.len(),
{
    if ns.len() == 0 {
        Seq::empty()
    } else {
        nodes_text(ns.drop_last()) + node_text(ns.last())
    }
}

/// The text of one net with its code.
pub open spec fn net_text(n: Net, code: nat) -> Seq<char> {
    "    (net (code "@ + dec_digits(code) + ") (name \""@ + escaped(n.name@) + "\")\n"@
        + nodes_text(n.nodes@)
        + "    )\n"@
}

/// The text of a list of nets, numbered from 1.
pub open spec fn nets_list_text(ns: Seq<Net>) -> Seq<char>
    decreases ns.len(),
{
    if ns.len() == 0 {
        Seq::empty()
    } else {
        nets_list_text(ns.drop_last()) + net_text(ns.last(), ns.len())
    }
}

/// The whole KiCad netlist file for a netlist.
pub open spec fn netlist_text(n: Netlist) -> Seq<char> {
    "(export (version \"E\")\n"@
        + design_text(n)
        + "  (components\n"@ + components_list_text(n.components@) + "  )\n"@
        + "  (libparts)\n"@
        + "  (libraries)\n"@
        + "  (nets\n"@ + nets_list_text(n.nets@) + "  )\n"@
        + ")\n"@
}

/// Writes a netlist in KiCad's netlist format.
pub struct KicadNetlistExporter<'a> {
    netlist: &'a Netlist,
}

impl<'a> KicadNetlistExporter<'a> {
    /// An exporter for `netlist`.
    pub fn new(netlist: &'a Netlist) -> (e: Self)
        ensures
            e.netlist() == *netlist,
    {
        KicadNetlistExporter { netlist }
    }

    /// The netlist this exporter writes.
    pub closed spec fn netlist(&self) -> Netlist {
        *self.netlist
    }

    /// Appends the netlist file to `out`.
    pub fn export(&self, out: &mut String) -> (r: Result<(), ExportError>)
        ensures
            r is Ok,
            final(out)@ == old(out)@ + netlist_text(self.netlist()),
    {
        push_str(out, "(export (version \"E\")\n");
        self.write_design(out);
        self.write_components(out);
        push_str(out, "  (libparts)\n");
        push_str(out, "  (libraries)\n");
        self.write_nets(out);
        push_str(out, ")\n");
        assert(out@ =~= old(out)@ + netlist_text(self.netlist()));
        Ok(())
    }

    /// The netlist file as a string.
    pub fn export_to_string(&self) -> (r: Result<String, ExportError>)
        ensures
            r matches Ok(s) && s@ == netlist_text(self.netlist()),
    {
        let mut s = String::new();
        let _ = self.export(&mut s);
        Ok(s)
    }

    fn write_optional(out: &mut String, prefix: &str, value: &Option<String>)
        ensures
            final(out)@ == old(out)@ + optional_line(prefix@, *value),
    {
        match value {
            Some(v) => {
                push_str(out, prefix);
                push_str(out, escape_string(v.as_str()).as_str());
                push_str(out, "\")\n");
            },
            None => {},
        }
        assert(out@ =~= old(out)@ + optional_line(prefix@, *value));
    }

    fn write_design(&self, out: &mut String)
        ensures
            final(out)@ == old(out)@ + design_text(self.netlist()),
    {
        push_str(out, "  (design\n");
        Self::write_optional(out, "    (source \"", &self.netlist.metadata.title);
        Self::write_optional(out, "    (date \"", &self.netlist.metadata.date);
        Self::write_optional(out, "    (tool \"", &self.netlist.metadata.tool);
        push_str(out, "  )\n");
        assert(out@ =~= old(out)@ + design_text(self.netlist()));
    }

    fn write_components(&self, out: &mut String)
        ensures
            final(out)@ == old(out)@ + "  (components\n"@ + components_list_text(self.netlist().components@) + "  )\n"@,
    {
        push_str(out, "  (components\n");
        let ghost start = out@;
        let cs = &self.netlist.components;
        let mut i: usize = 0;
        while i < cs.len()
            invariant
                i <= cs.len(),
                cs@ == self.netlist().components@,
                out@ == start + components_list_text(cs@.take(i as int)),
            decreases cs.len() - i,
        {
            Self::write_component(out, &cs[i], i + 1);
            proof {
                let t = cs@.take(i + 1);
                assert(t.drop_last() =~= cs@.take(i as int));
                assert(t.last() == cs@[i as int]);
            }
            i = i + 1;
        }
        assert(cs@.take(cs.len() as int) =~= cs@);
        push_str(out, "  )\n");
        assert(out@ =~= old(out)@ + "  (components\n"@ + components_list_text(self.netlist().components@) + "  )\n"@);
    }

    fn write_component(out: &mut String, comp: &NetlistComponent, tstamp: usize)
        ensures
            final(out)@ == old(out)@ + component_text(*comp, tstamp as nat),
    {
        push_str(out, "    (comp (ref \"");
        push_str(out, escape_string(comp.reference.as_str()).as_str());
        push_str(out, "\")\n");
        push_str(out, "      (value \"");
        push_str(out, escape_string(comp.value.as_str()).as_str());
        push_str(out, "\")\n");
        Self::write_optional(out, "      (footprint \"", &comp.footprint);
        let ghost before_fields = out@;
        if !comp.properties.is_empty() {
            push_str(out, "      (fields\n");
            let ghost start = out@;
            let mut k: usize = 0;
            while k < comp.properties.len()
                invariant
                    k <= comp.properties@.len(),
                    out@ == start + fields_text(comp.properties@.take(k as int)),
                decreases comp.properties@.len() - k,
            {
                push_str(out, "        (field (name \"");
                push_str(out, escape_string(comp.properties.key_at(k).as_str()).as_str());
                push_str(out, "\") \"");
                push_str(out, escape_string(comp.properties.value_at(k).as_str()).as_str());
                push_str(out, "\")\n");
                proof {
                    let t = comp.properties@.take(k + 1);
                    assert(t.drop_last() =~= comp.properties@.take(k as int));
                    assert(t.last() == comp.properties@[k as int]);
                    assert(out@ =~= start + fields_text(t));
                }
                k = k + 1;
            }
            assert(comp.properties@.take(comp.properties@.len() as int) =~= comp.properties@);
            push_str(out, "      )\n");
        }
        push_str(out, "      (tstamps ");
        push_decimal(out, tstamp as u64);
        push_str(out, ")\n");
        push_str(out, "    )\n");
        assert(out@ =~= old(out)@ + component_text(*comp, tstamp as nat));
    }

    fn write_nets(&self, out: &mut String)
        ensures
            final(out)@ == old(out)@ + "  (nets\n"@ + nets_list_text(self.netlist().nets@) + "  )\n"@,
    {
        push_str(out, "  (nets\n");
        let ghost start = out@;
        let ns = &self.netlist.nets;
        let mut i: usize = 0;
        while i < ns.len()
            invariant
                i <= ns.len(),
                ns@ == self.netlist().nets@,
                out@ == start + nets_list_text(ns@.take(i as int)),
            decreases ns.len() - i,
        {
            Self::write_net(out, &ns[i], i + 1);
            proof {
                let t = ns@.take(i + 1);
                assert(t.drop_last() =~= ns@.take(i as int));
                assert(t.last() == ns@[i as int]);
            }
            i = i + 1;
        }
        assert(ns@.take(ns.len() as int) =~= ns@);
        push_str(out, "  )\n");
        assert(out@ =~= old(out)@ + "  (nets\n"@ + nets_list_text(self.netlist().nets@) + "  )\n"@);
    }

    fn write_net(out: &mut String, net: &Net, code: usize)
        ensures
            final(out)@ == old(out)@ + net_text(*net, code as nat),
    {
        push_str(out, "    (net (code ");
        push_decimal(out, code as u64);
        push_str(out, ") (name \"");
        push_str(out, escape_string(net.name.as_str()).as_str());
        push_str(out, "\")\n");
        let ghost start = out@;
        let mut k: usize = 0;
        while k < net.nodes.len()
            invariant
                k <= net.nodes.len(),
                out@ == start + nodes_text(net.nodes@.take(k as int)),
            decreases net.nodes.len() - k,
        {
            let node = &net.nodes[k];
            push_str(out, "      (node (ref \"");
            push_str(out, escape_string(node.component.as_str()).as_str());
            push_str(out, "\") (pin \"");
            push_str(out, escape_string(node.pin.as_str()).as_str());
            push_str(out, "\"))\n");
            proof {
                let t = net.nodes@.take(k + 1);
                assert(t.drop_last() =~= net.nodes@.take(k as int));
                assert(t.last() == net.nodes@[k as int]);
                assert(out@ =~= start + nodes_text(t));
            }
            k = k + 1;
        }
        assert(net.nodes@.take(net.nodes.len() as int) =~= net.nodes@);
        push_str(out, "    )\n");
        assert(out@ =~= old(out)@ + net_text(*net, code as nat));
    }
}

/// A KiCad netlist in the S-expression format, as data.
#[derive(Debug, Clone)]
pub struct KicadNetlist {
    /// Version string.
    pub version: String,
    /// Design metadata.
    pub design: KicadDesign,
    /// Components in the design.
    pub components: Vec<KicadComponent>,
    /// Nets in the design.
    pub nets: Vec<KicadNet>,
}

/// Design metadata in KiCad form.
#[derive(Debug, Clone)]
pub struct KicadDesign {
    /// Source file.
    pub source: Option<String>,
    /// Date.
    pub date: Option<String>,
    /// Tool that generated this netlist.
    pub tool: Option<String>,
}

/// A component in KiCad form.
#[derive(Debug, Clone)]
pub struct KicadComponent {
    /// Reference designator.
    pub ref_: String,
    /// Value.
    pub value: String,
    /// Footprint.
    pub footprint: Option<String>,
    /// Timestamp (unique identifier).
    pub tstamp: String,
    /// Fields.
    pub fields: Vec<KicadField>,
}

/// A field of a KiCad component.
#[derive(Debug, Clone)]
pub struct KicadField {
    /// Field name.
    pub name: String,
    /// Field value.
    pub value: String,
}

/// A net in KiCad form.
#[derive(Debug, Clone)]
pub struct KicadNet {
    /// Net code (unique identifier).
    pub code: u32,
    /// Net name.
    pub name: String,
    /// Nodes on this net.
    pub nodes: Vec<KicadNode>,
}

/// A node of a KiCad net.
#[derive(Debug, Clone)]
pub struct KicadNode {
    /// Component reference.
    pub ref_: String,
    /// Pin number or name.
    pub pin: String,
}

/// Whether two optional strings hold the same text.
pub open spec fn same_text(a: Option<String>, b: Option<String>) -> bool {
    match (a, b) {
        (Some(x), Some(y)) => x@ == y@,
        (None, None) => true,
        _ => false,
    }
}

/// `k` is the KiCad form of the component `c`, the `index`-th (from 0).
pub open spec fn kicad_component_of(k: KicadComponent, c: NetlistComponent, index: int) -> bool {
    &&& k.ref_@ == c.reference@
    &&& k.value@ == c.value@
    &&& same_text(k.footprint, c.footprint)
    &&& k.tstamp@ == dec_digits((index + 1) as nat)
    &&& k.fields@.len() == c.properties@.len()
    &&& forall|j: int| 0 <= j < k.fields@.len() ==>
        (#[trigger] k.fields@[j]).name@ == c.properties@[j].0 && k.fields@[j].value@ == c.properties@[j].1
}

/// `k` is the KiCad form of the net `n`, the `index`-th (from 0).
pub open spec fn kicad_net_of(k: KicadNet, n: Net, index: int) -> bool {
    &&& k.code == (index + 1) as u32
    &&& k.name@ == n.name@
    &&& k.nodes@.len() == n.nodes@.len()
    &&& forall|j: int| 0 <= j < k.nodes@.len() ==>
        (#[trigger] k.nodes@[j]).ref_@ == n.nodes@[j].component@ && k.nodes@[j].pin@ == n.nodes@[j].pin@
}

fn copy_optional(o: &Option<String>) -> (r: Option<String>)
    ensures
        same_text(r, *o),
{
    match o {
        Some(s) => Some(s.clone()),
        None => None,
    }
}

impl KicadNetlist {
    /// The KiCad form of a netlist: the same components (numbered from 1 as
    /// their timestamps), the same nets (numbered from 1 as their codes),
    /// and the same metadata.
    pub fn from_netlist(netlist: &Netlist) -> (k: Self)
        ensures
            k.version@ == "E"@,
            same_text(k.design.source, netlist.metadata.source),
            same_text(k.design.date, netlist.metadata.date),
            same_text(k.design.tool, netlist.metadata.tool),
            k.components@.len() == netlist.components@.len(),
            forall|i: int| 0 <= i < k.components@.len() ==>
                kicad_component_of(#[trigger] k.components@[i], netlist.components@[i], i),
            k.nets@.len() == netlist.nets@.len(),
            forall|i: int| 0 <= i < k.nets@.len() ==> kicad_net_of(#[trigger] k.nets@[i], netlist.nets@[i], i),
    {
        let mut components: Vec<KicadComponent> = Vec::new();
        let mut i: usize = 0;
        while i < netlist.components.len()
            invariant
                i <= netlist.components.len(),
                components@.len() == i,
                forall|t: int| 0 <= t < i ==>
                    kicad_component_of(#[trigger] components@[t], netlist.components@[t], t),
            decreases netlist.components.len() - i,
        {
            let c = &netlist.components[i];
            let mut fields: Vec<KicadField> = Vec::new();
            let mut j: usize = 0;
            while j < c.properties.len()
                invariant
                    j <= c.properties@.len(),
                    fields@.len() == j,
                    forall|t: int| 0 <= t < j ==> (#[trigger] fields@[t]).name@ == c.properties@[t].0
                        && fields@[t].value@ == c.properties@[t].1,
                decreases c.properties@.len() - j,
            {
                fields.push(KicadField {
                    name: c.properties.key_at(j).clone(),
                    value: c.properties.value_at(j).clone(),
                });
                j = j + 1;
            }
            components.push(KicadComponent {
                ref_: c.reference.clone(),
                value: c.value.clone(),
                footprint: copy_optional(&c.footprint),
                tstamp: decimal((i + 1) as u64),
                fields,
            });
            i = i + 1;
        }
        let mut nets: Vec<KicadNet> = Vec::new();
        let mut i: usize = 0;
        while i < netlist.nets.len()
            invariant
                i <= netlist.nets.len(),
                nets@.len() == i,
                forall|t: int| 0 <= t < i ==> kicad_net_of(#[trigger] nets@[t], netlist.nets@[t], t),
            decreases netlist.nets.len() - i,
        {
            let n = &netlist.nets[i];
            let mut nodes: Vec<KicadNode> = Vec::new();
            let mut j: usize = 0;
            while j < n.nodes.len()
                invariant
                    j <= n.nodes@.len(),
                    nodes@.len() == j,
                    forall|t: int| 0 <= t < j ==> (#[trigger] nodes@[t]).ref_@ == n.nodes@[t].component@
                        && nodes@[t].pin@ == n.nodes@[t].pin@,
                decreases n.nodes@.len() - j,
            {
                nodes.push(KicadNode { ref_: n.nodes[j].component.clone(), pin: n.nodes[j].pin.clone() });
                j = j + 1;
            }
            nets.push(KicadNet { code: (i + 1) as u32, name: n.name.clone(), nodes });
            i = i + 1;
        }
        KicadNetlist {
            version: "E".to_owned(),
            design: KicadDesign {
                source: copy_optional(&netlist.metadata.source),
                date: copy_optional(&netlist.metadata.date),
                tool: copy_optional(&netlist.metadata.tool),
            },
            components,
            nets,
        }
    }
}


/// The first three lines of the comp block of a component with the footprint
/// `f`: its reference, its value and its footprint.
pub open spec fn comp_head(c: NetlistComponent, f: Seq<char>) -> Seq<char> {
    "    (comp (ref \""@ + escaped(c.reference@) + "\")\n"@
        + "      (value \""@ + escaped(c.value@) + "\")\n"@
        + "      (footprint \""@ + escaped(f) + "\")\n"@
}

/// The text of the first `k` components is where the text of all of them
/// starts.
proof fn lemma_components_list_prefix(cs: Seq<NetlistComponent>, k: int)
    requires
        0 <= k <= cs.len(),
    ensures
        components_list_text(cs.take(k)).len() <= components_list_text(cs).len(),
        components_list_text(cs).subrange(0, components_list_text(cs.take(k)).len() as int)
            == components_list_text(cs.take(k)),
    decreases cs.len(),
{
    if k == cs.len() {
        assert(cs.take(k) =~= cs);
        assert(components_list_text(cs).subrange(0, components_list_text(cs).len() as int) =~= components_list_text(cs));
    } else {
        let d = cs.drop_last();
        lemma_components_list_prefix(d, k);
        assert(d.take(k) =~= cs.take(k));
        let a = components_list_text(d);
        let b = component_text(cs.last(), cs.len());
        assert(components_list_text(cs) == a + b);
        let m = components_list_text(cs.take(k)).len() as int;
        assert((a + b).subrange(0, m) =~= a.subrange(0, m));
    }
}

/// An occurrence stays where it is when text is appended.
proof fn lemma_occurs_append(x: Seq<char>, h: Seq<char>, i: int, b: Seq<char>)
    requires
        occurs_at(x, h, i),
    ensures
        occurs_at(x + b, h, i),
{
    assert((x + b).subrange(i, i + h.len()) =~= x.subrange(i, i + h.len()));
}

/// The second part of a concatenation occurs right after the first.
proof fn lemma_occurs_second(a: Seq<char>, b: Seq<char>)
    ensures
        occurs_at(a + b, b, a.len() as int),
{
    assert((a + b).subrange(a.len() as int, (a.len() + b.len()) as int) =~= b);
}

/// An occurrence inside an occurrence.
proof fn lemma_occurs_within(x: Seq<char>, y: Seq<char>, h: Seq<char>, k: int, i: int)
    requires
        occurs_at(x, y, k),
        occurs_at(y, h, i),
    ensures
        occurs_at(x, h, k + i),
{
    assert(x.subrange(k + i, k + i + h.len()) =~= y.subrange(i, i + h.len()));
}

/// The comp block of a component with a footprint opens with its reference,
/// value and footprint lines.
proof fn lemma_comp_head(c: NetlistComponent, tstamp: nat)
    requires
        c.footprint is Some,
    ensures
        occurs_at(component_text(c, tstamp), comp_head(c, c.footprint->Some_0@), 0),
{
    let f = c.footprint->Some_0@;
    let a = "    (comp (ref \""@ + escaped(c.reference@) + "\")\n"@
        + "      (value \""@ + escaped(c.value@) + "\")\n"@;
    let fl = "      (footprint \""@ + escaped(f) + "\")\n"@;
    assert(optional_line("      (footprint \""@, c.footprint) == fl);
    assert(comp_head(c, f) =~= a + fl);
    let fields = if c.properties@.len() > 0 {
        "      (fields\n"@ + fields_text(c.properties@) + "      )\n"@
    } else {
        Seq::<char>::empty()
    };
    let rest = fields + "      (tstamps "@ + dec_digits(tstamp) + ")\n"@ + "    )\n"@;
    assert(component_text(c, tstamp) =~= (a + fl) + rest);
    assert(((a + fl) + rest).subrange(0, (a + fl).len() as int) =~= a + fl);
}

/// Every component that has a footprint keeps it in the KiCad netlist: its
/// comp block opens with its reference line, its value line and the line
/// `(footprint "...")` that holds the footprint, escaped.
pub proof fn lemma_footprint_in_comp_block(n: Netlist, j: int)
    requires
        0 <= j < n.components@.len(),
        n.components@[j].footprint is Some,
    ensures
        contains_seq(netlist_text(n), comp_head(n.components@[j], n.components@[j].footprint->Some_0@)),
{
    let cs = n.components@;
    let c = cs[j];
    let head = comp_head(c, c.footprint->Some_0@);
    let l1 = components_list_text(cs.take(j));
    let ct = component_text(c, (j + 1) as nat);
    let t = cs.take(j + 1);
    assert(t.drop_last() =~= cs.take(j));
    assert(t.last() == c);
    let lt = components_list_text(t);
    assert(lt == l1 + ct);
    lemma_comp_head(c, (j + 1) as nat);
    lemma_occurs_second(l1, ct);
    lemma_occurs_within(lt, ct, head, l1.len() as int, 0);
    lemma_components_list_prefix(cs, j + 1);
    let all = components_list_text(cs);
    assert(all.subrange(0, lt.len() as int) == lt);
    assert(occurs_at(all, lt, 0));
    lemma_occurs_within(all, lt, head, 0, l1.len() as int);
    let p = "(export (version \"E\")\n"@ + design_text(n) + "  (components\n"@;
    lemma_occurs_second(p, all);
    lemma_occurs_within(p + all, all, head, p.len() as int, l1.len() as int);
    let k: int = (p.len() + l1.len()) as int;
    let x1 = p + all + "  )\n"@;
    lemma_occurs_append(p + all, head, k, "  )\n"@);
    let x2 = x1 + "  (libparts)\n"@;
    lemma_occurs_append(x1, head, k, "  (libparts)\n"@);
    let x3 = x2 + "  (libraries)\n"@;
    lemma_occurs_append(x2, head, k, "  (libraries)\n"@);
    let x4 = x3 + "  (nets\n"@;
    lemma_occurs_append(x3, head, k, "  (nets\n"@);
    let x5 = x4 + nets_list_text(n.nets@);
    lemma_occurs_append(x4, head, k, nets_list_text(n.nets@));
    let x6 = x5 + "  )\n"@;
    lemma_occurs_append(x5, head, k, "  )\n"@);
    let x7 = x6 + ")\n"@;
    lemma_occurs_append(x6, head, k, ")\n"@);
    assert(netlist_text(n) == x7);
    assert(occurs_at(netlist_text(n), head, k));
}

} // verus!
