//! The parts of the KiCad schematic and board formats that are plain text:
//! quoting, symbol identifiers, and the board's layer table.

use vstd::prelude::*;
use crate::kicad_library::{alphabetic, alphabetic_prefix_len, is_alphabetic};
use crate::netlist::{Net, NetlistComponent};
use crate::text::{chars_of, push_char, push_str, str_eq, string_from_chars};

verus! {

/// How one character is written inside a quoted S-expression string.
pub open spec fn sexpr_char(c: char) -> Seq<char> {
    if c == '\\' {
        seq!['\\', '\\']
    } else if c == '"' {
        seq!['\\', '"']
    } else {
        seq![c]
    }
}

/// A string with backslashes and double quotes escaped by a backslash.
pub open spec fn sexpr_escaped(s: Seq<char>) -> Seq<char>
    decreases s.len(),
{
    if s.len() == 0 {
        Seq::empty()
    } else {
        sexpr_escaped(s.drop_last()) + sexpr_char(s.last())
    }
}

/// Escapes backslashes and double quotes for a quoted S-expression string.
pub fn escape_sexpr(s: &str) -> (r: String)
    ensures
        r@ == sexpr_escaped(s@),
{
    let v = chars_of(s);
    let mut r = String::new();
    let mut i: usize = 0;
    while i < v.len()
        invariant
            i <= v.len(),
            r@ == sexpr_escaped(v@.take(i as int)),
        decreases v.len() - i,
    {
        let c = v[i];
        if c == '\\' || c == '"' {
            push_char(&mut r, '\\');
        }
        push_char(&mut r, c);
        proof {
            let t = v@.take(i + 1);
            assert(t.drop_last() =~= v@.take(i as int));
            assert(t.last() == c);
            assert(r@ =~= sexpr_escaped(t));
        }
        i = i + 1;
    }
    assert(v@.take(v.len() as int) =~= v@);
    r
}

/// The schematic symbol identifier of a component, from the alphabetic
/// prefix of its reference; an unknown prefix gives `Device:<reference>`.
pub open spec fn lib_id_of(reference: Seq<char>) -> Seq<char> {
    let p = reference.take(alphabetic_prefix_len(reference) as int);
    if p == "R"@ {
        "Device:R"@
    } else if p == "C"@ {
        "Device:C"@
    } else if p == "L"@ {
        "Device:L"@
    } else if p == "D"@ {
        "Device:D"@
    } else if p == "Q"@ {
        "Device:Q_NPN_BCE"@
    } else if p == "U"@ {
        "Device:IC"@
    } else if p == "J"@ || p == "P"@ {
        "Connector:Conn_01x02"@
    } else if p == "Y"@ {
        "Device:Crystal"@
    } else if p == "SW"@ {
        "Switch:SW_Push"@
    } else {
        "Device:"@ + reference
    }
}

/// The schematic symbol identifier of a component.
pub fn get_lib_id_for_component(comp: &NetlistComponent) -> (r: String)
    ensures
        r@ == lib_id_of(comp.reference@),
{
    let v = chars_of(comp.reference.as_str());
    let mut k: usize = 0;
    proof {
        assert(v@.skip(0) =~= v@);
    }
    while k < v.len() && is_alphabetic(v[k])
        invariant
            k <= v.len(),
            alphabetic_prefix_len(v@) == k + alphabetic_prefix_len(v@.skip(k as int)),
        decreases v.len() - k,
    {
        proof {
            assert(v@.skip(k as int).drop_first() =~= v@.skip(k + 1));
        }
        k = k + 1;
    }
    proof {
        assert(alphabetic_prefix_len(v@.skip(k as int)) == 0);
    }
    let prefix = string_from_chars(&v, 0, k);
    let p = prefix.as_str();
    proof {
        assert(p@ =~= comp.reference@.take(alphabetic_prefix_len(comp.reference@) as int));
    }
    let r = if str_eq(p, "R") {
        "Device:R"
    } else if str_eq(p, "C") {
        "Device:C"
    } else if str_eq(p, "L") {
        "Device:L"
    } else if str_eq(p, "D") {
        "Device:D"
    } else if str_eq(p, "Q") {
        "Device:Q_NPN_BCE"
    } else if str_eq(p, "U") {
        "Device:IC"
    } else if str_eq(p, "J") || str_eq(p, "P") {
        "Connector:Conn_01x02"
    } else if str_eq(p, "Y") {
        "Device:Crystal"
    } else if str_eq(p, "SW") {
        "Switch:SW_Push"
    } else {
        let mut s = "Device:".to_owned();
        push_str(&mut s, comp.reference.as_str());
        return s;
    };
    r.to_owned()
}

/// A schematic's title block.
#[derive(Debug, Clone)]
pub struct TitleBlock {
    /// Title.
    pub title: String,
    /// Date.
    pub date: Option<String>,
    /// Revision.
    pub revision: Option<String>,
    /// Company name.
    pub company: Option<String>,
}

/// A pin of a placed symbol and the net it is on.
#[derive(Debug, Clone)]
pub struct PinInstance {
    /// Pin number.
    pub number: String,
    /// UUID of the connected net.
    pub net_uuid: Option<String>,
}

/// A layer of a board.
#[derive(Debug, Clone)]
pub struct Layer {
    /// Layer number.
    pub number: u32,
    /// Layer name.
    pub name: String,
    /// Layer type.
    pub layer_type: String,
}

/// A net of a board.
#[derive(Debug, Clone)]
pub struct PcbNet {
    /// Net code.
    pub code: u32,
    /// Net name.
    pub name: String,
}

/// The default board layers: number, name and type.
pub open spec fn default_layer_table() -> Seq<(u32, Seq<char>, Seq<char>)> {
    seq![
        (0u32, "F.Cu"@, "signal"@),
        (31u32, "B.Cu"@, "signal"@),
        (36u32, "B.SilkS"@, "user"@),
        (37u32, "F.SilkS"@, "user"@),
        (38u32, "B.Mask"@, "user"@),
        (39u32, "F.Mask"@, "user"@),
        (44u32, "Edge.Cuts"@, "user"@),
        (46u32, "B.CrtYd"@, "user"@),
        (47u32, "F.CrtYd"@, "user"@),
        (48u32, "B.Fab"@, "user"@),
        (49u32, "F.Fab"@, "user"@),
    ]
}

fn layer(number: u32, name: &str, layer_type: &str) -> (l: Layer)
    ensures
        l.number == number,
        l.name@ == name@,
        l.layer_type@ == layer_type@,
{
    Layer { number, name: name.to_owned(), layer_type: layer_type.to_owned() }
}

/// The default board layers.
pub fn default_layers() -> (v: Vec<Layer>)
    ensures
        v@.map_values(|l: Layer| (l.number, l.name@, l.layer_type@)) == default_layer_table(),
{
    let mut v: Vec<Layer> = Vec::new();
    v.push(layer(0, "F.Cu", "signal"));
    v.push(layer(31, "B.Cu", "signal"));
    v.push(layer(36, "B.SilkS", "user"));
    v.push(layer(37, "F.SilkS", "user"));
    v.push(layer(38, "B.Mask", "user"));
    v.push(layer(39, "F.Mask", "user"));
    v.push(layer(44, "Edge.Cuts", "user"));
    v.push(layer(46, "B.CrtYd", "user"));
    v.push(layer(47, "F.CrtYd", "user"));
    v.push(layer(48, "B.Fab", "user"));
    v.push(layer(49, "F.Fab", "user"));
    assert(v@.map_values(|l: Layer| (l.number, l.name@, l.layer_type@)) =~= default_layer_table());
    v
}


/// The pads a component's footprint gets on the board, by the alphabetic prefix
/// of its reference.
#[derive(Debug, Clone, Copy, PartialEq, Eq, Structural)]
pub enum PadSet {
    /// Two pads, `1` and `2`, for a resistor, capacitor or inductor.
    Passive,
    /// Two pads, `1` and `2`, for a diode.
    Diode,
    /// Four pads, `1` to `4`, for any other component.
    Generic,
}

/// The pad set of a reference: `R`, `C` and `L` are passives, `D` is a diode,
/// anything else is generic.
pub open spec fn pad_set_of(reference: Seq<char>) -> PadSet {
    let p = reference.take(alphabetic_prefix_len(reference) as int);
    if p == "R"@ || p == "C"@ || p == "L"@ {
        PadSet::Passive
    } else if p == "D"@ {
        PadSet::Diode
    } else {
        PadSet::Generic
    }
}

/// The pad set of a component, by the alphabetic prefix of its reference.
pub fn pad_set(comp: &NetlistComponent) -> (r: PadSet)
    ensures
        r == pad_set_of(comp.reference@),
{
    let v = chars_of(comp.reference.as_str());
    let mut k: usize = 0;
    proof {
        assert(v@.skip(0) =~= v@);
    }
    while k < v.len() && is_alphabetic(v[k])
        invariant
            k <= v.len(),
            alphabetic_prefix_len(v@) == k + alphabetic_prefix_len(v@.skip(k as int)),
        decreases v.len() - k,
    {
        proof {
            assert(v@.skip(k as int).drop_first() =~= v@.skip(k + 1));
        }
        k = k + 1;
    }
    proof {
        assert(alphabetic_prefix_len(v@.skip(k as int)) == 0);
    }
    let prefix = string_from_chars(&v, 0, k);
    let p = prefix.as_str();
    proof {
        assert(p@ =~= comp.reference@.take(alphabetic_prefix_len(comp.reference@) as int));
    }
    if str_eq(p, "R") || str_eq(p, "C") || str_eq(p, "L") {
        PadSet::Passive
    } else if str_eq(p, "D") {
        PadSet::Diode
    } else {
        PadSet::Generic
    }
}

/// The position of the first net, from `i` on, that holds pin `pin` of component
/// `reference`.
pub open spec fn pin_net_from(nets: Seq<Net>, reference: Seq<char>, pin: Seq<char>, i: int) -> Option<int>
    decreases nets.len() - i,
{
    if i < 0 || i >= nets.len() {
        None
    } else if nets[i]@.nodes.contains((reference, pin)) {
        Some(i)
    } else {
        pin_net_from(nets, reference, pin, i + 1)
    }
}

/// The net that pin `pin` of component `reference` is on, as its board net code
/// (its position plus one, as a `u32`) and its name: the first net that holds
/// the pin.
pub fn find_pin_net(nets: &[Net], reference: &str, pin: &str) -> (r: Option<(u32, String)>)
    ensures
        match pin_net_from(nets@, reference@, pin@, 0) {
            Some(i) => r matches Some((code, name)) && code == (i + 1) as u32 && name@ == nets@[i].name@,
            None => r is None,
        },
{
    let n = nets.len();
    let mut i: usize = 0;
    while i < n
        invariant
            n == nets@.len(),
            i <= nets@.len(),
            pin_net_from(nets@, reference@, pin@, 0) == pin_net_from(nets@, reference@, pin@, i as int),
        decreases nets.len() - i,
    {
        let net = &nets[i];
        let mut j: usize = 0;
        while j < net.nodes.len()
            invariant
                j <= net.nodes@.len(),
                i < nets@.len(),
                n == nets@.len(),
                *net == nets@[i as int],
                pin_net_from(nets@, reference@, pin@, 0) == pin_net_from(nets@, reference@, pin@, i as int),
                forall|k: int| 0 <= k < j ==> #[trigger] net.nodes@[k]@ != (reference@, pin@),
            decreases net.nodes.len() - j,
        {
            let node = &net.nodes[j];
            if str_eq(node.component.as_str(), reference) && str_eq(node.pin.as_str(), pin) {
                proof {
                    assert(net@.nodes[j as int] == net.nodes@[j as int]@);
                    assert(net@.nodes[j as int] == (reference@, pin@));
                    assert(nets@[i as int]@.nodes.contains((reference@, pin@)));
                }
                #[verifier::truncate]
                let code: u32 = (i + 1) as u32;
                return Some((code, net.name.clone()));
            }
            j = j + 1;
        }
        proof {
            assert(!nets@[i as int]@.nodes.contains((reference@, pin@))) by {
                if nets@[i as int]@.nodes.contains((reference@, pin@)) {
                    let k = choose|k: int| 0 <= k < nets@[i as int]@.nodes.len()
                        && nets@[i as int]@.nodes[k] == (reference@, pin@);
                    assert(net.nodes@[k]@ == nets@[i as int]@.nodes[k]);
                }
            }
        }
        i = i + 1;
    }
    None
}

} // verus!
