//! Building a netlist from a design: the components come from the instance
//! hierarchy, the nets from the connections between their pins.

use vstd::prelude::*;
use crate::design::{Design, DesignView, field_at, module_at};
use crate::connection::{Connection, ConnectionEndpoint, ConnectionKind, EndpointKind};
use crate::field::{Field, FieldKind, FieldPathPart, is_connectable_kind};
use crate::ids::{FieldId, ModuleId, last_part};
use crate::module::{Module, TraitRef, string_arg};
use crate::kicad_library::{footprint_name_for, LibraryMapper};
use crate::netlist::{lookup, opt_text, PropertyMap};
use crate::module::{ModuleKind, NameTable};
use crate::netlist::{set_entry, ComponentView, Netlist, NetlistComponent};
use crate::kicad::ExportError;
use crate::natord::{Comparison, natural_order};
use crate::sort::{by_key, isort_by, lemma_isort_len, lemma_isort_map, lemma_map_multiset, lemma_multiset_property, lemma_same_items, lemma_sorted_texts_pairwise, lex_order, sort_by_key, sorted_by_key, sorted_unique, take_items, texts, NaturalKey, PairKey, SortKey, TextKey};
use crate::text::{chars_of, decimal, first_occurrence_from, lemma_first_occurrence, occurs_at, split_on, split_str, string_from_chars};
use crate::ids::{join_seqs, join_strings, strings_view};
use crate::netlist::{Net, NetNode, NetView, node_views};
use crate::path_graph::{covered, has_two_pins, lemma_complete_from_nodes, lemma_complete_permuted, lemma_complete_rearranged, lemma_connected_reverse, lemma_covered_after_group, lemma_net_of_rearranged, lemma_path_edges_symmetric, nets_complete, pin_of_group, symmetric};
use crate::text::{replace_char, replace_char_seq};
use crate::text::{contains_seq, contains_str, dec_digits, is_empty_text, push_char, push_decimal, push_str, str_eq};
use crate::unit::{lowercase_of, to_lowercase};

verus! {

/// The designator prefix that a trait sets:
/// `has_designator_prefix::prefix<value="X">` sets `X`.
pub open spec fn trait_prefix(t: TraitRef) -> Option<Seq<char>> {
    if last_part(t.name@) == "has_designator_prefix"@
        && (t.constructor matches Some(c) && c@ == "prefix"@)
    {
        string_arg(t.template_args@, "value"@)
    } else {
        None
    }
}

/// The prefix set by the first trait from index `i` on that sets one.
pub open spec fn traits_prefix_from(ts: Seq<TraitRef>, i: int) -> Option<Seq<char>>
    decreases ts.len() - i,
{
    if i < 0 || i >= ts.len() {
        None
    } else {
        match trait_prefix(ts[i]) {
            Some(p) => Some(p),
            None => traits_prefix_from(ts, i + 1),
        }
    }
}

/// The designator prefix suggested by a lower-case module name, for the
/// module's own designator.
pub open spec fn heuristic_prefix(n: Seq<char>) -> Option<Seq<char>> {
    if contains_seq(n, "resistor"@) {
        Some("R"@)
    } else if contains_seq(n, "capacitor"@) {
        Some("C"@)
    } else if contains_seq(n, "inductor"@) {
        Some("L"@)
    } else if contains_seq(n, "diode"@) || contains_seq(n, "led"@) {
        Some("D"@)
    } else if contains_seq(n, "transistor"@) || contains_seq(n, "mosfet"@) {
        Some("Q"@)
    } else if contains_seq(n, "connector"@) {
        Some("J"@)
    } else if contains_seq(n, "crystal"@) {
        Some("Y"@)
    } else {
        None
    }
}

/// The designator prefix suggested by a lower-case module name, for the
/// designators of instances.
pub open spec fn name_prefix(n: Seq<char>) -> Option<Seq<char>> {
    if contains_seq(n, "resistor"@) {
        Some("R"@)
    } else if contains_seq(n, "capacitor"@) {
        Some("C"@)
    } else if contains_seq(n, "inductor"@) {
        Some("L"@)
    } else if contains_seq(n, "diode"@) || n == "led"@ {
        Some("D"@)
    } else if contains_seq(n, "transistor"@) || contains_seq(n, "mosfet"@) {
        Some("Q"@)
    } else if contains_seq(n, "connector"@) || contains_seq(n, "molex"@) || contains_seq(n, "jst"@) {
        Some("J"@)
    } else if contains_seq(n, "crystal"@) {
        Some("Y"@)
    } else if contains_seq(n, "button"@) || contains_seq(n, "switch"@) || contains_seq(n, "skrpace"@)
        || contains_seq(n, "sktdlde"@) {
        Some("SW"@)
    } else if contains_seq(n, "sk6805"@) || contains_seq(n, "ws2812"@) || contains_seq(n, "sk6812"@)
        || contains_seq(n, "neopixel"@) {
        Some("LED"@)
    } else {
        None
    }
}

/// The designator prefix of a module: the one its traits set, else the one
/// its lower-case name suggests, else `U`.
pub open spec fn designator_prefix(d: DesignView, m: ModuleId) -> Seq<char> {
    match module_at(d, m) {
        Some(module) => match traits_prefix_from(module.traits@, 0) {
            Some(p) => p,
            None => match heuristic_prefix(lowercase_of(module.name@)) {
                Some(p) => p,
                None => "U"@,
            },
        },
        None => "U"@,
    }
}

/// Whether the field `f` exists and is a pin.
pub open spec fn is_pin_field(d: DesignView, f: FieldId) -> bool {
    field_at(d, f) matches Some(field) && field.kind is Pin
}

/// Whether the field `f` exists and is an instance.
pub open spec fn is_instance_field(d: DesignView, f: FieldId) -> bool {
    field_at(d, f) matches Some(field) && field.kind is Instance
}

/// Whether the field `f` exists, is called `package` and is a parameter.
pub open spec fn is_package_parameter(d: DesignView, f: FieldId) -> bool {
    field_at(d, f) matches Some(field) && field.name@ == "package"@ && field.kind is Parameter
}

/// Whether the module exists and has a pin among its fields.
pub open spec fn has_pins(d: DesignView, m: ModuleId) -> bool {
    match module_at(d, m) {
        Some(module) => exists|i: int| 0 <= i < module.fields@.len() && #[trigger] is_pin_field(d, module.fields@[i]),
        None => false,
    }
}

/// Whether the module exists and has an instance among its fields.
pub open spec fn has_instances(d: DesignView, m: ModuleId) -> bool {
    match module_at(d, m) {
        Some(module) => exists|i: int| 0 <= i < module.fields@.len() && #[trigger] is_instance_field(d, module.fields@[i]),
        None => false,
    }
}

/// Whether a trait is a `has_designator_prefix` trait.
pub open spec fn is_prefix_trait(t: TraitRef) -> bool {
    last_part(t.name@) == "has_designator_prefix"@
}

/// Whether a module is a physical component: it has pins, a
/// `has_designator_prefix` trait or a `package` parameter.
pub open spec fn is_physical(d: DesignView, m: ModuleId) -> bool {
    has_pins(d, m) || match module_at(d, m) {
        Some(module) => (exists|i: int| 0 <= i < module.traits@.len() && #[trigger] is_prefix_trait(module.traits@[i]))
            || (exists|i: int| 0 <= i < module.fields@.len() && #[trigger] is_package_parameter(d, module.fields@[i])),
        None => false,
    }
}

/// The prefix that the field `f` gives when it is a `package` instance: the
/// one the package module's traits set, else the one its name suggests.
pub open spec fn package_field_prefix(d: DesignView, f: FieldId) -> Option<Seq<char>> {
    match field_at(d, f) {
        Some(field) => if field.name@ == "package"@ {
            match field.kind {
                FieldKind::Instance { resolved_type: Some(pkg), .. } => match module_at(d, pkg) {
                    Some(pm) => match traits_prefix_from(pm.traits@, 0) {
                        Some(p) => Some(p),
                        None => name_prefix(lowercase_of(pm.name@)),
                    },
                    None => None,
                },
                _ => None,
            }
        } else {
            None
        },
        None => None,
    }
}

/// The prefix given by the first `package` instance among the fields from
/// index `i` on that gives one.
pub open spec fn package_prefix_from(d: DesignView, fs: Seq<FieldId>, i: int) -> Option<Seq<char>>
    decreases fs.len() - i,
{
    if i < 0 || i >= fs.len() {
        None
    } else {
        match package_field_prefix(d, fs[i]) {
            Some(p) => Some(p),
            None => package_prefix_from(d, fs, i + 1),
        }
    }
}

/// The designator prefix of an instance of a module: the one its traits
/// set, else the one its package gives, else the one its lower-case name
/// suggests, else `U`.
pub open spec fn deep_prefix(d: DesignView, m: ModuleId) -> Seq<char> {
    match module_at(d, m) {
        Some(module) => match traits_prefix_from(module.traits@, 0) {
            Some(p) => p,
            None => match package_prefix_from(d, module.fields@, 0) {
                Some(p) => p,
                None => match name_prefix(lowercase_of(module.name@)) {
                    Some(p) => p,
                    None => "U"@,
                },
            },
        },
        None => "U"@,
    }
}

fn text_is(s: &str, lit: &str) -> (b: bool)
    ensures
        b == (s@ == lit@),
{
    str_eq(s, lit)
}

/// The prefix a trait sets.
fn trait_ref_prefix(t: &TraitRef) -> (r: Option<String>)
    ensures
        opt_text(r) == trait_prefix(*t),
{
    if !text_is(t.name.name(), "has_designator_prefix") {
        return None;
    }
    let ctor_ok = match &t.constructor {
        Some(c) => text_is(c.as_str(), "prefix"),
        None => false,
    };
    if !ctor_ok {
        return None;
    }
    match t.get_string_arg("value") {
        Some(v) => Some(v.to_owned()),
        None => None,
    }
}

/// The prefix set by the first of the traits that sets one.
fn traits_prefix(ts: &Vec<TraitRef>) -> (r: Option<String>)
    ensures
        opt_text(r) == traits_prefix_from(ts@, 0),
{
    let mut i: usize = 0;
    while i < ts.len()
        invariant
            i <= ts.len(),
            traits_prefix_from(ts@, 0) == traits_prefix_from(ts@, i as int),
        decreases ts.len() - i,
    {
        let p = trait_ref_prefix(&ts[i]);
        if p.is_some() {
            return p;
        }
        i = i + 1;
    }
    None
}

fn some_text(s: &str) -> (r: Option<String>)
    ensures
        opt_text(r) == Some(s@),
{
    Some(s.to_owned())
}

/// The prefix a lower-case module name suggests for the module itself.
fn heuristic_prefix_of(n: &str) -> (r: Option<String>)
    ensures
        opt_text(r) == heuristic_prefix(n@),
{
    if contains_str(n, "resistor") {
        some_text("R")
    } else if contains_str(n, "capacitor") {
        some_text("C")
    } else if contains_str(n, "inductor") {
        some_text("L")
    } else if contains_str(n, "diode") || contains_str(n, "led") {
        some_text("D")
    } else if contains_str(n, "transistor") || contains_str(n, "mosfet") {
        some_text("Q")
    } else if contains_str(n, "connector") {
        some_text("J")
    } else if contains_str(n, "crystal") {
        some_text("Y")
    } else {
        None
    }
}

/// The prefix a lower-case module name suggests for its instances.
fn name_to_prefix(n: &str) -> (r: Option<String>)
    ensures
        opt_text(r) == name_prefix(n@),
{
    if contains_str(n, "resistor") {
        some_text("R")
    } else if contains_str(n, "capacitor") {
        some_text("C")
    } else if contains_str(n, "inductor") {
        some_text("L")
    } else if contains_str(n, "diode") || text_is(n, "led") {
        some_text("D")
    } else if contains_str(n, "transistor") || contains_str(n, "mosfet") {
        some_text("Q")
    } else if contains_str(n, "connector") || contains_str(n, "molex") || contains_str(n, "jst") {
        some_text("J")
    } else if contains_str(n, "crystal") {
        some_text("Y")
    } else if contains_str(n, "button") || contains_str(n, "switch") || contains_str(n, "skrpace")
        || contains_str(n, "sktdlde") {
        some_text("SW")
    } else if contains_str(n, "sk6805") || contains_str(n, "ws2812") || contains_str(n, "sk6812")
        || contains_str(n, "neopixel") {
        some_text("LED")
    } else {
        None
    }
}

/// The designator prefix of a module.
fn get_designator_prefix(design: &Design, module_id: ModuleId) -> (r: String)
    ensures
        r@ == designator_prefix(design@, module_id),
{
    match design.get_module(module_id) {
        Some(module) => {
            match traits_prefix(&module.traits) {
                Some(p) => p,
                None => {
                    let name = to_lowercase(module.name.as_str());
                    match heuristic_prefix_of(name.as_str()) {
                        Some(p) => p,
                        None => "U".to_owned(),
                    }
                },
            }
        },
        None => "U".to_owned(),
    }
}

/// Whether a module has a pin among its fields.
fn module_has_pins(design: &Design, module_id: ModuleId) -> (b: bool)
    ensures
        b == has_pins(design@, module_id),
{
    match design.get_module(module_id) {
        Some(module) => {
            let mut i: usize = 0;
            while i < module.fields.len()
                invariant
                    i <= module.fields.len(),
                    module_at(design@, module_id) == Some(*module),
                    forall|k: int| 0 <= k < i ==> !#[trigger] is_pin_field(design@, module.fields@[k]),
                decreases module.fields.len() - i,
            {
                match design.get_field(module.fields[i]) {
                    Some(f) => {
                        if f.is_pin() {
                            assert(is_pin_field(design@, module.fields@[i as int]));
                            return true;
                        }
                    },
                    None => {},
                }
                i = i + 1;
            }
            false
        },
        None => false,
    }
}

/// Whether a module has an instance among its fields.
fn module_has_instances(design: &Design, module_id: ModuleId) -> (b: bool)
    ensures
        b == has_instances(design@, module_id),
{
    match design.get_module(module_id) {
        Some(module) => {
            let mut i: usize = 0;
            while i < module.fields.len()
                invariant
                    i <= module.fields.len(),
                    module_at(design@, module_id) == Some(*module),
                    forall|k: int| 0 <= k < i ==> !#[trigger] is_instance_field(design@, module.fields@[k]),
                decreases module.fields.len() - i,
            {
                match design.get_field(module.fields[i]) {
                    Some(f) => {
                        if f.is_instance() {
                            assert(is_instance_field(design@, module.fields@[i as int]));
                            return true;
                        }
                    },
                    None => {},
                }
                i = i + 1;
            }
            false
        },
        None => false,
    }
}

/// Whether a module is a physical component.
fn is_physical_component(design: &Design, module_id: ModuleId) -> (b: bool)
    ensures
        b == is_physical(design@, module_id),
{
    if module_has_pins(design, module_id) {
        return true;
    }
    match design.get_module(module_id) {
        Some(module) => {
            let mut i: usize = 0;
            while i < module.traits.len()
                invariant
                    i <= module.traits.len(),
                    module_at(design@, module_id) == Some(*module),
                    forall|k: int| 0 <= k < i ==> !#[trigger] is_prefix_trait(module.traits@[k]),
                decreases module.traits.len() - i,
            {
                if text_is(module.traits[i].name.name(), "has_designator_prefix") {
                    assert(is_prefix_trait(module.traits@[i as int]));
                    return true;
                }
                i = i + 1;
            }
            let mut j: usize = 0;
            while j < module.fields.len()
                invariant
                    j <= module.fields.len(),
                    module_at(design@, module_id) == Some(*module),
                    forall|k: int| 0 <= k < j ==> !#[trigger] is_package_parameter(design@, module.fields@[k]),
                decreases module.fields.len() - j,
            {
                match design.get_field(module.fields[j]) {
                    Some(f) => {
                        if text_is(f.name.as_str(), "package") && f.is_parameter() {
                            assert(is_package_parameter(design@, module.fields@[j as int]));
                            return true;
                        }
                    },
                    None => {},
                }
                j = j + 1;
            }
            false
        },
        None => false,
    }
}

/// The prefix a `package` instance field gives.
fn package_field_prefix_of(design: &Design, f: FieldId) -> (r: Option<String>)
    ensures
        opt_text(r) == package_field_prefix(design@, f),
{
    match design.get_field(f) {
        Some(field) => {
            if !text_is(field.name.as_str(), "package") {
                return None;
            }
            match &field.kind {
                FieldKind::Instance { resolved_type: Some(pkg), .. } => {
                    match design.get_module(*pkg) {
                        Some(pm) => {
                            match traits_prefix(&pm.traits) {
                                Some(p) => Some(p),
                                None => {
                                    let name = to_lowercase(pm.name.as_str());
                                    name_to_prefix(name.as_str())
                                },
                            }
                        },
                        None => None,
                    }
                },
                _ => None,
            }
        },
        None => None,
    }
}

/// The designator prefix of an instance of a module, looking through its
/// package.
fn get_designator_prefix_deep(design: &Design, module_id: ModuleId) -> (r: String)
    ensures
        r@ == deep_prefix(design@, module_id),
{
    match design.get_module(module_id) {
        Some(module) => {
            match traits_prefix(&module.traits) {
                Some(p) => p,
                None => {
                    let mut i: usize = 0;
                    while i < module.fields.len()
                        invariant
                            i <= module.fields.len(),
                            module_at(design@, module_id) == Some(*module),
                            traits_prefix_from(module.traits@, 0) is None,
                            package_prefix_from(design@, module.fields@, 0)
                                == package_prefix_from(design@, module.fields@, i as int),
                        decreases module.fields.len() - i,
                    {
                        match package_field_prefix_of(design, module.fields[i]) {
                            Some(p) => {
                                assert(package_prefix_from(design@, module.fields@, i as int) == Some(p@));
                                return p;
                            },
                            None => {},
                        }
                        i = i + 1;
                    }
                    let name = to_lowercase(module.name.as_str());
                    match name_to_prefix(name.as_str()) {
                        Some(p) => p,
                        None => "U".to_owned(),
                    }
                },
            }
        },
        None => "U".to_owned(),
    }
}


/// The parameters that hold a component's value, in the order they are tried.
pub open spec fn value_param_name(i: int) -> Seq<char> {
    if i == 0 {
        "resistance"@
    } else if i == 1 {
        "capacitance"@
    } else if i == 2 {
        "inductance"@
    } else {
        "value"@
    }
}

/// Whether the module's field called `name` exists and is a parameter.
pub open spec fn is_param_named(d: DesignView, module: Module, name: Seq<char>) -> bool {
    module.field_names@.contains_key(name)
        && (field_at(d, module.field_names@[name]) matches Some(f) && f.kind is Parameter)
}

/// The first value parameter, from the `i`-th on, that the module has.
pub open spec fn value_param_from(d: DesignView, module: Module, i: int) -> Option<Seq<char>>
    decreases 4 - i,
{
    if i < 0 || i >= 4 {
        None
    } else if is_param_named(d, module, value_param_name(i)) {
        Some(value_param_name(i))
    } else {
        value_param_from(d, module, i + 1)
    }
}

/// The value a parameter shows: its solved value, else `$` and its name.
pub open spec fn param_value(solved: Seq<(Seq<char>, Seq<char>)>, p: Seq<char>) -> Seq<char> {
    match lookup(solved, p) {
        Some(v) => v,
        None => seq!['$'] + p,
    }
}

/// The value of a module: that of its first value parameter, else its name
/// (`?` for a module that does not exist).
pub open spec fn module_value(d: DesignView, solved: Seq<(Seq<char>, Seq<char>)>, m: ModuleId) -> Seq<char> {
    match module_at(d, m) {
        Some(module) => match value_param_from(d, module, 0) {
            Some(p) => param_value(solved, p),
            None => module.name@,
        },
        None => "?"@,
    }
}

/// The value of the instance at `path` of a module: the value solved for
/// `path.param` first, then as for the module.
pub open spec fn instance_value(d: DesignView, solved: Seq<(Seq<char>, Seq<char>)>, path: Seq<char>, m: ModuleId) -> Seq<char> {
    match module_at(d, m) {
        Some(module) => match value_param_from(d, module, 0) {
            Some(p) => match lookup(solved, path + seq!['.'] + p) {
                Some(v) => v,
                None => param_value(solved, p),
            },
            None => module.name@,
        },
        None => "?"@,
    }
}

fn value_param_at(i: usize) -> (s: &'static str)
    requires
        i < 4,
    ensures
        s@ == value_param_name(i as int),
{
    if i == 0 {
        "resistance"
    } else if i == 1 {
        "capacitance"
    } else if i == 2 {
        "inductance"
    } else {
        "value"
    }
}

/// Whether the module's field called `name` exists and is a parameter.
fn has_param_named(design: &Design, module: &Module, name: &str) -> (b: bool)
    requires
        module.wf(),
    ensures
        b == is_param_named(design@, *module, name@),
{
    match module.get_field(name) {
        Some(fid) => match design.get_field(fid) {
            Some(f) => f.is_parameter(),
            None => false,
        },
        None => false,
    }
}

/// The first value parameter the module has.
fn value_param(design: &Design, module: &Module) -> (r: Option<&'static str>)
    requires
        module.wf(),
    ensures
        match r {
            Some(p) => value_param_from(design@, *module, 0) == Some(p@),
            None => value_param_from(design@, *module, 0) is None,
        },
{
    let mut i: usize = 0;
    while i < 4
        invariant
            i <= 4,
            module.wf(),
            value_param_from(design@, *module, 0) == value_param_from(design@, *module, i as int),
        decreases 4 - i,
    {
        let p = value_param_at(i);
        if has_param_named(design, module, p) {
            return Some(p);
        }
        i = i + 1;
    }
    None
}

fn param_value_of(solved: &PropertyMap, p: &str) -> (r: String)
    ensures
        r@ == param_value(solved@, p@),
{
    match solved.get(p) {
        Some(v) => v.clone(),
        None => {
            let mut s = String::new();
            push_char(&mut s, '$');
            push_str(&mut s, p);
            s
        },
    }
}

/// The value of a module.
fn get_module_value(design: &Design, solved: &PropertyMap, module_id: ModuleId) -> (r: String)
    requires
        design.wf(),
    ensures
        r@ == module_value(design@, solved@, module_id),
{
    match design.get_module(module_id) {
        Some(module) => match value_param(design, module) {
            Some(p) => param_value_of(solved, p),
            None => module.name.clone(),
        },
        None => "?".to_owned(),
    }
}

/// The value of the instance at `path` of a module.
fn get_instance_value(design: &Design, solved: &PropertyMap, path: &str, module_id: ModuleId) -> (r: String)
    requires
        design.wf(),
    ensures
        r@ == instance_value(design@, solved@, path@, module_id),
{
    match design.get_module(module_id) {
        Some(module) => match value_param(design, module) {
            Some(p) => {
                let mut key = path.to_owned();
                push_char(&mut key, '.');
                push_str(&mut key, p);
                assert(key@ =~= path@ + seq!['.'] + p@);
                match solved.get(key.as_str()) {
                    Some(v) => v.clone(),
                    None => param_value_of(solved, p),
                }
            },
            None => module.name.clone(),
        },
        None => "?".to_owned(),
    }
}

/// Footprint information as a mathematical value.
pub struct FootprintView {
    /// The footprint name, if known.
    pub footprint: Option<Seq<char>>,
    /// The package name, if known.
    pub package: Option<Seq<char>>,
    /// The LCSC part number, if known.
    pub lcsc: Option<Seq<char>>,
}

/// Footprint information gathered from a module's traits and parameters.
#[derive(Debug)]
struct FootprintInfo {
    footprint: Option<String>,
    package: Option<String>,
    lcsc: Option<String>,
}

impl View for FootprintInfo {
    type V = FootprintView;

    closed spec fn view(&self) -> FootprintView {
        FootprintView {
            footprint: opt_text(self.footprint),
            package: opt_text(self.package),
            lcsc: opt_text(self.lcsc),
        }
    }
}

/// No footprint information.
pub open spec fn no_footprint() -> FootprintView {
    FootprintView { footprint: None, package: None, lcsc: None }
}

/// The information after reading one trait: `is_atomic_part<footprint="X">`
/// gives the footprint, `has_part_picked<supplier_partno="C1">` the LCSC
/// number, each when it is not known yet.
pub open spec fn trait_info(t: TraitRef, info: FootprintView) -> FootprintView {
    let n = last_part(t.name@);
    let a = if n == "is_atomic_part"@ && info.footprint is None
        && string_arg(t.template_args@, "footprint"@) is Some {
        FootprintView { footprint: string_arg(t.template_args@, "footprint"@), ..info }
    } else {
        info
    };
    if n == "has_part_picked"@ && a.lcsc is None && string_arg(t.template_args@, "supplier_partno"@) is Some {
        FootprintView { lcsc: string_arg(t.template_args@, "supplier_partno"@), ..a }
    } else {
        a
    }
}

/// The information after reading the traits from index `i` on.
pub open spec fn traits_info_from(ts: Seq<TraitRef>, i: int, info: FootprintView) -> FootprintView
    decreases ts.len() - i,
{
    if i < 0 || i >= ts.len() {
        info
    } else {
        traits_info_from(ts, i + 1, trait_info(ts[i], info))
    }
}

/// The information after reading the traits of a module and of its super
/// types, at most `fuel` modules in all.
pub open spec fn chain_info(d: DesignView, m: ModuleId, fuel: nat, info: FootprintView) -> FootprintView
    decreases fuel,
{
    if fuel == 0 {
        info
    } else {
        match module_at(d, m) {
            Some(module) => {
                let next = traits_info_from(module.traits@, 0, info);
                match module.super_type {
                    Some(s) => chain_info(d, s, (fuel - 1) as nat, next),
                    None => next,
                }
            },
            None => info,
        }
    }
}

/// The solved value of the module's parameter called `name`, when it has one.
pub open spec fn solved_param(d: DesignView, solved: Seq<(Seq<char>, Seq<char>)>, module: Module, name: Seq<char>) -> Option<Seq<char>> {
    if is_param_named(d, module, name) {
        lookup(solved, name)
    } else {
        None
    }
}

/// The information the `package` field adds: the traits of a package
/// instance, or the footprint of a solved package parameter.
pub open spec fn package_info(d: DesignView, solved: Seq<(Seq<char>, Seq<char>)>, m: ModuleId, module: Module, info: FootprintView) -> FootprintView {
    if module.field_names@.contains_key("package"@) {
        match field_at(d, module.field_names@["package"@]) {
            Some(f) => match f.kind {
                FieldKind::Instance { resolved_type: Some(pkg), .. } => chain_info(d, pkg, 21, info),
                FieldKind::Parameter { .. } => match lookup(solved, "package"@) {
                    Some(s) => FootprintView {
                        footprint: if info.footprint is None {
                            Some(footprint_name_for(designator_prefix(d, m) + seq!['1'], Some(s)))
                        } else {
                            info.footprint
                        },
                        package: Some(s),
                        lcsc: info.lcsc,
                    },
                    None => info,
                },
                _ => info,
            },
            None => info,
        }
    } else {
        info
    }
}

/// The footprint information of a module: from its traits and those of its
/// super types, then its package, then its solved `footprint` and `lcsc`
/// parameters, each only where nothing before gave it.
pub open spec fn footprint_info(d: DesignView, solved: Seq<(Seq<char>, Seq<char>)>, m: ModuleId) -> FootprintView {
    match module_at(d, m) {
        None => no_footprint(),
        Some(module) => {
            let i1 = chain_info(d, m, 21, no_footprint());
            let i2 = package_info(d, solved, m, module, i1);
            let i3 = if i2.footprint is None {
                match solved_param(d, solved, module, "footprint"@) {
                    Some(s) => FootprintView { footprint: Some(s), ..i2 },
                    None => i2,
                }
            } else {
                i2
            };
            if i3.lcsc is None {
                match solved_param(d, solved, module, "lcsc"@) {
                    Some(s) => FootprintView { lcsc: Some(s), ..i3 },
                    None => i3,
                }
            } else {
                i3
            }
        },
    }
}

fn copy_text(o: &Option<String>) -> (r: Option<String>)
    ensures
        opt_text(r) == opt_text(*o),
{
    match o {
        Some(s) => Some(s.clone()),
        None => None,
    }
}

impl FootprintInfo {
    fn new() -> (i: Self)
        ensures
            i@ == no_footprint(),
    {
        FootprintInfo { footprint: None, package: None, lcsc: None }
    }

    fn duplicate(&self) -> (i: Self)
        ensures
            i@ == self@,
    {
        FootprintInfo {
            footprint: copy_text(&self.footprint),
            package: copy_text(&self.package),
            lcsc: copy_text(&self.lcsc),
        }
    }

    /// Reads one trait.
    fn read_trait(&mut self, t: &TraitRef)
        ensures
            final(self)@ == trait_info(*t, old(self)@),
    {
        let n = t.name.name();
        if text_is(n, "is_atomic_part") && self.footprint.is_none() {
            match t.get_string_arg("footprint") {
                Some(fp) => {
                    self.footprint = Some(fp.to_owned());
                },
                None => {},
            }
        }
        if text_is(n, "has_part_picked") && self.lcsc.is_none() {
            match t.get_string_arg("supplier_partno") {
                Some(p) => {
                    self.lcsc = Some(p.to_owned());
                },
                None => {},
            }
        }
    }
}

/// Reads the traits of a module and of its super types, at most `fuel`
/// modules in all.
fn extract_traits_from_chain(design: &Design, module_id: ModuleId, fuel: u32, info: &mut FootprintInfo)
    ensures
        final(info)@ == chain_info(design@, module_id, fuel as nat, old(info)@),
    decreases fuel,
{
    if fuel == 0 {
        return;
    }
    match design.get_module(module_id) {
        Some(module) => {
            let mut i: usize = 0;
            while i < module.traits.len()
                invariant
                    i <= module.traits.len(),
                    traits_info_from(module.traits@, 0, old(info)@) == traits_info_from(module.traits@, i as int, info@),
                decreases module.traits.len() - i,
            {
                info.read_trait(&module.traits[i]);
                i = i + 1;
            }
            match module.super_type {
                Some(s) => extract_traits_from_chain(design, s, fuel - 1, info),
                None => {},
            }
        },
        None => {},
    }
}

/// Records a solved package and, when no footprint is known yet, the
/// footprint of the module's component type in that package.
fn set_package(design: &Design, mapper: &LibraryMapper, module_id: ModuleId, package: &str, info: &mut FootprintInfo)
    requires
        mapper.wf(),
    ensures
        final(info)@ == (FootprintView {
            footprint: if old(info)@.footprint is None {
                Some(footprint_name_for(designator_prefix(design@, module_id) + seq!['1'], Some(package@)))
            } else {
                old(info)@.footprint
            },
            package: Some(package@),
            lcsc: old(info)@.lcsc,
        }),
{
    let mut reference = get_designator_prefix(design, module_id);
    push_char(&mut reference, '1');
    assert(reference@ =~= designator_prefix(design@, module_id) + seq!['1']);
    let fp_name = mapper.get_footprint_name(reference.as_str(), Some(package));
    if info.footprint.is_none() {
        info.footprint = Some(fp_name);
    }
    info.package = Some(package.to_owned());
}

/// Adds what the module's `package` field gives.
fn read_package_field(design: &Design, solved: &PropertyMap, mapper: &LibraryMapper, module_id: ModuleId, module: &Module, info: &mut FootprintInfo)
    requires
        design.wf(),
        mapper.wf(),
        module.wf(),
    ensures
        final(info)@ == package_info(design@, solved@, module_id, *module, old(info)@),
{
    match module.get_field("package") {
        Some(pkg_field_id) => match design.get_field(pkg_field_id) {
            Some(field) => match &field.kind {
                FieldKind::Instance { resolved_type: Some(pkg_module_id), .. } => {
                    extract_traits_from_chain(design, *pkg_module_id, 21, info);
                },
                FieldKind::Parameter { .. } => {
                    match solved.get("package") {
                        Some(s) => set_package(design, mapper, module_id, s.as_str(), info),
                        None => {},
                    }
                },
                _ => {},
            },
            None => {},
        },
        None => {},
    }
}

/// Sets a missing footprint or LCSC number from the solved parameter `name`.
fn solved_param_of(design: &Design, solved: &PropertyMap, module: &Module, name: &str) -> (r: Option<String>)
    requires
        module.wf(),
    ensures
        opt_text(r) == solved_param(design@, solved@, *module, name@),
{
    if has_param_named(design, module, name) {
        match solved.get(name) {
            Some(s) => Some(s.clone()),
            None => None,
        }
    } else {
        None
    }
}

/// The footprint information of a module.
fn extract_footprint_info(design: &Design, solved: &PropertyMap, mapper: &LibraryMapper, module_id: ModuleId) -> (r: FootprintInfo)
    requires
        design.wf(),
        mapper.wf(),
    ensures
        r@ == footprint_info(design@, solved@, module_id),
{
    let mut info = FootprintInfo::new();
    match design.get_module(module_id) {
        Some(module) => {
            extract_traits_from_chain(design, module_id, 21, &mut info);
            read_package_field(design, solved, mapper, module_id, module, &mut info);
            if info.footprint.is_none() {
                match solved_param_of(design, solved, module, "footprint") {
                    Some(s) => {
                        info.footprint = Some(s);
                    },
                    None => {},
                }
            }
            if info.lcsc.is_none() {
                match solved_param_of(design, solved, module, "lcsc") {
                    Some(s) => {
                        info.lcsc = Some(s);
                    },
                    None => {},
                }
            }
        },
        None => {},
    }
    info
}


/// A component found in the design, before it has a designator.
pub struct PendingView {
    /// The instance path (for a module picked up by itself, its name).
    pub path: Seq<char>,
    /// The designator prefix.
    pub prefix: Seq<char>,
    /// The value.
    pub value: Seq<char>,
    /// The name of the component's module.
    pub module_name: Seq<char>,
    /// The footprint information.
    pub footprint: FootprintView,
    /// The index within an array instance.
    pub array_index: Option<nat>,
    /// Whether it comes from an instance (rather than from a module by itself).
    pub instance: bool,
}

#[derive(Debug)]
struct Pending {
    path: String,
    prefix: String,
    value: String,
    module_name: String,
    footprint: FootprintInfo,
    array_index: Option<u32>,
    instance: bool,
}

impl View for Pending {
    type V = PendingView;

    closed spec fn view(&self) -> PendingView {
        PendingView {
            path: self.path@,
            prefix: self.prefix@,
            value: self.value@,
            module_name: self.module_name@,
            footprint: self.footprint@,
            array_index: match self.array_index {
                Some(k) => Some(k as nat),
                None => None,
            },
            instance: self.instance,
        }
    }
}

spec fn pending_views(ps: Seq<Pending>) -> Seq<PendingView> {
    ps.map_values(|p: Pending| p@)
}

/// The path of the `idx`-th copy of the instance `name` below `prefix`:
/// `prefix.name`, or just `name` at the top, with `[idx]` after it for an
/// array.
pub open spec fn child_path(prefix: Seq<char>, name: Seq<char>, array: bool, idx: nat) -> Seq<char> {
    let base = if prefix.len() == 0 {
        name
    } else {
        prefix + seq!['.'] + name
    };
    if array {
        base + seq!['['] + dec_digits(idx) + seq![']']
    } else {
        base
    }
}

/// The number of copies an instance stands for: its count when above one,
/// else one.
pub open spec fn copies(count: Option<u32>) -> nat {
    match count {
        Some(n) => if n > 1 {
            n as nat
        } else {
            1
        },
        None => 1,
    }
}

/// The name of a module, empty when it does not exist.
pub open spec fn module_name_of(d: DesignView, m: ModuleId) -> Seq<char> {
    match module_at(d, m) {
        Some(module) => module.name@,
        None => Seq::empty(),
    }
}

/// The component for the `idx`-th of `n` copies of the instance `name`, of
/// the physical module `t`, below `prefix`.
pub open spec fn leaf_entry(d: DesignView, solved: Seq<(Seq<char>, Seq<char>)>, t: ModuleId, name: Seq<char>, prefix: Seq<char>, n: nat, idx: nat) -> PendingView {
    let path = child_path(prefix, name, n > 1, idx);
    PendingView {
        path: path,
        prefix: deep_prefix(d, t),
        value: instance_value(d, solved, path, t),
        module_name: module_name_of(d, t),
        footprint: footprint_info(d, solved, t),
        array_index: if n > 1 {
            Some(idx)
        } else {
            None
        },
        instance: true,
    }
}

/// The components found below the module `m`, whose paths start with
/// `prefix`, going at most `fuel` levels of instances deep.
pub open spec fn pending_in(d: DesignView, solved: Seq<(Seq<char>, Seq<char>)>, m: ModuleId, prefix: Seq<char>, fuel: nat) -> Seq<PendingView>
    decreases fuel, 3int, 0int,
{
    if fuel == 0 {
        Seq::empty()
    } else {
        match module_at(d, m) {
            Some(module) => pending_fields(d, solved, module.fields@, 0, prefix, fuel),
            None => Seq::empty(),
        }
    }
}

/// The components found through the fields from index `i` on.
pub open spec fn pending_fields(d: DesignView, solved: Seq<(Seq<char>, Seq<char>)>, fs: Seq<FieldId>, i: int, prefix: Seq<char>, fuel: nat) -> Seq<PendingView>
    decreases fuel, 2int, fs.len() - i,
{
    if i < 0 || i >= fs.len() {
        Seq::empty()
    } else {
        field_entries(d, solved, fs[i], prefix, fuel) + pending_fields(d, solved, fs, i + 1, prefix, fuel)
    }
}

/// The components found through one field: each copy of an instance of a
/// physical module is one, and the copies of an instance of a container
/// give the components found below them; interfaces give none.
pub open spec fn field_entries(d: DesignView, solved: Seq<(Seq<char>, Seq<char>)>, f: FieldId, prefix: Seq<char>, fuel: nat) -> Seq<PendingView>
    decreases fuel, 1int, 0int,
{
    match field_at(d, f) {
        Some(field) => match field.kind {
            FieldKind::Instance { count, resolved_type: Some(t), .. } => {
                if module_at(d, t) matches Some(tm) && tm.kind == ModuleKind::Interface {
                    Seq::empty()
                } else if is_physical(d, t) {
                    Seq::new(copies(count), |k: int| leaf_entry(d, solved, t, field.name@, prefix, copies(count), k as nat))
                } else if has_instances(d, t) {
                    container_copies(d, solved, t, field.name@, prefix, copies(count), 0, fuel)
                } else {
                    Seq::empty()
                }
            },
            _ => Seq::empty(),
        },
        None => Seq::empty(),
    }
}

/// The components found below the copies from `idx` on of a container
/// instance.
pub open spec fn container_copies(d: DesignView, solved: Seq<(Seq<char>, Seq<char>)>, t: ModuleId, name: Seq<char>, prefix: Seq<char>, n: nat, idx: nat, fuel: nat) -> Seq<PendingView>
    decreases fuel, 0int, n - idx,
{
    if idx >= n || fuel == 0 {
        Seq::empty()
    } else {
        pending_in(d, solved, t, child_path(prefix, name, n > 1, idx), (fuel - 1) as nat)
            + container_copies(d, solved, t, name, prefix, n, idx + 1, fuel)
    }
}

/// The path of a copy of an instance.
fn child_path_of(prefix: &str, name: &str, array: bool, idx: u32) -> (s: String)
    ensures
        s@ == child_path(prefix@, name@, array, idx as nat),
{
    let mut s = String::new();
    if !is_empty_text(prefix) {
        push_str(&mut s, prefix);
        push_char(&mut s, '.');
    }
    push_str(&mut s, name);
    if array {
        push_char(&mut s, '[');
        push_decimal(&mut s, idx as u64);
        push_char(&mut s, ']');
    }
    proof {
        let base = if prefix@.len() == 0 { name@ } else { prefix@ + seq!['.'] + name@ };
        if prefix@.len() == 0 {
            assert(prefix@ =~= Seq::<char>::empty());
        }
        if array {
            assert(s@ =~= base + seq!['['] + dec_digits(idx as nat) + seq![']']);
        } else {
            assert(s@ =~= base);
        }
    }
    s
}

/// The component for one copy of an instance of a physical module.
fn leaf_entry_of(
    design: &Design,
    solved: &PropertyMap,
    t: ModuleId,
    name: &str,
    prefix: &str,
    n: u32,
    idx: u32,
    footprint: &FootprintInfo,
    target_name: &String,
) -> (p: Pending)
    requires
        design.wf(),
        n >= 1,
        idx < n,
        footprint@ == footprint_info(design@, solved@, t),
        target_name@ == module_name_of(design@, t),
    ensures
        p@ == leaf_entry(design@, solved@, t, name@, prefix@, n as nat, idx as nat),
{
    let path = child_path_of(prefix, name, n > 1, idx);
    let des_prefix = get_designator_prefix_deep(design, t);
    let value = get_instance_value(design, solved, path.as_str(), t);
    Pending {
        path: path,
        prefix: des_prefix,
        value: value,
        module_name: target_name.clone(),
        footprint: footprint.duplicate(),
        array_index: if n > 1 {
            Some(idx)
        } else {
            None
        },
        instance: true,
    }
}

/// The name of a module, empty when it does not exist.
fn module_name_or_empty(design: &Design, m: ModuleId) -> (s: String)
    ensures
        s@ == module_name_of(design@, m),
{
    match design.get_module(m) {
        Some(module) => module.name.clone(),
        None => String::new(),
    }
}

/// Adds the components of `n` copies of an instance of the physical module `t`.
fn push_leaf_copies(
    design: &Design,
    solved: &PropertyMap,
    mapper: &LibraryMapper,
    t: ModuleId,
    name: &str,
    prefix: &str,
    n: u32,
    pending: &mut Vec<Pending>,
)
    requires
        design.wf(),
        mapper.wf(),
        n >= 1,
    ensures
        pending_views(final(pending)@) == pending_views(old(pending)@)
            + Seq::new(n as nat, |k: int| leaf_entry(design@, solved@, t, name@, prefix@, n as nat, k as nat)),
{
    let footprint = extract_footprint_info(design, solved, mapper, t);
    let target_name = module_name_or_empty(design, t);
    let mut idx: u32 = 0;
    while idx < n
        invariant
            design.wf(),
            idx <= n,
            n >= 1,
            footprint@ == footprint_info(design@, solved@, t),
            target_name@ == module_name_of(design@, t),
            pending_views(pending@) == pending_views(old(pending)@)
                + Seq::new(idx as nat, |k: int| leaf_entry(design@, solved@, t, name@, prefix@, n as nat, k as nat)),
        decreases n - idx,
    {
        let entry = leaf_entry_of(design, solved, t, name, prefix, n, idx, &footprint, &target_name);
        let ghost before = pending_views(pending@);
        pending.push(entry);
        proof {
            assert(pending_views(pending@) =~= before.push(entry@));
            assert(Seq::new((idx + 1) as nat, |k: int| leaf_entry(design@, solved@, t, name@, prefix@, n as nat, k as nat))
                =~= Seq::new(idx as nat, |k: int| leaf_entry(design@, solved@, t, name@, prefix@, n as nat, k as nat)).push(entry@));
        }
        idx = idx + 1;
    }
}

/// Collects the components below the module `module_id`, whose paths start
/// with `path_prefix`, going at most `fuel` levels of instances deep.
fn collect_components_pending(
    design: &Design,
    solved: &PropertyMap,
    mapper: &LibraryMapper,
    module_id: ModuleId,
    path_prefix: &str,
    fuel: usize,
    pending: &mut Vec<Pending>,
)
    requires
        design.wf(),
        mapper.wf(),
    ensures
        pending_views(final(pending)@) == pending_views(old(pending)@)
            + pending_in(design@, solved@, module_id, path_prefix@, fuel as nat),
    decreases fuel, 3int, 0int,
{
    if fuel == 0 {
        assert(pending_views(pending@) =~= pending_views(old(pending)@) + Seq::<PendingView>::empty());
        return;
    }
    let module = match design.get_module(module_id) {
        Some(m) => m,
        None => {
            assert(pending_views(pending@) =~= pending_views(old(pending)@) + Seq::<PendingView>::empty());
            return;
        },
    };
    let ghost fs = module.fields@;
    let mut i: usize = 0;
    while i < module.fields.len()
        invariant
            design.wf(),
            mapper.wf(),
            fuel > 0,
            fs == module.fields@,
            i <= fs.len(),
            pending_views(pending@) + pending_fields(design@, solved@, fs, i as int, path_prefix@, fuel as nat)
                == pending_views(old(pending)@) + pending_fields(design@, solved@, fs, 0, path_prefix@, fuel as nat),
        decreases fs.len() - i,
    {
        let ghost before = pending_views(pending@);
        collect_field(design, solved, mapper, module.fields[i], path_prefix, fuel, pending);
        proof {
            let fe = field_entries(design@, solved@, fs[i as int], path_prefix@, fuel as nat);
            let rest = pending_fields(design@, solved@, fs, i + 1, path_prefix@, fuel as nat);
            assert(pending_fields(design@, solved@, fs, i as int, path_prefix@, fuel as nat) == fe + rest);
            assert(before + (fe + rest) =~= (before + fe) + rest);
        }
        i = i + 1;
    }
    proof {
        assert(pending_fields(design@, solved@, fs, fs.len() as int, path_prefix@, fuel as nat) =~= Seq::<PendingView>::empty());
        assert(pending_views(pending@) + Seq::<PendingView>::empty() =~= pending_views(pending@));
    }
}

/// Collects the components found through one field.
fn collect_field(
    design: &Design,
    solved: &PropertyMap,
    mapper: &LibraryMapper,
    fid: FieldId,
    path_prefix: &str,
    fuel: usize,
    pending: &mut Vec<Pending>,
)
    requires
        design.wf(),
        mapper.wf(),
        fuel > 0,
    ensures
        pending_views(final(pending)@) == pending_views(old(pending)@)
            + field_entries(design@, solved@, fid, path_prefix@, fuel as nat),
    decreases fuel, 1int, 0int,
{
    let ghost start = pending_views(pending@);
    match design.get_field(fid) {
        Some(field) => match &field.kind {
            FieldKind::Instance { count, resolved_type: Some(t), .. } => {
                let t = *t;
                let skip = match design.get_module(t) {
                    Some(tm) => tm.is_interface(),
                    None => false,
                };
                if skip {
                    assert(pending_views(pending@) =~= start + Seq::<PendingView>::empty());
                    return;
                }
                let n: u32 = match count {
                    Some(c) => if *c > 1 {
                        *c
                    } else {
                        1
                    },
                    None => 1,
                };
                assert(n as nat == copies(*count));
                if is_physical_component(design, t) {
                    push_leaf_copies(design, solved, mapper, t, field.name.as_str(), path_prefix, n, pending);
                } else if module_has_instances(design, t) {
                    let ghost name = field.name@;
                    let mut idx: u32 = 0;
                    while idx < n
                        invariant
                            design.wf(),
                            mapper.wf(),
                            fuel > 0,
                            idx <= n,
                            name == field.name@,
                            pending_views(pending@) + container_copies(design@, solved@, t, name, path_prefix@, n as nat, idx as nat, fuel as nat)
                                == start + container_copies(design@, solved@, t, name, path_prefix@, n as nat, 0, fuel as nat),
                        decreases n - idx,
                    {
                        let sub = child_path_of(path_prefix, field.name.as_str(), n > 1, idx);
                        let ghost before = pending_views(pending@);
                        collect_components_pending(design, solved, mapper, t, sub.as_str(), fuel - 1, pending);
                        proof {
                            let here = pending_in(design@, solved@, t, sub@, (fuel - 1) as nat);
                            let rest = container_copies(design@, solved@, t, name, path_prefix@, n as nat, (idx + 1) as nat, fuel as nat);
                            assert(container_copies(design@, solved@, t, name, path_prefix@, n as nat, idx as nat, fuel as nat) == here + rest);
                            assert(before + (here + rest) =~= (before + here) + rest);
                        }
                        idx = idx + 1;
                    }
                    proof {
                        assert(container_copies(design@, solved@, t, name, path_prefix@, n as nat, n as nat, fuel as nat) =~= Seq::<PendingView>::empty());
                        assert(pending_views(pending@) + Seq::<PendingView>::empty() =~= pending_views(pending@));
                    }
                } else {
                    assert(pending_views(pending@) =~= start + Seq::<PendingView>::empty());
                }
            },
            _ => {
                assert(pending_views(pending@) =~= start + Seq::<PendingView>::empty());
            },
        },
        None => {
            assert(pending_views(pending@) =~= start + Seq::<PendingView>::empty());
        },
    }
}


/// Whether the field `f` is an instance of the module `m`.
pub open spec fn instance_of(d: DesignView, f: FieldId, m: ModuleId) -> bool {
    field_at(d, f) matches Some(field)
        && (field.kind matches FieldKind::Instance { resolved_type: Some(t), .. } && t == m)
}

/// Whether a module has `m` as its super type or as the type of one of its instances.
pub open spec fn module_uses(d: DesignView, module: Module, m: ModuleId) -> bool {
    module.super_type == Some(m)
        || exists|k: int| 0 <= k < module.fields@.len() && #[trigger] instance_of(d, module.fields@[k], m)
}

/// Whether some module of the design uses `m` as a type.
pub open spec fn used_as_type(d: DesignView, m: ModuleId) -> bool {
    exists|i: int| 0 <= i < d.modules.len() && #[trigger] module_uses(d, d.modules[i], m)
}

/// Whether a module is a root of the collection: not an interface, and
/// used as a type by no module.
pub open spec fn is_root(d: DesignView, module: Module) -> bool {
    module.kind != ModuleKind::Interface && !used_as_type(d, module.id)
}

/// The components found below the root modules from index `i` on.
pub open spec fn pending_roots_from(d: DesignView, solved: Seq<(Seq<char>, Seq<char>)>, i: int, fuel: nat) -> Seq<PendingView>
    decreases d.modules.len() - i,
{
    if i < 0 || i >= d.modules.len() {
        Seq::empty()
    } else {
        (if is_root(d, d.modules[i]) {
            pending_in(d, solved, d.modules[i].id, Seq::empty(), fuel)
        } else {
            Seq::empty()
        }) + pending_roots_from(d, solved, i + 1, fuel)
    }
}

/// The component for a module picked up by itself.
pub open spec fn legacy_entry(d: DesignView, solved: Seq<(Seq<char>, Seq<char>)>, module: Module) -> PendingView {
    PendingView {
        path: module.name@,
        prefix: designator_prefix(d, module.id),
        value: module_value(d, solved, module.id),
        module_name: module.name@,
        footprint: footprint_info(d, solved, module.id),
        array_index: None,
        instance: false,
    }
}

/// Whether some component so far has the module name `name`.
pub open spec fn has_module_name(ps: Seq<PendingView>, name: Seq<char>) -> bool {
    exists|j: int| 0 <= j < ps.len() && #[trigger] ps[j].module_name == name
}

/// The components after picking up, from the modules from index `i` on,
/// those with pins that are neither interfaces nor used as a type and whose
/// name no component so far has.
pub open spec fn legacy_from(d: DesignView, solved: Seq<(Seq<char>, Seq<char>)>, i: int, ps: Seq<PendingView>) -> Seq<PendingView>
    decreases d.modules.len() - i,
{
    if i < 0 || i >= d.modules.len() {
        ps
    } else {
        let module = d.modules[i];
        let add = !used_as_type(d, module.id) && module.kind != ModuleKind::Interface
            && !has_module_name(ps, module.name@) && has_pins(d, module.id);
        legacy_from(d, solved, i + 1, if add { ps.push(legacy_entry(d, solved, module)) } else { ps })
    }
}

/// All components of the design, in the order they are found: below the
/// entry module when there is one; else below each root module, then the
/// modules picked up by themselves. The walk goes as many levels deep as
/// the design has modules.
pub open spec fn pending_all(d: DesignView, solved: Seq<(Seq<char>, Seq<char>)>, entry: Option<ModuleId>) -> Seq<PendingView> {
    match entry {
        Some(e) => pending_in(d, solved, e, Seq::empty(), d.modules.len()),
        None => legacy_from(d, solved, 0, pending_roots_from(d, solved, 0, d.modules.len())),
    }
}

/// Components in designator order: by prefix, then by path in natural order.
pub open spec fn pending_order(a: PendingView, b: PendingView) -> Comparison {
    let c = lex_order(a.prefix, b.prefix);
    if c == Comparison::Equal {
        natural_order(a.path, b.path)
    } else {
        c
    }
}

/// [`pending_order`] as a function value.
pub open spec fn pending_ord() -> spec_fn(PendingView, PendingView) -> Comparison {
    |a: PendingView, b: PendingView| pending_order(a, b)
}

/// The number of components before index `k` whose prefix is `q`.
pub open spec fn prefix_count(ps: Seq<PendingView>, q: Seq<char>, k: int) -> nat
    decreases k,
{
    if k <= 0 || ps.len() == 0 {
        0
    } else if k > ps.len() {
        prefix_count(ps, q, ps.len() as int)
    } else {
        prefix_count(ps, q, k - 1) + if ps[k - 1].prefix == q { 1nat } else { 0nat }
    }
}

/// The netlist component for a found component and its designator: its
/// `module`, `array_index` and `instance` properties, its footprint and its
/// `lcsc` property.
pub open spec fn component_of(p: PendingView, reference: Seq<char>) -> ComponentView {
    let props0 = set_entry(Seq::empty(), "module"@, p.module_name);
    let props1 = match p.array_index {
        Some(k) => set_entry(props0, "array_index"@, dec_digits(k)),
        None => props0,
    };
    let props2 = if p.instance {
        set_entry(props1, "instance"@, p.path)
    } else {
        props1
    };
    let props3 = match p.footprint.lcsc {
        Some(l) => set_entry(props2, "lcsc"@, l),
        None => props2,
    };
    ComponentView {
        reference: reference,
        value: p.value,
        footprint: p.footprint.footprint,
        properties: props3,
    }
}

/// The netlist components for components in designator order: each gets
/// its prefix and the number of components with that prefix so far, plus one.
pub open spec fn assigned(ps: Seq<PendingView>) -> Seq<ComponentView> {
    Seq::new(ps.len(), |i: int| component_of(ps[i], ps[i].prefix + dec_digits(prefix_count(ps, ps[i].prefix, i) + 1)))
}

/// The netlist components of the design, before the final ordering.
#[verifier::opaque]
pub open spec fn collected(d: DesignView, solved: Seq<(Seq<char>, Seq<char>)>, entry: Option<ModuleId>) -> Seq<ComponentView> {
    assigned(isort_by(pending_all(d, solved, entry), pending_ord()))
}

/// Builds a netlist from a design.
pub struct NetlistBuilder<'a> {
    design: &'a Design,
    ref_counters: NameTable<u64>,
    netlist: Netlist,
    solved_values: PropertyMap,
    entry_module: Option<ModuleId>,
}

impl<'a> NetlistBuilder<'a> {
    /// The design the netlist is built from.
    pub closed spec fn design_view(&self) -> DesignView {
        self.design@
    }

    /// The solved parameter values: field paths mapped to value texts.
    pub closed spec fn solved(&self) -> Seq<(Seq<char>, Seq<char>)> {
        self.solved_values@
    }

    /// The entry module, if one was set.
    pub closed spec fn entry(&self) -> Option<ModuleId> {
        self.entry_module
    }

    /// How many designators with the prefix `q` have been handed out.
    pub closed spec fn ref_count(&self, q: Seq<char>) -> nat {
        counter(self.ref_counters@, q)
    }

    /// The builder's tables are consistent and its design well formed.
    pub closed spec fn wf(&self) -> bool {
        &&& self.design.wf()
        &&& self.ref_counters.wf()
    }

    /// Nothing has been built yet.
    pub closed spec fn is_unbuilt(&self) -> bool {
        &&& self.netlist.components@.len() == 0
        &&& self.netlist.nets@.len() == 0
        &&& self.netlist.metadata.title is None
        &&& self.netlist.metadata.date is None
        &&& self.netlist.metadata.tool is None
        &&& self.netlist.metadata.source is None
    }

    /// A builder for the design, without solved values or entry module.
    pub fn new(design: &'a Design) -> (b: Self)
        requires
            design.wf(),
        ensures
            b.wf(),
            b.is_unbuilt(),
            b.design_view() == design@,
            b.solved() == Seq::<(Seq<char>, Seq<char>)>::empty(),
            b.entry() is None,
            forall|q: Seq<char>| #[trigger] b.ref_count(q) == 0,
    {
        NetlistBuilder {
            design: design,
            ref_counters: NameTable::new(),
            netlist: Netlist::new(),
            solved_values: PropertyMap::new(),
            entry_module: None,
        }
    }

    /// This builder with solved parameter values.
    pub fn with_solved_values(self, solved_values: PropertyMap) -> (b: Self)
        ensures
            b.wf() == self.wf(),
            b.is_unbuilt() == self.is_unbuilt(),
            b.design_view() == self.design_view(),
            b.solved() == solved_values@,
            b.entry() == self.entry(),
            forall|q: Seq<char>| #[trigger] b.ref_count(q) == self.ref_count(q),
    {
        let mut b = self;
        b.solved_values = solved_values;
        b
    }

    /// This builder with an entry module, below which the components are collected.
    pub fn with_entry_module(self, entry_module: ModuleId) -> (b: Self)
        ensures
            b.wf() == self.wf(),
            b.is_unbuilt() == self.is_unbuilt(),
            b.design_view() == self.design_view(),
            b.solved() == self.solved(),
            b.entry() == Some(entry_module),
            forall|q: Seq<char>| #[trigger] b.ref_count(q) == self.ref_count(q),
    {
        let mut b = self;
        b.entry_module = Some(entry_module);
        b
    }

    /// The next designator for `prefix`: the prefix and the number of
    /// designators with it so far, plus one.
    pub fn generate_reference(&mut self, prefix: &str) -> (r: String)
        requires
            old(self).wf(),
            old(self).ref_count(prefix@) < u64::MAX,
        ensures
            final(self).wf(),
            final(self).is_unbuilt() == old(self).is_unbuilt(),
            final(self).design_view() == old(self).design_view(),
            final(self).solved() == old(self).solved(),
            final(self).entry() == old(self).entry(),
            final(self).ref_count(prefix@) == old(self).ref_count(prefix@) + 1,
            forall|q: Seq<char>| q != prefix@ ==> #[trigger] final(self).ref_count(q) == old(self).ref_count(q),
            r@ == prefix@ + dec_digits(final(self).ref_count(prefix@)),
    {
        next_reference(&mut self.ref_counters, prefix)
    }
}

/// How many designators with the prefix `q` a table of counters records.
spec fn counter(t: Map<Seq<char>, u64>, q: Seq<char>) -> nat {
    if t.contains_key(q) {
        t[q] as nat
    } else {
        0
    }
}

/// Counts one more designator for `prefix` and returns it.
fn next_reference(counters: &mut NameTable<u64>, prefix: &str) -> (r: String)
    requires
        old(counters).wf(),
        counter(old(counters)@, prefix@) < u64::MAX,
    ensures
        final(counters).wf(),
        counter(final(counters)@, prefix@) == counter(old(counters)@, prefix@) + 1,
        forall|q: Seq<char>| q != prefix@ ==> #[trigger] counter(final(counters)@, q) == counter(old(counters)@, q),
        r@ == prefix@ + dec_digits(counter(final(counters)@, prefix@)),
{
    let count: u64 = match counters.get(prefix) {
        Some(c) => c + 1,
        None => 1,
    };
    counters.insert(prefix, count);
    let mut r = prefix.to_owned();
    push_decimal(&mut r, count);
    r
}

/// Whether some module of the design uses `m` as a type.
fn module_used_as_type(design: &Design, m: ModuleId) -> (b: bool)
    ensures
        b == used_as_type(design@, m),
{
    let modules = design.modules();
    let mut i: usize = 0;
    while i < modules.len()
        invariant
            i <= modules.len(),
            modules@ == design@.modules,
            forall|k: int| 0 <= k < i ==> !#[trigger] module_uses(design@, design@.modules[k], m),
        decreases modules.len() - i,
    {
        let module = &modules[i];
        if module.super_type == Some(m) {
            assert(module_uses(design@, design@.modules[i as int], m));
            return true;
        }
        let mut j: usize = 0;
        while j < module.fields.len()
            invariant
                j <= module.fields.len(),
                i < modules.len(),
                modules@ == design@.modules,
                *module == design@.modules[i as int],
                forall|k: int| 0 <= k < j ==> !#[trigger] instance_of(design@, module.fields@[k], m),
            decreases module.fields.len() - j,
        {
            match design.get_field(module.fields[j]) {
                Some(field) => match &field.kind {
                    FieldKind::Instance { resolved_type: Some(t), .. } => {
                        if *t == m {
                            assert(instance_of(design@, module.fields@[j as int], m));
                            assert(module_uses(design@, design@.modules[i as int], m));
                            return true;
                        }
                    },
                    _ => {},
                },
                None => {},
            }
            j = j + 1;
        }
        i = i + 1;
    }
    false
}

/// Whether some component so far has the module name `name`.
fn pending_has_module_name(pending: &Vec<Pending>, name: &str) -> (b: bool)
    ensures
        b == has_module_name(pending_views(pending@), name@),
{
    let mut i: usize = 0;
    while i < pending.len()
        invariant
            i <= pending.len(),
            forall|k: int| 0 <= k < i ==> #[trigger] pending_views(pending@)[k].module_name != name@,
        decreases pending.len() - i,
    {
        if str_eq(pending[i].module_name.as_str(), name) {
            assert(pending_views(pending@)[i as int].module_name == name@);
            return true;
        }
        i = i + 1;
    }
    false
}

/// The component for a module picked up by itself.
fn legacy_entry_of(design: &Design, solved: &PropertyMap, mapper: &LibraryMapper, module: &Module) -> (p: Pending)
    requires
        design.wf(),
        mapper.wf(),
    ensures
        p@ == legacy_entry(design@, solved@, *module),
{
    Pending {
        path: module.name.clone(),
        prefix: get_designator_prefix(design, module.id),
        value: get_module_value(design, solved, module.id),
        module_name: module.name.clone(),
        footprint: extract_footprint_info(design, solved, mapper, module.id),
        array_index: None,
        instance: false,
    }
}

/// Collects all components of the design, in the order they are found.
fn collect_all_pending(design: &Design, solved: &PropertyMap, mapper: &LibraryMapper, entry: Option<ModuleId>) -> (r: Vec<Pending>)
    requires
        design.wf(),
        mapper.wf(),
    ensures
        pending_views(r@) == pending_all(design@, solved@, entry),
{
    let modules = design.modules();
    let fuel = modules.len();
    let top = String::new();
    let mut pending: Vec<Pending> = Vec::new();
    match entry {
        Some(e) => {
            collect_components_pending(design, solved, mapper, e, top.as_str(), fuel, &mut pending);
            proof {
                assert(pending_views(pending@) =~= pending_all(design@, solved@, entry));
            }
            return pending;
        },
        None => {},
    }
    let mut i: usize = 0;
    while i < modules.len()
        invariant
            design.wf(),
            mapper.wf(),
            modules@ == design@.modules,
            fuel == modules.len(),
            top@ == Seq::<char>::empty(),
            i <= modules.len(),
            pending_views(pending@) + pending_roots_from(design@, solved@, i as int, fuel as nat)
                == pending_roots_from(design@, solved@, 0, fuel as nat),
        decreases modules.len() - i,
    {
        let module = &modules[i];
        let ghost before = pending_views(pending@);
        let root = !module.is_interface() && !module_used_as_type(design, module.id);
        if root {
            collect_components_pending(design, solved, mapper, module.id, top.as_str(), fuel, &mut pending);
        }
        proof {
            let here = if is_root(design@, design@.modules[i as int]) {
                pending_in(design@, solved@, design@.modules[i as int].id, Seq::empty(), fuel as nat)
            } else {
                Seq::empty()
            };
            let rest = pending_roots_from(design@, solved@, i + 1, fuel as nat);
            assert(pending_views(pending@) =~= before + here);
            assert(before + (here + rest) =~= (before + here) + rest);
        }
        i = i + 1;
    }
    proof {
        assert(pending_views(pending@) + Seq::<PendingView>::empty() =~= pending_views(pending@));
    }
    let ghost roots = pending_views(pending@);
    let mut i: usize = 0;
    while i < modules.len()
        invariant
            design.wf(),
            mapper.wf(),
            modules@ == design@.modules,
            i <= modules.len(),
            legacy_from(design@, solved@, i as int, pending_views(pending@))
                == legacy_from(design@, solved@, 0, roots),
        decreases modules.len() - i,
    {
        let module = &modules[i];
        let add = !module_used_as_type(design, module.id) && !module.is_interface()
            && !pending_has_module_name(&pending, module.name.as_str()) && module_has_pins(design, module.id);
        if add {
            let entry = legacy_entry_of(design, solved, mapper, module);
            let ghost before = pending_views(pending@);
            pending.push(entry);
            proof {
                assert(pending_views(pending@) =~= before.push(entry@));
            }
        }
        i = i + 1;
    }
    pending
}


/// The netlist component for a found component and its designator.
fn make_component(p: &Pending, reference: &str) -> (c: NetlistComponent)
    ensures
        c@ == component_of(p@, reference@),
{
    let mut c = NetlistComponent::new(reference, p.value.as_str());
    c = c.with_property("module", p.module_name.as_str());
    match p.array_index {
        Some(k) => {
            let s = decimal(k as u64);
            c = c.with_property("array_index", s.as_str());
        },
        None => {},
    }
    if p.instance {
        c = c.with_property("instance", p.path.as_str());
    }
    match &p.footprint.footprint {
        Some(fp) => {
            c = c.with_footprint(fp.as_str());
        },
        None => {},
    }
    match &p.footprint.lcsc {
        Some(l) => {
            c = c.with_property("lcsc", l.as_str());
        },
        None => {},
    }
    c
}

proof fn lemma_prefix_count_bound(ps: Seq<PendingView>, q: Seq<char>, k: int)
    requires
        0 <= k <= ps.len(),
    ensures
        prefix_count(ps, q, k) <= k,
    decreases k,
{
    if k > 0 {
        lemma_prefix_count_bound(ps, q, k - 1);
    }
}

/// The views of netlist components.
pub open spec fn component_views(cs: Seq<NetlistComponent>) -> Seq<ComponentView> {
    cs.map_values(|c: NetlistComponent| c@)
}

spec fn key_matches(e: (PairKey<TextKey, NaturalKey>, Pending)) -> bool {
    e.0.0.0@ == e.1@.prefix && e.0.1.0@ == e.1@.path
}

spec fn keyed_views(s: Seq<(PairKey<TextKey, NaturalKey>, Pending)>) -> Seq<PendingView> {
    s.map_values(|e: (PairKey<TextKey, NaturalKey>, Pending)| e.1@)
}

/// The found components in designator order.
fn sort_pending(pending: Vec<Pending>) -> (r: Vec<(PairKey<TextKey, NaturalKey>, Pending)>)
    ensures
        keyed_views(r@) == isort_by(pending_views(pending@), pending_ord()),
{
    let ghost orig = pending@;
    let mut pending = pending;
    let mut keyed: Vec<(PairKey<TextKey, NaturalKey>, Pending)> = Vec::new();
    while pending.len() > 0
        invariant
            keyed.len() <= orig.len(),
            pending@ == orig.skip(keyed.len() as int),
            forall|i: int| 0 <= i < keyed.len() ==> #[trigger] keyed@[i].1 == orig[i] && key_matches(keyed@[i]),
        decreases pending.len(),
    {
        proof {
            assert(pending@[0] == orig[keyed.len() as int]);
        }
        let p = pending.remove(0);
        let key = PairKey(TextKey(chars_of(p.prefix.as_str())), NaturalKey(chars_of(p.path.as_str())));
        keyed.push((key, p));
        proof {
            assert(pending@ =~= orig.skip(keyed.len() as int));
        }
    }
    proof {
        assert(keyed.len() == orig.len());
        assert(keyed_views(keyed@) =~= pending_views(orig));
    }
    let ghost before = keyed@;
    sort_by_key(&mut keyed);
    proof {
        let f = |e: (PairKey<TextKey, NaturalKey>, Pending)| e.1@;
        let km = |e: (PairKey<TextKey, NaturalKey>, Pending)| key_matches(e);
        assert forall|i: int| 0 <= i < before.len() implies km(#[trigger] before[i]) by {}
        assert forall|a: (PairKey<TextKey, NaturalKey>, Pending), b: (PairKey<TextKey, NaturalKey>, Pending)|
            km(a) && km(b) implies #[trigger] by_key::<PairKey<TextKey, NaturalKey>, Pending>()(a, b)
                == pending_ord()(f(a), f(b)) by {}
        lemma_isort_map(before, f, km, by_key::<PairKey<TextKey, NaturalKey>, Pending>(), pending_ord());
        assert(keyed_views(keyed@) =~= isort_by(before, by_key::<PairKey<TextKey, NaturalKey>, Pending>()).map_values(f));
        assert(before.map_values(f) =~= pending_views(orig));
    }
    keyed
}

proof fn lemma_assigned_step(ps: Seq<PendingView>, i: int)
    requires
        0 <= i < ps.len(),
    ensures
        assigned(ps).take(i + 1) == assigned(ps).take(i).push(
            component_of(ps[i], ps[i].prefix + dec_digits(prefix_count(ps, ps[i].prefix, i) + 1))),
{
    assert(assigned(ps).take(i + 1) =~= assigned(ps).take(i).push(assigned(ps)[i]));
}

impl<'a> NetlistBuilder<'a> {
    /// Gives each of the components, in order, its designator, and adds it
    /// to the netlist.
    #[verifier::spinoff_prover]
    #[verifier::rlimit(60)]
    fn assign_references(&mut self, keyed: Vec<(PairKey<TextKey, NaturalKey>, Pending)>)
        requires
            old(self).wf(),
            old(self).netlist.components@.len() == 0,
            forall|q: Seq<char>| #[trigger] old(self).ref_count(q) == 0,
        ensures
            final(self).wf(),
            final(self).design_view() == old(self).design_view(),
            final(self).solved() == old(self).solved(),
            final(self).entry() == old(self).entry(),
            component_views(final(self).netlist.components@) == assigned(keyed_views(keyed@)),
            final(self).netlist.nets == old(self).netlist.nets,
            final(self).netlist.metadata == old(self).netlist.metadata,
    {
        let ghost sorted = keyed@;
        let ghost ps = keyed_views(sorted);
        let mut keyed = keyed;
        let n = keyed.len();
        let mut i: usize = 0;
        proof {
            assert(component_views(self.netlist.components@) =~= assigned(ps).take(0));
            assert forall|q: Seq<char>| #[trigger] counter(self.ref_counters@, q) == prefix_count(ps, q, 0) by {
                assert(old(self).ref_count(q) == 0);
            }
        }
        while keyed.len() > 0
            invariant
                self.wf(),
                self.design@ == old(self).design@,
                self.solved_values@ == old(self).solved_values@,
                self.entry_module == old(self).entry_module,
                self.netlist.nets == old(self).netlist.nets,
                self.netlist.metadata == old(self).netlist.metadata,
                ps == keyed_views(sorted),
                n == sorted.len(),
                ps.len() == n,
                i + keyed.len() == n,
                keyed@ == sorted.skip(i as int),
                component_views(self.netlist.components@) == assigned(ps).take(i as int),
                forall|q: Seq<char>| #[trigger] counter(self.ref_counters@, q) == prefix_count(ps, q, i as int),
            decreases keyed.len(),
        {
            proof {
                assert(keyed@[0] == sorted[i as int]);
                assert(ps[i as int] == sorted[i as int].1@);
                lemma_prefix_count_bound(ps, ps[i as int].prefix, i as int);
            }
            let (_key, p) = keyed.remove(0);
            let reference = next_reference(&mut self.ref_counters, p.prefix.as_str());
            let c = make_component(&p, reference.as_str());
            let ghost comps_before = component_views(self.netlist.components@);
            self.netlist.add_component(c);
            proof {
                assert(component_views(self.netlist.components@) =~= comps_before.push(c@));
                lemma_assigned_step(ps, i as int);
                assert forall|q: Seq<char>| #[trigger] counter(self.ref_counters@, q) == prefix_count(ps, q, i + 1) by {}
                assert(keyed@ =~= sorted.skip(i + 1));
            }
            i = i + 1;
        }
        proof {
            assert(assigned(ps).take(n as int) =~= assigned(ps));
        }
    }

    /// Collects the components of the design and gives each its designator.
    fn collect_components(&mut self)
        requires
            old(self).wf(),
            old(self).netlist.components@.len() == 0,
            forall|q: Seq<char>| #[trigger] old(self).ref_count(q) == 0,
        ensures
            final(self).wf(),
            final(self).design_view() == old(self).design_view(),
            final(self).solved() == old(self).solved(),
            final(self).entry() == old(self).entry(),
            component_views(final(self).netlist.components@)
                == collected(old(self).design_view(), old(self).solved(), old(self).entry()),
            final(self).netlist.nets == old(self).netlist.nets,
            final(self).netlist.metadata == old(self).netlist.metadata,
    {
        let mapper = LibraryMapper::new();
        let pending = collect_all_pending(self.design, &self.solved_values, &mapper, self.entry_module);
        let keyed = sort_pending(pending);
        self.assign_references(keyed);
        proof {
            reveal(collected);
        }
    }
}


/// The instance prefixes found by walking down from the module `m` at
/// `prefix`, skipping module and prefix pairs already visited, with the
/// visited pairs after the walk; instances of interfaces without
/// connections are not entered, and the walk goes at most `fuel` levels deep.
pub open spec fn walk_in(d: DesignView, m: ModuleId, prefix: Seq<char>, visited: Set<(ModuleId, Seq<char>)>, fuel: nat) -> (Seq<(ModuleId, Seq<char>)>, Set<(ModuleId, Seq<char>)>)
    decreases fuel, 3int, 0int,
{
    if visited.contains((m, prefix)) {
        (Seq::empty(), visited)
    } else {
        let v1 = visited.insert((m, prefix));
        let here = seq![(m, prefix)];
        if fuel == 0 {
            (here, v1)
        } else {
            match module_at(d, m) {
                Some(module) => {
                    let r = walk_fields(d, module.fields@, 0, prefix, v1, fuel);
                    (here + r.0, r.1)
                },
                None => (here, v1),
            }
        }
    }
}

/// The walk through the fields from index `i` on.
pub open spec fn walk_fields(d: DesignView, fs: Seq<FieldId>, i: int, prefix: Seq<char>, visited: Set<(ModuleId, Seq<char>)>, fuel: nat) -> (Seq<(ModuleId, Seq<char>)>, Set<(ModuleId, Seq<char>)>)
    decreases fuel, 2int, fs.len() - i,
{
    if i < 0 || i >= fs.len() {
        (Seq::empty(), visited)
    } else {
        let a = walk_field(d, fs[i], prefix, visited, fuel);
        let b = walk_fields(d, fs, i + 1, prefix, a.1, fuel);
        (a.0 + b.0, b.1)
    }
}

/// The walk through one field.
pub open spec fn walk_field(d: DesignView, f: FieldId, prefix: Seq<char>, visited: Set<(ModuleId, Seq<char>)>, fuel: nat) -> (Seq<(ModuleId, Seq<char>)>, Set<(ModuleId, Seq<char>)>)
    decreases fuel, 1int, 0int,
{
    match field_at(d, f) {
        Some(field) => match field.kind {
            FieldKind::Instance { count, resolved_type: Some(t), .. } => {
                if module_at(d, t) matches Some(tm) && tm.kind == ModuleKind::Interface && tm.connections@.len() == 0 {
                    (Seq::empty(), visited)
                } else {
                    walk_copies(d, t, field.name@, prefix, copies(count), 0, visited, fuel)
                }
            },
            _ => (Seq::empty(), visited),
        },
        None => (Seq::empty(), visited),
    }
}

/// The walk through the copies from `idx` on of an instance.
pub open spec fn walk_copies(d: DesignView, t: ModuleId, name: Seq<char>, prefix: Seq<char>, n: nat, idx: nat, visited: Set<(ModuleId, Seq<char>)>, fuel: nat) -> (Seq<(ModuleId, Seq<char>)>, Set<(ModuleId, Seq<char>)>)
    decreases fuel, 0int, n - idx,
{
    if idx >= n || fuel == 0 {
        (Seq::empty(), visited)
    } else {
        let a = walk_in(d, t, child_path(prefix, name, n > 1, idx), visited, (fuel - 1) as nat);
        let b = walk_copies(d, t, name, prefix, n, idx + 1, a.1, fuel);
        (a.0 + b.0, b.1)
    }
}

/// The top prefix of every module that is not an interface, from index `i` on.
pub open spec fn module_tops_from(d: DesignView, i: int) -> Seq<(ModuleId, Seq<char>)>
    decreases d.modules.len() - i,
{
    if i < 0 || i >= d.modules.len() {
        Seq::empty()
    } else {
        (if d.modules[i].kind != ModuleKind::Interface {
            seq![(d.modules[i].id, Seq::<char>::empty())]
        } else {
            Seq::empty()
        }) + module_tops_from(d, i + 1)
    }
}

/// The instance prefixes of the modules, as pairs in the order they are
/// found: with an entry module, the top prefix of the entry and the walk
/// down from it; else the top prefix of every module that is not an interface.
pub open spec fn instance_prefixes(d: DesignView, entry: Option<ModuleId>) -> Seq<(ModuleId, Seq<char>)> {
    match entry {
        Some(e) => seq![(e, Seq::<char>::empty())]
            + walk_in(d, e, Seq::empty(), Set::empty(), d.modules.len()).0,
        None => module_tops_from(d, 0),
    }
}

spec fn visited_set(v: Seq<(ModuleId, String)>) -> Set<(ModuleId, Seq<char>)> {
    Set::new(|e: (ModuleId, Seq<char>)| exists|k: int| 0 <= k < v.len() && v[k].0 == e.0 && #[trigger] v[k].1@ == e.1)
}

spec fn pair_views(v: Seq<(ModuleId, String)>) -> Seq<(ModuleId, Seq<char>)> {
    v.map_values(|e: (ModuleId, String)| (e.0, e.1@))
}

fn was_visited(visited: &Vec<(ModuleId, String)>, m: ModuleId, prefix: &str) -> (b: bool)
    ensures
        b == visited_set(visited@).contains((m, prefix@)),
{
    let mut k: usize = 0;
    while k < visited.len()
        invariant
            k <= visited.len(),
            forall|j: int| 0 <= j < k ==> !(visited@[j].0 == m && #[trigger] visited@[j].1@ == prefix@),
        decreases visited.len() - k,
    {
        if visited[k].0 == m && str_eq(visited[k].1.as_str(), prefix) {
            assert(visited@[k as int].1@ == prefix@);
            return true;
        }
        k = k + 1;
    }
    false
}

/// Walks down from the module `module_id` at `prefix`, adding the pairs it finds.
fn walk_module_for_prefixes(
    design: &Design,
    module_id: ModuleId,
    prefix: &str,
    fuel: usize,
    pairs: &mut Vec<(ModuleId, String)>,
    visited: &mut Vec<(ModuleId, String)>,
)
    requires
        design.wf(),
    ensures
        ({
            let r = walk_in(design@, module_id, prefix@, visited_set(old(visited)@), fuel as nat);
            &&& pair_views(final(pairs)@) == pair_views(old(pairs)@) + r.0
            &&& visited_set(final(visited)@) == r.1
        }),
    decreases fuel, 3int, 0int,
{
    let ghost v0 = visited_set(visited@);
    if was_visited(visited, module_id, prefix) {
        assert(pair_views(pairs@) =~= pair_views(old(pairs)@) + Seq::<(ModuleId, Seq<char>)>::empty());
        return;
    }
    visited.push((module_id, prefix.to_owned()));
    pairs.push((module_id, prefix.to_owned()));
    proof {
        assert(visited_set(visited@) =~= v0.insert((module_id, prefix@))) by {
            assert forall|e: (ModuleId, Seq<char>)| visited_set(visited@).contains(e) implies v0.insert((module_id, prefix@)).contains(e) by {
                let k = choose|k: int| 0 <= k < visited@.len() && visited@[k].0 == e.0 && #[trigger] visited@[k].1@ == e.1;
                if k < visited@.len() - 1 {
                    assert(old(visited)@[k] == visited@[k]);
                }
            }
            assert forall|e: (ModuleId, Seq<char>)| v0.insert((module_id, prefix@)).contains(e) implies visited_set(visited@).contains(e) by {
                if e == (module_id, prefix@) {
                    assert(visited@[visited@.len() - 1].1@ == e.1);
                } else {
                    let k = choose|k: int| 0 <= k < old(visited)@.len() && old(visited)@[k].0 == e.0 && #[trigger] old(visited)@[k].1@ == e.1;
                    assert(visited@[k] == old(visited)@[k]);
                }
            }
        }
        assert(pair_views(pairs@) =~= pair_views(old(pairs)@) + seq![(module_id, prefix@)]);
    }
    if fuel == 0 {
        return;
    }
    let module = match design.get_module(module_id) {
        Some(m) => m,
        None => {
            return;
        },
    };
    let ghost fs = module.fields@;
    let ghost here = pair_views(pairs@);
    let ghost v1 = visited_set(visited@);
    let mut i: usize = 0;
    proof {
        assert(here + Seq::<(ModuleId, Seq<char>)>::empty() =~= here);
    }
    while i < module.fields.len()
        invariant
            design.wf(),
            fuel > 0,
            fs == module.fields@,
            i <= fs.len(),
            ({
                let r0 = walk_fields(design@, fs, 0, prefix@, v1, fuel as nat);
                let ri = walk_fields(design@, fs, i as int, prefix@, visited_set(visited@), fuel as nat);
                &&& pair_views(pairs@) + ri.0 == here + r0.0
                &&& ri.1 == r0.1
            }),
        decreases fs.len() - i,
    {
        let ghost before = pair_views(pairs@);
        let ghost vb = visited_set(visited@);
        walk_field_for_prefixes(design, module.fields[i], prefix, fuel, pairs, visited);
        proof {
            let a = walk_field(design@, fs[i as int], prefix@, vb, fuel as nat);
            let b = walk_fields(design@, fs, i + 1, prefix@, a.1, fuel as nat);
            assert(walk_fields(design@, fs, i as int, prefix@, vb, fuel as nat) == (a.0 + b.0, b.1));
            assert(before + (a.0 + b.0) =~= (before + a.0) + b.0);
        }
        i = i + 1;
    }
    proof {
        let rl = walk_fields(design@, fs, fs.len() as int, prefix@, visited_set(visited@), fuel as nat);
        assert(rl.0 =~= Seq::<(ModuleId, Seq<char>)>::empty());
        assert(pair_views(pairs@) + rl.0 =~= pair_views(pairs@));
    }
}

/// Walks through one field.
fn walk_field_for_prefixes(
    design: &Design,
    fid: FieldId,
    prefix: &str,
    fuel: usize,
    pairs: &mut Vec<(ModuleId, String)>,
    visited: &mut Vec<(ModuleId, String)>,
)
    requires
        design.wf(),
        fuel > 0,
    ensures
        ({
            let r = walk_field(design@, fid, prefix@, visited_set(old(visited)@), fuel as nat);
            &&& pair_views(final(pairs)@) == pair_views(old(pairs)@) + r.0
            &&& visited_set(final(visited)@) == r.1
        }),
    decreases fuel, 1int, 0int,
{
    let ghost start = pair_views(pairs@);
    let ghost v0 = visited_set(visited@);
    match design.get_field(fid) {
        Some(field) => match &field.kind {
            FieldKind::Instance { count, resolved_type: Some(t), .. } => {
                let t = *t;
                let skip = match design.get_module(t) {
                    Some(tm) => tm.is_interface() && tm.connections.len() == 0,
                    None => false,
                };
                if skip {
                    assert(pair_views(pairs@) =~= start + Seq::<(ModuleId, Seq<char>)>::empty());
                    return;
                }
                let n: u32 = match count {
                    Some(c) => if *c > 1 {
                        *c
                    } else {
                        1
                    },
                    None => 1,
                };
                assert(n as nat == copies(*count));
                let ghost name = field.name@;
                let mut idx: u32 = 0;
                while idx < n
                    invariant
                        design.wf(),
                        fuel > 0,
                        idx <= n,
                        name == field.name@,
                        ({
                            let r0 = walk_copies(design@, t, name, prefix@, n as nat, 0, v0, fuel as nat);
                            let ri = walk_copies(design@, t, name, prefix@, n as nat, idx as nat, visited_set(visited@), fuel as nat);
                            &&& pair_views(pairs@) + ri.0 == start + r0.0
                            &&& ri.1 == r0.1
                        }),
                    decreases n - idx,
                {
                    let sub = child_path_of(prefix, field.name.as_str(), n > 1, idx);
                    let ghost before = pair_views(pairs@);
                    let ghost vb = visited_set(visited@);
                    walk_module_for_prefixes(design, t, sub.as_str(), fuel - 1, pairs, visited);
                    proof {
                        let a = walk_in(design@, t, sub@, vb, (fuel - 1) as nat);
                        let b = walk_copies(design@, t, name, prefix@, n as nat, (idx + 1) as nat, a.1, fuel as nat);
                        assert(walk_copies(design@, t, name, prefix@, n as nat, idx as nat, vb, fuel as nat) == (a.0 + b.0, b.1));
                        assert(before + (a.0 + b.0) =~= (before + a.0) + b.0);
                    }
                    idx = idx + 1;
                }
                proof {
                    let rl = walk_copies(design@, t, name, prefix@, n as nat, n as nat, visited_set(visited@), fuel as nat);
                    assert(rl.0 =~= Seq::<(ModuleId, Seq<char>)>::empty());
                    assert(pair_views(pairs@) + rl.0 =~= pair_views(pairs@));
                }
            },
            _ => {
                assert(pair_views(pairs@) =~= start + Seq::<(ModuleId, Seq<char>)>::empty());
            },
        },
        None => {
            assert(pair_views(pairs@) =~= start + Seq::<(ModuleId, Seq<char>)>::empty());
        },
    }
}

/// The instance prefixes of the modules, as pairs in the order they are found.
fn build_module_instance_prefixes(design: &Design, entry: Option<ModuleId>) -> (r: Vec<(ModuleId, String)>)
    requires
        design.wf(),
    ensures
        pair_views(r@) == instance_prefixes(design@, entry),
{
    let mut pairs: Vec<(ModuleId, String)> = Vec::new();
    let modules = design.modules();
    match entry {
        Some(e) => {
            pairs.push((e, String::new()));
            let mut visited: Vec<(ModuleId, String)> = Vec::new();
            let top = String::new();
            proof {
                assert(visited_set(visited@) =~= Set::<(ModuleId, Seq<char>)>::empty());
            }
            walk_module_for_prefixes(design, e, top.as_str(), modules.len(), &mut pairs, &mut visited);
            proof {
                assert(pair_views(pairs@) =~= instance_prefixes(design@, entry));
            }
        },
        None => {
            let mut i: usize = 0;
            while i < modules.len()
                invariant
                    modules@ == design@.modules,
                    i <= modules.len(),
                    pair_views(pairs@) + module_tops_from(design@, i as int) == module_tops_from(design@, 0),
                decreases modules.len() - i,
            {
                let ghost before = pair_views(pairs@);
                if !modules[i].is_interface() {
                    pairs.push((modules[i].id, String::new()));
                }
                proof {
                    let here = if design@.modules[i as int].kind != ModuleKind::Interface {
                        seq![(design@.modules[i as int].id, Seq::<char>::empty())]
                    } else {
                        Seq::empty()
                    };
                    assert(pair_views(pairs@) =~= before + here);
                    assert(before + (here + module_tops_from(design@, i + 1)) =~= (before + here) + module_tops_from(design@, i + 1));
                }
                i = i + 1;
            }
            proof {
                assert(pair_views(pairs@) + Seq::<(ModuleId, Seq<char>)>::empty() =~= pair_views(pairs@));
            }
        },
    }
    pairs
}


/// The dotted text of a field path's first `k` parts: names joined by dots
/// (no dot right after an opening bracket), indices as `[i]`, pin
/// references after a dot.
pub open spec fn format_parts(parts: Seq<FieldPathPart>, k: int) -> Seq<char>
    decreases k,
{
    if k <= 0 || k > parts.len() {
        Seq::empty()
    } else {
        let r = format_parts(parts, k - 1);
        match parts[k - 1] {
            FieldPathPart::Name(n) => (if r.len() > 0 && r.last() != '[' {
                r.push('.')
            } else {
                r
            }) + n@,
            FieldPathPart::Index(i) => r + seq!['['] + dec_digits(i as nat) + seq![']'],
            FieldPathPart::PinRef(p) => (if r.len() > 0 {
                r.push('.')
            } else {
                r
            }) + dec_digits(p as nat),
        }
    }
}

/// The path of an endpoint below `prefix`, when it names something.
pub open spec fn endpoint_path(d: DesignView, ep: ConnectionEndpoint, prefix: Seq<char>) -> Option<Seq<char>> {
    let base = match ep.kind {
        EndpointKind::FieldRef(path) => Some(format_parts(path.parts@, path.parts@.len() as int)),
        EndpointKind::SignalDef(n) => Some(n@),
        EndpointKind::PinDef(n) => Some(n@),
        EndpointKind::Resolved => match ep.resolved {
            Some(f) => match field_at(d, f) {
                Some(field) => Some(field.name@),
                None => None,
            },
            None => None,
        },
    };
    match base {
        Some(b) => Some(if prefix.len() == 0 {
            b
        } else {
            prefix + seq!['.'] + b
        }),
        None => None,
    }
}

/// The paths of the endpoints from index `i` on that name something.
pub open spec fn endpoint_paths(d: DesignView, eps: Seq<ConnectionEndpoint>, i: int, prefix: Seq<char>) -> Seq<Seq<char>>
    decreases eps.len() - i,
{
    if i < 0 || i >= eps.len() {
        Seq::empty()
    } else {
        (match endpoint_path(d, eps[i], prefix) {
            Some(p) => seq![p],
            None => Seq::empty(),
        }) + endpoint_paths(d, eps, i + 1, prefix)
    }
}

/// The name part of a path part: what comes before its first `[`.
pub open spec fn part_name(part: Seq<char>) -> Seq<char> {
    let k = first_occurrence_from(part, seq!['['], 0);
    if k <= part.len() {
        part.take(k)
    } else {
        part
    }
}

/// The names of the connectable fields from index `i` on.
pub open spec fn connectable_names_from(d: DesignView, fs: Seq<FieldId>, i: int) -> Seq<Seq<char>>
    decreases fs.len() - i,
{
    if i < 0 || i >= fs.len() {
        Seq::empty()
    } else {
        (match field_at(d, fs[i]) {
            Some(f) => if is_connectable_kind(f.kind) {
                seq![f.name@]
            } else {
                Seq::<Seq<char>>::empty()
            },
            None => Seq::empty(),
        }) + connectable_names_from(d, fs, i + 1)
    }
}

/// Following the path parts from index `i` on through instances from the
/// module `cur`: when the last part is an instance of an interface with
/// connectable fields, their names.
pub open spec fn resolve_iface(d: DesignView, parts: Seq<Seq<char>>, i: int, cur: ModuleId) -> Option<Seq<Seq<char>>>
    decreases parts.len() - i,
{
    if i < 0 || i >= parts.len() {
        None
    } else {
        match module_at(d, cur) {
            None => None,
            Some(module) => {
                let name = part_name(parts[i]);
                if !module.field_names@.contains_key(name) {
                    None
                } else {
                    match field_at(d, module.field_names@[name]) {
                        None => None,
                        Some(field) => match field.kind {
                            FieldKind::Instance { resolved_type: Some(t), .. } => match module_at(d, t) {
                                None => None,
                                Some(tm) => if i == parts.len() - 1 {
                                    if tm.kind == ModuleKind::Interface {
                                        let subs = connectable_names_from(d, tm.fields@, 0);
                                        if subs.len() > 0 {
                                            Some(subs)
                                        } else {
                                            None
                                        }
                                    } else {
                                        None
                                    }
                                } else {
                                    resolve_iface(d, parts, i + 1, t)
                                },
                            },
                            _ => None,
                        },
                    }
                }
            },
        }
    }
}

/// The connectable sub-fields of the interface instance a dotted path
/// names, read from the entry module.
pub open spec fn iface_fields(d: DesignView, entry: Option<ModuleId>, path: Seq<char>) -> Option<Seq<Seq<char>>> {
    match entry {
        Some(e) => resolve_iface(d, split_on(path, seq!['.']), 0, e),
        None => None,
    }
}

/// The graph edges that make `a` and `b` equivalent: for interface
/// instances, those of each pair of matching sub-fields, at most twenty
/// levels down; else the two directed edges between them.
pub open spec fn equiv_edges(d: DesignView, entry: Option<ModuleId>, a: Seq<char>, b: Seq<char>, depth: nat) -> Seq<(Seq<char>, Seq<char>)>
    decreases 21 - depth, 1int, 0int,
{
    if depth > 20 || a == b {
        Seq::empty()
    } else {
        let sub = match iface_fields(d, entry, a) {
            Some(fs) => Some(fs),
            None => iface_fields(d, entry, b),
        };
        match sub {
            Some(fs) => sub_edges(d, entry, a, b, fs, 0, depth),
            None => seq![(a, b), (b, a)],
        }
    }
}

/// The edges for the sub-fields from index `k` on.
pub open spec fn sub_edges(d: DesignView, entry: Option<ModuleId>, a: Seq<char>, b: Seq<char>, fs: Seq<Seq<char>>, k: int, depth: nat) -> Seq<(Seq<char>, Seq<char>)>
    decreases 21 - depth, 0int, fs.len() - k,
{
    if k < 0 || k >= fs.len() || depth > 20 {
        Seq::empty()
    } else {
        equiv_edges(d, entry, a + seq!['.'] + fs[k], b + seq!['.'] + fs[k], depth + 1)
            + sub_edges(d, entry, a, b, fs, k + 1, depth)
    }
}

/// The edges joining each path to the next, from index `k` on.
pub open spec fn chain_edges(d: DesignView, entry: Option<ModuleId>, ps: Seq<Seq<char>>, k: int) -> Seq<(Seq<char>, Seq<char>)>
    decreases ps.len() - k,
{
    if k < 0 || k + 1 >= ps.len() {
        Seq::empty()
    } else {
        equiv_edges(d, entry, ps[k], ps[k + 1], 0) + chain_edges(d, entry, ps, k + 1)
    }
}

/// The edges of one connection below `prefix`: a simple connection of two
/// paths joins them, a directed one joins each path to the next.
pub open spec fn conn_edges(d: DesignView, entry: Option<ModuleId>, c: Connection, prefix: Seq<char>) -> Seq<(Seq<char>, Seq<char>)> {
    let eps = endpoint_paths(d, c.endpoints@, 0, prefix);
    if c.kind == ConnectionKind::Simple && eps.len() == 2 {
        equiv_edges(d, entry, eps[0], eps[1], 0)
    } else if c.kind is Directed {
        chain_edges(d, entry, eps, 0)
    } else {
        Seq::empty()
    }
}

/// The prefixes recorded for the module `m` among the first `k` pairs.
pub open spec fn prefixes_upto(pp: Seq<(ModuleId, Seq<char>)>, m: ModuleId, k: int) -> Seq<Seq<char>>
    decreases k,
{
    if k <= 0 || k > pp.len() {
        Seq::empty()
    } else {
        prefixes_upto(pp, m, k - 1) + if pp[k - 1].0 == m {
            seq![pp[k - 1].1]
        } else {
            Seq::<Seq<char>>::empty()
        }
    }
}

/// The prefixes a connection of the module `m` is read at: those recorded
/// for `m`, or the empty prefix alone when there is none.
pub open spec fn effective_prefixes(pp: Seq<(ModuleId, Seq<char>)>, m: ModuleId) -> Seq<Seq<char>> {
    let l = prefixes_upto(pp, m, pp.len() as int);
    if l.len() == 0 {
        seq![Seq::<char>::empty()]
    } else {
        l
    }
}

/// The edges of a connection at the prefixes from index `j` on.
pub open spec fn prefix_edges(d: DesignView, entry: Option<ModuleId>, c: Connection, ps: Seq<Seq<char>>, j: int) -> Seq<(Seq<char>, Seq<char>)>
    decreases ps.len() - j,
{
    if j < 0 || j >= ps.len() {
        Seq::empty()
    } else {
        conn_edges(d, entry, c, ps[j]) + prefix_edges(d, entry, c, ps, j + 1)
    }
}

/// The edges of the connections from index `i` on.
pub open spec fn conns_edges(d: DesignView, entry: Option<ModuleId>, pp: Seq<(ModuleId, Seq<char>)>, cs: Seq<Connection>, i: int) -> Seq<(Seq<char>, Seq<char>)>
    decreases cs.len() - i,
{
    if i < 0 || i >= cs.len() {
        Seq::empty()
    } else {
        prefix_edges(d, entry, cs[i], effective_prefixes(pp, cs[i].parent), 0) + conns_edges(d, entry, pp, cs, i + 1)
    }
}

/// The directed edges of the path graph of the design, in the order they
/// are added.
#[verifier::opaque]
pub open spec fn path_edges(d: DesignView, entry: Option<ModuleId>) -> Seq<(Seq<char>, Seq<char>)> {
    conns_edges(d, entry, instance_prefixes(d, entry), d.connections, 0)
}


fn append_text(v: &mut Vec<char>, s: &str)
    ensures
        final(v)@ == old(v)@ + s@,
{
    let w = chars_of(s);
    let mut i: usize = 0;
    while i < w.len()
        invariant
            i <= w.len(),
            w@ == s@,
            v@ == old(v)@ + w@.take(i as int),
        decreases w.len() - i,
    {
        v.push(w[i]);
        proof {
            assert(w@.take(i + 1) =~= w@.take(i as int).push(w@[i as int]));
        }
        i = i + 1;
    }
    proof {
        assert(w@.take(w.len() as int) =~= w@);
    }
}

/// The dotted text of a field path.
fn format_field_path(parts: &Vec<FieldPathPart>) -> (s: String)
    ensures
        s@ == format_parts(parts@, parts@.len() as int),
{
    let mut v: Vec<char> = Vec::new();
    let mut i: usize = 0;
    while i < parts.len()
        invariant
            i <= parts.len(),
            v@ == format_parts(parts@, i as int),
        decreases parts.len() - i,
    {
        match &parts[i] {
            FieldPathPart::Name(name) => {
                if v.len() > 0 && v[v.len() - 1] != '[' {
                    v.push('.');
                }
                append_text(&mut v, name.as_str());
            },
            FieldPathPart::Index(idx) => {
                v.push('[');
                let t = decimal(*idx as u64);
                append_text(&mut v, t.as_str());
                v.push(']');
            },
            FieldPathPart::PinRef(num) => {
                if v.len() > 0 {
                    v.push('.');
                }
                let t = decimal(*num as u64);
                append_text(&mut v, t.as_str());
            },
        }
        proof {
            let r = format_parts(parts@, i as int);
            match parts@[i as int] {
                FieldPathPart::Name(n) => {
                    assert(v@ =~= (if r.len() > 0 && r.last() != '[' { r.push('.') } else { r }) + n@);
                },
                FieldPathPart::Index(k) => {
                    assert(v@ =~= r + seq!['['] + dec_digits(k as nat) + seq![']']);
                },
                FieldPathPart::PinRef(k) => {
                    assert(v@ =~= (if r.len() > 0 { r.push('.') } else { r }) + dec_digits(k as nat));
                },
            }
        }
        i = i + 1;
    }
    string_from_chars(&v, 0, v.len())
}

/// The path of an endpoint below `prefix`.
fn endpoint_to_path_string(design: &Design, ep: &ConnectionEndpoint, prefix: &str) -> (r: Option<String>)
    ensures
        opt_text(r) == endpoint_path(design@, *ep, prefix@),
{
    let base: String = match &ep.kind {
        EndpointKind::FieldRef(path) => format_field_path(&path.parts),
        EndpointKind::SignalDef(name) => name.clone(),
        EndpointKind::PinDef(name) => name.clone(),
        EndpointKind::Resolved => match ep.resolved {
            Some(fid) => match design.get_field(fid) {
                Some(field) => field.name.clone(),
                None => {
                    return None;
                },
            },
            None => {
                return None;
            },
        },
    };
    if is_empty_text(prefix) {
        Some(base)
    } else {
        let mut s = prefix.to_owned();
        push_char(&mut s, '.');
        push_str(&mut s, base.as_str());
        assert(s@ =~= prefix@ + seq!['.'] + base@);
        Some(s)
    }
}

/// The paths of a connection's endpoints below `prefix`.
fn endpoint_path_list(design: &Design, eps: &Vec<ConnectionEndpoint>, prefix: &str) -> (r: Vec<String>)
    ensures
        strings_view(r@) == endpoint_paths(design@, eps@, 0, prefix@),
{
    let mut r: Vec<String> = Vec::new();
    let mut i: usize = 0;
    while i < eps.len()
        invariant
            i <= eps.len(),
            strings_view(r@) + endpoint_paths(design@, eps@, i as int, prefix@) == endpoint_paths(design@, eps@, 0, prefix@),
        decreases eps.len() - i,
    {
        let ghost before = strings_view(r@);
        match endpoint_to_path_string(design, &eps[i], prefix) {
            Some(p) => {
                r.push(p);
            },
            None => {},
        }
        proof {
            let here = match endpoint_path(design@, eps@[i as int], prefix@) {
                Some(p) => seq![p],
                None => Seq::<Seq<char>>::empty(),
            };
            assert(strings_view(r@) =~= before + here);
            assert(before + (here + endpoint_paths(design@, eps@, i + 1, prefix@))
                =~= (before + here) + endpoint_paths(design@, eps@, i + 1, prefix@));
        }
        i = i + 1;
    }
    proof {
        assert(strings_view(r@) + Seq::<Seq<char>>::empty() =~= strings_view(r@));
    }
    r
}

/// The name part of a path part.
fn part_name_of(part: &str) -> (r: String)
    ensures
        r@ == part_name(part@),
{
    let v = chars_of(part);
    let mut i: usize = 0;
    while i < v.len()
        invariant
            i <= v.len(),
            v@ == part@,
            first_occurrence_from(v@, seq!['['], 0) == first_occurrence_from(v@, seq!['['], i as int),
        decreases v.len() - i,
    {
        if v[i] == '[' {
            assert(occurs_at(v@, seq!['['], i as int)) by {
                assert(v@.subrange(i as int, i + 1) =~= seq!['[']);
            }
            return string_from_chars(&v, 0, i);
        }
        assert(!occurs_at(v@, seq!['['], i as int)) by {
            if occurs_at(v@, seq!['['], i as int) {
                assert(v@.subrange(i as int, i + 1)[0] == v@[i as int]);
            }
        }
        i = i + 1;
    }
    assert(!occurs_at(v@, seq!['['], v@.len() as int));
    assert(first_occurrence_from(v@, seq!['['], v@.len() as int) == v@.len() + 1) by {
        assert(first_occurrence_from(v@, seq!['['], v@.len() + 1int) == v@.len() + 1);
    }
    string_from_chars(&v, 0, v.len())
}

/// The names of a module's connectable fields.
fn connectable_names(design: &Design, fs: &Vec<FieldId>) -> (r: Vec<String>)
    ensures
        strings_view(r@) == connectable_names_from(design@, fs@, 0),
{
    let mut r: Vec<String> = Vec::new();
    let mut i: usize = 0;
    while i < fs.len()
        invariant
            i <= fs.len(),
            strings_view(r@) + connectable_names_from(design@, fs@, i as int) == connectable_names_from(design@, fs@, 0),
        decreases fs.len() - i,
    {
        let ghost before = strings_view(r@);
        match design.get_field(fs[i]) {
            Some(f) => {
                if f.is_connectable() {
                    r.push(f.name.clone());
                }
            },
            None => {},
        }
        proof {
            let here = match field_at(design@, fs@[i as int]) {
                Some(f) => if is_connectable_kind(f.kind) {
                    seq![f.name@]
                } else {
                    Seq::<Seq<char>>::empty()
                },
                None => Seq::empty(),
            };
            assert(strings_view(r@) =~= before + here);
            assert(before + (here + connectable_names_from(design@, fs@, i + 1))
                =~= (before + here) + connectable_names_from(design@, fs@, i + 1));
        }
        i = i + 1;
    }
    proof {
        assert(strings_view(r@) + Seq::<Seq<char>>::empty() =~= strings_view(r@));
    }
    r
}

spec fn opt_texts(o: Option<Vec<String>>) -> Option<Seq<Seq<char>>> {
    match o {
        Some(v) => Some(strings_view(v@)),
        None => None,
    }
}

/// The connectable sub-fields of the interface instance a dotted path names.
fn resolve_path_to_interface_fields(design: &Design, entry: Option<ModuleId>, path: &str) -> (r: Option<Vec<String>>)
    requires
        design.wf(),
    ensures
        opt_texts(r) == iface_fields(design@, entry, path@),
{
    let entry_id = match entry {
        Some(e) => e,
        None => {
            return None;
        },
    };
    proof {
        reveal_strlit(".");
        assert("."@ =~= seq!['.']);
    }
    let parts = split_str(path, ".");
    let ghost ps = strings_view(parts@);
    let mut current = entry_id;
    let mut i: usize = 0;
    while i < parts.len()
        invariant
            design.wf(),
            ps == strings_view(parts@),
            ps == split_on(path@, seq!['.']),
            i <= parts.len(),
            resolve_iface(design@, ps, i as int, current) == iface_fields(design@, entry, path@),
        decreases parts.len() - i,
    {
        let name = part_name_of(parts[i].as_str());
        assert(name@ == part_name(ps[i as int]));
        let module = match design.get_module(current) {
            Some(m) => m,
            None => {
                return None;
            },
        };
        let field_id = match module.get_field(name.as_str()) {
            Some(f) => f,
            None => {
                return None;
            },
        };
        let field = match design.get_field(field_id) {
            Some(f) => f,
            None => {
                return None;
            },
        };
        match &field.kind {
            FieldKind::Instance { resolved_type: Some(t), .. } => {
                let target = match design.get_module(*t) {
                    Some(m) => m,
                    None => {
                        return None;
                    },
                };
                if i == parts.len() - 1 {
                    if target.is_interface() {
                        let subs = connectable_names(design, &target.fields);
                        if subs.len() > 0 {
                            return Some(subs);
                        } else {
                            return None;
                        }
                    }
                    return None;
                } else {
                    current = *t;
                }
            },
            _ => {
                return None;
            },
        }
        i = i + 1;
    }
    None
}

spec fn edge_views(v: Seq<(String, String)>) -> Seq<(Seq<char>, Seq<char>)> {
    v.map_values(|e: (String, String)| (e.0@, e.1@))
}

fn join_dot(a: &str, b: &str) -> (s: String)
    ensures
        s@ == a@ + seq!['.'] + b@,
{
    let mut s = a.to_owned();
    push_char(&mut s, '.');
    push_str(&mut s, b);
    assert(s@ =~= a@ + seq!['.'] + b@);
    s
}

/// Adds the edges that make the paths `a` and `b` equivalent.
fn add_path_equivalences(
    design: &Design,
    entry: Option<ModuleId>,
    a: &str,
    b: &str,
    depth: u32,
    edges: &mut Vec<(String, String)>,
)
    requires
        design.wf(),
        depth <= 21,
    ensures
        edge_views(final(edges)@) == edge_views(old(edges)@) + equiv_edges(design@, entry, a@, b@, depth as nat),
    decreases 21 - depth, 1int, 0int,
{
    let ghost start = edge_views(edges@);
    if depth > 20 || str_eq(a, b) {
        assert(edge_views(edges@) =~= start + Seq::<(Seq<char>, Seq<char>)>::empty());
        return;
    }
    let sub = match resolve_path_to_interface_fields(design, entry, a) {
        Some(fs) => Some(fs),
        None => resolve_path_to_interface_fields(design, entry, b),
    };
    match sub {
        Some(fs) => {
            let ghost fv = strings_view(fs@);
            let mut k: usize = 0;
            while k < fs.len()
                invariant
                    design.wf(),
                    depth <= 20,
                    fv == strings_view(fs@),
                    k <= fs.len(),
                    edge_views(edges@) + sub_edges(design@, entry, a@, b@, fv, k as int, depth as nat)
                        == start + sub_edges(design@, entry, a@, b@, fv, 0, depth as nat),
                decreases fs.len() - k,
            {
                let sa = join_dot(a, fs[k].as_str());
                let sb = join_dot(b, fs[k].as_str());
                let ghost before = edge_views(edges@);
                add_path_equivalences(design, entry, sa.as_str(), sb.as_str(), depth + 1, edges);
                proof {
                    let here = equiv_edges(design@, entry, sa@, sb@, (depth + 1) as nat);
                    let rest = sub_edges(design@, entry, a@, b@, fv, k + 1, depth as nat);
                    assert(fv[k as int] == fs@[k as int]@);
                    assert(sub_edges(design@, entry, a@, b@, fv, k as int, depth as nat) == here + rest);
                    assert(before + (here + rest) =~= (before + here) + rest);
                }
                k = k + 1;
            }
            proof {
                assert(sub_edges(design@, entry, a@, b@, fv, fs.len() as int, depth as nat) =~= Seq::<(Seq<char>, Seq<char>)>::empty());
                assert(edge_views(edges@) + Seq::<(Seq<char>, Seq<char>)>::empty() =~= edge_views(edges@));
            }
        },
        None => {
            edges.push((a.to_owned(), b.to_owned()));
            edges.push((b.to_owned(), a.to_owned()));
            assert(edge_views(edges@) =~= start + seq![(a@, b@), (b@, a@)]);
        },
    }
}

/// Adds the edges of one connection below `prefix`.
fn add_connection_edges_to_graph(
    design: &Design,
    entry: Option<ModuleId>,
    connection: &Connection,
    prefix: &str,
    edges: &mut Vec<(String, String)>,
)
    requires
        design.wf(),
    ensures
        edge_views(final(edges)@) == edge_views(old(edges)@) + conn_edges(design@, entry, *connection, prefix@),
{
    let ghost start = edge_views(edges@);
    let paths = endpoint_path_list(design, &connection.endpoints, prefix);
    let ghost pv = strings_view(paths@);
    if connection.is_simple() && paths.len() == 2 {
        add_path_equivalences(design, entry, paths[0].as_str(), paths[1].as_str(), 0, edges);
    } else if connection.is_directed() {
        let mut k: usize = 0;
        while k < paths.len() && k + 1 < paths.len()
            invariant
                design.wf(),
                pv == strings_view(paths@),
                k <= paths.len(),
                edge_views(edges@) + chain_edges(design@, entry, pv, k as int)
                    == start + chain_edges(design@, entry, pv, 0),
            decreases paths.len() - k,
        {
            let ghost before = edge_views(edges@);
            add_path_equivalences(design, entry, paths[k].as_str(), paths[k + 1].as_str(), 0, edges);
            proof {
                let here = equiv_edges(design@, entry, pv[k as int], pv[k + 1], 0);
                let rest = chain_edges(design@, entry, pv, k + 1);
                assert(chain_edges(design@, entry, pv, k as int) == here + rest);
                assert(before + (here + rest) =~= (before + here) + rest);
            }
            k = k + 1;
        }
        proof {
            assert(chain_edges(design@, entry, pv, k as int) =~= Seq::<(Seq<char>, Seq<char>)>::empty());
            assert(edge_views(edges@) + Seq::<(Seq<char>, Seq<char>)>::empty() =~= edge_views(edges@));
        }
    } else {
        assert(edge_views(edges@) =~= start + Seq::<(Seq<char>, Seq<char>)>::empty());
    }
}

/// The prefixes a connection of the module `m` is read at.
fn prefixes_for(pairs: &Vec<(ModuleId, String)>, m: ModuleId) -> (r: Vec<String>)
    ensures
        strings_view(r@) == effective_prefixes(pair_views(pairs@), m),
{
    let ghost pp = pair_views(pairs@);
    let mut r: Vec<String> = Vec::new();
    let mut k: usize = 0;
    while k < pairs.len()
        invariant
            pp == pair_views(pairs@),
            k <= pairs.len(),
            strings_view(r@) == prefixes_upto(pp, m, k as int),
        decreases pairs.len() - k,
    {
        if pairs[k].0 == m {
            r.push(pairs[k].1.clone());
        }
        proof {
            assert(pp[k as int] == (pairs@[k as int].0, pairs@[k as int].1@));
            assert(strings_view(r@) =~= prefixes_upto(pp, m, k + 1));
        }
        k = k + 1;
    }
    if r.len() == 0 {
        r.push(String::new());
        assert(strings_view(r@) =~= seq![Seq::<char>::empty()]);
    }
    r
}

/// The directed edges of the path graph of the design.
fn build_edges(design: &Design, entry: Option<ModuleId>) -> (r: Vec<(String, String)>)
    requires
        design.wf(),
    ensures
        edge_views(r@) == path_edges(design@, entry),
{
    let pairs = build_module_instance_prefixes(design, entry);
    let ghost pp = pair_views(pairs@);
    let connections = design.connections();
    let mut edges: Vec<(String, String)> = Vec::new();
    let mut i: usize = 0;
    while i < connections.len()
        invariant
            design.wf(),
            pp == pair_views(pairs@),
            pp == instance_prefixes(design@, entry),
            connections@ == design@.connections,
            i <= connections.len(),
            edge_views(edges@) + conns_edges(design@, entry, pp, connections@, i as int)
                == conns_edges(design@, entry, pp, connections@, 0),
        decreases connections.len() - i,
    {
        let connection = &connections[i];
        let prefixes = prefixes_for(&pairs, connection.parent);
        let ghost pv = strings_view(prefixes@);
        let ghost start = edge_views(edges@);
        let mut j: usize = 0;
        while j < prefixes.len()
            invariant
                design.wf(),
                pv == strings_view(prefixes@),
                j <= prefixes.len(),
                edge_views(edges@) + prefix_edges(design@, entry, *connection, pv, j as int)
                    == start + prefix_edges(design@, entry, *connection, pv, 0),
            decreases prefixes.len() - j,
        {
            let ghost before = edge_views(edges@);
            add_connection_edges_to_graph(design, entry, connection, prefixes[j].as_str(), &mut edges);
            proof {
                let here = conn_edges(design@, entry, *connection, pv[j as int]);
                let rest = prefix_edges(design@, entry, *connection, pv, j + 1);
                assert(before + (here + rest) =~= (before + here) + rest);
            }
            j = j + 1;
        }
        proof {
            assert(prefix_edges(design@, entry, *connection, pv, pv.len() as int) =~= Seq::<(Seq<char>, Seq<char>)>::empty());
            assert(edge_views(edges@) + Seq::<(Seq<char>, Seq<char>)>::empty() =~= edge_views(edges@));
            let here = prefix_edges(design@, entry, connections@[i as int], pv, 0);
            let rest = conns_edges(design@, entry, pp, connections@, i + 1);
            assert(start + (here + rest) =~= (start + here) + rest);
        }
        i = i + 1;
    }
    proof {
        reveal(path_edges);
        assert(edge_views(edges@) + Seq::<(Seq<char>, Seq<char>)>::empty() =~= edge_views(edges@));
    }
    edges
}


/// Whether the edge list holds the edge from `x` to `y`.
pub open spec fn linked(es: Seq<(Seq<char>, Seq<char>)>, x: Seq<char>, y: Seq<char>) -> bool {
    exists|k: int| 0 <= k < es.len() && es[k] == (x, y)
}

/// Whether `w` is a walk along the edges: non-empty, each path linked to the next.
pub open spec fn is_path_walk(es: Seq<(Seq<char>, Seq<char>)>, w: Seq<Seq<char>>) -> bool {
    &&& w.len() >= 1
    &&& forall|i: int| 0 <= i < w.len() - 1 ==> #[trigger] linked(es, w[i], w[i + 1])
}

/// Whether `x` can be reached from `s` along the edges.
pub open spec fn connected(es: Seq<(Seq<char>, Seq<char>)>, s: Seq<char>, x: Seq<char>) -> bool {
    exists|w: Seq<Seq<char>>| #[trigger] is_path_walk(es, w) && w[0] == s && w.last() == x
}

/// Whether `x` is an end of some edge.
pub open spec fn is_endpoint(es: Seq<(Seq<char>, Seq<char>)>, x: Seq<char>) -> bool {
    exists|k: int| 0 <= k < es.len() && (es[k].0 == x || es[k].1 == x)
}

/// The position of `x` among distinct nodes.
pub open spec fn index_in(nodes: Seq<Seq<char>>, x: Seq<char>) -> int {
    choose|i: int| 0 <= i < nodes.len() && nodes[i] == x
}

/// The graph over node indices is the edge list's: every adjacency is an
/// edge, and the ends of every edge are nodes, the second in the list of
/// the first.
#[verifier::opaque]
pub open spec fn index_graph_ok(es: Seq<(Seq<char>, Seq<char>)>, nodes: Seq<Seq<char>>, adj: Seq<Seq<usize>>) -> bool {
    &&& adj.len() == nodes.len()
    &&& forall|i: int, t: int| 0 <= i < adj.len() && 0 <= t < adj[i].len() ==>
        (#[trigger] adj[i][t]) < nodes.len() && linked(es, nodes[i], nodes[adj[i][t] as int])
    &&& forall|q: int| 0 <= q < es.len() ==> nodes.contains((#[trigger] es[q]).0) && nodes.contains(es[q].1)
        && adj[index_in(nodes, es[q].0)].contains(index_in(nodes, es[q].1) as usize)
    &&& forall|i: int| 0 <= i < nodes.len() ==> is_endpoint(es, #[trigger] nodes[i])
}

fn chars_eq(a: &Vec<char>, b: &Vec<char>) -> (r: bool)
    ensures
        r == (a@ == b@),
{
    if a.len() != b.len() {
        return false;
    }
    let mut i: usize = 0;
    while i < a.len()
        invariant
            a.len() == b.len(),
            i <= a.len(),
            forall|k: int| 0 <= k < i ==> a@[k] == b@[k],
        decreases a.len() - i,
    {
        if a[i] != b[i] {
            return false;
        }
        i = i + 1;
    }
    assert(a@ =~= b@);
    true
}

/// The position of `x` among the node texts.
fn position_of(node_chars: &Vec<Vec<char>>, x: &Vec<char>) -> (r: Option<usize>)
    ensures
        match r {
            Some(i) => i < node_chars.len() && node_chars@[i as int]@ == x@,
            None => forall|i: int| 0 <= i < node_chars.len() ==> node_chars@[i]@ != x@,
        },
{
    let mut i: usize = 0;
    while i < node_chars.len()
        invariant
            i <= node_chars.len(),
            forall|k: int| 0 <= k < i ==> node_chars@[k]@ != x@,
        decreases node_chars.len() - i,
    {
        if chars_eq(&node_chars[i], x) {
            return Some(i);
        }
        i = i + 1;
    }
    None
}

spec fn char_views(v: Seq<Vec<char>>) -> Seq<Seq<char>> {
    v.map_values(|c: Vec<char>| c@)
}

/// Both ends of every edge, in order.
fn edge_ends(edges: &Vec<(String, String)>) -> (r: Vec<String>)
    ensures
        forall|q: int| 0 <= q < edges@.len() ==> texts(r@).contains(#[trigger] edge_views(edges@)[q].0)
            && texts(r@).contains(edge_views(edges@)[q].1),
        forall|t: int| 0 <= t < r@.len() ==> is_endpoint(edge_views(edges@), #[trigger] texts(r@)[t]),
{
    let ghost es = edge_views(edges@);
    let mut ends: Vec<String> = Vec::new();
    let mut k: usize = 0;
    while k < edges.len()
        invariant
            k <= edges.len(),
            es == edge_views(edges@),
            forall|q: int| 0 <= q < k ==> texts(ends@).contains(#[trigger] es[q].0) && texts(ends@).contains(es[q].1),
            forall|t: int| 0 <= t < ends@.len() ==> is_endpoint(es, #[trigger] texts(ends@)[t]),
        decreases edges.len() - k,
    {
        let ghost before = texts(ends@);
        ends.push(edges[k].0.clone());
        ends.push(edges[k].1.clone());
        proof {
            assert(texts(ends@) =~= before.push(es[k as int].0).push(es[k as int].1));
            assert forall|q: int| 0 <= q < k + 1 implies texts(ends@).contains(#[trigger] es[q].0) && texts(ends@).contains(es[q].1) by {
                if q < k {
                    let t1 = choose|t: int| 0 <= t < before.len() && before[t] == es[q].0;
                    let t2 = choose|t: int| 0 <= t < before.len() && before[t] == es[q].1;
                    assert(texts(ends@)[t1] == es[q].0);
                    assert(texts(ends@)[t2] == es[q].1);
                } else {
                    assert(texts(ends@)[before.len() as int] == es[q].0);
                    assert(texts(ends@)[before.len() + 1int] == es[q].1);
                }
            }
            assert forall|t: int| 0 <= t < ends@.len() implies is_endpoint(es, #[trigger] texts(ends@)[t]) by {
                if t < before.len() {
                    assert(texts(ends@)[t] == before[t]);
                } else if t == before.len() {
                    assert(es[k as int].0 == texts(ends@)[t]);
                } else {
                    assert(es[k as int].1 == texts(ends@)[t]);
                }
            }
        }
        k = k + 1;
    }
    ends
}

/// The characters of each node, and an empty adjacency list for each.
fn node_tables(nodes: &Vec<String>) -> (r: (Vec<Vec<char>>, Vec<Vec<usize>>))
    ensures
        char_views(r.0@) == texts(nodes@),
        r.1@.len() == nodes@.len(),
        forall|t: int| 0 <= t < r.1@.len() ==> (#[trigger] r.1@[t])@.len() == 0,
{
    let mut node_chars: Vec<Vec<char>> = Vec::new();
    let mut adj: Vec<Vec<usize>> = Vec::new();
    let mut i: usize = 0;
    while i < nodes.len()
        invariant
            i <= nodes.len(),
            node_chars.len() == i,
            adj.len() == i,
            forall|t: int| 0 <= t < i ==> (#[trigger] node_chars@[t])@ == texts(nodes@)[t],
            forall|t: int| 0 <= t < i ==> (#[trigger] adj@[t])@.len() == 0,
        decreases nodes.len() - i,
    {
        node_chars.push(chars_of(nodes[i].as_str()));
        adj.push(Vec::new());
        i = i + 1;
    }
    assert(char_views(node_chars@) =~= texts(nodes@));
    (node_chars, adj)
}

/// Adds the index of the edge's second end to the list of its first end.
#[verifier::spinoff_prover]
#[verifier::rlimit(60)]
fn add_edge_index(
    es: Ghost<Seq<(Seq<char>, Seq<char>)>>,
    nv: Ghost<Seq<Seq<char>>>,
    k: usize,
    node_chars: &Vec<Vec<char>>,
    ca: &Vec<char>,
    cb: &Vec<char>,
    adj: &mut Vec<Vec<usize>>,
)
    requires
        k < es@.len(),
        ca@ == es@[k as int].0,
        cb@ == es@[k as int].1,
        node_chars.len() == nv@.len(),
        forall|t: int| 0 <= t < nv@.len() ==> (#[trigger] node_chars@[t])@ == nv@[t],
        old(adj).len() == nv@.len(),
        forall|t: int| 0 <= t < nv@.len() - 1 ==> lex_order(#[trigger] nv@[t], nv@[t + 1]) == Comparison::Less,
        nv@.contains(es@[k as int].0),
        nv@.contains(es@[k as int].1),
        forall|a: int, t: int| 0 <= a < old(adj).len() && 0 <= t < old(adj)@[a]@.len() ==>
            (#[trigger] old(adj)@[a]@[t]) < nv@.len() && linked(es@, nv@[a], nv@[old(adj)@[a]@[t] as int]),
        forall|q: int| 0 <= q < k ==> nv@.contains((#[trigger] es@[q]).0) && nv@.contains(es@[q].1)
            && old(adj)@[index_in(nv@, es@[q].0)]@.contains(index_in(nv@, es@[q].1) as usize),
    ensures
        final(adj).len() == nv@.len(),
        forall|a: int, t: int| 0 <= a < final(adj).len() && 0 <= t < final(adj)@[a]@.len() ==>
            (#[trigger] final(adj)@[a]@[t]) < nv@.len() && linked(es@, nv@[a], nv@[final(adj)@[a]@[t] as int]),
        forall|q: int| 0 <= q < k + 1 ==> nv@.contains((#[trigger] es@[q]).0) && nv@.contains(es@[q].1)
            && final(adj)@[index_in(nv@, es@[q].0)]@.contains(index_in(nv@, es@[q].1) as usize),
{
    let ia = position_of(node_chars, ca);
    let ib = position_of(node_chars, cb);
    match (ia, ib) {
        (Some(a), Some(b)) => {
            let ghost old_adj = adj@;
            let mut list = adj[a].clone();
            list.push(b);
            adj.set(a, list);
            proof {
                assert(nv@[a as int] == es@[k as int].0);
                assert(nv@[b as int] == es@[k as int].1);
                assert(linked(es@, nv@[a as int], nv@[b as int])) by {
                    assert(es@[k as int] == (nv@[a as int], nv@[b as int]));
                }
                assert forall|a2: int, t: int| 0 <= a2 < adj.len() && 0 <= t < adj@[a2]@.len() implies
                    (#[trigger] adj@[a2]@[t]) < nv@.len() && linked(es@, nv@[a2], nv@[adj@[a2]@[t] as int]) by {
                    if a2 == a && t == old_adj[a2]@.len() {
                    } else if a2 == a {
                        assert(adj@[a2]@[t] == old_adj[a2]@[t]);
                    } else {
                        assert(adj@[a2] == old_adj[a2]);
                    }
                }
                let ka = index_in(nv@, es@[k as int].0);
                let kb = index_in(nv@, es@[k as int].1);
                lemma_texts_distinct(nv@, ka, a as int);
                lemma_texts_distinct(nv@, kb, b as int);
                assert(adj@[a as int]@[adj@[a as int]@.len() - 1] == b);
                assert forall|q: int| 0 <= q < k + 1 implies nv@.contains((#[trigger] es@[q]).0) && nv@.contains(es@[q].1)
                    && adj@[index_in(nv@, es@[q].0)]@.contains(index_in(nv@, es@[q].1) as usize) by {
                    if q < k {
                        let qa = index_in(nv@, es@[q].0);
                        let qb = index_in(nv@, es@[q].1);
                        assert(old_adj[qa]@.contains(qb as usize));
                        if qa == a {
                            let t = choose|t: int| 0 <= t < old_adj[qa]@.len() && old_adj[qa]@[t] == qb as usize;
                            assert(adj@[qa]@[t] == qb as usize);
                        } else {
                            assert(adj@[qa] == old_adj[qa]);
                        }
                    }
                }
            }
        },
        _ => {
            proof {
                let a = choose|a: int| 0 <= a < nv@.len() && nv@[a] == es@[k as int].0;
                let b = choose|b: int| 0 <= b < nv@.len() && nv@[b] == es@[k as int].1;
                assert(node_chars@[a]@ == nv@[a]);
                assert(node_chars@[b]@ == nv@[b]);
                assert(false);
            }
        },
    }
}

/// The nodes of the path graph, sorted and each once, and the adjacency
/// lists over their indices.
#[verifier::spinoff_prover]
#[verifier::rlimit(100)]
fn index_graph(edges: &Vec<(String, String)>) -> (r: (Vec<String>, Vec<Vec<usize>>))
    ensures
        forall|i: int| 0 <= i < r.0@.len() - 1 ==>
            lex_order(#[trigger] texts(r.0@)[i], texts(r.0@)[i + 1]) == Comparison::Less,
        index_graph_ok(edge_views(edges@), texts(r.0@), adj_views(r.1@)),
        r.1@.len() == r.0@.len(),
        forall|i: int| 0 <= i < r.0@.len() ==> is_endpoint(edge_views(edges@), #[trigger] texts(r.0@)[i]),
{
    let ghost es = edge_views(edges@);
    let ends = edge_ends(edges);
    let ghost ends_v = texts(ends@);
    assert(forall|t: int| 0 <= t < ends_v.len() ==> is_endpoint(es, #[trigger] ends_v[t]));
    let nodes = sorted_unique(ends);
    let ghost nv = texts(nodes@);
    let (node_chars, mut adj) = node_tables(&nodes);
    proof {
        assert forall|t: int| 0 <= t < nv.len() implies (#[trigger] node_chars@[t])@ == nv[t] by {
            assert(char_views(node_chars@)[t] == node_chars@[t]@);
        }
        assert forall|q: int| 0 <= q < es.len() implies nv.contains((#[trigger] es[q]).0) && nv.contains(es[q].1) by {
            assert(ends_v.contains(es[q].0));
            assert(ends_v.contains(es[q].1));
            assert(ends_v.to_set().contains(es[q].0));
            assert(ends_v.to_set().contains(es[q].1));
            assert(nv.to_set().contains(es[q].0));
            assert(nv.to_set().contains(es[q].1));
        }
    }
    let mut k: usize = 0;
    while k < edges.len()
        invariant
            k <= edges.len(),
            es == edge_views(edges@),
            nv == texts(nodes@),
            node_chars.len() == nv.len(),
            forall|t: int| 0 <= t < nv.len() ==> (#[trigger] node_chars@[t])@ == nv[t],
            adj.len() == nv.len(),
            forall|t: int| 0 <= t < nv.len() - 1 ==> lex_order(#[trigger] nv[t], nv[t + 1]) == Comparison::Less,
            forall|q: int| 0 <= q < es.len() ==> nv.contains((#[trigger] es[q]).0) && nv.contains(es[q].1),
            forall|a: int, t: int| 0 <= a < adj.len() && 0 <= t < adj@[a]@.len() ==>
                (#[trigger] adj@[a]@[t]) < nv.len() && linked(es, nv[a], nv[adj@[a]@[t] as int]),
            forall|q: int| 0 <= q < k ==> nv.contains((#[trigger] es[q]).0) && nv.contains(es[q].1)
                && adj@[index_in(nv, es[q].0)]@.contains(index_in(nv, es[q].1) as usize),
        decreases edges.len() - k,
    {
        let ca = chars_of(edges[k].0.as_str());
        let cb = chars_of(edges[k].1.as_str());
        proof {
            assert(nv.contains(es[k as int].0) && nv.contains(es[k as int].1));
        }
        add_edge_index(Ghost(es), Ghost(nv), k, &node_chars, &ca, &cb, &mut adj);
        k = k + 1;
    }
    proof {
        reveal(index_graph_ok);
        let av = adj_views(adj@);
        assert forall|i: int, t: int| 0 <= i < av.len() && 0 <= t < av[i].len() implies
            (#[trigger] av[i][t]) < nv.len() && linked(es, nv[i], nv[av[i][t] as int]) by {
            assert(av[i] == adj@[i]@);
        }
        assert forall|q: int| 0 <= q < es.len() implies nv.contains((#[trigger] es[q]).0) && nv.contains(es[q].1)
            && av[index_in(nv, es[q].0)].contains(index_in(nv, es[q].1) as usize) by {
            let qa = index_in(nv, es[q].0);
            assert(0 <= qa < nv.len());
            assert(av[qa] == adj@[qa]@);
        }
        assert forall|i: int| 0 <= i < nv.len() implies is_endpoint(es, #[trigger] nv[i]) by {
            assert(nv.to_set().contains(nv[i]));
            assert(ends_v.to_set().contains(nv[i]));
            let t = choose|t: int| 0 <= t < ends_v.len() && ends_v[t] == nv[i];
            assert(is_endpoint(es, ends_v[t]));
        }
    }
    (nodes, adj)
}

/// Strictly increasing texts are distinct.
proof fn lemma_texts_distinct(v: Seq<Seq<char>>, i: int, j: int)
    requires
        forall|k: int| 0 <= k < v.len() - 1 ==> lex_order(#[trigger] v[k], v[k + 1]) == Comparison::Less,
        0 <= i < v.len(),
        0 <= j < v.len(),
        v[i] == v[j],
    ensures
        i == j,
{
    if i < j {
        lemma_sorted_texts_pairwise(v, i + 1, j);
        assert(lex_order(v[i], v[i + 1]) == Comparison::Less);
        crate::sort::lemma_lex_order_trans(v[i + 1], v[j], v[i + 1], 0);
        crate::sort::lemma_lex_order_flip(v[i], v[i + 1], 0);
    } else if j < i {
        lemma_sorted_texts_pairwise(v, j + 1, i);
        assert(lex_order(v[j], v[j + 1]) == Comparison::Less);
        crate::sort::lemma_lex_order_flip(v[j], v[j + 1], 0);
    }
}


/// The table from instance paths to designators after the first `k`
/// components: each component with an `instance` property sets its path
/// to its reference.
pub open spec fn instance_refs(cs: Seq<ComponentView>, k: int) -> Seq<(Seq<char>, Seq<char>)>
    decreases k,
{
    if k <= 0 || k > cs.len() {
        Seq::empty()
    } else {
        let m = instance_refs(cs, k - 1);
        match lookup(cs[k - 1].properties, "instance"@) {
            Some(p) => set_entry(m, p, cs[k - 1].reference),
            None => m,
        }
    }
}

/// Splitting the parts before `sp` off as an instance path: the component
/// pin of the longest instance path, from `sp` down, that has a designator
/// and leaves a non-empty pin name.
pub open spec fn resolve_from(parts: Seq<Seq<char>>, im: Seq<(Seq<char>, Seq<char>)>, sp: int) -> Option<(Seq<char>, Seq<char>)>
    decreases sp,
{
    if sp < 1 || sp >= parts.len() {
        None
    } else {
        let inst = join_seqs(parts.take(sp), seq!['.']);
        let pin = join_seqs(parts.skip(sp), seq!['.']);
        if lookup(im, inst) is Some && pin.len() > 0 {
            Some((lookup(im, inst)->0, pin))
        } else {
            resolve_from(parts, im, sp - 1)
        }
    }
}

/// The component and pin a dotted path ends at, if any.
#[verifier::opaque]
pub open spec fn resolve_path(x: Seq<char>, im: Seq<(Seq<char>, Seq<char>)>) -> Option<(Seq<char>, Seq<char>)> {
    let parts = split_on(x, seq!['.']);
    resolve_from(parts, im, parts.len() - 1)
}

fn strings_range(v: &Vec<String>, from: usize, to: usize) -> (r: Vec<String>)
    requires
        from <= to <= v.len(),
    ensures
        strings_view(r@) == strings_view(v@).subrange(from as int, to as int),
{
    let mut r: Vec<String> = Vec::new();
    let mut i = from;
    while i < to
        invariant
            from <= i <= to,
            to <= v.len(),
            strings_view(r@) == strings_view(v@).subrange(from as int, i as int),
        decreases to - i,
    {
        let ghost before = strings_view(r@);
        let c = v[i].clone();
        r.push(c);
        proof {
            assert(strings_view(r@) =~= before.push(c@));
            assert(strings_view(v@)[i as int] == v@[i as int]@);
            assert(strings_view(r@) =~= strings_view(v@).subrange(from as int, i + 1));
        }
        i = i + 1;
    }
    r
}

/// The table from instance paths to designators.
fn instance_path_table(components: &Vec<NetlistComponent>) -> (r: PropertyMap)
    ensures
        r@ == instance_refs(component_views(components@), components@.len() as int),
{
    let ghost cs = component_views(components@);
    let mut im = PropertyMap::new();
    let mut k: usize = 0;
    while k < components.len()
        invariant
            k <= components.len(),
            cs == component_views(components@),
            im@ == instance_refs(cs, k as int),
        decreases components.len() - k,
    {
        let c = &components[k];
        match c.properties.get("instance") {
            Some(p) => {
                im.insert(p.as_str(), c.reference.as_str());
            },
            None => {},
        }
        proof {
            assert(cs[k as int] == c@);
        }
        k = k + 1;
    }
    im
}

/// The component and pin a dotted path ends at.
fn resolve_path_to_component_pin(path: &str, im: &PropertyMap) -> (r: Option<(String, String)>)
    ensures
        match r {
            Some(n) => resolve_path(path@, im@) == Some((n.0@, n.1@)),
            None => resolve_path(path@, im@) is None,
        },
{
    proof {
        reveal_strlit(".");
        assert("."@ =~= seq!['.']);
        reveal(resolve_path);
    }
    let parts = split_str(path, ".");
    let ghost pv = strings_view(parts@);
    if parts.len() == 0 {
        return None;
    }
    let mut sp = parts.len() - 1;
    while sp >= 1
        invariant
            pv == strings_view(parts@),
            pv == split_on(path@, seq!['.']),
            "."@ == seq!['.'],
            sp < parts.len(),
            resolve_from(pv, im@, sp as int) == resolve_path(path@, im@),
        decreases sp,
    {
        let head = strings_range(&parts, 0, sp);
        let tail = strings_range(&parts, sp, parts.len());
        let inst = join_strings(&head, ".");
        let pin = join_strings(&tail, ".");
        proof {
            assert(strings_view(head@) =~= pv.take(sp as int));
            assert(strings_view(tail@) =~= pv.skip(sp as int));
        }
        match im.get(inst.as_str()) {
            Some(r) => {
                if !is_empty_text(pin.as_str()) {
                    return Some((r.clone(), pin));
                }
            },
            None => {},
        }
        sp = sp - 1;
    }
    None
}


spec fn adj_views(adj: Seq<Vec<usize>>) -> Seq<Seq<usize>> {
    adj.map_values(|l: Vec<usize>| l@)
}

/// A duplicate-free list of indices below `n` is no longer than `n`.
proof fn lemma_index_list_bound(s: Seq<usize>, n: nat)
    requires
        s.no_duplicates(),
        forall|k: int| 0 <= k < s.len() ==> #[trigger] s[k] < n,
    ensures
        s.len() <= n,
{
    let u = Seq::new(n, |i: int| i as usize);
    s.unique_seq_to_set();
    u.lemma_cardinality_of_set();
    vstd::seq_lib::seq_to_set_is_finite(u);
    assert(s.to_set().subset_of(u.to_set())) by {
        assert forall|x: usize| s.to_set().contains(x) implies u.to_set().contains(x) by {
            let k = choose|k: int| 0 <= k < s.len() && s[k] == x;
            assert(u[x as int] == x);
        }
    }
    vstd::set_lib::lemma_len_subset(s.to_set(), u.to_set());
}

/// A set of indices that holds the start of a walk and is closed under the
/// adjacency lists holds every path of the walk.
#[verifier::spinoff_prover]
#[verifier::rlimit(60)]
proof fn lemma_walk_stays(
    es: Seq<(Seq<char>, Seq<char>)>,
    nv: Seq<Seq<char>>,
    adj: Seq<Seq<usize>>,
    vis: Seq<bool>,
    w: Seq<Seq<char>>,
    j0: int,
) -> (j: int)
    requires
        adj.len() == nv.len(),
        nv.len() <= usize::MAX,
        forall|q: int| 0 <= q < es.len() ==> nv.contains((#[trigger] es[q]).0) && nv.contains(es[q].1)
            && adj[index_in(nv, es[q].0)].contains(index_in(nv, es[q].1) as usize),
        forall|t: int| 0 <= t < nv.len() - 1 ==> lex_order(#[trigger] nv[t], nv[t + 1]) == Comparison::Less,
        vis.len() == nv.len(),
        forall|a: int, t: int| 0 <= a < nv.len() && vis[a] && 0 <= t < adj[a].len() ==> vis[#[trigger] adj[a][t] as int],
        is_path_walk(es, w),
        0 <= j0 < nv.len(),
        vis[j0],
        nv[j0] == w[0],
    ensures
        0 <= j < nv.len(),
        vis[j],
        nv[j] == w.last(),
    decreases w.len(),
{
    if w.len() == 1 {
        j0
    } else {
        let w1 = w.drop_last();
        assert forall|i: int| 0 <= i < w1.len() - 1 implies #[trigger] linked(es, w1[i], w1[i + 1]) by {
            assert(linked(es, w[i], w[i + 1]));
        }
        let j = lemma_walk_stays(es, nv, adj, vis, w1, j0);
        let x = w[w.len() - 2];
        let y = w.last();
        assert(linked(es, w[w.len() - 2], w[w.len() - 2 + 1]));
        assert(w[w.len() - 2 + 1] == y);
        let q = choose|q: int| 0 <= q < es.len() && es[q] == (x, y);
        assert(nv.contains(es[q].0) && nv.contains(es[q].1));
        let ia = index_in(nv, x);
        let ib = index_in(nv, y);
        assert(0 <= ia < nv.len() && nv[ia] == x);
        assert(0 <= ib < nv.len() && nv[ib] == y);
        lemma_texts_distinct(nv, ia, j);
        assert(adj[ia].contains(ib as usize));
        let t = choose|t: int| 0 <= t < adj[ia].len() && adj[ia][t] == ib as usize;
        assert(vis[ia]);
        assert(vis[adj[ia][t] as int]);
        assert(adj[ia][t] as int == ib);
        ib
    }
}

/// Whether `comp` lists, as node indices, exactly the paths connected to
/// the node `start`.
#[verifier::opaque]
spec fn is_group(es: Seq<(Seq<char>, Seq<char>)>, nv: Seq<Seq<char>>, comp: Seq<usize>, start: int) -> bool {
    &&& comp.len() > 0
    &&& forall|k: int| 0 <= k < comp.len() ==> (#[trigger] comp[k]) < nv.len()
        && connected(es, nv[start], nv[comp[k] as int])
    &&& forall|x: Seq<char>| connected(es, nv[start], x) ==>
        exists|k: int| 0 <= k < comp.len() && #[trigger] nv[comp[k] as int] == x
}

/// The nodes reachable from `start`, `start` first, each once, in
/// breadth-first order.
#[verifier::spinoff_prover]
#[verifier::rlimit(100)]
fn reachable_from(
    es: Ghost<Seq<(Seq<char>, Seq<char>)>>,
    nv: Ghost<Seq<Seq<char>>>,
    adj: &Vec<Vec<usize>>,
    start: usize,
) -> (comp: Vec<usize>)
    requires
        start < adj.len(),
        index_graph_ok(es@, nv@, adj_views(adj@)),
        forall|t: int| 0 <= t < nv@.len() - 1 ==> lex_order(#[trigger] nv@[t], nv@[t + 1]) == Comparison::Less,
    ensures
        comp@.len() > 0,
        comp@[0] == start,
        comp@.no_duplicates(),
        forall|k: int| 0 <= k < comp@.len() ==> (#[trigger] comp@[k]) < nv@.len(),
        is_group(es@, nv@, comp@, start as int),
{
    let ghost av = adj_views(adj@);
    proof {
        reveal(index_graph_ok);
    }
    let n = adj.len();
    let mut visited: Vec<bool> = Vec::new();
    let mut z: usize = 0;
    while z < n
        invariant
            z <= n,
            visited@.len() == z,
            forall|t: int| 0 <= t < z ==> !#[trigger] visited@[t],
        decreases n - z,
    {
        visited.push(false);
        z = z + 1;
    }
    let mut comp: Vec<usize> = Vec::new();
    comp.push(start);
    visited.set(start, true);
    proof {
        let w = seq![nv@[start as int]];
        assert(is_path_walk(es@, w));
        assert(comp@.no_duplicates());
        assert forall|j: int| 0 <= j < n implies (visited@[j] <==> comp@.contains(j as usize)) by {
            if j == start as int {
                assert(comp@[0] == start);
            } else {
                if comp@.contains(j as usize) {
                    let k = choose|k: int| 0 <= k < comp@.len() && comp@[k] == j as usize;
                    assert(k == 0);
                }
            }
        }
    }
    let mut i: usize = 0;
    while i < comp.len()
        invariant
            n == adj.len(),
            n == nv@.len(),
            av == adj_views(adj@),
            index_graph_ok(es@, nv@, av),
            visited@.len() == n,
            i <= comp.len(),
            comp@.len() <= n,
            comp@.len() > 0 && comp@[0] == start,
            comp@.no_duplicates(),
            forall|k: int| 0 <= k < comp@.len() ==> (#[trigger] comp@[k]) < n
                && connected(es@, nv@[start as int], nv@[comp@[k] as int]),
            forall|j: int| 0 <= j < n ==> (visited@[j] <==> comp@.contains(j as usize)),
            forall|k: int, t: int| 0 <= k < i && 0 <= t < av[comp@[k] as int].len() ==>
                visited@[#[trigger] av[comp@[k] as int][t] as int],
        decreases n - i,
    {
        proof {
            reveal(index_graph_ok);
        }
        let cur = comp[i];
        let list = &adj[cur];
        proof {
            assert(av[cur as int] == list@);
        }
        let mut t: usize = 0;
        while t < list.len()
            invariant
                n == adj.len(),
                n == nv@.len(),
                av == adj_views(adj@),
                index_graph_ok(es@, nv@, av),
                visited@.len() == n,
                i < comp.len(),
                comp@.len() <= n,
                cur == comp@[i as int],
                cur < n,
                list@ == av[cur as int],
                t <= list.len(),
                comp@.len() > 0 && comp@[0] == start,
                comp@.no_duplicates(),
                comp@[i as int] == cur,
                forall|k: int| 0 <= k < comp@.len() ==> (#[trigger] comp@[k]) < n
                    && connected(es@, nv@[start as int], nv@[comp@[k] as int]),
                forall|j: int| 0 <= j < n ==> (visited@[j] <==> comp@.contains(j as usize)),
                forall|k: int, u: int| 0 <= k < i && 0 <= u < av[comp@[k] as int].len() ==>
                    visited@[#[trigger] av[comp@[k] as int][u] as int],
                forall|u: int| 0 <= u < t ==> visited@[#[trigger] list@[u] as int],
            decreases list.len() - t,
        {
            proof {
                reveal(index_graph_ok);
            }
            let next = list[t];
            proof {
                assert(av[cur as int][t as int] == next);
                assert(next < n);
            }
            if !visited[next] {
                proof {
                    assert(connected(es@, nv@[start as int], nv@[cur as int]));
                    let w = choose|w: Seq<Seq<char>>| #[trigger] is_path_walk(es@, w) && w[0] == nv@[start as int] && w.last() == nv@[cur as int];
                    let w2 = w.push(nv@[next as int]);
                    assert(linked(es@, nv@[cur as int], nv@[next as int]));
                    assert forall|q: int| 0 <= q < w2.len() - 1 implies #[trigger] linked(es@, w2[q], w2[q + 1]) by {
                        if q < w.len() - 1 {
                            assert(w2[q] == w[q] && w2[q + 1] == w[q + 1]);
                        }
                    }
                    assert(is_path_walk(es@, w2));
                    assert(!comp@.contains(next));
                }
                let ghost old_comp = comp@;
                comp.push(next);
                visited.set(next, true);
                proof {
                    assert(comp@.no_duplicates()) by {
                        assert forall|a: int, b: int| 0 <= a < b < comp@.len() implies comp@[a] != comp@[b] by {
                            if b == comp@.len() - 1 {
                                assert(old_comp.contains(old_comp[a]));
                            }
                        }
                    }
                    assert forall|j: int| 0 <= j < n implies (visited@[j] <==> comp@.contains(j as usize)) by {
                        if j == next as int {
                            assert(comp@[comp@.len() - 1] == next);
                        } else {
                            if old_comp.contains(j as usize) {
                                let k = choose|k: int| 0 <= k < old_comp.len() && old_comp[k] == j as usize;
                                assert(comp@[k] == j as usize);
                            }
                            if comp@.contains(j as usize) {
                                let k = choose|k: int| 0 <= k < comp@.len() && comp@[k] == j as usize;
                                assert(k < old_comp.len());
                                assert(old_comp[k] == j as usize);
                            }
                        }
                    }
                    assert forall|k: int| 0 <= k < comp@.len() implies (#[trigger] comp@[k]) < n
                        && connected(es@, nv@[start as int], nv@[comp@[k] as int]) by {
                        if k < old_comp.len() {
                            assert(comp@[k] == old_comp[k]);
                        }
                    }
                    lemma_index_list_bound(comp@, n as nat);
                }
            }
            t = t + 1;
        }
        proof {
            assert forall|k: int, u: int| 0 <= k < i + 1 && 0 <= u < av[comp@[k] as int].len() implies
                visited@[#[trigger] av[comp@[k] as int][u] as int] by {
                if k == i {
                    assert(av[comp@[k] as int][u] == list@[u]);
                }
            }
        }
        i = i + 1;
    }
    proof {
        reveal(index_graph_ok);
        let vis = visited@;
        assert forall|j: int, u: int| 0 <= j < nv@.len() && vis[j] && 0 <= u < av[j].len() implies vis[#[trigger] av[j][u] as int] by {
            assert(comp@.contains(j as usize));
            let k = choose|k: int| 0 <= k < comp@.len() && comp@[k] == j as usize;
            assert(av[comp@[k] as int][u] == av[j][u]);
        }
        assert forall|x: Seq<char>| connected(es@, nv@[start as int], x) implies
            exists|k: int| 0 <= k < comp@.len() && #[trigger] nv@[comp@[k] as int] == x by {
            let w = choose|w: Seq<Seq<char>>| #[trigger] is_path_walk(es@, w) && w[0] == nv@[start as int] && w.last() == x;
            assert(vis[start as int]) by {
                assert(comp@[0] == start);
            }
            let j = lemma_walk_stays(es@, nv@, av, vis, w, start as int);
            assert(comp@.contains(j as usize));
            let k = choose|k: int| 0 <= k < comp@.len() && comp@[k] == j as usize;
            assert(nv@[comp@[k] as int] == x);
        }
        reveal(is_group);
    }
    comp
}


/// Whether `m` is the least path, in lexicographic order, connected to `s`.
pub open spec fn is_least_connected(es: Seq<(Seq<char>, Seq<char>)>, s: Seq<char>, m: Seq<char>) -> bool {
    &&& connected(es, s, m)
    &&& forall|x: Seq<char>| #[trigger] connected(es, s, x) ==> lex_order(m, x) != Comparison::Greater
}

/// Whether a net is the net of the paths connected to the graph node `s`:
/// named after the least of them, with dots as underscores, and holding
/// once each component pin they end at, at least two.
#[verifier::opaque]
pub open spec fn is_net_of(es: Seq<(Seq<char>, Seq<char>)>, im: Seq<(Seq<char>, Seq<char>)>, n: NetView, s: Seq<char>) -> bool {
    &&& is_endpoint(es, s)
    &&& exists|m: Seq<char>| #[trigger] is_least_connected(es, s, m) && n.name == replace_char_seq(m, '.', '_')
    &&& n.nodes.no_duplicates()
    &&& n.nodes.len() >= 2
    &&& forall|r: (Seq<char>, Seq<char>)| #[trigger] n.nodes.contains(r) <==>
        exists|x: Seq<char>| connected(es, s, x) && #[trigger] resolve_path(x, im) == Some(r)
}

/// Whether a net is the net of the paths connected to some graph node.
#[verifier::opaque]
pub open spec fn is_graph_net(es: Seq<(Seq<char>, Seq<char>)>, im: Seq<(Seq<char>, Seq<char>)>, n: NetView) -> bool {
    exists|s: Seq<char>| #[trigger] is_net_of(es, im, n, s)
}

/// A net whose nodes are rearranged is still the net of the same node.
proof fn lemma_net_rearranged(es: Seq<(Seq<char>, Seq<char>)>, im: Seq<(Seq<char>, Seq<char>)>, a: NetView, b: NetView)
    requires
        is_graph_net(es, im, a),
        a.name == b.name,
        a.nodes.to_multiset() == b.nodes.to_multiset(),
    ensures
        is_graph_net(es, im, b),
{
    reveal(is_graph_net);
    reveal(is_net_of);
    let s = choose|s: Seq<char>| #[trigger] is_net_of(es, im, a, s);
    lemma_same_items(a.nodes, b.nodes);
    assert(is_net_of(es, im, b, s));
}

/// Whether the node list already holds the pin `pin` of `component`.
fn has_node(nodes: &Vec<NetNode>, component: &str, pin: &str) -> (b: bool)
    ensures
        b == node_views(nodes@).contains((component@, pin@)),
{
    let mut i: usize = 0;
    while i < nodes.len()
        invariant
            i <= nodes.len(),
            forall|k: int| 0 <= k < i ==> #[trigger] node_views(nodes@)[k] != (component@, pin@),
        decreases nodes.len() - i,
    {
        if str_eq(nodes[i].component.as_str(), component) && str_eq(nodes[i].pin.as_str(), pin) {
            assert(node_views(nodes@)[i as int] == (component@, pin@));
            return true;
        }
        i = i + 1;
    }
    false
}

/// Whether `min_idx` is the least index of a group and `pins` lists once
/// each component pin the group's paths end at.
#[verifier::opaque]
spec fn pins_of_group(im: Seq<(Seq<char>, Seq<char>)>, nv: Seq<Seq<char>>, comp: Seq<usize>, min_idx: int, pins: Seq<(Seq<char>, Seq<char>)>) -> bool {
    &&& exists|k: int| 0 <= k < comp.len() && comp[k] == min_idx
    &&& forall|k: int| 0 <= k < comp.len() ==> min_idx <= #[trigger] comp[k]
    &&& pins.no_duplicates()
    &&& forall|p: (Seq<char>, Seq<char>)| #[trigger] pins.contains(p) <==>
        exists|k: int| 0 <= k < comp.len() && #[trigger] resolve_path(nv[comp[k] as int], im) == Some(p)
}

/// Adding the pin of one more path, when it has one and the list lacks it,
/// keeps the list free of duplicates and equal to the pins of the paths so far.
proof fn lemma_add_pin(
    before: Seq<(Seq<char>, Seq<char>)>,
    after: Seq<(Seq<char>, Seq<char>)>,
    res: Option<(Seq<char>, Seq<char>)>,
    f: spec_fn(int) -> Option<(Seq<char>, Seq<char>)>,
    t: int,
)
    requires
        t >= 0,
        before.no_duplicates(),
        forall|r: (Seq<char>, Seq<char>)| #[trigger] before.contains(r) <==> exists|k: int| 0 <= k < t && #[trigger] f(k) == Some(r),
        res == f(t),
        after == (if res is Some && !before.contains(res->0) { before.push(res->0) } else { before }),
    ensures
        after.no_duplicates(),
        forall|r: (Seq<char>, Seq<char>)| #[trigger] after.contains(r) <==> exists|k: int| 0 <= k < t + 1 && #[trigger] f(k) == Some(r),
{
    if res is Some && !before.contains(res->0) {
        assert forall|a: int, b: int| 0 <= a < b < after.len() implies after[a] != after[b] by {
            if b == before.len() {
                assert(before.contains(before[a]));
            }
        }
    }
    assert forall|r: (Seq<char>, Seq<char>)| #[trigger] after.contains(r) implies exists|k: int| 0 <= k < t + 1 && #[trigger] f(k) == Some(r) by {
        if before.contains(r) {
            let k = choose|k: int| 0 <= k < t && #[trigger] f(k) == Some(r);
            assert(0 <= k < t + 1 && f(k) == Some(r));
        } else {
            let i = choose|i: int| 0 <= i < after.len() && after[i] == r;
            if i < before.len() {
                assert(after[i] == before[i]);
                assert(before.contains(r));
            }
            assert(f(t) == Some(r));
        }
    }
    assert forall|r: (Seq<char>, Seq<char>)| (exists|k: int| 0 <= k < t + 1 && #[trigger] f(k) == Some(r)) implies #[trigger] after.contains(r) by {
        let k = choose|k: int| 0 <= k < t + 1 && #[trigger] f(k) == Some(r);
        if k < t {
            assert(before.contains(r));
            let i = choose|i: int| 0 <= i < before.len() && before[i] == r;
            assert(after[i] == r);
        } else if before.contains(r) {
            let i = choose|i: int| 0 <= i < before.len() && before[i] == r;
            assert(after[i] == r);
        } else {
            assert(after[after.len() - 1] == r);
        }
    }
}

/// The component pins the paths of a group end at, each once, and the
/// least index of the group.
#[verifier::spinoff_prover]
#[verifier::rlimit(60)]
fn group_pins(nodes: &Vec<String>, comp: &Vec<usize>, im: &PropertyMap) -> (r: (Vec<NetNode>, usize))
    requires
        comp@.len() > 0,
        forall|k: int| 0 <= k < comp@.len() ==> (#[trigger] comp@[k]) < nodes@.len(),
    ensures
        r.1 < nodes@.len(),
        pins_of_group(im@, texts(nodes@), comp@, r.1 as int, node_views(r.0@)),
{
    let ghost nv = texts(nodes@);
    let ghost f = |k: int| resolve_path(nv[comp@[k] as int], im@);
    let mut net_nodes: Vec<NetNode> = Vec::new();
    let mut min_idx = comp[0];
    let mut t: usize = 0;
    while t < comp.len()
        invariant
            nv == texts(nodes@),
            f == (|k: int| resolve_path(nv[comp@[k] as int], im@)),
            t <= comp.len(),
            comp@.len() > 0,
            forall|k: int| 0 <= k < comp@.len() ==> (#[trigger] comp@[k]) < nodes@.len(),
            exists|k: int| 0 <= k < comp@.len() && comp@[k] == min_idx,
            forall|k: int| 0 <= k < t ==> min_idx <= #[trigger] comp@[k],
            node_views(net_nodes@).no_duplicates(),
            forall|r: (Seq<char>, Seq<char>)| #[trigger] node_views(net_nodes@).contains(r) <==>
                exists|k: int| 0 <= k < t && #[trigger] f(k) == Some(r),
        decreases comp.len() - t,
    {
        if comp[t] < min_idx {
            min_idx = comp[t];
        }
        let ghost before = node_views(net_nodes@);
        let res = resolve_path_to_component_pin(nodes[comp[t]].as_str(), im);
        let ghost rv = match &res {
            Some(pair) => Some((pair.0@, pair.1@)),
            None => None,
        };
        proof {
            assert(nv[comp@[t as int] as int] == nodes@[comp@[t as int] as int]@);
            assert(rv == f(t as int));
        }
        match &res {
            Some(pair) => {
                if !has_node(&net_nodes, pair.0.as_str(), pair.1.as_str()) {
                    net_nodes.push(NetNode::new(pair.0.as_str(), pair.1.as_str()));
                    proof {
                        assert(node_views(net_nodes@) =~= before.push((pair.0@, pair.1@)));
                    }
                }
            },
            None => {},
        }
        proof {
            lemma_add_pin(before, node_views(net_nodes@), rv, f, t as int);
        }
        t = t + 1;
    }
    proof {
        assert forall|p: (Seq<char>, Seq<char>)| #[trigger] node_views(net_nodes@).contains(p) <==>
            exists|k: int| 0 <= k < comp@.len() && #[trigger] resolve_path(texts(nodes@)[comp@[k] as int], im@) == Some(p) by {
            if node_views(net_nodes@).contains(p) {
                let k = choose|k: int| 0 <= k < t && #[trigger] f(k) == Some(p);
                assert(resolve_path(nv[comp@[k] as int], im@) == Some(p));
            }
            if exists|k: int| 0 <= k < comp@.len() && #[trigger] resolve_path(texts(nodes@)[comp@[k] as int], im@) == Some(p) {
                let k = choose|k: int| 0 <= k < comp@.len() && #[trigger] resolve_path(texts(nodes@)[comp@[k] as int], im@) == Some(p);
                assert(f(k) == Some(p));
            }
        }
        let kk = choose|k: int| 0 <= k < comp@.len() && comp@[k] == min_idx;
        assert(min_idx < nodes@.len());
        reveal(pins_of_group);
    }
    (net_nodes, min_idx)
}

/// The node list is sorted, each node an end of an edge.
#[verifier::opaque]
spec fn nodes_ok(es: Seq<(Seq<char>, Seq<char>)>, nv: Seq<Seq<char>>) -> bool {
    &&& forall|i: int| 0 <= i < nv.len() - 1 ==> lex_order(#[trigger] nv[i], nv[i + 1]) == Comparison::Less
    &&& forall|i: int| 0 <= i < nv.len() ==> is_endpoint(es, #[trigger] nv[i])
}

#[verifier::spinoff_prover]
#[verifier::rlimit(100)]
proof fn lemma_group_net(
    es: Seq<(Seq<char>, Seq<char>)>,
    im: Seq<(Seq<char>, Seq<char>)>,
    nv: Seq<Seq<char>>,
    comp: Seq<usize>,
    start: int,
    min_idx: int,
    name: Seq<char>,
    pins: Seq<(Seq<char>, Seq<char>)>,
)
    requires
        0 <= start < nv.len(),
        nodes_ok(es, nv),
        is_group(es, nv, comp, start),
        pins_of_group(im, nv, comp, min_idx, pins),
        name == replace_char_seq(nv[min_idx], '.', '_'),
        pins.len() >= 2,
    ensures
        is_net_of(es, im, NetView { name: name, nodes: pins }, nv[start]),
{
    let n = NetView { name: name, nodes: pins };
    reveal(nodes_ok);
    reveal(is_group);
    reveal(pins_of_group);
    reveal(is_net_of);
    let s = nv[start];
    let m = nv[min_idx];
    let kmin = choose|k: int| 0 <= k < comp.len() && comp[k] == min_idx;
    assert(connected(es, s, m)) by {
        assert(connected(es, s, nv[comp[kmin] as int]));
    }
    assert forall|x: Seq<char>| #[trigger] connected(es, s, x) implies lex_order(m, x) != Comparison::Greater by {
        let k = choose|k: int| 0 <= k < comp.len() && #[trigger] nv[comp[k] as int] == x;
        assert(min_idx <= comp[k]);
        lemma_sorted_texts_pairwise(nv, min_idx, comp[k] as int);
    }
    assert(is_least_connected(es, s, m));
    assert(is_endpoint(es, nv[start]));
    assert forall|r: (Seq<char>, Seq<char>)| #[trigger] n.nodes.contains(r) <==>
        exists|x: Seq<char>| connected(es, s, x) && #[trigger] resolve_path(x, im) == Some(r) by {
        if n.nodes.contains(r) {
            let k = choose|k: int| 0 <= k < comp.len() && #[trigger] resolve_path(nv[comp[k] as int], im) == Some(r);
            assert(connected(es, s, nv[comp[k] as int]));
        }
        if exists|x: Seq<char>| connected(es, s, x) && #[trigger] resolve_path(x, im) == Some(r) {
            let x = choose|x: Seq<char>| connected(es, s, x) && #[trigger] resolve_path(x, im) == Some(r);
            let k = choose|k: int| 0 <= k < comp.len() && #[trigger] nv[comp[k] as int] == x;
            assert(resolve_path(nv[comp[k] as int], im) == Some(r));
        }
    }
}

/// The name and pins of the net of one connected group, if its paths end
/// at two or more component pins.
#[verifier::spinoff_prover]
#[verifier::rlimit(100)]
fn group_parts(
    es: Ghost<Seq<(Seq<char>, Seq<char>)>>,
    nodes: &Vec<String>,
    comp: &Vec<usize>,
    start: usize,
    im: &PropertyMap,
) -> (r: Option<(String, Vec<NetNode>)>)
    requires
        start < nodes.len(),
        forall|i: int| 0 <= i < texts(nodes@).len() - 1 ==>
            lex_order(#[trigger] texts(nodes@)[i], texts(nodes@)[i + 1]) == Comparison::Less,
        forall|i: int| 0 <= i < nodes@.len() ==> is_endpoint(es@, #[trigger] texts(nodes@)[i]),
        is_group(es@, texts(nodes@), comp@, start as int),
        forall|k: int| 0 <= k < comp@.len() ==> (#[trigger] comp@[k]) < nodes@.len(),
        comp@.len() > 0,
    ensures
        match r {
            Some(p) => is_net_of(es@, im@, NetView { name: p.0@, nodes: node_views(p.1@) }, texts(nodes@)[start as int]),
            None => !has_two_pins(es@, im@, texts(nodes@)[start as int]),
        },
{
    let (net_nodes, min_idx) = group_pins(nodes, comp, im);
    if net_nodes.len() < 2 {
        proof {
            lemma_fewer_pins(es@, im@, texts(nodes@), comp@, start as int, min_idx as int, node_views(net_nodes@));
        }
        return None;
    }
    let name = replace_char(nodes[min_idx].as_str(), '.', '_');
    proof {
        assert(texts(nodes@)[min_idx as int] == nodes@[min_idx as int]@);
        assert(nodes_ok(es@, texts(nodes@))) by {
            reveal(nodes_ok);
        }
        lemma_group_net(es@, im@, texts(nodes@), comp@, start as int, min_idx as int,
            name@, node_views(net_nodes@));
    }
    Some((name, net_nodes))
}

/// A group whose paths end at fewer than two distinct component pins does not
/// have two pins.
proof fn lemma_fewer_pins(
    es: Seq<(Seq<char>, Seq<char>)>,
    im: Seq<(Seq<char>, Seq<char>)>,
    nv: Seq<Seq<char>>,
    comp: Seq<usize>,
    start: int,
    min_idx: int,
    pins: Seq<(Seq<char>, Seq<char>)>,
)
    requires
        is_group(es, nv, comp, start),
        pins_of_group(im, nv, comp, min_idx, pins),
        pins.len() < 2,
    ensures
        !has_two_pins(es, im, nv[start]),
{
    reveal(is_group);
    reveal(pins_of_group);
    reveal(has_two_pins);
    if has_two_pins(es, im, nv[start]) {
        let (r1, r2) = choose|r1: (Seq<char>, Seq<char>), r2: (Seq<char>, Seq<char>)|
            r1 != r2 && #[trigger] pin_of_group(es, im, nv[start], r1) && #[trigger] pin_of_group(es, im, nv[start], r2);
        let x1 = choose|x: Seq<char>| connected(es, nv[start], x) && #[trigger] resolve_path(x, im) == Some(r1);
        let x2 = choose|x: Seq<char>| connected(es, nv[start], x) && #[trigger] resolve_path(x, im) == Some(r2);
        let k1 = choose|k: int| 0 <= k < comp.len() && #[trigger] nv[comp[k] as int] == x1;
        let k2 = choose|k: int| 0 <= k < comp.len() && #[trigger] nv[comp[k] as int] == x2;
        assert(resolve_path(nv[comp[k1] as int], im) == Some(r1));
        assert(resolve_path(nv[comp[k2] as int], im) == Some(r2));
        assert(pins.contains(r1));
        assert(pins.contains(r2));
        let i1 = choose|i: int| 0 <= i < pins.len() && pins[i] == r1;
        let i2 = choose|i: int| 0 <= i < pins.len() && pins[i] == r2;
        assert(i1 != i2);
        assert(false);
    }
}

/// The net of one connected group, if its paths end at two or more
/// component pins.
fn group_net(
    es: Ghost<Seq<(Seq<char>, Seq<char>)>>,
    nodes: &Vec<String>,
    comp: &Vec<usize>,
    start: usize,
    im: &PropertyMap,
) -> (r: Option<Net>)
    requires
        start < nodes.len(),
        forall|i: int| 0 <= i < texts(nodes@).len() - 1 ==>
            lex_order(#[trigger] texts(nodes@)[i], texts(nodes@)[i + 1]) == Comparison::Less,
        forall|i: int| 0 <= i < nodes@.len() ==> is_endpoint(es@, #[trigger] texts(nodes@)[i]),
        is_group(es@, texts(nodes@), comp@, start as int),
        forall|k: int| 0 <= k < comp@.len() ==> (#[trigger] comp@[k]) < nodes@.len(),
        comp@.len() > 0,
    ensures
        match r {
            Some(n) => is_net_of(es@, im@, n@, texts(nodes@)[start as int]),
            None => !has_two_pins(es@, im@, texts(nodes@)[start as int]),
        },
{
    match group_parts(es, nodes, comp, start, im) {
        Some((name, net_nodes)) => Some(Net { name: name, nodes: net_nodes }),
        None => None,
    }
}

/// Designator order of netlist components: natural order of references.
pub open spec fn reference_ord() -> spec_fn(ComponentView, ComponentView) -> Comparison {
    |a: ComponentView, b: ComponentView| natural_order(a.reference, b.reference)
}

/// Order of net nodes: by component reference in natural order, then by pin name.
pub open spec fn node_order(a: (Seq<char>, Seq<char>), b: (Seq<char>, Seq<char>)) -> Comparison {
    let c = natural_order(a.0, b.0);
    if c == Comparison::Equal {
        lex_order(a.1, b.1)
    } else {
        c
    }
}

/// The netlist components in designator order.
fn sort_components(cs: Vec<NetlistComponent>) -> (r: Vec<NetlistComponent>)
    ensures
        component_views(r@) == isort_by(component_views(cs@), reference_ord()),
{
    let ghost orig = cs@;
    let mut cs = cs;
    let mut keyed: Vec<(NaturalKey, NetlistComponent)> = Vec::new();
    while cs.len() > 0
        invariant
            keyed.len() <= orig.len(),
            cs@ == orig.skip(keyed.len() as int),
            forall|i: int| 0 <= i < keyed.len() ==> #[trigger] keyed@[i].1 == orig[i]
                && keyed@[i].0.0@ == keyed@[i].1.reference@,
        decreases cs.len(),
    {
        proof {
            assert(cs@[0] == orig[keyed.len() as int]);
        }
        let c = cs.remove(0);
        let key = NaturalKey(chars_of(c.reference.as_str()));
        keyed.push((key, c));
        proof {
            assert(cs@ =~= orig.skip(keyed.len() as int));
        }
    }
    let ghost before = keyed@;
    sort_by_key(&mut keyed);
    proof {
        let f = |e: (NaturalKey, NetlistComponent)| e.1@;
        let km = |e: (NaturalKey, NetlistComponent)| e.0.0@ == e.1.reference@;
        assert forall|i: int| 0 <= i < before.len() implies km(#[trigger] before[i]) by {}
        assert forall|a: (NaturalKey, NetlistComponent), b: (NaturalKey, NetlistComponent)|
            km(a) && km(b) implies #[trigger] by_key::<NaturalKey, NetlistComponent>()(a, b)
                == reference_ord()(f(a), f(b)) by {}
        lemma_isort_map(before, f, km, by_key::<NaturalKey, NetlistComponent>(), reference_ord());
        assert(before.map_values(f) =~= component_views(orig));
    }
    let ghost sorted = keyed@;
    let r = take_items(keyed);
    proof {
        assert(component_views(r@) =~= sorted.map_values(|e: (NaturalKey, NetlistComponent)| e.1@));
    }
    r
}

/// A net with its nodes in node order.
#[verifier::spinoff_prover]
#[verifier::rlimit(100)]
fn sort_net_nodes(net: Net) -> (r: Net)
    ensures
        r@.name == net@.name,
        r@.nodes.to_multiset() == net@.nodes.to_multiset(),
        forall|k: int| 0 <= k < r@.nodes.len() - 1 ==> node_order(#[trigger] r@.nodes[k], r@.nodes[k + 1]) != Comparison::Greater,
{
    let Net { name, nodes } = net;
    let ghost orig = nodes@;
    let mut nodes = nodes;
    let mut keyed: Vec<(PairKey<NaturalKey, TextKey>, NetNode)> = Vec::new();
    while nodes.len() > 0
        invariant
            keyed.len() <= orig.len(),
            nodes@ == orig.skip(keyed.len() as int),
            forall|i: int| 0 <= i < keyed.len() ==> #[trigger] keyed@[i].1 == orig[i]
                && keyed@[i].0.0.0@ == keyed@[i].1.component@ && keyed@[i].0.1.0@ == keyed@[i].1.pin@,
        decreases nodes.len(),
    {
        proof {
            assert(nodes@[0] == orig[keyed.len() as int]);
        }
        let n = nodes.remove(0);
        let key = PairKey(NaturalKey(chars_of(n.component.as_str())), TextKey(chars_of(n.pin.as_str())));
        keyed.push((key, n));
        proof {
            assert(nodes@ =~= orig.skip(keyed.len() as int));
        }
    }
    let ghost before = keyed@;
    sort_by_key(&mut keyed);
    let ghost sorted = keyed@;
    let ghost f = |e: (PairKey<NaturalKey, TextKey>, NetNode)| e.1@;
    proof {
        lemma_map_multiset(before, sorted, f);
        assert(before.map_values(f) =~= node_views(orig));
        let km = |e: (PairKey<NaturalKey, TextKey>, NetNode)| e.0.0.0@ == e.1.component@ && e.0.1.0@ == e.1.pin@;
        assert forall|i: int| 0 <= i < before.len() implies km(#[trigger] before[i]) by {}
        lemma_multiset_property(before, sorted, km);
    }
    let items = take_items(keyed);
    let r = Net { name: name, nodes: items };
    proof {
        assert(node_views(items@) =~= sorted.map_values(f));
        assert forall|k: int| 0 <= k < r@.nodes.len() - 1 implies node_order(#[trigger] r@.nodes[k], r@.nodes[k + 1]) != Comparison::Greater by {
            assert(sorted[k].0.0.0@ == sorted[k].1.component@ && sorted[k].0.1.0@ == sorted[k].1.pin@);
            assert(sorted[k + 1].0.0.0@ == sorted[k + 1].1.component@ && sorted[k + 1].0.1.0@ == sorted[k + 1].1.pin@);
            assert(PairKey::<NaturalKey, TextKey>::order(sorted[k].0, sorted[k + 1].0) != Comparison::Greater);
        }
    }
    r
}

/// The views of nets.
pub open spec fn net_views(ns: Seq<Net>) -> Seq<NetView> {
    ns.map_values(|n: Net| n@)
}

/// The nets in name order, with the position in `nets` that each came from.
#[verifier::spinoff_prover]
#[verifier::rlimit(60)]
fn sort_nets(nets: Vec<Net>) -> (res: (Vec<Net>, Ghost<Seq<int>>))
    ensures
        net_views(res.0@).to_multiset() == net_views(nets@).to_multiset(),
        forall|k: int| 0 <= k < res.0@.len() - 1 ==> lex_order(#[trigger] res.0@[k].name@, res.0@[k + 1].name@) != Comparison::Greater,
        res.1@.len() == res.0@.len(),
        res.1@.no_duplicates(),
        forall|i: int| 0 <= i < res.0@.len() ==> 0 <= #[trigger] res.1@[i] < nets@.len()
            && res.0@[i]@ == nets@[res.1@[i]]@,
{
    let ghost orig = nets@;
    let mut nets = nets;
    let mut keyed: Vec<(TextKey, (Net, Ghost<int>))> = Vec::new();
    while nets.len() > 0
        invariant
            keyed.len() <= orig.len(),
            nets@ == orig.skip(keyed.len() as int),
            forall|i: int| 0 <= i < keyed.len() ==> #[trigger] keyed@[i].1.0 == orig[i]
                && keyed@[i].0.0@ == keyed@[i].1.0.name@ && keyed@[i].1.1@ == i,
        decreases nets.len(),
    {
        proof {
            assert(nets@[0] == orig[keyed.len() as int]);
        }
        let ghost at: int = keyed.len() as int;
        let n = nets.remove(0);
        let key = TextKey(chars_of(n.name.as_str()));
        keyed.push((key, (n, Ghost(at))));
        proof {
            assert(nets@ =~= orig.skip(keyed.len() as int));
        }
    }
    let ghost before = keyed@;
    sort_by_key(&mut keyed);
    let ghost sorted = keyed@;
    let ghost f = |e: (TextKey, (Net, Ghost<int>))| e.1.0@;
    let ghost g = |e: (TextKey, (Net, Ghost<int>))| e.1.1@;
    proof {
        lemma_map_multiset(before, sorted, f);
        assert(before.map_values(f) =~= net_views(orig));
        let km = |e: (TextKey, (Net, Ghost<int>))| e.0.0@ == e.1.0.name@
            && 0 <= e.1.1@ < orig.len() && e.1.0@ == orig[e.1.1@]@;
        assert forall|i: int| 0 <= i < before.len() implies km(#[trigger] before[i]) by {}
        lemma_multiset_property(before, sorted, km);
        lemma_map_multiset(before, sorted, g);
        assert(before.map_values(g).no_duplicates()) by {
            assert forall|i: int, j: int| 0 <= i < before.len() && 0 <= j < before.len() && i != j
                implies before.map_values(g)[i] != before.map_values(g)[j] by {}
        }
        lemma_same_items(before.map_values(g), sorted.map_values(g));
    }
    let items = take_items(keyed);
    let ghost iv = items@;
    let mut items = items;
    let mut r: Vec<Net> = Vec::new();
    let ghost mut perm: Seq<int> = Seq::empty();
    while items.len() > 0
        invariant
            r@.len() <= iv.len(),
            items@ == iv.skip(r@.len() as int),
            iv == sorted.map_values(|e: (TextKey, (Net, Ghost<int>))| e.1),
            perm.len() == r@.len(),
            forall|i: int| 0 <= i < r@.len() ==> #[trigger] r@[i] == iv[i].0 && perm[i] == iv[i].1@,
        decreases items.len(),
    {
        proof {
            assert(items@[0] == iv[r@.len() as int]);
        }
        let (n, tag) = items.remove(0);
        r.push(n);
        proof {
            perm = perm.push(tag@);
            assert(items@ =~= iv.skip(r@.len() as int));
        }
    }
    proof {
        assert(r@.len() == iv.len());
        assert(net_views(r@) =~= sorted.map_values(f));
        assert forall|i: int| 0 <= i < perm.len() implies perm[i] == #[trigger] sorted.map_values(g)[i] by {
            assert(r@[i] == iv[i].0);
            assert(iv[i] == sorted[i].1);
            assert(sorted.map_values(g)[i] == sorted[i].1.1@);
        }
        assert(perm =~= sorted.map_values(g));
        assert forall|k: int| 0 <= k < r@.len() - 1 implies lex_order(#[trigger] r@[k].name@, r@[k + 1].name@) != Comparison::Greater by {
            assert(sorted[k].0.0@ == sorted[k].1.0.name@);
            assert(sorted[k + 1].0.0@ == sorted[k + 1].1.0.name@);
            assert(TextKey::order(sorted[k].0, sorted[k + 1].0) != Comparison::Greater);
        }
        assert forall|i: int| 0 <= i < r@.len() implies 0 <= #[trigger] perm[i] < orig.len()
            && r@[i]@ == orig[perm[i]]@ by {
            assert(r@[i] == sorted[i].1.0);
        }
    }
    (r, Ghost(perm))
}

/// `g` names, for each net, a path whose net it is, and no path named for one
/// net is connected to the path named for another.
pub open spec fn group_reps(es: Seq<(Seq<char>, Seq<char>)>, im: Seq<(Seq<char>, Seq<char>)>, ns: Seq<NetView>, g: Seq<Seq<char>>) -> bool {
    &&& g.len() == ns.len()
    &&& forall|k: int| 0 <= k < ns.len() ==> #[trigger] is_net_of(es, im, ns[k], g[k])
    &&& forall|i: int, j: int| 0 <= i < ns.len() && 0 <= j < ns.len() && i != j
        ==> !connected(es, #[trigger] g[i], #[trigger] g[j])
}

/// Each net is the net of a group of connected paths of its own: no two nets
/// are the nets of one group.
pub open spec fn one_net_per_group(es: Seq<(Seq<char>, Seq<char>)>, im: Seq<(Seq<char>, Seq<char>)>, ns: Seq<NetView>) -> bool {
    exists|g: Seq<Seq<char>>| group_reps(es, im, ns, g)
}

/// Nets rearranged by a one-to-one choice of positions keep a group of their own
/// each.
proof fn lemma_reps_permuted(
    es: Seq<(Seq<char>, Seq<char>)>,
    im: Seq<(Seq<char>, Seq<char>)>,
    a: Seq<NetView>,
    b: Seq<NetView>,
    g: Seq<Seq<char>>,
    perm: Seq<int>,
) -> (h: Seq<Seq<char>>)
    requires
        group_reps(es, im, a, g),
        perm.len() == b.len(),
        perm.no_duplicates(),
        forall|i: int| 0 <= i < b.len() ==> 0 <= #[trigger] perm[i] < a.len() && b[i] == a[perm[i]],
    ensures
        group_reps(es, im, b, h),
{
    let h = Seq::new(b.len(), |i: int| g[perm[i]]);
    assert forall|k: int| 0 <= k < b.len() implies #[trigger] is_net_of(es, im, b[k], h[k]) by {
        assert(is_net_of(es, im, a[perm[k]], g[perm[k]]));
    }
    assert forall|i: int, j: int| 0 <= i < b.len() && 0 <= j < b.len() && i != j
        implies !connected(es, #[trigger] h[i], #[trigger] h[j]) by {
        assert(perm[i] != perm[j]);
        assert(h[i] == g[perm[i]] && h[j] == g[perm[j]]);
    }
    h
}

/// The nets of a netlist, each a net of the path graph of the design, with
/// its nodes in node order, and the nets in name order.
#[verifier::opaque]
pub open spec fn nets_ok(es: Seq<(Seq<char>, Seq<char>)>, im: Seq<(Seq<char>, Seq<char>)>, ns: Seq<NetView>) -> bool {
    &&& forall|k: int| 0 <= k < ns.len() ==> #[trigger] is_graph_net(es, im, ns[k])
    &&& forall|k: int, j: int| 0 <= k < ns.len() && 0 <= j < ns[k].nodes.len() - 1 ==>
        node_order(#[trigger] ns[k].nodes[j], ns[k].nodes[j + 1]) != Comparison::Greater
    &&& forall|k: int| 0 <= k < ns.len() - 1 ==> lex_order(#[trigger] ns[k].name, ns[k + 1].name) != Comparison::Greater
}

/// When every path of the group of `nv[start]` is marked, every path connected
/// to it is marked.
#[verifier::spinoff_prover]
#[verifier::rlimit(40)]
proof fn lemma_group_marked(es: Seq<(Seq<char>, Seq<char>)>, nv: Seq<Seq<char>>, comp: Seq<usize>, done: Seq<bool>, start: int)
    requires
        forall|t: int| 0 <= t < nv.len() - 1 ==> lex_order(#[trigger] nv[t], nv[t + 1]) == Comparison::Less,
        0 <= start < nv.len(),
        is_group(es, nv, comp, start),
        done.len() == nv.len(),
        forall|k: int| 0 <= k < comp.len() ==> done[#[trigger] comp[k] as int],
    ensures
        forall|j: int| 0 <= j < nv.len() && connected(es, nv[start], #[trigger] nv[j]) ==> done[j],
{
    reveal(is_group);
    assert forall|j: int| 0 <= j < nv.len() && connected(es, nv[start], #[trigger] nv[j]) implies done[j] by {
        let k = choose|k: int| 0 <= k < comp.len() && #[trigger] nv[comp[k] as int] == nv[j];
        lemma_texts_distinct(nv, comp[k] as int, j);
        assert(done[comp[k] as int]);
    }
}

/// Adds the net of the group of paths connected to the node `start`, if
/// they end at two or more component pins, and marks the group done.
#[verifier::spinoff_prover]
#[verifier::rlimit(100)]
fn add_group_net(
    es: Ghost<Seq<(Seq<char>, Seq<char>)>>,
    nodes: &Vec<String>,
    adj: &Vec<Vec<usize>>,
    start: usize,
    im: &PropertyMap,
    done: &mut Vec<bool>,
    nets: &mut Vec<Net>,
)
    requires
        start < nodes.len(),
        adj.len() == nodes.len(),
        old(done)@.len() == nodes.len(),
        forall|i: int| 0 <= i < texts(nodes@).len() - 1 ==>
            lex_order(#[trigger] texts(nodes@)[i], texts(nodes@)[i + 1]) == Comparison::Less,
        forall|i: int| 0 <= i < nodes@.len() ==> is_endpoint(es@, #[trigger] texts(nodes@)[i]),
        index_graph_ok(es@, texts(nodes@), adj_views(adj@)),
        forall|k: int| 0 <= k < old(nets)@.len() ==> #[trigger] is_graph_net(es@, im@, old(nets)@[k]@),
    ensures
        final(done)@.len() == nodes.len(),
        forall|k: int| 0 <= k < final(nets)@.len() ==> #[trigger] is_graph_net(es@, im@, final(nets)@[k]@),
        final(nets)@.len() >= old(nets)@.len(),
        forall|k: int| 0 <= k < old(nets)@.len() ==> #[trigger] final(nets)@[k] == old(nets)@[k],
        forall|j: int| 0 <= j < nodes.len() && #[trigger] old(done)@[j] ==> final(done)@[j],
        final(done)@[start as int],
        forall|j: int| 0 <= j < nodes.len() && #[trigger] final(done)@[j] && !old(done)@[j] ==>
            connected(es@, texts(nodes@)[start as int], texts(nodes@)[j]),
        has_two_pins(es@, im@, texts(nodes@)[start as int]) ==> exists|k: int| 0 <= k < final(nets)@.len()
            && #[trigger] is_net_of(es@, im@, final(nets)@[k]@, texts(nodes@)[start as int]),
        final(nets)@.len() <= old(nets)@.len() + 1,
        final(nets)@.len() == old(nets)@.len() + 1 ==> is_net_of(es@, im@, final(nets)@[old(nets)@.len() as int]@,
            texts(nodes@)[start as int]),
        forall|j: int| 0 <= j < nodes.len() && connected(es@, texts(nodes@)[start as int], #[trigger] texts(nodes@)[j])
            ==> final(done)@[j],
{
    let ghost nv = texts(nodes@);
    let ghost done0 = done@;
    let comp = reachable_from(es, Ghost(nv), adj, start);
    proof {
        reveal(is_group);
    }
    let mut t: usize = 0;
    while t < comp.len()
        invariant
            done@.len() == nodes.len(),
            done0 == old(done)@,
            nv == texts(nodes@),
            t <= comp@.len(),
            comp@.len() > 0,
            comp@[0] == start,
            forall|k: int| 0 <= k < comp@.len() ==> (#[trigger] comp@[k]) < nodes.len(),
            forall|k: int| 0 <= k < comp@.len() ==> connected(es@, nv[start as int], nv[#[trigger] comp@[k] as int]),
            forall|j: int| 0 <= j < nodes.len() && #[trigger] done0[j] ==> done@[j],
            forall|j: int| 0 <= j < nodes.len() && #[trigger] done@[j] && !done0[j] ==>
                connected(es@, nv[start as int], nv[j]),
            t > 0 ==> done@[start as int],
            forall|k: int| 0 <= k < t ==> done@[#[trigger] comp@[k] as int],
        decreases comp.len() - t,
    {
        proof {
            assert(connected(es@, nv[start as int], nv[comp@[t as int] as int]));
        }
        done.set(comp[t], true);
        t = t + 1;
    }
    proof {
        lemma_group_marked(es@, nv, comp@, done@, start as int);
    }
    match group_net(es, nodes, &comp, start, im) {
        Some(net) => {
            let ghost before = nets@;
            let ghost s = nv[start as int];
            let ghost nview = net@;
            nets.push(net);
            proof {
                assert(nets@[before.len() as int]@ == nview);
                assert(is_net_of(es@, im@, nets@[before.len() as int]@, s));
                assert forall|k: int| 0 <= k < nets@.len() implies #[trigger] is_graph_net(es@, im@, nets@[k]@) by {
                    if k < before.len() {
                        assert(nets@[k] == before[k]);
                    } else {
                        reveal(is_graph_net);
                        assert(is_net_of(es@, im@, nets@[k]@, s));
                    }
                }
            }
        },
        None => {},
    }
}

/// Handling the group of `nv[start]` keeps every path before it done and every
/// done path covered.
proof fn lemma_group_step(
    es: Seq<(Seq<char>, Seq<char>)>,
    im: Seq<(Seq<char>, Seq<char>)>,
    nv: Seq<Seq<char>>,
    old_done: Seq<bool>,
    new_done: Seq<bool>,
    old_nets: Seq<Net>,
    new_nets: Seq<Net>,
    start: int,
)
    requires
        symmetric(es),
        0 <= start < nv.len(),
        old_done.len() == nv.len(),
        new_done.len() == nv.len(),
        forall|j: int| 0 <= j < nv.len() ==> is_endpoint(es, #[trigger] nv[j]),
        forall|j: int| 0 <= j < start ==> #[trigger] old_done[j],
        forall|j: int| 0 <= j < nv.len() && #[trigger] old_done[j] ==> covered(es, im, net_views(old_nets), nv[j]),
        new_nets.len() >= old_nets.len(),
        forall|k: int| 0 <= k < old_nets.len() ==> #[trigger] new_nets[k] == old_nets[k],
        forall|j: int| 0 <= j < nv.len() && #[trigger] old_done[j] ==> new_done[j],
        new_done[start],
        forall|j: int| 0 <= j < nv.len() && #[trigger] new_done[j] && !old_done[j] ==> connected(es, nv[start], nv[j]),
        has_two_pins(es, im, nv[start]) ==> exists|k: int| 0 <= k < new_nets.len()
            && #[trigger] is_net_of(es, im, new_nets[k]@, nv[start]),
    ensures
        forall|j: int| 0 <= j < start + 1 ==> #[trigger] new_done[j],
        forall|j: int| 0 <= j < nv.len() && #[trigger] new_done[j] ==> covered(es, im, net_views(new_nets), nv[j]),
{
    let old_ns = net_views(old_nets);
    let new_ns = net_views(new_nets);
    assert forall|k: int| 0 <= k < old_ns.len() implies #[trigger] new_ns[k] == old_ns[k] by {
        assert(new_nets[k] == old_nets[k]);
    }
    if has_two_pins(es, im, nv[start]) {
        let k = choose|k: int| 0 <= k < new_nets.len() && #[trigger] is_net_of(es, im, new_nets[k]@, nv[start]);
        assert(new_ns[k] == new_nets[k]@);
    }
    lemma_covered_after_group(es, im, nv, old_done, new_done, old_ns, new_ns, start);
    assert forall|j: int| 0 <= j < start + 1 implies #[trigger] new_done[j] by {
        if j < start {
            assert(old_done[j]);
        }
    }
}

/// Handling the group of a path not yet done adds at most the net of that
/// group, which is connected to none of the groups before it.
proof fn lemma_reps_step(
    es: Seq<(Seq<char>, Seq<char>)>,
    im: Seq<(Seq<char>, Seq<char>)>,
    nv: Seq<Seq<char>>,
    old_done: Seq<bool>,
    new_done: Seq<bool>,
    old_nets: Seq<Net>,
    new_nets: Seq<Net>,
    reps: Seq<Seq<char>>,
    start: int,
) -> (r: Seq<Seq<char>>)
    requires
        symmetric(es),
        0 <= start < nv.len(),
        old_done.len() == nv.len(),
        new_done.len() == nv.len(),
        !old_done[start],
        group_reps(es, im, net_views(old_nets), reps),
        forall|k: int, j: int| 0 <= k < reps.len() && 0 <= j < nv.len() && #[trigger] connected(es, reps[k], nv[j])
            ==> old_done[j],
        forall|j: int| 0 <= j < nv.len() && #[trigger] old_done[j] ==> new_done[j],
        old_nets.len() <= new_nets.len() <= old_nets.len() + 1,
        forall|k: int| 0 <= k < old_nets.len() ==> #[trigger] new_nets[k] == old_nets[k],
        new_nets.len() == old_nets.len() + 1 ==> is_net_of(es, im, new_nets[old_nets.len() as int]@, nv[start]),
        forall|j: int| 0 <= j < nv.len() && connected(es, nv[start], #[trigger] nv[j]) ==> new_done[j],
    ensures
        group_reps(es, im, net_views(new_nets), r),
        forall|k: int, j: int| 0 <= k < r.len() && 0 <= j < nv.len() && #[trigger] connected(es, r[k], nv[j])
            ==> new_done[j],
{
    let ov = net_views(old_nets);
    let nw = net_views(new_nets);
    assert forall|k: int| 0 <= k < ov.len() implies #[trigger] nw[k] == ov[k] by {
        assert(new_nets[k] == old_nets[k]);
    }
    if new_nets.len() == old_nets.len() {
        assert(nw =~= ov);
        reps
    } else {
        let r = reps.push(nv[start]);
        let m = old_nets.len() as int;
        assert(nw[m] == new_nets[m]@);
        assert forall|k: int| 0 <= k < reps.len() implies !connected(es, #[trigger] reps[k], nv[start]) by {
            if connected(es, reps[k], nv[start]) {
                assert(old_done[start]);
            }
        }
        assert forall|k: int| 0 <= k < nw.len() implies #[trigger] is_net_of(es, im, nw[k], r[k]) by {
            if k < m {
                assert(is_net_of(es, im, ov[k], reps[k]));
            }
        }
        assert forall|i: int, j: int| 0 <= i < nw.len() && 0 <= j < nw.len() && i != j
            implies !connected(es, #[trigger] r[i], #[trigger] r[j]) by {
            if i < m && j < m {
                assert(!connected(es, reps[i], reps[j]));
            } else if i == m {
                assert(!connected(es, reps[j], nv[start]));
                if connected(es, nv[start], reps[j]) {
                    lemma_connected_reverse(es, nv[start], reps[j]);
                }
            } else {
                assert(!connected(es, reps[i], nv[start]));
            }
        }
        assert forall|k: int, j: int| 0 <= k < r.len() && 0 <= j < nv.len() && #[trigger] connected(es, r[k], nv[j])
            implies new_done[j] by {
            if k < m {
                assert(connected(es, reps[k], nv[j]));
                assert(old_done[j]);
            }
        }
        r
    }
}

/// When every node of the index graph is covered, the nets are complete.
proof fn lemma_complete_from_graph(
    es: Seq<(Seq<char>, Seq<char>)>,
    im: Seq<(Seq<char>, Seq<char>)>,
    nv: Seq<Seq<char>>,
    av: Seq<Seq<usize>>,
    ns: Seq<NetView>,
)
    requires
        index_graph_ok(es, nv, av),
        forall|j: int| 0 <= j < nv.len() ==> covered(es, im, ns, #[trigger] nv[j]),
    ensures
        nets_complete(es, im, ns),
{
    reveal(index_graph_ok);
    lemma_complete_from_nodes(es, im, nv, ns);
}

impl<'a> NetlistBuilder<'a> {
    /// Builds the nets: one for each group of connected paths that ends at
    /// two or more component pins.
    #[verifier::spinoff_prover]
    #[verifier::rlimit(100)]
    fn build_nets(&mut self)
        requires
            old(self).wf(),
            old(self).netlist.nets@.len() == 0,
        ensures
            final(self).wf(),
            final(self).design_view() == old(self).design_view(),
            final(self).solved() == old(self).solved(),
            final(self).entry() == old(self).entry(),
            final(self).netlist.components == old(self).netlist.components,
            final(self).netlist.metadata == old(self).netlist.metadata,
            forall|k: int| 0 <= k < final(self).netlist.nets@.len() ==> #[trigger] is_graph_net(
                path_edges(old(self).design_view(), old(self).entry()),
                instance_refs(component_views(old(self).netlist.components@), old(self).netlist.components@.len() as int),
                final(self).netlist.nets@[k]@,
            ),
            nets_complete(
                path_edges(old(self).design_view(), old(self).entry()),
                instance_refs(component_views(old(self).netlist.components@), old(self).netlist.components@.len() as int),
                net_views(final(self).netlist.nets@),
            ),
            one_net_per_group(
                path_edges(old(self).design_view(), old(self).entry()),
                instance_refs(component_views(old(self).netlist.components@), old(self).netlist.components@.len() as int),
                net_views(final(self).netlist.nets@),
            ),
    {
        let im = instance_path_table(&self.netlist.components);
        let edges = build_edges(self.design, self.entry_module);
        let ghost es = edge_views(edges@);
        let (nodes, adj) = index_graph(&edges);
        let ghost nv = texts(nodes@);
        let n = nodes.len();
        let mut done: Vec<bool> = Vec::new();
        let mut z: usize = 0;
        while z < n
            invariant
                z <= n,
                done@.len() == z,
                forall|t: int| 0 <= t < z ==> !#[trigger] done@[t],
            decreases n - z,
        {
            done.push(false);
            z = z + 1;
        }
        let ghost im_v = im@;
        proof {
            lemma_path_edges_symmetric(old(self).design_view(), old(self).entry());
        }
        let mut start: usize = 0;
        let ghost mut reps: Seq<Seq<char>> = Seq::empty();
        proof {
            assert(net_views(self.netlist.nets@) =~= Seq::<NetView>::empty());
        }
        while start < n
            invariant
                group_reps(es, im_v, net_views(self.netlist.nets@), reps),
                forall|k: int, j: int| 0 <= k < reps.len() && 0 <= j < n && #[trigger] connected(es, reps[k], nv[j])
                    ==> done@[j],
                self.wf(),
                self.design@ == old(self).design@,
                self.solved_values@ == old(self).solved_values@,
                self.entry_module == old(self).entry_module,
                self.netlist.components == old(self).netlist.components,
                self.netlist.metadata == old(self).netlist.metadata,
                es == edge_views(edges@),
                es == path_edges(old(self).design_view(), old(self).entry()),
                im@ == im_v,
                im_v == instance_refs(component_views(old(self).netlist.components@), old(self).netlist.components@.len() as int),
                nv == texts(nodes@),
                n == nodes.len(),
                n == adj.len(),
                forall|i: int| 0 <= i < nodes@.len() ==> is_endpoint(es, #[trigger] nv[i]),
                done@.len() == n,
                forall|i: int| 0 <= i < nv.len() - 1 ==> lex_order(#[trigger] nv[i], nv[i + 1]) == Comparison::Less,
                index_graph_ok(es, nv, adj_views(adj@)),
                forall|k: int| 0 <= k < self.netlist.nets@.len() ==> #[trigger] is_graph_net(es, im_v, self.netlist.nets@[k]@),
                symmetric(es),
                start <= n,
                forall|j: int| 0 <= j < start ==> #[trigger] done@[j],
                forall|j: int| 0 <= j < n && #[trigger] done@[j] ==> covered(es, im_v, net_views(self.netlist.nets@), nv[j]),
            decreases n - start,
        {
            if !done[start] {
                let ghost old_done = done@;
                let ghost old_nets = self.netlist.nets@;
                add_group_net(Ghost(es), &nodes, &adj, start, &im, &mut done, &mut self.netlist.nets);
                proof {
                    lemma_group_step(es, im_v, nv, old_done, done@, old_nets, self.netlist.nets@, start as int);
                    reps = lemma_reps_step(es, im_v, nv, old_done, done@, old_nets, self.netlist.nets@, reps, start as int);
                }
            }
            start = start + 1;
        }
        proof {
            assert forall|j: int| 0 <= j < nv.len() implies covered(es, im_v, net_views(self.netlist.nets@), #[trigger] nv[j]) by {
                assert(done@[j]);
            }
            lemma_complete_from_graph(es, im_v, nv, adj_views(adj@), net_views(self.netlist.nets@));
        }
    }

    /// Builds the netlist: the components of the design in designator
    /// order, and its nets in name order, each with its nodes in node order.
    pub fn build(self) -> (r: Result<Netlist, ExportError>)
        requires
            self.wf(),
            self.is_unbuilt(),
            forall|q: Seq<char>| #[trigger] self.ref_count(q) == 0,
        ensures
            r is Ok,
            ({
                let n = r->Ok_0;
                let cs = collected(self.design_view(), self.solved(), self.entry());
                &&& component_views(n.components@) == isort_by(cs, reference_ord())
                &&& nets_ok(path_edges(self.design_view(), self.entry()), instance_refs(cs, cs.len() as int), net_views(n.nets@))
                &&& nets_complete(path_edges(self.design_view(), self.entry()), instance_refs(cs, cs.len() as int), net_views(n.nets@))
                &&& one_net_per_group(path_edges(self.design_view(), self.entry()), instance_refs(cs, cs.len() as int), net_views(n.nets@))
                &&& n.metadata.tool matches Some(t) && t@ == "ato-export"@
                &&& n.metadata.title is None
                &&& n.metadata.date is None
                &&& n.metadata.source is None
            }),
    {
        let mut b = self;
        b.netlist.metadata.tool = Some("ato-export".to_owned());
        assert forall|q: Seq<char>| #[trigger] b.ref_count(q) == 0 by {
            assert(self.ref_count(q) == 0);
        }
        let ghost d = b.design@;
        let ghost e = b.entry_module;
        b.collect_components();
        let ghost cs = component_views(b.netlist.components@);
        b.build_nets();
        let ghost es = path_edges(d, e);
        let ghost im = instance_refs(cs, cs.len() as int);
        let netlist = finish_netlist(b.netlist, Ghost(es), Ghost(im));
        Ok(netlist)
    }
}

/// The netlist with its components in designator order and its nets in
/// name order, each with its nodes in node order.
#[verifier::spinoff_prover]
#[verifier::rlimit(100)]
fn finish_netlist(netlist: Netlist, es: Ghost<Seq<(Seq<char>, Seq<char>)>>, im: Ghost<Seq<(Seq<char>, Seq<char>)>>) -> (r: Netlist)
    requires
        forall|k: int| 0 <= k < netlist.nets@.len() ==> #[trigger] is_graph_net(es@, im@, netlist.nets@[k]@),
        nets_complete(es@, im@, net_views(netlist.nets@)),
        one_net_per_group(es@, im@, net_views(netlist.nets@)),
    ensures
        component_views(r.components@) == isort_by(component_views(netlist.components@), reference_ord()),
        nets_ok(es@, im@, net_views(r.nets@)),
        nets_complete(es@, im@, net_views(r.nets@)),
        one_net_per_group(es@, im@, net_views(r.nets@)),
        r.metadata == netlist.metadata,
{
    let Netlist { components, nets, metadata } = netlist;
    let ghost raw = nets@;
    let components = sort_components(components);
    let sorted_nodes = sort_all_net_nodes(nets, es, im);
    let ghost before_sort = sorted_nodes@;
    proof {
        assert forall|k: int| 0 <= k < net_views(raw).len() implies (#[trigger] net_views(raw)[k]).name
            == net_views(before_sort)[k].name && net_views(raw)[k].nodes.to_multiset()
            == net_views(before_sort)[k].nodes.to_multiset() by {
            assert(net_views(raw)[k] == raw[k]@);
            assert(net_views(before_sort)[k] == before_sort[k]@);
        }
        lemma_complete_rearranged(es@, im@, net_views(raw), net_views(before_sort));
    }
    let (nets, perm) = sort_nets(sorted_nodes);
    proof {
        lemma_sorted_nets(es@, im@, before_sort, nets@);
        lemma_complete_permuted(es@, im@, net_views(before_sort), net_views(nets@));
        let g = choose|g: Seq<Seq<char>>| group_reps(es@, im@, net_views(raw), g);
        assert forall|k: int| 0 <= k < net_views(before_sort).len() implies
            #[trigger] is_net_of(es@, im@, net_views(before_sort)[k], g[k]) by {
            assert(is_net_of(es@, im@, net_views(raw)[k], g[k]));
            assert(net_views(raw)[k] == raw[k]@);
            assert(net_views(before_sort)[k] == before_sort[k]@);
            lemma_net_of_rearranged(es@, im@, net_views(raw)[k], net_views(before_sort)[k], g[k]);
        }
        assert(group_reps(es@, im@, net_views(before_sort), g));
        assert forall|i: int| 0 <= i < net_views(nets@).len() implies 0 <= #[trigger] perm@[i] < net_views(before_sort).len()
            && net_views(nets@)[i] == net_views(before_sort)[perm@[i]] by {
            assert(net_views(nets@)[i] == nets@[i]@);
            assert(net_views(before_sort)[perm@[i]] == before_sort[perm@[i]]@);
        }
        let h = lemma_reps_permuted(es@, im@, net_views(before_sort), net_views(nets@), g, perm@);
        assert(group_reps(es@, im@, net_views(nets@), h));
    }
    Netlist { components, nets, metadata }
}

/// Nets sorted by name from nets each of the graph and in node order are
/// the nets of a netlist.
#[verifier::spinoff_prover]
#[verifier::rlimit(100)]
proof fn lemma_sorted_nets(es: Seq<(Seq<char>, Seq<char>)>, im: Seq<(Seq<char>, Seq<char>)>, before_sort: Seq<Net>, after: Seq<Net>)
    requires
        net_views(after).to_multiset() == net_views(before_sort).to_multiset(),
        forall|k: int| 0 <= k < after.len() - 1 ==> lex_order(#[trigger] after[k].name@, after[k + 1].name@) != Comparison::Greater,
        forall|k: int| 0 <= k < before_sort.len() ==> #[trigger] is_graph_net(es, im, before_sort[k]@),
        forall|k: int, j: int| 0 <= k < before_sort.len() && 0 <= j < before_sort[k]@.nodes.len() - 1 ==>
            node_order(#[trigger] before_sort[k]@.nodes[j], before_sort[k]@.nodes[j + 1]) != Comparison::Greater,
    ensures
        nets_ok(es, im, net_views(after)),
{
    reveal(nets_ok);
    let bv = net_views(before_sort);
    let ns = net_views(after);
    let p1 = |v: NetView| is_graph_net(es, im, v);
    let p2 = |v: NetView| forall|j: int| 0 <= j < v.nodes.len() - 1 ==>
        node_order(#[trigger] v.nodes[j], v.nodes[j + 1]) != Comparison::Greater;
    assert forall|i: int| 0 <= i < bv.len() implies p1(#[trigger] bv[i]) by {
        assert(bv[i] == before_sort[i]@);
    }
    assert forall|i: int| 0 <= i < bv.len() implies p2(#[trigger] bv[i]) by {
        assert(bv[i] == before_sort[i]@);
    }
    lemma_multiset_property(bv, ns, p1);
    lemma_multiset_property(bv, ns, p2);
    assert forall|k: int| 0 <= k < ns.len() implies #[trigger] is_graph_net(es, im, ns[k]) by {
        assert(p1(ns[k]));
    }
    assert forall|k: int, j: int| 0 <= k < ns.len() && 0 <= j < ns[k].nodes.len() - 1 implies
        node_order(#[trigger] ns[k].nodes[j], ns[k].nodes[j + 1]) != Comparison::Greater by {
        assert(p2(ns[k]));
    }
    assert forall|k: int| 0 <= k < ns.len() - 1 implies lex_order(#[trigger] ns[k].name, ns[k + 1].name) != Comparison::Greater by {
        assert(ns[k].name == after[k].name@);
        assert(ns[k + 1].name == after[k + 1].name@);
    }
}

/// Each net with its nodes in node order.
#[verifier::spinoff_prover]
#[verifier::rlimit(60)]
fn sort_all_net_nodes(nets: Vec<Net>, es: Ghost<Seq<(Seq<char>, Seq<char>)>>, im: Ghost<Seq<(Seq<char>, Seq<char>)>>) -> (r: Vec<Net>)
    requires
        forall|k: int| 0 <= k < nets@.len() ==> #[trigger] is_graph_net(es@, im@, nets@[k]@),
    ensures
        r@.len() == nets@.len(),
        forall|k: int| 0 <= k < r@.len() ==> #[trigger] is_graph_net(es@, im@, r@[k]@),
        forall|k: int| 0 <= k < r@.len() ==> (#[trigger] r@[k])@.name == nets@[k]@.name
            && r@[k]@.nodes.to_multiset() == nets@[k]@.nodes.to_multiset(),
        forall|k: int, j: int| 0 <= k < r@.len() && 0 <= j < r@[k]@.nodes.len() - 1 ==>
            node_order(#[trigger] r@[k]@.nodes[j], r@[k]@.nodes[j + 1]) != Comparison::Greater,
{
    let ghost raw = nets@;
    let mut sorted_nodes: Vec<Net> = Vec::new();
    let mut nets = nets;
    while nets.len() > 0
        invariant
            sorted_nodes.len() + nets.len() == raw.len(),
            nets@ == raw.skip(sorted_nodes.len() as int),
            forall|k: int| 0 <= k < raw.len() ==> #[trigger] is_graph_net(es@, im@, raw[k]@),
            forall|k: int| 0 <= k < sorted_nodes.len() ==> #[trigger] is_graph_net(es@, im@, sorted_nodes@[k]@),
            forall|k: int, j: int| 0 <= k < sorted_nodes.len() && 0 <= j < sorted_nodes@[k]@.nodes.len() - 1 ==>
                node_order(#[trigger] sorted_nodes@[k]@.nodes[j], sorted_nodes@[k]@.nodes[j + 1]) != Comparison::Greater,
            forall|k: int| 0 <= k < sorted_nodes.len() ==> (#[trigger] sorted_nodes@[k])@.name == raw[k]@.name
                && sorted_nodes@[k]@.nodes.to_multiset() == raw[k]@.nodes.to_multiset(),
        decreases nets.len(),
    {
        proof {
            assert(nets@[0] == raw[sorted_nodes.len() as int]);
        }
        let net = nets.remove(0);
        let ghost nv0 = net@;
        let sn = sort_net_nodes(net);
        proof {
            assert(is_graph_net(es@, im@, raw[sorted_nodes.len() as int]@));
            lemma_net_rearranged(es@, im@, nv0, sn@);
        }
        let ghost sorted_before = sorted_nodes@;
        sorted_nodes.push(sn);
        proof {
            assert(nets@ =~= raw.skip(sorted_nodes.len() as int));
            assert forall|k: int| 0 <= k < sorted_nodes.len() implies #[trigger] is_graph_net(es@, im@, sorted_nodes@[k]@) by {
                if k < sorted_before.len() {
                    assert(sorted_nodes@[k] == sorted_before[k]);
                }
            }
            assert forall|k: int, j: int| 0 <= k < sorted_nodes.len() && 0 <= j < sorted_nodes@[k]@.nodes.len() - 1 implies
                node_order(#[trigger] sorted_nodes@[k]@.nodes[j], sorted_nodes@[k]@.nodes[j + 1]) != Comparison::Greater by {
                if k < sorted_before.len() {
                    assert(sorted_nodes@[k] == sorted_before[k]);
                }
            }
            assert forall|k: int| 0 <= k < sorted_nodes.len() implies (#[trigger] sorted_nodes@[k])@.name == raw[k]@.name
                && sorted_nodes@[k]@.nodes.to_multiset() == raw[k]@.nodes.to_multiset() by {
                if k < sorted_before.len() {
                    assert(sorted_nodes@[k] == sorted_before[k]);
                }
            }
        }
    }
    sorted_nodes
}


/// A module with no `has_designator_prefix` trait and no `package` that sets
/// a prefix, whose lower-case name contains "inductor" (and neither "resistor"
/// nor "capacitor"), is an inductor: each of its instances is found with the
/// prefix `L` and is designated `L` followed by its number among the `L`
/// components.
pub proof fn lemma_inductor_instance_designated_l(
    d: DesignView,
    solved: Seq<(Seq<char>, Seq<char>)>,
    t: ModuleId,
    name: Seq<char>,
    prefix: Seq<char>,
    n: nat,
    idx: nat,
    ps: Seq<PendingView>,
    i: int,
)
    requires
        module_at(d, t) is Some,
        traits_prefix_from(module_at(d, t)->Some_0.traits@, 0) is None,
        package_prefix_from(d, module_at(d, t)->Some_0.fields@, 0) is None,
        contains_seq(lowercase_of(module_at(d, t)->Some_0.name@), "inductor"@),
        !contains_seq(lowercase_of(module_at(d, t)->Some_0.name@), "resistor"@),
        !contains_seq(lowercase_of(module_at(d, t)->Some_0.name@), "capacitor"@),
        0 <= i < ps.len(),
        ps[i] == leaf_entry(d, solved, t, name, prefix, n, idx),
    ensures
        deep_prefix(d, t) == "L"@,
        leaf_entry(d, solved, t, name, prefix, n, idx).prefix == "L"@,
        assigned(ps)[i].reference == "L"@ + dec_digits(prefix_count(ps, "L"@, i) + 1),
{
}

/// The prefixes that a lower-case module name suggests for the instances of
/// the module, row by row, the first row that matches winning: `resistor`
/// gives `R`, `capacitor` `C`, `inductor` `L`, `diode` or exactly `led` `D`,
/// `transistor` or `mosfet` `Q`, `connector`, `molex` or `jst` `J`, `crystal`
/// `Y`, `button`, `switch`, `skrpace` or `sktdlde` `SW`, and `sk6805`,
/// `ws2812`, `sk6812` or `neopixel` `LED`; a name that matches no row
/// suggests none.
pub proof fn lemma_name_prefix_rows(n: Seq<char>)
    ensures
        contains_seq(n, "resistor"@) ==> name_prefix(n) == Some("R"@),
        !contains_seq(n, "resistor"@) && contains_seq(n, "capacitor"@) ==> name_prefix(n) == Some("C"@),
        !contains_seq(n, "resistor"@) && !contains_seq(n, "capacitor"@) && contains_seq(n, "inductor"@)
            ==> name_prefix(n) == Some("L"@),
        !contains_seq(n, "resistor"@) && !contains_seq(n, "capacitor"@) && !contains_seq(n, "inductor"@)
            && (contains_seq(n, "diode"@) || n == "led"@) ==> name_prefix(n) == Some("D"@),
        name_prefix(n) == Some("Q"@) <==> (!contains_seq(n, "resistor"@) && !contains_seq(n, "capacitor"@)
            && !contains_seq(n, "inductor"@) && !contains_seq(n, "diode"@) && n != "led"@
            && (contains_seq(n, "transistor"@) || contains_seq(n, "mosfet"@))),
        name_prefix(n) == Some("J"@) <==> (!contains_seq(n, "resistor"@) && !contains_seq(n, "capacitor"@)
            && !contains_seq(n, "inductor"@) && !contains_seq(n, "diode"@) && n != "led"@
            && !contains_seq(n, "transistor"@) && !contains_seq(n, "mosfet"@)
            && (contains_seq(n, "connector"@) || contains_seq(n, "molex"@) || contains_seq(n, "jst"@))),
        name_prefix(n) == Some("Y"@) <==> (!contains_seq(n, "resistor"@) && !contains_seq(n, "capacitor"@)
            && !contains_seq(n, "inductor"@) && !contains_seq(n, "diode"@) && n != "led"@
            && !contains_seq(n, "transistor"@) && !contains_seq(n, "mosfet"@)
            && !contains_seq(n, "connector"@) && !contains_seq(n, "molex"@) && !contains_seq(n, "jst"@)
            && contains_seq(n, "crystal"@)),
        name_prefix(n) == Some("SW"@) <==> (!contains_seq(n, "resistor"@) && !contains_seq(n, "capacitor"@)
            && !contains_seq(n, "inductor"@) && !contains_seq(n, "diode"@) && n != "led"@
            && !contains_seq(n, "transistor"@) && !contains_seq(n, "mosfet"@)
            && !contains_seq(n, "connector"@) && !contains_seq(n, "molex"@) && !contains_seq(n, "jst"@)
            && !contains_seq(n, "crystal"@)
            && (contains_seq(n, "button"@) || contains_seq(n, "switch"@) || contains_seq(n, "skrpace"@)
                || contains_seq(n, "sktdlde"@))),
        name_prefix(n) == Some("LED"@) <==> (!contains_seq(n, "resistor"@) && !contains_seq(n, "capacitor"@)
            && !contains_seq(n, "inductor"@) && !contains_seq(n, "diode"@) && n != "led"@
            && !contains_seq(n, "transistor"@) && !contains_seq(n, "mosfet"@)
            && !contains_seq(n, "connector"@) && !contains_seq(n, "molex"@) && !contains_seq(n, "jst"@)
            && !contains_seq(n, "crystal"@)
            && !contains_seq(n, "button"@) && !contains_seq(n, "switch"@) && !contains_seq(n, "skrpace"@)
            && !contains_seq(n, "sktdlde"@)
            && (contains_seq(n, "sk6805"@) || contains_seq(n, "ws2812"@) || contains_seq(n, "sk6812"@)
                || contains_seq(n, "neopixel"@))),
{
    reveal_strlit("R");
    reveal_strlit("C");
    reveal_strlit("L");
    reveal_strlit("D");
    reveal_strlit("Q");
    reveal_strlit("J");
    reveal_strlit("Y");
    reveal_strlit("SW");
    reveal_strlit("LED");
    assert("R"@.len() == 1 && "R"@[0] == 'R');
    assert("C"@.len() == 1 && "C"@[0] == 'C');
    assert("L"@.len() == 1 && "L"@[0] == 'L');
    assert("D"@.len() == 1 && "D"@[0] == 'D');
    assert("Q"@.len() == 1 && "Q"@[0] == 'Q');
    assert("J"@.len() == 1 && "J"@[0] == 'J');
    assert("Y"@.len() == 1 && "Y"@[0] == 'Y');
    assert("SW"@.len() == 2 && "SW"@[0] == 'S' && "SW"@[1] == 'W');
    assert("LED"@.len() == 3 && "LED"@[0] == 'L' && "LED"@[1] == 'E' && "LED"@[2] == 'D');
}

} // verus!
