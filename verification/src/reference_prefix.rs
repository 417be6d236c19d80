//! How the prefix of a component's reference chooses its type and its
//! schematic symbol.

use vstd::prelude::*;
use crate::kicad_library::{alphabetic_prefix_len, default_symbols, qualified, symbol_lookup, type_of_prefix, ComponentType};
use crate::schematic::lib_id_of;

verus! {

/// The upper-case reference prefixes that name each component type: each
/// type's usual letters and their accepted aliases (`U` or `IC` for a chip,
/// `J`, `P` or `CONN` for a connector, `FB` or `L_FERRITE` for a ferrite
/// bead, ...). The kinds named by no prefix of their own get none.
pub open spec fn prefixes_of(t: ComponentType) -> Set<Seq<char>> {
    match t {
        ComponentType::Resistor => set!["R"@],
        ComponentType::Capacitor => set!["C"@],
        ComponentType::CapacitorPolarized => set!["CP"@],
        ComponentType::Inductor => set!["L"@],
        ComponentType::Diode => set!["D"@],
        ComponentType::DiodeZener => set!["DZ"@],
        ComponentType::DiodeSchottky => set!["DS"@],
        ComponentType::Led => set!["LED"@],
        ComponentType::Transistor => set!["Q"@],
        ComponentType::Crystal => set!["Y"@, "XTAL"@],
        ComponentType::Connector => set!["J"@, "P"@, "CONN"@],
        ComponentType::Switch => set!["SW"@, "S"@],
        ComponentType::Ic => set!["U"@, "IC"@],
        ComponentType::Fuse => set!["F"@],
        ComponentType::Ferrite => set!["FB"@, "L_FERRITE"@],
        _ => Set::empty(),
    }
}

/// Facts about the prefix literals: their lengths and characters.
proof fn lemma_prefix_literals()
    ensures
        "R"@.len() == 1 && "R"@[0] == 'R',
        "C"@.len() == 1 && "C"@[0] == 'C',
        "CP"@.len() == 2 && "CP"@[0] == 'C' && "CP"@[1] == 'P',
        "L"@.len() == 1 && "L"@[0] == 'L',
        "D"@.len() == 1 && "D"@[0] == 'D',
        "DZ"@.len() == 2 && "DZ"@[0] == 'D' && "DZ"@[1] == 'Z',
        "DS"@.len() == 2 && "DS"@[0] == 'D' && "DS"@[1] == 'S',
        "LED"@.len() == 3 && "LED"@[0] == 'L' && "LED"@[1] == 'E' && "LED"@[2] == 'D',
        "Q"@.len() == 1 && "Q"@[0] == 'Q',
        "Y"@.len() == 1 && "Y"@[0] == 'Y',
        "XTAL"@.len() == 4 && "XTAL"@[0] == 'X' && "XTAL"@[1] == 'T' && "XTAL"@[2] == 'A' && "XTAL"@[3] == 'L',
        "J"@.len() == 1 && "J"@[0] == 'J',
        "P"@.len() == 1 && "P"@[0] == 'P',
        "CONN"@.len() == 4 && "CONN"@[0] == 'C' && "CONN"@[1] == 'O' && "CONN"@[2] == 'N' && "CONN"@[3] == 'N',
        "SW"@.len() == 2 && "SW"@[0] == 'S' && "SW"@[1] == 'W',
        "S"@.len() == 1 && "S"@[0] == 'S',
        "U"@.len() == 1 && "U"@[0] == 'U',
        "IC"@.len() == 2 && "IC"@[0] == 'I' && "IC"@[1] == 'C',
        "F"@.len() == 1 && "F"@[0] == 'F',
        "FB"@.len() == 2 && "FB"@[0] == 'F' && "FB"@[1] == 'B',
        "L_FERRITE"@.len() == 9 && "L_FERRITE"@[0] == 'L' && "L_FERRITE"@[1] == '_' && "L_FERRITE"@[2] == 'F' && "L_FERRITE"@[3] == 'E' && "L_FERRITE"@[4] == 'R' && "L_FERRITE"@[5] == 'R' && "L_FERRITE"@[6] == 'I' && "L_FERRITE"@[7] == 'T' && "L_FERRITE"@[8] == 'E',
{
    reveal_strlit("R");
    assert("R"@.len() == 1 && "R"@[0] == 'R');
    reveal_strlit("C");
    assert("C"@.len() == 1 && "C"@[0] == 'C');
    reveal_strlit("CP");
    assert("CP"@.len() == 2 && "CP"@[0] == 'C' && "CP"@[1] == 'P');
    reveal_strlit("L");
    assert("L"@.len() == 1 && "L"@[0] == 'L');
    reveal_strlit("D");
    assert("D"@.len() == 1 && "D"@[0] == 'D');
    reveal_strlit("DZ");
    assert("DZ"@.len() == 2 && "DZ"@[0] == 'D' && "DZ"@[1] == 'Z');
    reveal_strlit("DS");
    assert("DS"@.len() == 2 && "DS"@[0] == 'D' && "DS"@[1] == 'S');
    reveal_strlit("LED");
    assert("LED"@.len() == 3 && "LED"@[0] == 'L' && "LED"@[1] == 'E' && "LED"@[2] == 'D');
    reveal_strlit("Q");
    assert("Q"@.len() == 1 && "Q"@[0] == 'Q');
    reveal_strlit("Y");
    assert("Y"@.len() == 1 && "Y"@[0] == 'Y');
    reveal_strlit("XTAL");
    assert("XTAL"@.len() == 4 && "XTAL"@[0] == 'X' && "XTAL"@[1] == 'T' && "XTAL"@[2] == 'A' && "XTAL"@[3] == 'L');
    reveal_strlit("J");
    assert("J"@.len() == 1 && "J"@[0] == 'J');
    reveal_strlit("P");
    assert("P"@.len() == 1 && "P"@[0] == 'P');
    reveal_strlit("CONN");
    assert("CONN"@.len() == 4 && "CONN"@[0] == 'C' && "CONN"@[1] == 'O' && "CONN"@[2] == 'N' && "CONN"@[3] == 'N');
    reveal_strlit("SW");
    assert("SW"@.len() == 2 && "SW"@[0] == 'S' && "SW"@[1] == 'W');
    reveal_strlit("S");
    assert("S"@.len() == 1 && "S"@[0] == 'S');
    reveal_strlit("U");
    assert("U"@.len() == 1 && "U"@[0] == 'U');
    reveal_strlit("IC");
    assert("IC"@.len() == 2 && "IC"@[0] == 'I' && "IC"@[1] == 'C');
    reveal_strlit("F");
    assert("F"@.len() == 1 && "F"@[0] == 'F');
    reveal_strlit("FB");
    assert("FB"@.len() == 2 && "FB"@[0] == 'F' && "FB"@[1] == 'B');
    reveal_strlit("L_FERRITE");
    assert("L_FERRITE"@.len() == 9 && "L_FERRITE"@[0] == 'L' && "L_FERRITE"@[1] == '_' && "L_FERRITE"@[2] == 'F' && "L_FERRITE"@[3] == 'E' && "L_FERRITE"@[4] == 'R' && "L_FERRITE"@[5] == 'R' && "L_FERRITE"@[6] == 'I' && "L_FERRITE"@[7] == 'T' && "L_FERRITE"@[8] == 'E');
}

/// An upper-case prefix names a known component type exactly when it is one
/// of that type's prefixes or aliases (`IC` names a chip just as `U` does);
/// every other prefix names the unknown type.
#[verifier::rlimit(50)]
pub proof fn lemma_prefix_names_type(u: Seq<char>, t: ComponentType)
    requires
        t != ComponentType::Unknown,
    ensures
        type_of_prefix(u) == t <==> prefixes_of(t).contains(u),
        type_of_prefix(u) == ComponentType::Unknown <==> (forall|k: ComponentType| !(#[trigger] prefixes_of(k)).contains(u)),
{
    lemma_prefix_literals();
    if type_of_prefix(u) == ComponentType::Unknown {
        assert forall|k: ComponentType| !(#[trigger] prefixes_of(k)).contains(u) by {}
    } else {
        let k = type_of_prefix(u);
        assert(prefixes_of(k).contains(u));
    }
}

/// The library mapper has a symbol of its own for every known component
/// type, so a prefix that names a type (`IC` as well as `U`) never falls back
/// to the resistor symbol.
pub proof fn lemma_known_types_have_symbols(t: ComponentType)
    requires
        t != ComponentType::Unknown,
    ensures
        symbol_lookup(default_symbols(), t) is Some,
{
    reveal(default_symbols);
    reveal_with_fuel(symbol_lookup, 20);
}

/// The alphabetic prefix of a reference.
pub open spec fn reference_prefix(reference: Seq<char>) -> Seq<char> {
    reference.take(alphabetic_prefix_len(reference) as int)
}

/// The schematic symbol of a component is the library mapper's symbol for
/// the type its reference prefix names, for the prefixes `R`, `C`, `L`, `D`,
/// `Q`, `U`, `Y` and `SW` (`Q1` gets the transistor symbol
/// `Device:Q_NPN_BCE`); `J` and `P` get the two-pin connector
/// `Connector:Conn_01x02`; any other prefix gives `Device:` and the whole
/// reference.
#[verifier::spinoff_prover]
#[verifier::rlimit(100)]
pub proof fn lemma_schematic_symbol_follows_mapper(reference: Seq<char>)
    ensures
        ({
            let p = reference_prefix(reference);
            &&& (p == "R"@ || p == "C"@ || p == "L"@ || p == "D"@ || p == "Q"@ || p == "U"@ || p == "Y"@
                || p == "SW"@) ==> (symbol_lookup(default_symbols(), type_of_prefix(p)) matches Some(e)
                && lib_id_of(reference) == qualified(e.0, e.1))
            &&& (p == "J"@ || p == "P"@) ==> type_of_prefix(p) == ComponentType::Connector
                && lib_id_of(reference) == "Connector:Conn_01x02"@
            &&& !(p == "R"@ || p == "C"@ || p == "L"@ || p == "D"@ || p == "Q"@ || p == "U"@ || p == "Y"@
                || p == "SW"@ || p == "J"@ || p == "P"@) ==> lib_id_of(reference) == "Device:"@ + reference
        }),
{
    lemma_prefix_literals();
    let p = reference_prefix(reference);
    reveal(default_symbols);
    reveal_with_fuel(symbol_lookup, 20);
    reveal_strlit("Device");
    reveal_strlit(":");
    reveal_strlit("Switch");
    if p == "R"@ {
        reveal_strlit("Device:R");
        assert("Device:R"@ =~= qualified("Device"@, "R"@));
    } else if p == "C"@ {
        reveal_strlit("Device:C");
        assert("Device:C"@ =~= qualified("Device"@, "C"@));
    } else if p == "L"@ {
        reveal_strlit("Device:L");
        assert("Device:L"@ =~= qualified("Device"@, "L"@));
    } else if p == "D"@ {
        reveal_strlit("Device:D");
        assert("Device:D"@ =~= qualified("Device"@, "D"@));
    } else if p == "Q"@ {
        reveal_strlit("Q_NPN_BCE");
        reveal_strlit("Device:Q_NPN_BCE");
        assert("Device:Q_NPN_BCE"@ =~= qualified("Device"@, "Q_NPN_BCE"@));
    } else if p == "U"@ {
        reveal_strlit("Device:IC");
        assert("Device:IC"@ =~= qualified("Device"@, "IC"@));
    } else if p == "Y"@ {
        reveal_strlit("Crystal");
        reveal_strlit("Device:Crystal");
        assert("Device:Crystal"@ =~= qualified("Device"@, "Crystal"@));
    } else if p == "SW"@ {
        reveal_strlit("SW_Push");
        reveal_strlit("Switch:SW_Push");
        assert("Switch:SW_Push"@ =~= qualified("Switch"@, "SW_Push"@));
    }
}

} // verus!
