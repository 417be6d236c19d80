//! Mapping of component types and packages to KiCad's standard symbol and
//! footprint libraries.

use vstd::prelude::*;
use crate::ids::strings_view;
use crate::sort::{lex_order, sorted_unique, texts};
use crate::natord::Comparison;
use crate::text::{chars_of, push_char, push_str, str_eq, string_from_chars};

verus! {

/// The text `s` in upper case, as `str::to_uppercase` gives it.
pub uninterp spec fn uppercase_of(s: Seq<char>) -> Seq<char>;

/// Calls `str::to_uppercase`: the upper-case form of `s` by Unicode's rules,
/// which depend on `s` alone.
#[verifier::external_body]
fn to_uppercase(s: &str) -> (r: String)
    ensures
        r@ == uppercase_of(s@),
{
    s.to_uppercase()
}

/// Whether `c` has the Unicode `Alphabetic` property, as `char::is_alphabetic` tells.
pub uninterp spec fn alphabetic(c: char) -> bool;

/// Calls `char::is_alphabetic`: whether `c` has the Unicode `Alphabetic`
/// property, which depends on `c` alone; ASCII letters have it and ASCII
/// digits do not.
#[verifier::external_body]
pub(crate) fn is_alphabetic(c: char) -> (b: bool)
    ensures
        b == alphabetic(c),
        ('a' <= c <= 'z' || 'A' <= c <= 'Z') ==> b,
        '0' <= c <= '9' ==> !b,
{
    c.is_alphabetic()
}

/// A component type, for library mapping.
#[derive(Debug, Clone, Copy, PartialEq, Eq, Hash, Structural)]
pub enum ComponentType {
    Resistor,
    Capacitor,
    CapacitorPolarized,
    Inductor,
    Diode,
    DiodeZener,
    DiodeSchottky,
    Led,
    Transistor,
    TransistorPnp,
    TransistorMosfetN,
    TransistorMosfetP,
    Crystal,
    Connector,
    Switch,
    Ic,
    Fuse,
    Ferrite,
    Unknown,
}

/// The component type an upper-case reference prefix names.
pub open spec fn type_of_prefix(u: Seq<char>) -> ComponentType {
    if u == "R"@ {
        ComponentType::Resistor
    } else if u == "C"@ {
        ComponentType::Capacitor
    } else if u == "CP"@ {
        ComponentType::CapacitorPolarized
    } else if u == "L"@ {
        ComponentType::Inductor
    } else if u == "D"@ {
        ComponentType::Diode
    } else if u == "DZ"@ {
        ComponentType::DiodeZener
    } else if u == "DS"@ {
        ComponentType::DiodeSchottky
    } else if u == "LED"@ {
        ComponentType::Led
    } else if u == "Q"@ {
        ComponentType::Transistor
    } else if u == "Y"@ || u == "XTAL"@ {
        ComponentType::Crystal
    } else if u == "J"@ || u == "P"@ || u == "CONN"@ {
        ComponentType::Connector
    } else if u == "SW"@ || u == "S"@ {
        ComponentType::Switch
    } else if u == "U"@ || u == "IC"@ {
        ComponentType::Ic
    } else if u == "F"@ {
        ComponentType::Fuse
    } else if u == "FB"@ || u == "L_FERRITE"@ {
        ComponentType::Ferrite
    } else {
        ComponentType::Unknown
    }
}

/// The leading run of alphabetic characters of `s`.
pub open spec fn alphabetic_prefix_len(s: Seq<char>) -> nat
    decreases s.len(),
{
    if s.len() > 0 && alphabetic(s[0]) {
        1 + alphabetic_prefix_len(s.drop_first())
    } else {
        0
    }
}

/// The default reference prefix of a component type.
pub open spec fn default_prefix_of(t: ComponentType) -> Seq<char> {
    match t {
        ComponentType::Resistor => "R"@,
        ComponentType::Capacitor => "C"@,
        ComponentType::CapacitorPolarized => "C"@,
        ComponentType::Inductor => "L"@,
        ComponentType::Diode => "D"@,
        ComponentType::DiodeZener => "D"@,
        ComponentType::DiodeSchottky => "D"@,
        ComponentType::Led => "D"@,
        ComponentType::Transistor => "Q"@,
        ComponentType::TransistorPnp => "Q"@,
        ComponentType::TransistorMosfetN => "Q"@,
        ComponentType::TransistorMosfetP => "Q"@,
        ComponentType::Crystal => "Y"@,
        ComponentType::Connector => "J"@,
        ComponentType::Switch => "SW"@,
        ComponentType::Ic => "U"@,
        ComponentType::Fuse => "F"@,
        ComponentType::Ferrite => "FB"@,
        ComponentType::Unknown => "X"@,
    }
}

impl ComponentType {
    /// The component type of a reference, from its leading alphabetic
    /// characters (`R1` gives a resistor).
    pub fn from_reference(reference: &str) -> (t: Self)
        ensures
            t == type_of_prefix(uppercase_of(reference@.take(alphabetic_prefix_len(reference@) as int))),
    {
        let v = chars_of(reference);
        let mut k: usize = 0;
        proof {
            assert(v@.skip(0) =~= v@);
        }
        while k < v.len() && is_alphabetic(v[k])
            invariant
                k <= v.len(),
                alphabetic_prefix_len(v@) == k + alphabetic_prefix_len(v@.skip(k as int)),
            decreases v.len() - k,
        {
            proof {
                assert(v@.skip(k as int).drop_first() =~= v@.skip(k + 1));
            }
            k = k + 1;
        }
        proof {
            assert(alphabetic_prefix_len(v@.skip(k as int)) == 0);
        }
        let prefix = string_from_chars(&v, 0, k);
        proof {
            assert(prefix@ =~= reference@.take(alphabetic_prefix_len(reference@) as int));
        }
        Self::from_prefix(prefix.as_str())
    }

    /// The component type a reference prefix names, in any case.
    pub fn from_prefix(prefix: &str) -> (t: Self)
        ensures
            t == type_of_prefix(uppercase_of(prefix@)),
    {
        let upper = to_uppercase(prefix);
        Self::from_upper_prefix(upper.as_str())
    }

    /// The component type an upper-case prefix names.
    pub fn from_upper_prefix(u: &str) -> (t: Self)
        ensures
            t == type_of_prefix(u@),
    {
        if str_eq(u, "R") {
            ComponentType::Resistor
        } else if str_eq(u, "C") {
            ComponentType::Capacitor
        } else if str_eq(u, "CP") {
            ComponentType::CapacitorPolarized
        } else if str_eq(u, "L") {
            ComponentType::Inductor
        } else if str_eq(u, "D") {
            ComponentType::Diode
        } else if str_eq(u, "DZ") {
            ComponentType::DiodeZener
        } else if str_eq(u, "DS") {
            ComponentType::DiodeSchottky
        } else if str_eq(u, "LED") {
            ComponentType::Led
        } else if str_eq(u, "Q") {
            ComponentType::Transistor
        } else if str_eq(u, "Y") || str_eq(u, "XTAL") {
            ComponentType::Crystal
        } else if str_eq(u, "J") || str_eq(u, "P") || str_eq(u, "CONN") {
            ComponentType::Connector
        } else if str_eq(u, "SW") || str_eq(u, "S") {
            ComponentType::Switch
        } else if str_eq(u, "U") || str_eq(u, "IC") {
            ComponentType::Ic
        } else if str_eq(u, "F") {
            ComponentType::Fuse
        } else if str_eq(u, "FB") || str_eq(u, "L_FERRITE") {
            ComponentType::Ferrite
        } else {
            ComponentType::Unknown
        }
    }

    /// The default reference prefix of this type.
    pub fn default_prefix(&self) -> (s: &'static str)
        ensures
            s@ == default_prefix_of(*self),
    {
        match self {
            ComponentType::Resistor => "R",
            ComponentType::Capacitor => "C",
            ComponentType::CapacitorPolarized => "C",
            ComponentType::Inductor => "L",
            ComponentType::Diode => "D",
            ComponentType::DiodeZener => "D",
            ComponentType::DiodeSchottky => "D",
            ComponentType::Led => "D",
            ComponentType::Transistor => "Q",
            ComponentType::TransistorPnp => "Q",
            ComponentType::TransistorMosfetN => "Q",
            ComponentType::TransistorMosfetP => "Q",
            ComponentType::Crystal => "Y",
            ComponentType::Connector => "J",
            ComponentType::Switch => "SW",
            ComponentType::Ic => "U",
            ComponentType::Fuse => "F",
            ComponentType::Ferrite => "FB",
            ComponentType::Unknown => "X",
        }
    }
}

/// `library:name`.
pub open spec fn qualified(library: Seq<char>, name: Seq<char>) -> Seq<char> {
    library + ":"@ + name
}

fn join_colon(a: &String, b: &String) -> (r: String)
    ensures
        r@ == qualified(a@, b@),
{
    let mut r = a.clone();
    push_str(&mut r, ":");
    push_str(&mut r, b.as_str());
    r
}

/// A reference to a symbol of a KiCad symbol library.
#[derive(Debug, Clone, PartialEq, Eq)]
pub struct SymbolRef {
    /// Library name (e.g., "Device").
    pub library: String,
    /// Symbol name within the library (e.g., "R").
    pub symbol: String,
}

impl SymbolRef {
    /// A symbol reference.
    pub fn new(library: &str, symbol: &str) -> (s: Self)
        ensures
            s.library@ == library@,
            s.symbol@ == symbol@,
    {
        SymbolRef { library: library.to_owned(), symbol: symbol.to_owned() }
    }

    /// The full library identifier, `library:symbol` (e.g., "Device:R").
    pub fn lib_id(&self) -> (s: String)
        ensures
            s@ == qualified(self.library@, self.symbol@),
    {
        join_colon(&self.library, &self.symbol)
    }
}

/// A reference to a footprint of a KiCad footprint library.
#[derive(Debug, Clone, PartialEq, Eq)]
pub struct FootprintRef {
    /// Library name (e.g., "Resistor_SMD").
    pub library: String,
    /// Footprint name within the library (e.g., "R_0402_1005Metric").
    pub footprint: String,
}

impl FootprintRef {
    /// A footprint reference.
    pub fn new(library: &str, footprint: &str) -> (f: Self)
        ensures
            f.library@ == library@,
            f.footprint@ == footprint@,
    {
        FootprintRef { library: library.to_owned(), footprint: footprint.to_owned() }
    }

    /// The full footprint name, `library:footprint`.
    pub fn full_name(&self) -> (s: String)
        ensures
            s@ == qualified(self.library@, self.footprint@),
    {
        join_colon(&self.library, &self.footprint)
    }
}

/// A standard package.
#[derive(Debug, Clone, PartialEq, Eq, Hash)]
pub enum Package {
    P0201,
    P0402,
    P0603,
    P0805,
    P1206,
    P1210,
    P2010,
    P2512,
    Sot23,
    Sot235,
    Sot236,
    Sot223,
    To220,
    To252,
    Soic8,
    Soic14,
    Soic16,
    Tssop8,
    Tssop14,
    Tssop16,
    Qfp32,
    Qfp48,
    Qfp64,
    Qfn16,
    Qfn24,
    Qfn32,
    /// A package this table does not know, by its original text.
    Unknown(String),
}

/// `s` without dashes, underscores and spaces.
pub open spec fn without_separators(s: Seq<char>) -> Seq<char>
    decreases s.len(),
{
    if s.len() == 0 {
        Seq::empty()
    } else {
        without_separators(s.drop_last()) + if s.last() == '-' || s.last() == '_' || s.last() == ' ' {
            Seq::empty()
        } else {
            seq![s.last()]
        }
    }
}

/// The known package a normalised package name names, if any.
pub open spec fn known_package(n: Seq<char>) -> Option<Package> {
    if n == "0201"@ {
        Some(Package::P0201)
    } else if n == "0402"@ {
        Some(Package::P0402)
    } else if n == "0603"@ {
        Some(Package::P0603)
    } else if n == "0805"@ {
        Some(Package::P0805)
    } else if n == "1206"@ {
        Some(Package::P1206)
    } else if n == "1210"@ {
        Some(Package::P1210)
    } else if n == "2010"@ {
        Some(Package::P2010)
    } else if n == "2512"@ {
        Some(Package::P2512)
    } else if n == "SOT23"@ || n == "SOT233"@ {
        Some(Package::Sot23)
    } else if n == "SOT235"@ || n == "SOT23E"@ {
        Some(Package::Sot235)
    } else if n == "SOT236"@ {
        Some(Package::Sot236)
    } else if n == "SOT223"@ {
        Some(Package::Sot223)
    } else if n == "TO220"@ || n == "TO220AB"@ {
        Some(Package::To220)
    } else if n == "TO252"@ || n == "DPAK"@ {
        Some(Package::To252)
    } else if n == "SOIC8"@ || n == "SO8"@ {
        Some(Package::Soic8)
    } else if n == "SOIC14"@ || n == "SO14"@ {
        Some(Package::Soic14)
    } else if n == "SOIC16"@ || n == "SO16"@ {
        Some(Package::Soic16)
    } else if n == "TSSOP8"@ {
        Some(Package::Tssop8)
    } else if n == "TSSOP14"@ {
        Some(Package::Tssop14)
    } else if n == "TSSOP16"@ {
        Some(Package::Tssop16)
    } else if n == "QFP32"@ || n == "LQFP32"@ || n == "TQFP32"@ {
        Some(Package::Qfp32)
    } else if n == "QFP48"@ || n == "LQFP48"@ || n == "TQFP48"@ {
        Some(Package::Qfp48)
    } else if n == "QFP64"@ || n == "LQFP64"@ || n == "TQFP64"@ {
        Some(Package::Qfp64)
    } else if n == "QFN16"@ {
        Some(Package::Qfn16)
    } else if n == "QFN24"@ {
        Some(Package::Qfn24)
    } else if n == "QFN32"@ {
        Some(Package::Qfn32)
    } else {
        None
    }
}

/// Whether `p` is the package named `s`.
pub open spec fn is_package_of(p: Package, s: Seq<char>) -> bool {
    match known_package(without_separators(uppercase_of(s))) {
        Some(k) => p == k,
        None => p matches Package::Unknown(t) && t@ == s,
    }
}

/// The KiCad footprint suffix of a chip package (imperial_metricMetric).
pub open spec fn suffix_of(p: Package) -> Option<Seq<char>> {
    match p {
        Package::P0201 => Some("0201_0603Metric"@),
        Package::P0402 => Some("0402_1005Metric"@),
        Package::P0603 => Some("0603_1608Metric"@),
        Package::P0805 => Some("0805_2012Metric"@),
        Package::P1206 => Some("1206_3216Metric"@),
        Package::P1210 => Some("1210_3225Metric"@),
        Package::P2010 => Some("2010_5025Metric"@),
        Package::P2512 => Some("2512_6332Metric"@),
        _ => None,
    }
}

fn remove_separators(s: &str) -> (r: String)
    ensures
        r@ == without_separators(s@),
{
    let v = chars_of(s);
    let mut r = String::new();
    let mut i: usize = 0;
    while i < v.len()
        invariant
            i <= v.len(),
            r@ == without_separators(v@.take(i as int)),
        decreases v.len() - i,
    {
        let c = v[i];
        if !(c == '-' || c == '_' || c == ' ') {
            push_char(&mut r, c);
        }
        proof {
            let t = v@.take(i + 1);
            assert(t.drop_last() =~= v@.take(i as int));
            assert(t.last() == c);
            assert(r@ =~= without_separators(t));
        }
        i = i + 1;
    }
    assert(v@.take(v.len() as int) =~= v@);
    r
}

impl Package {
    /// The package a package name names (`SOT-23`, `soic_8`, `0402`, ...);
    /// an unknown name gives `Unknown` with the name as it was.
    pub fn from_str(s: &str) -> (p: Self)
        ensures
            is_package_of(p, s@),
    {
        let upper = to_uppercase(s);
        let n = remove_separators(upper.as_str());
        Self::from_normalized(n.as_str(), s)
    }

    /// The package a normalised name `n` names, or `Unknown(original)`.
    pub fn from_normalized(n: &str, original: &str) -> (p: Self)
        ensures
            match known_package(n@) {
                Some(k) => p == k,
                None => p matches Package::Unknown(t) && t@ == original@,
            },
    {
        if str_eq(n, "0201") {
            Package::P0201
        } else if str_eq(n, "0402") {
            Package::P0402
        } else if str_eq(n, "0603") {
            Package::P0603
        } else if str_eq(n, "0805") {
            Package::P0805
        } else if str_eq(n, "1206") {
            Package::P1206
        } else if str_eq(n, "1210") {
            Package::P1210
        } else if str_eq(n, "2010") {
            Package::P2010
        } else if str_eq(n, "2512") {
            Package::P2512
        } else if str_eq(n, "SOT23") || str_eq(n, "SOT233") {
            Package::Sot23
        } else if str_eq(n, "SOT235") || str_eq(n, "SOT23E") {
            Package::Sot235
        } else if str_eq(n, "SOT236") {
            Package::Sot236
        } else if str_eq(n, "SOT223") {
            Package::Sot223
        } else if str_eq(n, "TO220") || str_eq(n, "TO220AB") {
            Package::To220
        } else if str_eq(n, "TO252") || str_eq(n, "DPAK") {
            Package::To252
        } else if str_eq(n, "SOIC8") || str_eq(n, "SO8") {
            Package::Soic8
        } else if str_eq(n, "SOIC14") || str_eq(n, "SO14") {
            Package::Soic14
        } else if str_eq(n, "SOIC16") || str_eq(n, "SO16") {
            Package::Soic16
        } else if str_eq(n, "TSSOP8") {
            Package::Tssop8
        } else if str_eq(n, "TSSOP14") {
            Package::Tssop14
        } else if str_eq(n, "TSSOP16") {
            Package::Tssop16
        } else if str_eq(n, "QFP32") || str_eq(n, "LQFP32") || str_eq(n, "TQFP32") {
            Package::Qfp32
        } else if str_eq(n, "QFP48") || str_eq(n, "LQFP48") || str_eq(n, "TQFP48") {
            Package::Qfp48
        } else if str_eq(n, "QFP64") || str_eq(n, "LQFP64") || str_eq(n, "TQFP64") {
            Package::Qfp64
        } else if str_eq(n, "QFN16") {
            Package::Qfn16
        } else if str_eq(n, "QFN24") {
            Package::Qfn24
        } else if str_eq(n, "QFN32") {
            Package::Qfn32
        } else {
            Package::Unknown(original.to_owned())
        }
    }

    /// The KiCad footprint suffix of a chip package.
    pub fn footprint_suffix(&self) -> (s: Option<&'static str>)
        ensures
            s is Some <==> suffix_of(*self) is Some,
            s is Some ==> s->0@ == suffix_of(*self)->0,
    {
        match self {
            Package::P0201 => Some("0201_0603Metric"),
            Package::P0402 => Some("0402_1005Metric"),
            Package::P0603 => Some("0603_1608Metric"),
            Package::P0805 => Some("0805_2012Metric"),
            Package::P1206 => Some("1206_3216Metric"),
            Package::P1210 => Some("1210_3225Metric"),
            Package::P2010 => Some("2010_5025Metric"),
            Package::P2512 => Some("2512_6332Metric"),
            _ => None,
        }
    }

    fn duplicate(&self) -> (p: Self)
        ensures
            p == *self,
    {
        match self {
            Package::Unknown(s) => Package::Unknown(s.clone()),
            Package::P0201 => Package::P0201,
            Package::P0402 => Package::P0402,
            Package::P0603 => Package::P0603,
            Package::P0805 => Package::P0805,
            Package::P1206 => Package::P1206,
            Package::P1210 => Package::P1210,
            Package::P2010 => Package::P2010,
            Package::P2512 => Package::P2512,
            Package::Sot23 => Package::Sot23,
            Package::Sot235 => Package::Sot235,
            Package::Sot236 => Package::Sot236,
            Package::Sot223 => Package::Sot223,
            Package::To220 => Package::To220,
            Package::To252 => Package::To252,
            Package::Soic8 => Package::Soic8,
            Package::Soic14 => Package::Soic14,
            Package::Soic16 => Package::Soic16,
            Package::Tssop8 => Package::Tssop8,
            Package::Tssop14 => Package::Tssop14,
            Package::Tssop16 => Package::Tssop16,
            Package::Qfp32 => Package::Qfp32,
            Package::Qfp48 => Package::Qfp48,
            Package::Qfp64 => Package::Qfp64,
            Package::Qfn16 => Package::Qfn16,
            Package::Qfn24 => Package::Qfn24,
            Package::Qfn32 => Package::Qfn32,
        }
    }
}


/// The symbol table a new mapper holds: component type, library, symbol.
#[verifier::opaque]
pub open spec fn default_symbols() -> Seq<(ComponentType, Seq<char>, Seq<char>)> {
    seq![
        (ComponentType::Resistor, "Device"@, "R"@),
        (ComponentType::Capacitor, "Device"@, "C"@),
        (ComponentType::CapacitorPolarized, "Device"@, "CP"@),
        (ComponentType::Inductor, "Device"@, "L"@),
        (ComponentType::Diode, "Device"@, "D"@),
        (ComponentType::DiodeZener, "Device"@, "D_Zener"@),
        (ComponentType::DiodeSchottky, "Device"@, "D_Schottky"@),
        (ComponentType::Led, "Device"@, "LED"@),
        (ComponentType::Transistor, "Device"@, "Q_NPN_BCE"@),
        (ComponentType::TransistorPnp, "Device"@, "Q_PNP_BCE"@),
        (ComponentType::TransistorMosfetN, "Device"@, "Q_NMOS_GDS"@),
        (ComponentType::TransistorMosfetP, "Device"@, "Q_PMOS_GDS"@),
        (ComponentType::Crystal, "Device"@, "Crystal"@),
        (ComponentType::Fuse, "Device"@, "Fuse"@),
        (ComponentType::Ferrite, "Device"@, "Ferrite_Bead"@),
        (ComponentType::Connector, "Connector"@, "Conn_01x02_Pin"@),
        (ComponentType::Switch, "Switch"@, "SW_Push"@),
        (ComponentType::Ic, "Device"@, "IC"@),
    ]
}

/// One chip footprint entry: the type, the package, and the footprint
/// `<letter>_<suffix>` in `library`.
pub open spec fn chip_entry(t: ComponentType, p: Package, library: Seq<char>, letter: Seq<char>) -> (ComponentType, Package, Seq<char>, Seq<char>) {
    (t, p, library, letter + "_"@ + suffix_of(p)->0)
}

/// The chip footprint table a new mapper holds.
#[verifier::opaque]
pub open spec fn default_chip_footprints() -> Seq<(ComponentType, Package, Seq<char>, Seq<char>)> {
    seq![
        chip_entry(ComponentType::Resistor, Package::P0201, "Resistor_SMD"@, "R"@),
        chip_entry(ComponentType::Resistor, Package::P0402, "Resistor_SMD"@, "R"@),
        chip_entry(ComponentType::Resistor, Package::P0603, "Resistor_SMD"@, "R"@),
        chip_entry(ComponentType::Resistor, Package::P0805, "Resistor_SMD"@, "R"@),
        chip_entry(ComponentType::Resistor, Package::P1206, "Resistor_SMD"@, "R"@),
        chip_entry(ComponentType::Resistor, Package::P1210, "Resistor_SMD"@, "R"@),
        chip_entry(ComponentType::Resistor, Package::P2010, "Resistor_SMD"@, "R"@),
        chip_entry(ComponentType::Resistor, Package::P2512, "Resistor_SMD"@, "R"@),
        chip_entry(ComponentType::Capacitor, Package::P0201, "Capacitor_SMD"@, "C"@),
        chip_entry(ComponentType::Capacitor, Package::P0402, "Capacitor_SMD"@, "C"@),
        chip_entry(ComponentType::Capacitor, Package::P0603, "Capacitor_SMD"@, "C"@),
        chip_entry(ComponentType::Capacitor, Package::P0805, "Capacitor_SMD"@, "C"@),
        chip_entry(ComponentType::Capacitor, Package::P1206, "Capacitor_SMD"@, "C"@),
        chip_entry(ComponentType::Capacitor, Package::P1210, "Capacitor_SMD"@, "C"@),
        chip_entry(ComponentType::Inductor, Package::P0402, "Inductor_SMD"@, "L"@),
        chip_entry(ComponentType::Inductor, Package::P0603, "Inductor_SMD"@, "L"@),
        chip_entry(ComponentType::Inductor, Package::P0805, "Inductor_SMD"@, "L"@),
        chip_entry(ComponentType::Inductor, Package::P1206, "Inductor_SMD"@, "L"@),
        chip_entry(ComponentType::Led, Package::P0402, "LED_SMD"@, "LED"@),
        chip_entry(ComponentType::Led, Package::P0603, "LED_SMD"@, "LED"@),
        chip_entry(ComponentType::Led, Package::P0805, "LED_SMD"@, "LED"@),
        chip_entry(ComponentType::Led, Package::P1206, "LED_SMD"@, "LED"@),
        chip_entry(ComponentType::Diode, Package::P0402, "Diode_SMD"@, "D"@),
        chip_entry(ComponentType::Diode, Package::P0603, "Diode_SMD"@, "D"@),
        chip_entry(ComponentType::Diode, Package::P0805, "Diode_SMD"@, "D"@),
    ]
}

/// The first entry of a symbol table for `t`, as library and symbol.
pub open spec fn symbol_lookup(table: Seq<(ComponentType, Seq<char>, Seq<char>)>, t: ComponentType) -> Option<(Seq<char>, Seq<char>)>
    decreases table.len(),
{
    if table.len() == 0 {
        None
    } else if table[0].0 == t {
        Some((table[0].1, table[0].2))
    } else {
        symbol_lookup(table.drop_first(), t)
    }
}

/// The first entry of a chip table for `t` and `p`, as library and footprint.
pub open spec fn chip_lookup(table: Seq<(ComponentType, Package, Seq<char>, Seq<char>)>, t: ComponentType, p: Package) -> Option<(Seq<char>, Seq<char>)>
    decreases table.len(),
{
    if table.len() == 0 {
        None
    } else if table[0].0 == t && table[0].1 == p {
        Some((table[0].2, table[0].3))
    } else {
        chip_lookup(table.drop_first(), t, p)
    }
}

/// The footprint of the special (non-chip) packages.
pub open spec fn special_footprint(p: Package) -> Option<(Seq<char>, Seq<char>)> {
    match p {
        Package::Sot23 => Some(("Package_TO_SOT_SMD"@, "SOT-23"@)),
        Package::Sot235 => Some(("Package_TO_SOT_SMD"@, "SOT-23-5"@)),
        Package::Sot236 => Some(("Package_TO_SOT_SMD"@, "SOT-23-6"@)),
        Package::Sot223 => Some(("Package_TO_SOT_SMD"@, "SOT-223"@)),
        Package::To220 => Some(("Package_TO_SOT_THT"@, "TO-220-3_Vertical"@)),
        Package::To252 => Some(("Package_TO_SOT_SMD"@, "TO-252-2"@)),
        Package::Soic8 => Some(("Package_SO"@, "SOIC-8_3.9x4.9mm_P1.27mm"@)),
        Package::Soic14 => Some(("Package_SO"@, "SOIC-14_3.9x8.7mm_P1.27mm"@)),
        Package::Soic16 => Some(("Package_SO"@, "SOIC-16_3.9x9.9mm_P1.27mm"@)),
        Package::Tssop8 => Some(("Package_SO"@, "TSSOP-8_4.4x3mm_P0.65mm"@)),
        Package::Tssop14 => Some(("Package_SO"@, "TSSOP-14_4.4x5mm_P0.65mm"@)),
        Package::Tssop16 => Some(("Package_SO"@, "TSSOP-16_4.4x5mm_P0.65mm"@)),
        Package::Qfp32 => Some(("Package_QFP"@, "LQFP-32_7x7mm_P0.8mm"@)),
        Package::Qfp48 => Some(("Package_QFP"@, "LQFP-48_7x7mm_P0.5mm"@)),
        Package::Qfp64 => Some(("Package_QFP"@, "LQFP-64_10x10mm_P0.5mm"@)),
        Package::Qfn16 => Some(("Package_DFN_QFN"@, "QFN-16-1EP_3x3mm_P0.5mm_EP1.75x1.75mm"@)),
        Package::Qfn24 => Some(("Package_DFN_QFN"@, "QFN-24-1EP_4x4mm_P0.5mm_EP2.6x2.6mm"@)),
        Package::Qfn32 => Some(("Package_DFN_QFN"@, "QFN-32-1EP_5x5mm_P0.5mm_EP3.1x3.1mm"@)),
        _ => None,
    }
}

/// The default footprint of a component type.
pub open spec fn type_footprint(t: ComponentType) -> (Seq<char>, Seq<char>) {
    match t {
        ComponentType::Resistor => ("Resistor_SMD"@, "R_0402_1005Metric"@),
        ComponentType::Capacitor => ("Capacitor_SMD"@, "C_0402_1005Metric"@),
        ComponentType::CapacitorPolarized => ("Capacitor_SMD"@, "CP_Elec_4x5.3"@),
        ComponentType::Inductor => ("Inductor_SMD"@, "L_0603_1608Metric"@),
        ComponentType::Diode => ("Diode_SMD"@, "D_SOD-123"@),
        ComponentType::DiodeZener => ("Diode_SMD"@, "D_SOD-123"@),
        ComponentType::DiodeSchottky => ("Diode_SMD"@, "D_SOD-123"@),
        ComponentType::Led => ("LED_SMD"@, "LED_0603_1608Metric"@),
        ComponentType::Transistor => ("Package_TO_SOT_SMD"@, "SOT-23"@),
        ComponentType::TransistorPnp => ("Package_TO_SOT_SMD"@, "SOT-23"@),
        ComponentType::TransistorMosfetN => ("Package_TO_SOT_SMD"@, "SOT-23"@),
        ComponentType::TransistorMosfetP => ("Package_TO_SOT_SMD"@, "SOT-23"@),
        ComponentType::Crystal => ("Crystal"@, "Crystal_SMD_3215-2Pin_3.2x1.5mm"@),
        ComponentType::Connector => ("Connector_PinHeader_2.54mm"@, "PinHeader_1x02_P2.54mm_Vertical"@),
        ComponentType::Switch => ("Button_Switch_SMD"@, "SW_SPST_TL3342"@),
        ComponentType::Fuse => ("Fuse"@, "Fuse_0603_1608Metric"@),
        ComponentType::Ferrite => ("Inductor_SMD"@, "L_0603_1608Metric"@),
        ComponentType::Ic => ("Package_SO"@, "SOIC-8_3.9x4.9mm_P1.27mm"@),
        ComponentType::Unknown => ("Package_SO"@, "SOIC-8_3.9x4.9mm_P1.27mm"@),
    }
}

/// The footprint for a component type and a package name: the chip
/// footprint when the table has one, else the footprint of a special
/// package, else the type's default.
pub open spec fn footprint_for(t: ComponentType, name: Seq<char>) -> (Seq<char>, Seq<char>) {
    match known_package(without_separators(uppercase_of(name))) {
        Some(p) => match chip_lookup(default_chip_footprints(), t, p) {
            Some(f) => f,
            None => match special_footprint(p) {
                Some(f) => f,
                None => type_footprint(t),
            },
        },
        None => type_footprint(t),
    }
}

/// Maps component types and packages to KiCad library symbols and footprints.
#[derive(Debug)]
pub struct LibraryMapper {
    symbols: Vec<(ComponentType, SymbolRef)>,
    chip_footprints: Vec<(ComponentType, Package, FootprintRef)>,
}

/// A number for each known package; none for unknown ones.
spec fn package_code(p: Package) -> int {
    match p {
        Package::P0201 => 0, Package::P0402 => 1, Package::P0603 => 2, Package::P0805 => 3,
        Package::P1206 => 4, Package::P1210 => 5, Package::P2010 => 6, Package::P2512 => 7,
        Package::Sot23 => 8, Package::Sot235 => 9, Package::Sot236 => 10, Package::Sot223 => 11,
        Package::To220 => 12, Package::To252 => 13, Package::Soic8 => 14, Package::Soic14 => 15,
        Package::Soic16 => 16, Package::Tssop8 => 17, Package::Tssop14 => 18, Package::Tssop16 => 19,
        Package::Qfp32 => 20, Package::Qfp48 => 21, Package::Qfp64 => 22, Package::Qfn16 => 23,
        Package::Qfn24 => 24, Package::Qfn32 => 25, Package::Unknown(_) => -1,
    }
}

fn code_of(p: &Package) -> (c: i8)
    ensures
        c == package_code(*p),
{
    match p {
        Package::P0201 => 0, Package::P0402 => 1, Package::P0603 => 2, Package::P0805 => 3,
        Package::P1206 => 4, Package::P1210 => 5, Package::P2010 => 6, Package::P2512 => 7,
        Package::Sot23 => 8, Package::Sot235 => 9, Package::Sot236 => 10, Package::Sot223 => 11,
        Package::To220 => 12, Package::To252 => 13, Package::Soic8 => 14, Package::Soic14 => 15,
        Package::Soic16 => 16, Package::Tssop8 => 17, Package::Tssop14 => 18, Package::Tssop16 => 19,
        Package::Qfp32 => 20, Package::Qfp48 => 21, Package::Qfp64 => 22, Package::Qfn16 => 23,
        Package::Qfn24 => 24, Package::Qfn32 => 25, Package::Unknown(_) => -1,
    }
}

/// The full footprint name for a reference and an optional package name
/// (`0402` when there is none): the footprint of the reference's component
/// type in that package.
pub open spec fn footprint_name_for(reference: Seq<char>, package: Option<Seq<char>>) -> Seq<char> {
    let t = type_of_prefix(uppercase_of(reference.take(alphabetic_prefix_len(reference) as int)));
    let name = match package {
        Some(p) => p,
        None => "0402"@,
    };
    let f = footprint_for(t, name);
    qualified(f.0, f.1)
}

impl LibraryMapper {
    /// The symbol table, as component type, library and symbol.
    pub closed spec fn symbol_table(&self) -> Seq<(ComponentType, Seq<char>, Seq<char>)> {
        self.symbols@.map_values(|e: (ComponentType, SymbolRef)| (e.0, e.1.library@, e.1.symbol@))
    }

    /// The chip footprint table, as component type, package, library and footprint.
    pub closed spec fn chip_table(&self) -> Seq<(ComponentType, Package, Seq<char>, Seq<char>)> {
        self.chip_footprints@.map_values(|e: (ComponentType, Package, FootprintRef)| (e.0, e.1, e.2.library@, e.2.footprint@))
    }

    /// The mapper holds the default tables.
    pub closed spec fn wf(&self) -> bool {
        &&& self.symbol_table() == default_symbols()
        &&& self.chip_table() == default_chip_footprints()
    }

    /// A mapper with the default KiCad library tables.
    pub fn new() -> (m: Self)
        ensures
            m.wf(),
    {
        let mut m = LibraryMapper { symbols: Vec::new(), chip_footprints: Vec::new() };
        m.init_default_symbols();
        m.init_default_footprints();
        m
    }

    fn add_symbol(&mut self, t: ComponentType, library: &str, symbol: &str)
        ensures
            final(self).symbol_table() == old(self).symbol_table().push((t, library@, symbol@)),
            final(self).chip_footprints == old(self).chip_footprints,
    {
        self.symbols.push((t, SymbolRef::new(library, symbol)));
        assert(self.symbol_table() =~= old(self).symbol_table().push((t, library@, symbol@)));
    }

    fn init_default_symbols(&mut self)
        requires
            old(self).symbol_table().len() == 0,
        ensures
            final(self).symbol_table() == default_symbols(),
            final(self).chip_footprints == old(self).chip_footprints,
    {
        self.add_symbol(ComponentType::Resistor, "Device", "R");
        self.add_symbol(ComponentType::Capacitor, "Device", "C");
        self.add_symbol(ComponentType::CapacitorPolarized, "Device", "CP");
        self.add_symbol(ComponentType::Inductor, "Device", "L");
        self.add_symbol(ComponentType::Diode, "Device", "D");
        self.add_symbol(ComponentType::DiodeZener, "Device", "D_Zener");
        self.add_symbol(ComponentType::DiodeSchottky, "Device", "D_Schottky");
        self.add_symbol(ComponentType::Led, "Device", "LED");
        self.add_symbol(ComponentType::Transistor, "Device", "Q_NPN_BCE");
        self.add_symbol(ComponentType::TransistorPnp, "Device", "Q_PNP_BCE");
        self.add_symbol(ComponentType::TransistorMosfetN, "Device", "Q_NMOS_GDS");
        self.add_symbol(ComponentType::TransistorMosfetP, "Device", "Q_PMOS_GDS");
        self.add_symbol(ComponentType::Crystal, "Device", "Crystal");
        self.add_symbol(ComponentType::Fuse, "Device", "Fuse");
        self.add_symbol(ComponentType::Ferrite, "Device", "Ferrite_Bead");
        self.add_symbol(ComponentType::Connector, "Connector", "Conn_01x02_Pin");
        self.add_symbol(ComponentType::Switch, "Switch", "SW_Push");
        self.add_symbol(ComponentType::Ic, "Device", "IC");
        reveal(default_symbols);
        assert(self.symbol_table() =~= default_symbols());
    }

    fn add_chip(&mut self, t: ComponentType, p: Package, library: &str, letter: &str)
        requires
            suffix_of(p) is Some,
        ensures
            final(self).chip_table() == old(self).chip_table().push(chip_entry(t, p, library@, letter@)),
            final(self).symbols == old(self).symbols,
    {
        let suffix = p.footprint_suffix();
        let mut name = letter.to_owned();
        push_str(&mut name, "_");
        match suffix {
            Some(x) => push_str(&mut name, x),
            None => {},
        }
        self.chip_footprints.push((t, p, FootprintRef::new(library, name.as_str())));
        assert(self.chip_table() =~= old(self).chip_table().push(chip_entry(t, p, library@, letter@)));
    }

    fn init_default_footprints(&mut self)
        requires
            old(self).chip_table().len() == 0,
        ensures
            final(self).chip_table() == default_chip_footprints(),
            final(self).symbols == old(self).symbols,
    {
        self.add_chip(ComponentType::Resistor, Package::P0201, "Resistor_SMD", "R");
        self.add_chip(ComponentType::Resistor, Package::P0402, "Resistor_SMD", "R");
        self.add_chip(ComponentType::Resistor, Package::P0603, "Resistor_SMD", "R");
        self.add_chip(ComponentType::Resistor, Package::P0805, "Resistor_SMD", "R");
        self.add_chip(ComponentType::Resistor, Package::P1206, "Resistor_SMD", "R");
        self.add_chip(ComponentType::Resistor, Package::P1210, "Resistor_SMD", "R");
        self.add_chip(ComponentType::Resistor, Package::P2010, "Resistor_SMD", "R");
        self.add_chip(ComponentType::Resistor, Package::P2512, "Resistor_SMD", "R");
        self.add_chip(ComponentType::Capacitor, Package::P0201, "Capacitor_SMD", "C");
        self.add_chip(ComponentType::Capacitor, Package::P0402, "Capacitor_SMD", "C");
        self.add_chip(ComponentType::Capacitor, Package::P0603, "Capacitor_SMD", "C");
        self.add_chip(ComponentType::Capacitor, Package::P0805, "Capacitor_SMD", "C");
        self.add_chip(ComponentType::Capacitor, Package::P1206, "Capacitor_SMD", "C");
        self.add_chip(ComponentType::Capacitor, Package::P1210, "Capacitor_SMD", "C");
        self.add_chip(ComponentType::Inductor, Package::P0402, "Inductor_SMD", "L");
        self.add_chip(ComponentType::Inductor, Package::P0603, "Inductor_SMD", "L");
        self.add_chip(ComponentType::Inductor, Package::P0805, "Inductor_SMD", "L");
        self.add_chip(ComponentType::Inductor, Package::P1206, "Inductor_SMD", "L");
        self.add_chip(ComponentType::Led, Package::P0402, "LED_SMD", "LED");
        self.add_chip(ComponentType::Led, Package::P0603, "LED_SMD", "LED");
        self.add_chip(ComponentType::Led, Package::P0805, "LED_SMD", "LED");
        self.add_chip(ComponentType::Led, Package::P1206, "LED_SMD", "LED");
        self.add_chip(ComponentType::Diode, Package::P0402, "Diode_SMD", "D");
        self.add_chip(ComponentType::Diode, Package::P0603, "Diode_SMD", "D");
        self.add_chip(ComponentType::Diode, Package::P0805, "Diode_SMD", "D");
        reveal(default_chip_footprints);
        assert(self.chip_table() =~= default_chip_footprints());
    }

    /// The symbol for a component type: the table's entry, or `Device:R`
    /// when the table has none.
    pub fn get_symbol(&self, component_type: ComponentType) -> (s: SymbolRef)
        requires
            self.wf(),
        ensures
            match symbol_lookup(default_symbols(), component_type) {
                Some(e) => s.library@ == e.0 && s.symbol@ == e.1,
                None => s.library@ == "Device"@ && s.symbol@ == "R"@,
            },
    {
        let mut i: usize = 0;
        assert(self.symbol_table().skip(0) =~= self.symbol_table());
        while i < self.symbols.len()
            invariant
                self.wf(),
                i <= self.symbols.len(),
                symbol_lookup(self.symbol_table().skip(i as int), component_type)
                    == symbol_lookup(default_symbols(), component_type),
            decreases self.symbols.len() - i,
        {
            proof {
                let t = self.symbol_table().skip(i as int);
                assert(t[0] == (self.symbols@[i as int].0, self.symbols@[i as int].1.library@, self.symbols@[i as int].1.symbol@));
                assert(t.drop_first() =~= self.symbol_table().skip(i + 1));
            }
            if self.symbols[i].0 == component_type {
                let e = &self.symbols[i].1;
                return SymbolRef { library: e.library.clone(), symbol: e.symbol.clone() };
            }
            i = i + 1;
        }
        proof {
            assert(self.symbol_table().skip(i as int).len() == 0);
        }
        SymbolRef::new("Device", "R")
    }

    /// The symbol library identifier for a reference (e.g., `R1` gives `Device:R`).
    pub fn get_symbol_lib_id(&self, reference: &str) -> (s: String)
        requires
            self.wf(),
        ensures
            ({
                let t = type_of_prefix(uppercase_of(reference@.take(alphabetic_prefix_len(reference@) as int)));
                match symbol_lookup(default_symbols(), t) {
                    Some(e) => s@ == qualified(e.0, e.1),
                    None => s@ == qualified("Device"@, "R"@),
                }
            }),
    {
        let t = ComponentType::from_reference(reference);
        self.get_symbol(t).lib_id()
    }

    fn chip_footprint(&self, t: ComponentType, p: &Package) -> (r: Option<FootprintRef>)
        requires
            self.wf(),
            !(p is Unknown),
        ensures
            match chip_lookup(default_chip_footprints(), t, *p) {
                Some(e) => r matches Some(f) && f.library@ == e.0 && f.footprint@ == e.1,
                None => r is None,
            },
    {
        let code = code_of(p);
        let mut i: usize = 0;
        assert(self.chip_table().skip(0) =~= self.chip_table());
        while i < self.chip_footprints.len()
            invariant
                self.wf(),
                !(p is Unknown),
                code == package_code(*p),
                i <= self.chip_footprints.len(),
                chip_lookup(self.chip_table().skip(i as int), t, *p) == chip_lookup(default_chip_footprints(), t, *p),
            decreases self.chip_footprints.len() - i,
        {
            proof {
                let tb = self.chip_table().skip(i as int);
                assert(tb[0] == (self.chip_footprints@[i as int].0, self.chip_footprints@[i as int].1,
                    self.chip_footprints@[i as int].2.library@, self.chip_footprints@[i as int].2.footprint@));
                assert(tb.drop_first() =~= self.chip_table().skip(i + 1));
            }
            let e = &self.chip_footprints[i];
            let same = e.0 == t && code_of(&e.1) == code;
            proof {
                assert(!(e.1 is Unknown)) by {
                    assert(default_chip_footprints()[i as int].1 == e.1);
                    reveal(default_chip_footprints);
                }
                assert(same == (e.0 == t && e.1 == *p));
            }
            if same {
                return Some(FootprintRef { library: e.2.library.clone(), footprint: e.2.footprint.clone() });
            }
            i = i + 1;
        }
        proof {
            assert(self.chip_table().skip(i as int).len() == 0);
        }
        None
    }

    /// The footprint for a component type and a package name: the chip
    /// footprint for that type and package when there is one, else the
    /// footprint of a special package, else the type's default.
    pub fn get_footprint(&self, component_type: ComponentType, package: &str) -> (f: FootprintRef)
        requires
            self.wf(),
        ensures
            (f.library@, f.footprint@) == footprint_for(component_type, package@),
    {
        let pkg = Package::from_str(package);
        if !matches!(pkg, Package::Unknown(_)) {
            match self.chip_footprint(component_type, &pkg) {
                Some(f) => return f,
                None => {},
            }
        }
        match pkg {
            Package::Sot23 => FootprintRef::new("Package_TO_SOT_SMD", "SOT-23"),
            Package::Sot235 => FootprintRef::new("Package_TO_SOT_SMD", "SOT-23-5"),
            Package::Sot236 => FootprintRef::new("Package_TO_SOT_SMD", "SOT-23-6"),
            Package::Sot223 => FootprintRef::new("Package_TO_SOT_SMD", "SOT-223"),
            Package::To220 => FootprintRef::new("Package_TO_SOT_THT", "TO-220-3_Vertical"),
            Package::To252 => FootprintRef::new("Package_TO_SOT_SMD", "TO-252-2"),
            Package::Soic8 => FootprintRef::new("Package_SO", "SOIC-8_3.9x4.9mm_P1.27mm"),
            Package::Soic14 => FootprintRef::new("Package_SO", "SOIC-14_3.9x8.7mm_P1.27mm"),
            Package::Soic16 => FootprintRef::new("Package_SO", "SOIC-16_3.9x9.9mm_P1.27mm"),
            Package::Tssop8 => FootprintRef::new("Package_SO", "TSSOP-8_4.4x3mm_P0.65mm"),
            Package::Tssop14 => FootprintRef::new("Package_SO", "TSSOP-14_4.4x5mm_P0.65mm"),
            Package::Tssop16 => FootprintRef::new("Package_SO", "TSSOP-16_4.4x5mm_P0.65mm"),
            Package::Qfp32 => FootprintRef::new("Package_QFP", "LQFP-32_7x7mm_P0.8mm"),
            Package::Qfp48 => FootprintRef::new("Package_QFP", "LQFP-48_7x7mm_P0.5mm"),
            Package::Qfp64 => FootprintRef::new("Package_QFP", "LQFP-64_10x10mm_P0.5mm"),
            Package::Qfn16 => FootprintRef::new("Package_DFN_QFN", "QFN-16-1EP_3x3mm_P0.5mm_EP1.75x1.75mm"),
            Package::Qfn24 => FootprintRef::new("Package_DFN_QFN", "QFN-24-1EP_4x4mm_P0.5mm_EP2.6x2.6mm"),
            Package::Qfn32 => FootprintRef::new("Package_DFN_QFN", "QFN-32-1EP_5x5mm_P0.5mm_EP3.1x3.1mm"),
            _ => Self::type_default(component_type),
        }
    }

    fn type_default(t: ComponentType) -> (f: FootprintRef)
        ensures
            (f.library@, f.footprint@) == type_footprint(t),
    {
        match t {
            ComponentType::Resistor => FootprintRef::new("Resistor_SMD", "R_0402_1005Metric"),
            ComponentType::Capacitor => FootprintRef::new("Capacitor_SMD", "C_0402_1005Metric"),
            ComponentType::CapacitorPolarized => FootprintRef::new("Capacitor_SMD", "CP_Elec_4x5.3"),
            ComponentType::Inductor => FootprintRef::new("Inductor_SMD", "L_0603_1608Metric"),
            ComponentType::Diode => FootprintRef::new("Diode_SMD", "D_SOD-123"),
            ComponentType::DiodeZener => FootprintRef::new("Diode_SMD", "D_SOD-123"),
            ComponentType::DiodeSchottky => FootprintRef::new("Diode_SMD", "D_SOD-123"),
            ComponentType::Led => FootprintRef::new("LED_SMD", "LED_0603_1608Metric"),
            ComponentType::Transistor => FootprintRef::new("Package_TO_SOT_SMD", "SOT-23"),
            ComponentType::TransistorPnp => FootprintRef::new("Package_TO_SOT_SMD", "SOT-23"),
            ComponentType::TransistorMosfetN => FootprintRef::new("Package_TO_SOT_SMD", "SOT-23"),
            ComponentType::TransistorMosfetP => FootprintRef::new("Package_TO_SOT_SMD", "SOT-23"),
            ComponentType::Crystal => FootprintRef::new("Crystal", "Crystal_SMD_3215-2Pin_3.2x1.5mm"),
            ComponentType::Connector => FootprintRef::new("Connector_PinHeader_2.54mm", "PinHeader_1x02_P2.54mm_Vertical"),
            ComponentType::Switch => FootprintRef::new("Button_Switch_SMD", "SW_SPST_TL3342"),
            ComponentType::Fuse => FootprintRef::new("Fuse", "Fuse_0603_1608Metric"),
            ComponentType::Ferrite => FootprintRef::new("Inductor_SMD", "L_0603_1608Metric"),
            ComponentType::Ic => FootprintRef::new("Package_SO", "SOIC-8_3.9x4.9mm_P1.27mm"),
            ComponentType::Unknown => FootprintRef::new("Package_SO", "SOIC-8_3.9x4.9mm_P1.27mm"),
        }
    }

    /// The full footprint name for a reference and an optional package
    /// name (`0402` when there is none).
    pub fn get_footprint_name(&self, reference: &str, package: Option<&str>) -> (s: String)
        requires
            self.wf(),
        ensures
            s@ == footprint_name_for(reference@, match package {
                Some(p) => Some(p@),
                None => None,
            }),
    {
        let t = ComponentType::from_reference(reference);
        let pkg = match package {
            Some(p) => p,
            None => "0402",
        };
        self.get_footprint(t, pkg).full_name()
    }

    /// The symbol libraries the table uses, sorted, each once.
    pub fn get_symbol_libraries(&self) -> (r: Vec<String>)
        requires
            self.wf(),
        ensures
            forall|i: int| 0 <= i < r@.len() - 1 ==>
                lex_order(#[trigger] texts(r@)[i], texts(r@)[i + 1]) == Comparison::Less,
            texts(r@).to_set() == default_symbols().map_values(
                |e: (ComponentType, Seq<char>, Seq<char>)| e.1).to_set(),
    {
        let mut libs: Vec<String> = Vec::new();
        let mut i: usize = 0;
        while i < self.symbols.len()
            invariant
                self.wf(),
                i <= self.symbols.len(),
                texts(libs@) == self.symbol_table().take(i as int).map_values(
                    |e: (ComponentType, Seq<char>, Seq<char>)| e.1),
            decreases self.symbols.len() - i,
        {
            let ghost t0 = texts(libs@);
            let lib = self.symbols[i].1.library.clone();
            libs.push(lib);
            proof {
                let f = |e: (ComponentType, Seq<char>, Seq<char>)| e.1;
                let tb = self.symbol_table();
                assert(tb[i as int].1 == lib@);
                assert(texts(libs@) =~= t0.push(lib@));
                assert(tb.take(i + 1) =~= tb.take(i as int).push(tb[i as int]));
                assert(tb.take(i + 1).map_values(f) =~= tb.take(i as int).map_values(f).push(tb[i as int].1));
            }
            i = i + 1;
        }
        proof {
            assert(self.symbol_table().take(self.symbols.len() as int) =~= self.symbol_table());
        }
        sorted_unique(libs)
    }

    /// The footprint libraries the table uses, with the common libraries
    /// added, sorted, each once.
    #[verifier::spinoff_prover]
    #[verifier::rlimit(40)]
    pub fn get_footprint_libraries(&self) -> (r: Vec<String>)
        requires
            self.wf(),
        ensures
            forall|i: int| 0 <= i < r@.len() - 1 ==>
                lex_order(#[trigger] texts(r@)[i], texts(r@)[i + 1]) == Comparison::Less,
            texts(r@).to_set() == (default_chip_footprints().map_values(
                |e: (ComponentType, Package, Seq<char>, Seq<char>)| e.2) + common_footprint_libraries()).to_set(),
    {
        let mut libs: Vec<String> = Vec::new();
        let mut i: usize = 0;
        while i < self.chip_footprints.len()
            invariant
                self.wf(),
                i <= self.chip_footprints.len(),
                texts(libs@) == self.chip_table().take(i as int).map_values(
                    |e: (ComponentType, Package, Seq<char>, Seq<char>)| e.2),
            decreases self.chip_footprints.len() - i,
        {
            let ghost t0 = texts(libs@);
            let lib = self.chip_footprints[i].2.library.clone();
            libs.push(lib);
            proof {
                let f = |e: (ComponentType, Package, Seq<char>, Seq<char>)| e.2;
                let tb = self.chip_table();
                assert(tb[i as int].2 == lib@);
                assert(texts(libs@) =~= t0.push(lib@));
                assert(tb.take(i + 1) =~= tb.take(i as int).push(tb[i as int]));
                assert(tb.take(i + 1).map_values(f) =~= tb.take(i as int).map_values(f).push(tb[i as int].2));
            }
            i = i + 1;
        }
        proof {
            assert(self.chip_table().take(self.chip_footprints.len() as int) =~= self.chip_table());
        }
        let ghost chip_libs = texts(libs@);
        libs.push("Resistor_SMD".to_owned());
        libs.push("Capacitor_SMD".to_owned());
        libs.push("Inductor_SMD".to_owned());
        libs.push("LED_SMD".to_owned());
        libs.push("Diode_SMD".to_owned());
        libs.push("Package_TO_SOT_SMD".to_owned());
        libs.push("Package_SO".to_owned());
        libs.push("Package_QFP".to_owned());
        libs.push("Package_DFN_QFN".to_owned());
        libs.push("Connector_PinHeader_2.54mm".to_owned());
        libs.push("Button_Switch_SMD".to_owned());
        assert(texts(libs@) =~= chip_libs + common_footprint_libraries());
        sorted_unique(libs)
    }
}

/// The common footprint libraries always listed.
pub open spec fn common_footprint_libraries() -> Seq<Seq<char>> {
    seq![
        "Resistor_SMD"@, "Capacitor_SMD"@, "Inductor_SMD"@, "LED_SMD"@, "Diode_SMD"@,
        "Package_TO_SOT_SMD"@, "Package_SO"@, "Package_QFP"@, "Package_DFN_QFN"@,
        "Connector_PinHeader_2.54mm"@, "Button_Switch_SMD"@,
    ]
}


/// The type that a type's default prefix names: the type itself, or, for the
/// kinds that share a prefix with a more general one, that general type.
pub open spec fn base_type(t: ComponentType) -> ComponentType {
    match t {
        ComponentType::CapacitorPolarized => ComponentType::Capacitor,
        ComponentType::DiodeZener | ComponentType::DiodeSchottky | ComponentType::Led => ComponentType::Diode,
        ComponentType::TransistorPnp | ComponentType::TransistorMosfetN
            | ComponentType::TransistorMosfetP => ComponentType::Transistor,
        _ => t,
    }
}

/// A type's default prefix names the type back, or its general type where
/// several kinds share the prefix (an unknown type's `X` names no type).
pub proof fn lemma_default_prefix_round_trip(t: ComponentType)
    ensures
        type_of_prefix(default_prefix_of(t)) == base_type(t),
{
    reveal_strlit("R");
    assert("R"@.len() == 1 && "R"@[0] == 'R');
    reveal_strlit("C");
    assert("C"@.len() == 1 && "C"@[0] == 'C');
    reveal_strlit("CP");
    assert("CP"@.len() == 2 && "CP"@[0] == 'C' && "CP"@[1] == 'P');
    reveal_strlit("L");
    assert("L"@.len() == 1 && "L"@[0] == 'L');
    reveal_strlit("D");
    assert("D"@.len() == 1 && "D"@[0] == 'D');
    reveal_strlit("DZ");
    assert("DZ"@.len() == 2 && "DZ"@[0] == 'D' && "DZ"@[1] == 'Z');
    reveal_strlit("DS");
    assert("DS"@.len() == 2 && "DS"@[0] == 'D' && "DS"@[1] == 'S');
    reveal_strlit("LED");
    assert("LED"@.len() == 3 && "LED"@[0] == 'L' && "LED"@[1] == 'E' && "LED"@[2] == 'D');
    reveal_strlit("Q");
    assert("Q"@.len() == 1 && "Q"@[0] == 'Q');
    reveal_strlit("Y");
    assert("Y"@.len() == 1 && "Y"@[0] == 'Y');
    reveal_strlit("XTAL");
    assert("XTAL"@.len() == 4 && "XTAL"@[0] == 'X' && "XTAL"@[1] == 'T' && "XTAL"@[2] == 'A' && "XTAL"@[3] == 'L');
    reveal_strlit("J");
    assert("J"@.len() == 1 && "J"@[0] == 'J');
    reveal_strlit("P");
    assert("P"@.len() == 1 && "P"@[0] == 'P');
    reveal_strlit("CONN");
    assert("CONN"@.len() == 4 && "CONN"@[0] == 'C' && "CONN"@[1] == 'O' && "CONN"@[2] == 'N' && "CONN"@[3] == 'N');
    reveal_strlit("SW");
    assert("SW"@.len() == 2 && "SW"@[0] == 'S' && "SW"@[1] == 'W');
    reveal_strlit("S");
    assert("S"@.len() == 1 && "S"@[0] == 'S');
    reveal_strlit("U");
    assert("U"@.len() == 1 && "U"@[0] == 'U');
    reveal_strlit("IC");
    assert("IC"@.len() == 2 && "IC"@[0] == 'I' && "IC"@[1] == 'C');
    reveal_strlit("F");
    assert("F"@.len() == 1 && "F"@[0] == 'F');
    reveal_strlit("FB");
    assert("FB"@.len() == 2 && "FB"@[0] == 'F' && "FB"@[1] == 'B');
    reveal_strlit("L_FERRITE");
    assert("L_FERRITE"@.len() == 9 && "L_FERRITE"@[0] == 'L' && "L_FERRITE"@[1] == '_' && "L_FERRITE"@[2] == 'F' && "L_FERRITE"@[3] == 'E' && "L_FERRITE"@[4] == 'R' && "L_FERRITE"@[5] == 'R' && "L_FERRITE"@[6] == 'I' && "L_FERRITE"@[7] == 'T' && "L_FERRITE"@[8] == 'E');
    reveal_strlit("X");
    assert("X"@.len() == 1 && "X"@[0] == 'X');
}


} // verus!
