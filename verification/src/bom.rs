//! Bills of materials: one line per component or per group of identical
//! components, written as JLCPCB or generic CSV.

use vstd::prelude::*;
use crate::ids::{join_seqs, join_strings, strings_view};
use crate::kicad::ExportError;
use crate::natord::Comparison;
use crate::netlist::{lookup, Netlist, NetlistComponent};
use crate::sort::{
    lemma_map_multiset, lemma_multiset_property, lex_order, sort_by_key, NumberKey, PairKey,
    SortKey, TextKey,
};
use crate::text::{
    all_digits, chars_of, contains_seq, contains_str, digit_value, digits_value,
    lemma_digits_value_push, push_char, push_decimal, push_str, split_on, split_str, str_eq,
    string_from_chars, dec_digits,
};

verus! {

/// A line of a bill of materials.
#[derive(Debug, Clone, PartialEq, Eq)]
pub struct BomLine {
    /// Component designators, separated by `, ` when grouped (e.g., "R1, R2").
    pub designator: String,
    /// Component value (e.g., "10k", "100nF").
    pub value: String,
    /// Footprint name.
    pub footprint: String,
    /// Number of components on this line.
    pub quantity: u32,
    /// Manufacturer name.
    pub manufacturer: String,
    /// Manufacturer part number.
    pub part_number: String,
    /// LCSC part number (for JLCPCB).
    pub lcsc_part_number: String,
}

/// A BOM line as a mathematical value.
pub struct LineView {
    pub designator: Seq<char>,
    pub value: Seq<char>,
    pub footprint: Seq<char>,
    pub quantity: nat,
    pub manufacturer: Seq<char>,
    pub part_number: Seq<char>,
    pub lcsc_part_number: Seq<char>,
}

impl View for BomLine {
    type V = LineView;

    open spec fn view(&self) -> LineView {
        LineView {
            designator: self.designator@,
            value: self.value@,
            footprint: self.footprint@,
            quantity: self.quantity as nat,
            manufacturer: self.manufacturer@,
            part_number: self.part_number@,
            lcsc_part_number: self.lcsc_part_number@,
        }
    }
}

/// An optional text, or the empty text.
pub open spec fn or_empty(o: Option<Seq<char>>) -> Seq<char> {
    match o {
        Some(s) => s,
        None => Seq::empty(),
    }
}

/// The BOM line of one component: its reference, value and footprint, a
/// quantity of one, and its `manufacturer`, `part_number` and `lcsc`
/// properties (empty when absent).
pub open spec fn component_line(c: NetlistComponent) -> LineView {
    LineView {
        designator: c.reference@,
        value: c.value@,
        footprint: match c.footprint {
            Some(f) => f@,
            None => Seq::empty(),
        },
        quantity: 1,
        manufacturer: or_empty(lookup(c.properties@, "manufacturer"@)),
        part_number: or_empty(lookup(c.properties@, "part_number"@)),
        lcsc_part_number: or_empty(lookup(c.properties@, "lcsc"@)),
    }
}

/// Two lines merged: the designators joined with `, `, the quantities added.
pub open spec fn merged(a: LineView, b: LineView) -> LineView {
    LineView { designator: a.designator + ", "@ + b.designator, quantity: a.quantity + b.quantity, ..a }
}

/// The text that decides which components share a line: value, footprint,
/// part number and LCSC number, separated by `|`.
pub open spec fn key_text(l: LineView) -> Seq<char> {
    l.value + "|"@ + l.footprint + "|"@ + l.part_number + "|"@ + l.lcsc_part_number
}

fn copy_line(l: &BomLine) -> (r: BomLine)
    ensures
        r == *l,
{
    BomLine {
        designator: l.designator.clone(),
        value: l.value.clone(),
        footprint: l.footprint.clone(),
        quantity: l.quantity,
        manufacturer: l.manufacturer.clone(),
        part_number: l.part_number.clone(),
        lcsc_part_number: l.lcsc_part_number.clone(),
    }
}

fn text_or_empty(o: Option<&String>) -> (r: String)
    ensures
        o is Some ==> r@ == o->0@,
        o is None ==> r@ == Seq::<char>::empty(),
{
    match o {
        Some(s) => s.clone(),
        None => String::new(),
    }
}

impl BomLine {
    /// The BOM line of one component.
    pub fn from_component(comp: &NetlistComponent) -> (l: Self)
        ensures
            l@ == component_line(*comp),
    {
        let footprint = match &comp.footprint {
            Some(f) => f.clone(),
            None => String::new(),
        };
        BomLine {
            designator: comp.reference.clone(),
            value: comp.value.clone(),
            footprint,
            quantity: 1,
            manufacturer: text_or_empty(comp.properties.get("manufacturer")),
            part_number: text_or_empty(comp.properties.get("part_number")),
            lcsc_part_number: text_or_empty(comp.properties.get("lcsc")),
        }
    }

    /// Merges `other` into this line: its designators are appended after
    /// `, ` and its quantity is added.
    pub fn merge(&mut self, other: &BomLine)
        requires
            old(self).quantity + other.quantity <= u32::MAX,
        ensures
            final(self)@ == merged(old(self)@, other@),
    {
        let mut d = self.designator.clone();
        push_str(&mut d, ", ");
        push_str(&mut d, other.designator.as_str());
        self.designator = d;
        self.quantity = self.quantity + other.quantity;
    }

    /// The grouping key: lines with equal keys are merged.
    pub fn grouping_key(&self) -> (k: String)
        ensures
            k@ == key_text(self@),
    {
        let mut k = self.value.clone();
        push_str(&mut k, "|");
        push_str(&mut k, self.footprint.as_str());
        push_str(&mut k, "|");
        push_str(&mut k, self.part_number.as_str());
        push_str(&mut k, "|");
        push_str(&mut k, self.lcsc_part_number.as_str());
        k
    }
}

/// The number of ASCII digits at the end of `s`.
pub open spec fn trailing_digits(s: Seq<char>) -> nat
    decreases s.len(),
{
    if s.len() > 0 && '0' <= s.last() <= '9' {
        1 + trailing_digits(s.drop_last())
    } else {
        0
    }
}

/// A designator split into its prefix and its trailing number: the number
/// is what the trailing digits spell, or 0 when there are none or they
/// spell more than fits in 32 bits.
pub open spec fn designator_parts(s: Seq<char>) -> (Seq<char>, nat) {
    let k = s.len() - trailing_digits(s);
    let n = digits_value(s.skip(k));
    (s.take(k), if n <= u32::MAX { n } else { 0 })
}

proof fn lemma_trailing_digits(s: Seq<char>)
    ensures
        trailing_digits(s) <= s.len(),
        all_digits(s.skip(s.len() - trailing_digits(s))),
        trailing_digits(s) < s.len() ==> !('0' <= s[s.len() - trailing_digits(s) - 1] <= '9'),
    decreases s.len(),
{
    if s.len() > 0 && '0' <= s.last() <= '9' {
        lemma_trailing_digits(s.drop_last());
        let k = s.len() - trailing_digits(s);
        assert forall|i: int| 0 <= i < s.skip(k).len() implies '0' <= #[trigger] s.skip(k)[i] <= '9' by {
            if k + i < s.len() - 1 {
                assert(s.skip(k)[i] == s.drop_last().skip(k)[i]);
            }
        }
    }
}

/// Splits a designator into its prefix and trailing number
/// (`R12` gives `("R", 12)`, `NoNumber` gives `("NoNumber", 0)`).
pub fn split_designator(designator: &str) -> (r: (&str, u32))
    ensures
        r.0@ == designator_parts(designator@).0,
        r.1 as nat == designator_parts(designator@).1,
{
    let v = chars_of(designator);
    proof {
        lemma_trailing_digits(v@);
        assert(v@.take(v.len() as int) =~= v@);
    }
    let mut k = v.len();
    while k > 0 && '0' <= v[k - 1] && v[k - 1] <= '9'
        invariant
            k <= v.len(),
            trailing_digits(v@) == (v.len() - k) + trailing_digits(v@.take(k as int)),
        decreases k,
    {
        proof {
            assert(v@.take(k as int).drop_last() =~= v@.take(k - 1));
        }
        k = k - 1;
    }
    proof {
        assert(trailing_digits(v@.take(k as int)) == 0);
    }
    let ghost digits = v@.skip(k as int);
    let mut value: u64 = 0;
    let mut over = false;
    let mut i = k;
    while i < v.len()
        invariant
            k <= i <= v.len(),
            digits == v@.skip(k as int),
            all_digits(digits),
            over ==> digits_value(digits.take(i - k)) > u32::MAX,
            !over ==> value == digits_value(digits.take(i - k)) && value <= u32::MAX,
        decreases v.len() - i,
    {
        let c = v[i];
        proof {
            assert(digits[i - k] == c);
            assert(digits.take(i - k + 1) =~= digits.take(i - k).push(c));
            lemma_digits_value_push(digits.take(i - k), c);
        }
        if !over {
            let d: u64 = (c as u32 - 48) as u64;
            assert(d == digit_value(c));
            value = value * 10 + d;
            if value > 4294967295 {
                over = true;
            }
        }
        i = i + 1;
    }
    proof {
        assert(digits.take(v.len() - k) =~= digits);
    }
    let prefix = designator.substring_char(0, k);
    proof {
        assert(prefix@ =~= v@.take(k as int));
    }
    if over {
        (prefix, 0)
    } else {
        (prefix, value as u32)
    }
}

/// The sort key of a designator: prefix first, then number.
fn designator_key(designator: &str) -> (k: PairKey<TextKey, NumberKey>)
    ensures
        k.0.0@ == designator_parts(designator@).0,
        k.1.0 as nat == designator_parts(designator@).1,
{
    let (prefix, number) = split_designator(designator);
    PairKey(TextKey(chars_of(prefix)), NumberKey(number))
}

/// How two designators are ordered in a BOM: by prefix, then by number.
pub open spec fn designator_order(a: Seq<char>, b: Seq<char>) -> Comparison {
    let pa = designator_parts(a);
    let pb = designator_parts(b);
    let c = lex_order(pa.0, pb.0);
    if c == Comparison::Equal {
        if pa.1 < pb.1 {
            Comparison::Less
        } else if pa.1 > pb.1 {
            Comparison::Greater
        } else {
            Comparison::Equal
        }
    } else {
        c
    }
}

/// The lines of a list of components grouped by key, in order of first
/// appearance, each group merged in component order.
pub open spec fn group_lines(cs: Seq<NetlistComponent>) -> Seq<LineView>
    decreases cs.len(),
{
    if cs.len() == 0 {
        Seq::empty()
    } else {
        let g = group_lines(cs.drop_last());
        let l = component_line(cs.last());
        if exists|i: int| 0 <= i < g.len() && key_text(g[i]) == key_text(l) {
            let i = choose|i: int| 0 <= i < g.len() && key_text(g[i]) == key_text(l);
            g.update(i, merged(g[i], l))
        } else {
            g.push(l)
        }
    }
}

/// The designators of a line, split at `, `, sorted and joined again.
pub open spec fn designators_sorted(d: Seq<char>, d2: Seq<char>) -> bool {
    exists|pieces: Seq<Seq<char>>|
        pieces.to_multiset() == split_on(d, ", "@).to_multiset()
        && (forall|i: int| 0 <= i < pieces.len() - 1 ==>
            designator_order(#[trigger] pieces[i], pieces[i + 1]) != Comparison::Greater)
        && d2 == join_seqs(pieces, ", "@)
}

/// `lines` is the grouped BOM of the components `cs`, by way of `pre`: the
/// grouped lines sorted by their merged designator lists, from which
/// `lines` differ only in having each designator list sorted.
pub open spec fn is_grouped_bom(pre: Seq<LineView>, lines: Seq<BomLine>, cs: Seq<NetlistComponent>) -> bool {
    &&& pre.to_multiset() == group_lines(cs).to_multiset()
    &&& (forall|i: int| 0 <= i < pre.len() - 1 ==>
        designator_order((#[trigger] pre[i]).designator, pre[i + 1].designator) != Comparison::Greater)
    &&& pre.len() == lines.len()
    &&& forall|i: int| 0 <= i < pre.len() ==> {
        let l = (#[trigger] lines[i])@;
        &&& l == LineView { designator: l.designator, ..pre[i] }
        &&& designators_sorted(pre[i].designator, l.designator)
    }
}

/// A complete bill of materials.
#[derive(Debug, Clone)]
pub struct Bom {
    /// The lines.
    pub lines: Vec<BomLine>,
    /// Optional title or project name.
    pub title: Option<String>,
    /// Optional date.
    pub date: Option<String>,
}

/// The views of a list of lines.
pub open spec fn lines_view(ls: Seq<BomLine>) -> Seq<LineView> {
    ls.map_values(|l: BomLine| l@)
}

/// The total quantity of a list of lines.
pub open spec fn total_quantity(ls: Seq<BomLine>) -> nat
    decreases ls.len(),
{
    if ls.len() == 0 {
        0
    } else {
        total_quantity(ls.drop_last()) + ls.last().quantity as nat
    }
}

fn copy_text(o: &Option<String>) -> (r: Option<String>)
    ensures
        r == *o,
{
    match o {
        Some(s) => Some(s.clone()),
        None => None,
    }
}

impl Default for Bom {
    /// An empty bill of materials.
    fn default() -> (b: Self)
        ensures
            b.lines@.len() == 0,
            b.title is None,
            b.date is None,
    {
        Bom::new()
    }
}

impl Bom {
    /// An empty bill of materials.
    pub fn new() -> (b: Self)
        ensures
            b.lines@.len() == 0,
            b.title is None,
            b.date is None,
    {
        Bom { lines: Vec::new(), title: None, date: None }
    }

    /// One line per component, in netlist order, with the netlist's title and date.
    pub fn from_netlist(netlist: &Netlist) -> (b: Self)
        ensures
            b.lines@.len() == netlist.components@.len(),
            forall|i: int| 0 <= i < b.lines@.len() ==>
                (#[trigger] b.lines@[i])@ == component_line(netlist.components@[i]),
            b.title == netlist.metadata.title,
            b.date == netlist.metadata.date,
    {
        let mut lines: Vec<BomLine> = Vec::new();
        let mut i: usize = 0;
        while i < netlist.components.len()
            invariant
                i <= netlist.components.len(),
                lines@.len() == i,
                forall|t: int| 0 <= t < i ==> (#[trigger] lines@[t])@ == component_line(netlist.components@[t]),
            decreases netlist.components.len() - i,
        {
            lines.push(BomLine::from_component(&netlist.components[i]));
            i = i + 1;
        }
        Bom { lines, title: copy_text(&netlist.metadata.title), date: copy_text(&netlist.metadata.date) }
    }

    /// One line per group of components with equal value, footprint, part
    /// number and LCSC number. The lines come sorted by the prefix and
    /// number of their designator lists as merged in component order; then
    /// each line's designators are sorted the same way.
    #[verifier::spinoff_prover]
    #[verifier::rlimit(80)]
    pub fn from_netlist_grouped(netlist: &Netlist) -> (b: Self)
        requires
            netlist.components@.len() <= u32::MAX,
        ensures
            b.title == netlist.metadata.title,
            b.date == netlist.metadata.date,
            exists|pre: Seq<LineView>| #[trigger] is_grouped_bom(pre, b.lines@, netlist.components@),
    {
        let groups = Self::group(netlist);
        let mut keyed = Self::keyed(&groups);
        let ghost before_sort = keyed@;
        sort_by_key(&mut keyed);
        let ghost after_sort = keyed@;
        let lines = Self::normalized(&keyed);
        let ghost pre = keyed_lines(after_sort);
        proof {
            assert(keyed_lines(before_sort) =~= lines_view(groups@));
            lemma_sorted_lines(before_sort, after_sort);
            assert(pre.to_multiset() == group_lines(netlist.components@).to_multiset());
            assert(pre.len() == lines@.len());
            assert(is_grouped_bom(pre, lines@, netlist.components@));
        }
        let b = Bom { lines, title: copy_text(&netlist.metadata.title), date: copy_text(&netlist.metadata.date) };
        assert(is_grouped_bom(pre, b.lines@, netlist.components@));
        b
    }

    fn keyed(groups: &Vec<BomLine>) -> (keyed: Vec<(PairKey<TextKey, NumberKey>, BomLine)>)
        ensures
            keyed@.len() == groups@.len(),
            forall|t: int| 0 <= t < groups@.len() ==> (#[trigger] keyed@[t]).1 == groups@[t] && line_key_ok(keyed@[t]),
    {
        let mut keyed: Vec<(PairKey<TextKey, NumberKey>, BomLine)> = Vec::new();
        let mut i: usize = 0;
        while i < groups.len()
            invariant
                i <= groups.len(),
                keyed@.len() == i,
                forall|t: int| 0 <= t < i ==> (#[trigger] keyed@[t]).1 == groups@[t] && line_key_ok(keyed@[t]),
            decreases groups.len() - i,
        {
            let k = designator_key(groups[i].designator.as_str());
            keyed.push((k, copy_line(&groups[i])));
            i = i + 1;
        }
        keyed
    }

    fn normalized(keyed: &Vec<(PairKey<TextKey, NumberKey>, BomLine)>) -> (lines: Vec<BomLine>)
        ensures
            lines@.len() == keyed@.len(),
            forall|t: int| 0 <= t < keyed@.len() ==> {
                let l = (#[trigger] lines@[t])@;
                &&& l == LineView { designator: l.designator, ..keyed_lines(keyed@)[t] }
                &&& designators_sorted(keyed_lines(keyed@)[t].designator, l.designator)
            },
    {
        let mut lines: Vec<BomLine> = Vec::new();
        let mut i: usize = 0;
        while i < keyed.len()
            invariant
                i <= keyed.len(),
                lines@.len() == i,
                forall|t: int| 0 <= t < i ==> {
                    let l = (#[trigger] lines@[t])@;
                    &&& l == LineView { designator: l.designator, ..keyed_lines(keyed@)[t] }
                    &&& designators_sorted(keyed_lines(keyed@)[t].designator, l.designator)
                },
            decreases keyed.len() - i,
        {
            let line = &keyed[i].1;
            let sorted = Self::sort_designators(line.designator.as_str());
            lines.push(BomLine {
                designator: sorted,
                value: line.value.clone(),
                footprint: line.footprint.clone(),
                quantity: line.quantity,
                manufacturer: line.manufacturer.clone(),
                part_number: line.part_number.clone(),
                lcsc_part_number: line.lcsc_part_number.clone(),
            });
            i = i + 1;
        }
        lines
    }

    fn group(netlist: &Netlist) -> (groups: Vec<BomLine>)
        requires
            netlist.components@.len() <= u32::MAX,
        ensures
            lines_view(groups@) == group_lines(netlist.components@),
    {
        let mut groups: Vec<BomLine> = Vec::new();
        let mut keys: Vec<String> = Vec::new();
        let mut i: usize = 0;
        while i < netlist.components.len()
            invariant
                i <= netlist.components.len(),
                netlist.components@.len() <= u32::MAX,
                lines_view(groups@) == group_lines(netlist.components@.take(i as int)),
                keys@.len() == groups@.len(),
                forall|t: int| 0 <= t < keys@.len() ==> (#[trigger] keys@[t])@ == key_text(groups@[t]@),
                forall|t: int| 0 <= t < groups@.len() ==> (#[trigger] groups@[t]).quantity <= i,
                forall|a: int, b: int| 0 <= a < b < groups@.len() ==>
                    key_text(#[trigger] groups@[a]@) != key_text(#[trigger] groups@[b]@),
            decreases netlist.components.len() - i,
        {
            let ghost cs = netlist.components@.take(i + 1);
            proof {
                assert(cs.drop_last() =~= netlist.components@.take(i as int));
                assert(cs.last() == netlist.components@[i as int]);
            }
            let line = BomLine::from_component(&netlist.components[i]);
            let key = line.grouping_key();
            let mut j: usize = 0;
            let mut found = false;
            while j < keys.len()
                invariant
                    j <= keys.len(),
                    keys@.len() == groups@.len(),
                    forall|t: int| 0 <= t < keys@.len() ==> (#[trigger] keys@[t])@ == key_text(groups@[t]@),
                    !found ==> forall|t: int| 0 <= t < j ==> key_text(groups@[t]@) != key@,
                    found ==> j < keys.len() && key_text(groups@[j as int]@) == key@,
                ensures
                    found ==> j < keys.len() && key_text(groups@[j as int]@) == key@,
                    !found ==> forall|t: int| 0 <= t < keys@.len() ==> key_text(groups@[t]@) != key@,
                decreases keys.len() - j,
            {
                if str_eq(keys[j].as_str(), key.as_str()) {
                    found = true;
                    break;
                }
                j = j + 1;
            }
            let ghost g = lines_view(groups@);
            if found {
                proof {
                    assert(0 <= j < g.len() && key_text(g[j as int]) == key_text(line@));
                    let c = choose|c: int| 0 <= c < g.len() && key_text(g[c]) == key_text(line@);
                    assert(c == j) by {
                        if c < j {
                            assert(key_text(groups@[c]@) != key_text(groups@[j as int]@));
                        } else if c > j {
                            assert(key_text(groups@[j as int]@) != key_text(groups@[c]@));
                        }
                    }
                    assert(groups@[j as int].quantity <= i);
                }
                let mut merged_line = copy_line(&groups[j]);
                merged_line.merge(&line);
                let ghost m = merged_line@;
                groups.set(j, merged_line);
                proof {
                    assert(lines_view(groups@) =~= g.update(j as int, m));
                    assert(key_text(m) == key_text(g[j as int]));
                }
            } else {
                groups.push(line);
                keys.push(key);
                proof {
                    assert(lines_view(groups@) =~= g.push(line@));
                    assert forall|t: int| 0 <= t < g.len() implies key_text(#[trigger] g[t]) != key_text(line@) by {
                        assert(g[t] == groups@[t]@);
                    }
                    assert forall|a: int, b: int| 0 <= a < b < groups@.len() implies
                        key_text(#[trigger] groups@[a]@) != key_text(#[trigger] groups@[b]@) by {
                        if b == groups@.len() - 1 {
                            assert(g[a] == groups@[a]@);
                        }
                    }
                }
            }
            i = i + 1;
        }
        assert(netlist.components@.take(netlist.components.len() as int) =~= netlist.components@);
        groups
    }

    #[verifier::spinoff_prover]
    #[verifier::rlimit(40)]
    fn sort_designators(d: &str) -> (r: String)
        ensures
            designators_sorted(d@, r@),
    {
        proof { reveal_strlit(", "); }
        let pieces = split_str(d, ", ");
        let mut keyed: Vec<(PairKey<TextKey, NumberKey>, String)> = Vec::new();
        let mut i: usize = 0;
        while i < pieces.len()
            invariant
                i <= pieces.len(),
                keyed@.len() == i,
                forall|t: int| 0 <= t < i ==> {
                    &&& (#[trigger] keyed@[t]).1 == pieces@[t]
                    &&& keyed@[t].0.0.0@ == designator_parts(pieces@[t]@).0
                    &&& keyed@[t].0.1.0 as nat == designator_parts(pieces@[t]@).1
                },
            decreases pieces.len() - i,
        {
            let k = designator_key(pieces[i].as_str());
            keyed.push((k, pieces[i].clone()));
            i = i + 1;
        }
        let ghost before_sort = keyed@;
        sort_by_key(&mut keyed);
        let ghost after_sort = keyed@;
        let mut sorted: Vec<String> = Vec::new();
        let mut i: usize = 0;
        while i < keyed.len()
            invariant
                i <= keyed.len(),
                keyed@ == after_sort,
                sorted@.len() == i,
                forall|t: int| 0 <= t < i ==> #[trigger] sorted@[t] == after_sort[t].1,
            decreases keyed.len() - i,
        {
            sorted.push(keyed[i].1.clone());
            i = i + 1;
        }
        let r = join_strings(&sorted, ", ");
        proof {
            let ps = strings_view(sorted@);
            assert(ps =~= after_sort.map_values(|e: (PairKey<TextKey, NumberKey>, String)| e.1@));
            assert(strings_view(pieces@) =~= before_sort.map_values(|e: (PairKey<TextKey, NumberKey>, String)| e.1@));
            lemma_sorted_pieces(before_sort, after_sort);
            assert(r@ == join_seqs(ps, ", "@));
            assert(ps.to_multiset() == split_on(d@, ", "@).to_multiset());
            assert forall|i: int| 0 <= i < ps.len() - 1 implies
                designator_order(#[trigger] ps[i], ps[i + 1]) != Comparison::Greater by {
                assert(ps[i] == after_sort[i].1@ && ps[i + 1] == after_sort[i + 1].1@);
            }
        }
        r
    }

    /// Adds a line.
    pub fn add_line(&mut self, line: BomLine)
        ensures
            final(self).lines@ == old(self).lines@.push(line),
            final(self).title == old(self).title,
            final(self).date == old(self).date,
    {
        self.lines.push(line);
    }

    /// The total number of components: the sum of the quantities.
    pub fn total_components(&self) -> (n: u32)
        requires
            total_quantity(self.lines@) <= u32::MAX,
        ensures
            n == total_quantity(self.lines@),
    {
        let mut n: u32 = 0;
        let mut i: usize = 0;
        while i < self.lines.len()
            invariant
                i <= self.lines.len(),
                total_quantity(self.lines@) <= u32::MAX,
                n == total_quantity(self.lines@.take(i as int)),
            decreases self.lines.len() - i,
        {
            proof {
                let t = self.lines@.take(i + 1);
                assert(t.drop_last() =~= self.lines@.take(i as int));
                lemma_total_prefix(self.lines@, i + 1);
            }
            n = n + self.lines[i].quantity;
            i = i + 1;
        }
        assert(self.lines@.take(self.lines.len() as int) =~= self.lines@);
        n
    }

    /// The number of lines.
    pub fn unique_count(&self) -> (n: usize)
        ensures
            n == self.lines@.len(),
    {
        self.lines.len()
    }
}

/// The lines of keyed pairs.
spec fn keyed_lines(s: Seq<(PairKey<TextKey, NumberKey>, BomLine)>) -> Seq<LineView> {
    s.map_values(|e: (PairKey<TextKey, NumberKey>, BomLine)| e.1@)
}

/// The key of a pair is the designator key of its line.
spec fn line_key_ok(e: (PairKey<TextKey, NumberKey>, BomLine)) -> bool {
    e.0.0.0@ == designator_parts(e.1.designator@).0 && e.0.1.0 as nat == designator_parts(e.1.designator@).1
}

/// The key of a pair is the designator key of its text.
spec fn piece_key_ok(e: (PairKey<TextKey, NumberKey>, String)) -> bool {
    e.0.0.0@ == designator_parts(e.1@).0 && e.0.1.0 as nat == designator_parts(e.1@).1
}

proof fn lemma_sorted_lines(before: Seq<(PairKey<TextKey, NumberKey>, BomLine)>, after: Seq<(PairKey<TextKey, NumberKey>, BomLine)>)
    requires
        before.to_multiset() == after.to_multiset(),
        crate::sort::sorted_by_key(after),
        forall|t: int| 0 <= t < before.len() ==> line_key_ok(#[trigger] before[t]),
    ensures
        keyed_lines(before).to_multiset() == keyed_lines(after).to_multiset(),
        forall|i: int| 0 <= i < after.len() - 1 ==>
            designator_order((#[trigger] keyed_lines(after)[i]).designator, keyed_lines(after)[i + 1].designator)
                != Comparison::Greater,
{
    let f = |e: (PairKey<TextKey, NumberKey>, BomLine)| e.1@;
    lemma_map_multiset(before, after, f);
    assert(keyed_lines(before) =~= before.map_values(f));
    assert(keyed_lines(after) =~= after.map_values(f));
    let p = |e: (PairKey<TextKey, NumberKey>, BomLine)| line_key_ok(e);
    assert forall|t: int| 0 <= t < before.len() implies p(#[trigger] before[t]) by {}
    lemma_multiset_property(before, after, p);
    assert forall|i: int| 0 <= i < after.len() - 1 implies
        designator_order((#[trigger] keyed_lines(after)[i]).designator, keyed_lines(after)[i + 1].designator)
            != Comparison::Greater by {
        assert(p(after[i]));
        assert(p(after[i + 1]));
        assert(<PairKey<TextKey, NumberKey> as SortKey>::order(after[i].0, after[i + 1].0) != Comparison::Greater);
    }
}

proof fn lemma_sorted_pieces(before: Seq<(PairKey<TextKey, NumberKey>, String)>, after: Seq<(PairKey<TextKey, NumberKey>, String)>)
    requires
        before.to_multiset() == after.to_multiset(),
        crate::sort::sorted_by_key(after),
        forall|t: int| 0 <= t < before.len() ==> piece_key_ok(#[trigger] before[t]),
    ensures
        before.map_values(|e: (PairKey<TextKey, NumberKey>, String)| e.1@).to_multiset()
            == after.map_values(|e: (PairKey<TextKey, NumberKey>, String)| e.1@).to_multiset(),
        forall|i: int| 0 <= i < after.len() - 1 ==>
            designator_order((#[trigger] after[i]).1@, after[i + 1].1@) != Comparison::Greater,
{
    let f = |e: (PairKey<TextKey, NumberKey>, String)| e.1@;
    lemma_map_multiset(before, after, f);
    let p = |e: (PairKey<TextKey, NumberKey>, String)| piece_key_ok(e);
    assert forall|t: int| 0 <= t < before.len() implies p(#[trigger] before[t]) by {}
    lemma_multiset_property(before, after, p);
    assert forall|i: int| 0 <= i < after.len() - 1 implies
        designator_order((#[trigger] after[i]).1@, after[i + 1].1@) != Comparison::Greater by {
        assert(p(after[i]));
        assert(p(after[i + 1]));
        assert(<PairKey<TextKey, NumberKey> as SortKey>::order(after[i].0, after[i + 1].0) != Comparison::Greater);
    }
}

proof fn lemma_total_prefix(ls: Seq<BomLine>, k: int)
    requires
        0 <= k <= ls.len(),
    ensures
        total_quantity(ls.take(k)) <= total_quantity(ls),
    decreases ls.len() - k,
{
    if k < ls.len() {
        lemma_total_prefix(ls, k + 1);
        assert(ls.take(k + 1).drop_last() =~= ls.take(k));
    } else {
        assert(ls.take(k) =~= ls);
    }
}


/// Whether a CSV field must be quoted: it holds a comma, a double quote, a
/// newline or a carriage return.
pub open spec fn needs_quotes(s: Seq<char>) -> bool {
    exists|i: int| 0 <= i < s.len() && (s[i] == ',' || s[i] == '"' || s[i] == '\n' || s[i] == '\r')
}

/// `s` with each double quote doubled.
pub open spec fn doubled_quotes(s: Seq<char>) -> Seq<char>
    decreases s.len(),
{
    if s.len() == 0 {
        Seq::empty()
    } else {
        doubled_quotes(s.drop_last()) + if s.last() == '"' { seq!['"', '"'] } else { seq![s.last()] }
    }
}

/// A CSV field: quoted, with inner quotes doubled, when it needs quotes;
/// as it is otherwise.
pub open spec fn csv_field(s: Seq<char>) -> Seq<char> {
    if needs_quotes(s) {
        seq!['"'] + doubled_quotes(s) + seq!['"']
    } else {
        s
    }
}

/// Escapes a string for a CSV field.
pub fn escape_csv(s: &str) -> (r: String)
    ensures
        r@ == csv_field(s@),
{
    let v = chars_of(s);
    let mut quote = false;
    let mut i: usize = 0;
    while i < v.len()
        invariant
            i <= v.len(),
            quote == exists|j: int| 0 <= j < i && (v@[j] == ',' || v@[j] == '"' || v@[j] == '\n' || v@[j] == '\r'),
        decreases v.len() - i,
    {
        let c = v[i];
        if c == ',' || c == '"' || c == '\n' || c == '\r' {
            quote = true;
        }
        i = i + 1;
    }
    if !quote {
        return s.to_owned();
    }
    let mut r = String::new();
    push_char(&mut r, '"');
    let mut i: usize = 0;
    while i < v.len()
        invariant
            i <= v.len(),
            r@ == seq!['"'] + doubled_quotes(v@.take(i as int)),
        decreases v.len() - i,
    {
        let c = v[i];
        if c == '"' {
            push_char(&mut r, '"');
            push_char(&mut r, '"');
        } else {
            push_char(&mut r, c);
        }
        proof {
            let t = v@.take(i + 1);
            assert(t.drop_last() =~= v@.take(i as int));
            assert(t.last() == c);
            assert(r@ =~= seq!['"'] + doubled_quotes(t));
        }
        i = i + 1;
    }
    push_char(&mut r, '"');
    assert(v@.take(v.len() as int) =~= v@);
    r
}

/// A BOM output format.
#[derive(Debug, Clone, Copy, PartialEq, Eq, Structural)]
pub enum BomFormat {
    /// JLCPCB: Comment, Designator, Footprint, LCSC Part #.
    Jlcpcb,
    /// Generic CSV with all fields.
    GenericCsv,
}

/// A JLCPCB row of a line.
pub open spec fn jlcpcb_row(l: LineView) -> Seq<char> {
    csv_field(l.value) + ","@ + csv_field(l.designator) + ","@ + csv_field(l.footprint) + ","@
        + csv_field(l.lcsc_part_number) + "\n"@
}

/// A generic CSV row of a line.
pub open spec fn generic_row(l: LineView) -> Seq<char> {
    csv_field(l.designator) + ","@ + csv_field(l.value) + ","@ + csv_field(l.footprint) + ","@
        + dec_digits(l.quantity) + ","@ + csv_field(l.part_number) + ","@ + csv_field(l.manufacturer)
        + ","@ + csv_field(l.lcsc_part_number) + "\n"@
}

/// The rows of all lines in a format.
pub open spec fn rows(ls: Seq<BomLine>, format: BomFormat) -> Seq<char>
    decreases ls.len(),
{
    if ls.len() == 0 {
        Seq::empty()
    } else {
        rows(ls.drop_last(), format) + match format {
            BomFormat::Jlcpcb => jlcpcb_row(ls.last()@),
            BomFormat::GenericCsv => generic_row(ls.last()@),
        }
    }
}

/// The header line of a format.
pub open spec fn header(format: BomFormat) -> Seq<char> {
    match format {
        BomFormat::Jlcpcb => "Comment,Designator,Footprint,LCSC Part #\n"@,
        BomFormat::GenericCsv => "Reference,Value,Footprint,Quantity,Part Number,Manufacturer,LCSC\n"@,
    }
}

/// The whole CSV text of a BOM in a format.
pub open spec fn bom_text(b: Bom, format: BomFormat) -> Seq<char> {
    header(format) + rows(b.lines@, format)
}

/// Writes a BOM in one of the CSV formats.
pub struct BomExporter<'a> {
    bom: &'a Bom,
}

impl<'a> BomExporter<'a> {
    /// An exporter for `bom`.
    pub fn new(bom: &'a Bom) -> (e: Self)
        ensures
            e.bom() == *bom,
    {
        BomExporter { bom }
    }

    /// The BOM this exporter writes.
    pub closed spec fn bom(&self) -> Bom {
        *self.bom
    }

    /// Appends the BOM in `format` to `out`.
    pub fn export(&self, out: &mut String, format: BomFormat) -> (r: Result<(), ExportError>)
        ensures
            r is Ok,
            final(out)@ == old(out)@ + bom_text(self.bom(), format),
    {
        match format {
            BomFormat::Jlcpcb => self.export_jlcpcb(out),
            BomFormat::GenericCsv => self.export_generic_csv(out),
        }
        Ok(())
    }

    /// The BOM in `format` as a string.
    pub fn export_to_string(&self, format: BomFormat) -> (r: Result<String, ExportError>)
        ensures
            r matches Ok(s) && s@ == bom_text(self.bom(), format),
    {
        let mut s = String::new();
        let _ = self.export(&mut s, format);
        Ok(s)
    }

    fn push_field(out: &mut String, s: &String)
        ensures
            final(out)@ == old(out)@ + csv_field(s@),
    {
        push_str(out, escape_csv(s.as_str()).as_str());
    }

    fn export_jlcpcb(&self, out: &mut String)
        ensures
            final(out)@ == old(out)@ + bom_text(self.bom(), BomFormat::Jlcpcb),
    {
        push_str(out, "Comment,Designator,Footprint,LCSC Part #\n");
        let ghost start = out@;
        let ls = &self.bom.lines;
        let mut i: usize = 0;
        while i < ls.len()
            invariant
                i <= ls.len(),
                ls@ == self.bom().lines@,
                out@ == start + rows(ls@.take(i as int), BomFormat::Jlcpcb),
            decreases ls.len() - i,
        {
            let l = &ls[i];
            Self::push_field(out, &l.value);
            push_str(out, ",");
            Self::push_field(out, &l.designator);
            push_str(out, ",");
            Self::push_field(out, &l.footprint);
            push_str(out, ",");
            Self::push_field(out, &l.lcsc_part_number);
            push_str(out, "\n");
            proof {
                let t = ls@.take(i + 1);
                assert(t.drop_last() =~= ls@.take(i as int));
                assert(t.last() == ls@[i as int]);
                assert(out@ =~= start + rows(t, BomFormat::Jlcpcb));
            }
            i = i + 1;
        }
        assert(ls@.take(ls.len() as int) =~= ls@);
        assert(out@ =~= old(out)@ + bom_text(self.bom(), BomFormat::Jlcpcb));
    }

    fn generic_row_text(l: &BomLine) -> (r: String)
        ensures
            r@ == generic_row(l@),
    {
        let mut out = String::new();
        Self::push_field(&mut out, &l.designator);
        push_str(&mut out, ",");
        Self::push_field(&mut out, &l.value);
        push_str(&mut out, ",");
        Self::push_field(&mut out, &l.footprint);
        push_str(&mut out, ",");
        push_decimal(&mut out, l.quantity as u64);
        push_str(&mut out, ",");
        Self::push_field(&mut out, &l.part_number);
        push_str(&mut out, ",");
        Self::push_field(&mut out, &l.manufacturer);
        push_str(&mut out, ",");
        Self::push_field(&mut out, &l.lcsc_part_number);
        push_str(&mut out, "\n");
        assert(out@ =~= generic_row(l@));
        out
    }

    fn export_generic_csv(&self, out: &mut String)
        ensures
            final(out)@ == old(out)@ + bom_text(self.bom(), BomFormat::GenericCsv),
    {
        push_str(out, "Reference,Value,Footprint,Quantity,Part Number,Manufacturer,LCSC\n");
        let ghost start = out@;
        let ls = &self.bom.lines;
        let mut i: usize = 0;
        while i < ls.len()
            invariant
                i <= ls.len(),
                ls@ == self.bom().lines@,
                out@ == start + rows(ls@.take(i as int), BomFormat::GenericCsv),
            decreases ls.len() - i,
        {
            let row = Self::generic_row_text(&ls[i]);
            push_str(out, row.as_str());
            proof {
                let t = ls@.take(i + 1);
                assert(t.drop_last() =~= ls@.take(i as int));
                assert(t.last() == ls@[i as int]);
                assert(out@ =~= start + rows(t, BomFormat::GenericCsv));
            }
            i = i + 1;
        }
        assert(ls@.take(ls.len() as int) =~= ls@);
        assert(out@ =~= old(out)@ + bom_text(self.bom(), BomFormat::GenericCsv));
    }
}


/// The total quantity of a list of line views.
pub open spec fn view_total(ls: Seq<LineView>) -> nat
    decreases ls.len(),
{
    if ls.len() == 0 {
        0
    } else {
        view_total(ls.drop_last()) + ls.last().quantity
    }
}

/// The total quantity of lines is that of their views.
proof fn lemma_total_views(ls: Seq<BomLine>)
    ensures
        total_quantity(ls) == view_total(lines_view(ls)),
    decreases ls.len(),
{
    if ls.len() > 0 {
        assert(lines_view(ls).drop_last() =~= lines_view(ls.drop_last()));
        lemma_total_views(ls.drop_last());
    }
}

/// Replacing one line changes the total by the difference of quantities.
proof fn lemma_view_total_update(s: Seq<LineView>, i: int, x: LineView)
    requires
        0 <= i < s.len(),
    ensures
        view_total(s.update(i, x)) + s[i].quantity == view_total(s) + x.quantity,
    decreases s.len(),
{
    if i == s.len() - 1 {
        assert(s.update(i, x).drop_last() =~= s.drop_last());
    } else {
        assert(s.update(i, x).drop_last() =~= s.drop_last().update(i, x));
        lemma_view_total_update(s.drop_last(), i, x);
    }
}

/// Taking one line out lowers the total by its quantity.
proof fn lemma_view_total_remove(s: Seq<LineView>, i: int)
    requires
        0 <= i < s.len(),
    ensures
        view_total(s) == view_total(s.remove(i)) + s[i].quantity,
    decreases s.len(),
{
    if i < s.len() - 1 {
        assert(s.remove(i).drop_last() =~= s.drop_last().remove(i));
        assert(s.remove(i).last() == s.last());
        lemma_view_total_remove(s.drop_last(), i);
    } else {
        assert(s.remove(i) =~= s.drop_last());
    }
}

/// Two arrangements of the same lines have the same total.
proof fn lemma_view_total_multiset(a: Seq<LineView>, b: Seq<LineView>)
    requires
        a.to_multiset() == b.to_multiset(),
    ensures
        view_total(a) == view_total(b),
    decreases a.len(),
{
    broadcast use vstd::seq_lib::group_to_multiset_ensures;
    assert(a.len() == a.to_multiset().len());
    assert(b.len() == b.to_multiset().len());
    if a.len() > 0 {
        let x = a.last();
        assert(a.contains(x)) by {
            assert(a[a.len() - 1] == x);
        }
        assert(b.to_multiset().count(x) > 0);
        assert(b.contains(x));
        let j = choose|j: int| 0 <= j < b.len() && b[j] == x;
        assert(a.drop_last().to_multiset() =~= a.to_multiset().remove(x)) by {
            assert(a =~= a.drop_last().push(x));
        }
        assert(b.remove(j).to_multiset() =~= b.to_multiset().remove(x));
        lemma_view_total_multiset(a.drop_last(), b.remove(j));
        lemma_view_total_remove(b, j);
    }
}

/// Grouping components into lines keeps their number as the total quantity.
proof fn lemma_group_total(cs: Seq<NetlistComponent>)
    ensures
        view_total(group_lines(cs)) == cs.len(),
    decreases cs.len(),
{
    if cs.len() > 0 {
        lemma_group_total(cs.drop_last());
        let g = group_lines(cs.drop_last());
        let l = component_line(cs.last());
        if exists|i: int| 0 <= i < g.len() && key_text(g[i]) == key_text(l) {
            let i = choose|i: int| 0 <= i < g.len() && key_text(g[i]) == key_text(l);
            lemma_view_total_update(g, i, merged(g[i], l));
        } else {
            assert(g.push(l).drop_last() =~= g);
        }
    }
}

/// The plain bill of materials of a list of components totals one for each
/// component.
pub proof fn lemma_plain_total(lines: Seq<BomLine>, cs: Seq<NetlistComponent>)
    requires
        lines.len() == cs.len(),
        forall|i: int| 0 <= i < lines.len() ==> (#[trigger] lines[i])@ == component_line(cs[i]),
    ensures
        total_quantity(lines) == cs.len(),
    decreases lines.len(),
{
    if lines.len() > 0 {
        lemma_plain_total(lines.drop_last(), cs.drop_last());
        assert(lines.last()@ == component_line(cs.last()));
    }
}

/// The grouped bill of materials of a list of components totals the number of
/// components too: grouping neither loses nor repeats a component.
pub proof fn lemma_grouped_total(pre: Seq<LineView>, lines: Seq<BomLine>, cs: Seq<NetlistComponent>)
    requires
        is_grouped_bom(pre, lines, cs),
    ensures
        total_quantity(lines) == cs.len(),
{
    lemma_group_total(cs);
    lemma_view_total_multiset(pre, group_lines(cs));
    lemma_total_views(lines);
    assert(lines_view(lines) =~= Seq::new(pre.len(), |i: int| LineView { designator: lines[i]@.designator, ..pre[i] }));
    lemma_same_total(pre, lines_view(lines));
}

/// Lines that differ only in their designators have the same total.
proof fn lemma_same_total(a: Seq<LineView>, b: Seq<LineView>)
    requires
        a.len() == b.len(),
        forall|i: int| 0 <= i < a.len() ==> (#[trigger] a[i]).quantity == b[i].quantity,
    ensures
        view_total(a) == view_total(b),
    decreases a.len(),
{
    if a.len() > 0 {
        lemma_same_total(a.drop_last(), b.drop_last());
    }
}

} // verus!
