//! Identifiers of the elements of a design, and qualified names.
//!
//! The identifiers are small copyable handles: the index of the element in
//! the design's table.

use vstd::prelude::*;
use crate::text::{dec_digits, push_decimal, push_str, push_chars, chars_of};

verus! {

/// `label(n)`, as the identifiers display themselves.
pub open spec fn id_text(label: Seq<char>, n: nat) -> Seq<char> {
    label + seq!['('] + dec_digits(n) + seq![')']
}

fn labelled(label: &str, n: u32) -> (s: String)
    ensures
        s@ == id_text(label@, n as nat),
{
    let mut s = String::new();
    push_str(&mut s, label);
    let open = chars_of("(");
    let close = chars_of(")");
    proof {
        reveal_strlit("(");
        reveal_strlit(")");
    }
    push_chars(&mut s, &open, 0, 1);
    push_decimal(&mut s, n as u64);
    push_chars(&mut s, &close, 0, 1);
    assert(open@.subrange(0, 1) =~= seq!['(']);
    assert(close@.subrange(0, 1) =~= seq![')']);
    s
}

/// A unique identifier for a module within a design.
#[derive(Debug, Clone, Copy, PartialEq, Eq, Hash, Structural)]
pub struct ModuleId(pub u32);

impl ModuleId {
    /// The identifier with the given index.
    pub fn new(index: u32) -> (id: Self)
        ensures
            id.0 == index,
    {
        ModuleId(index)
    }

    /// The raw index value.
    pub fn index(self) -> (i: u32)
        ensures
            i == self.0,
    {
        self.0
    }

    /// The display form, `Module(<index>)`.
    pub fn to_string(&self) -> (s: String)
        ensures
            s@ == id_text("Module"@, self.0 as nat),
    {
        proof { reveal_strlit("Module"); }
        labelled("Module", self.0)
    }
}

/// A unique identifier for a field within a design.
#[derive(Debug, Clone, Copy, PartialEq, Eq, Hash, Structural)]
pub struct FieldId(pub u32);

impl FieldId {
    /// The identifier with the given index.
    pub fn new(index: u32) -> (id: Self)
        ensures
            id.0 == index,
    {
        FieldId(index)
    }

    /// The raw index value.
    pub fn index(self) -> (i: u32)
        ensures
            i == self.0,
    {
        self.0
    }

    /// The display form, `Field(<index>)`.
    pub fn to_string(&self) -> (s: String)
        ensures
            s@ == id_text("Field"@, self.0 as nat),
    {
        labelled("Field", self.0)
    }
}

/// A unique identifier for a connection within a design.
#[derive(Debug, Clone, Copy, PartialEq, Eq, Hash, Structural)]
pub struct ConnectionId(pub u32);

impl ConnectionId {
    /// The identifier with the given index.
    pub fn new(index: u32) -> (id: Self)
        ensures
            id.0 == index,
    {
        ConnectionId(index)
    }

    /// The raw index value.
    pub fn index(self) -> (i: u32)
        ensures
            i == self.0,
    {
        self.0
    }

    /// The display form, `Connection(<index>)`.
    pub fn to_string(&self) -> (s: String)
        ensures
            s@ == id_text("Connection"@, self.0 as nat),
    {
        labelled("Connection", self.0)
    }
}

/// A unique identifier for a constraint within a design.
#[derive(Debug, Clone, Copy, PartialEq, Eq, Hash, Structural)]
pub struct ConstraintId(pub u32);

impl ConstraintId {
    /// The identifier with the given index.
    pub fn new(index: u32) -> (id: Self)
        ensures
            id.0 == index,
    {
        ConstraintId(index)
    }

    /// The raw index value.
    pub fn index(self) -> (i: u32)
        ensures
            i == self.0,
    {
        self.0
    }

    /// The display form, `Constraint(<index>)`.
    pub fn to_string(&self) -> (s: String)
        ensures
            s@ == id_text("Constraint"@, self.0 as nat),
    {
        labelled("Constraint", self.0)
    }
}

/// The parts of `parts` joined with `sep` between consecutive parts.
pub open spec fn join_seqs(parts: Seq<Seq<char>>, sep: Seq<char>) -> Seq<char>
    decreases parts.len(),
{
    if parts.len() == 0 {
        Seq::empty()
    } else if parts.len() == 1 {
        parts[0]
    } else {
        join_seqs(parts.drop_last(), sep) + sep + parts.last()
    }
}

/// The character sequences of a list of strings.
pub open spec fn strings_view(v: Seq<String>) -> Seq<Seq<char>> {
    v.map_values(|s: String| s@)
}

/// `parts` joined with `sep`.
pub fn join_strings(parts: &Vec<String>, sep: &str) -> (s: String)
    ensures
        s@ == join_seqs(strings_view(parts@), sep@),
{
    let mut s = String::new();
    let mut i: usize = 0;
    while i < parts.len()
        invariant
            i <= parts.len(),
            s@ == join_seqs(strings_view(parts@.take(i as int)), sep@),
        decreases parts.len() - i,
    {
        let ghost before = strings_view(parts@.take(i as int));
        if i > 0 {
            push_str(&mut s, sep);
        }
        push_str(&mut s, parts[i].as_str());
        proof {
            let after = strings_view(parts@.take(i + 1));
            assert(after.drop_last() =~= before);
            assert(after.last() == parts@[i as int]@);
            assert(after.len() == i + 1);
        }
        i = i + 1;
    }
    assert(parts@.take(parts.len() as int) =~= parts@);
    s
}

/// A qualified name path, used for import resolution.
#[derive(Debug, Clone, PartialEq, Eq, Hash)]
pub struct QualifiedName {
    /// The path components (e.g., `["path", "to", "Module"]`).
    pub parts: Vec<String>,
}

impl View for QualifiedName {
    type V = Seq<Seq<char>>;

    open spec fn view(&self) -> Seq<Seq<char>> {
        strings_view(self.parts@)
    }
}

/// The simple name of a qualified name: its last part, or empty.
pub open spec fn last_part(parts: Seq<Seq<char>>) -> Seq<char> {
    if parts.len() == 0 {
        Seq::empty()
    } else {
        parts.last()
    }
}

impl QualifiedName {
    /// A qualified name from its parts.
    pub fn new(parts: Vec<String>) -> (q: Self)
        ensures
            q.parts@ == parts@,
    {
        QualifiedName { parts }
    }

    /// A qualified name with the single part `name`.
    pub fn simple(name: &str) -> (q: Self)
        ensures
            q@ == seq![name@],
    {
        let mut parts: Vec<String> = Vec::new();
        parts.push(name.to_owned());
        let q = QualifiedName { parts };
        assert(q@ =~= seq![name@]);
        q
    }

    /// The simple name (the last component), or `""` when there is none.
    pub fn name(&self) -> (n: &str)
        ensures
            n@ == last_part(self@),
    {
        if self.parts.len() == 0 {
            proof { reveal_strlit(""); }
            ""
        } else {
            self.parts[self.parts.len() - 1].as_str()
        }
    }

    /// Whether this is a simple (one-part) name.
    pub fn is_simple(&self) -> (b: bool)
        ensures
            b == (self@.len() == 1),
    {
        self.parts.len() == 1
    }

    /// The parts joined with `sep`.
    pub fn join(&self, sep: &str) -> (s: String)
        ensures
            s@ == join_seqs(self@, sep@),
    {
        join_strings(&self.parts, sep)
    }

    /// The display form: the parts joined with dots.
    pub fn to_string(&self) -> (s: String)
        ensures
            s@ == join_seqs(self@, "."@),
    {
        self.join(".")
    }

    /// A copy of this name.
    pub fn duplicate(&self) -> (q: Self)
        ensures
            q.parts@ == self.parts@,
            q@ == self@,
    {
        let mut parts: Vec<String> = Vec::new();
        let mut i: usize = 0;
        while i < self.parts.len()
            invariant
                i <= self.parts.len(),
                parts@ == self.parts@.take(i as int),
            decreases self.parts.len() - i,
        {
            let c = self.parts[i].clone();
            parts.push(c);
            assert(parts@ =~= self.parts@.take(i + 1));
            i = i + 1;
        }
        assert(self.parts@.take(self.parts.len() as int) =~= self.parts@);
        QualifiedName { parts }
    }
}

} // verus!
