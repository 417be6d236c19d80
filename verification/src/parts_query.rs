//! The keywords of a parts search query: which kind of part and which package
//! it names.

use vstd::prelude::*;
use crate::text::{contains_seq, contains_str};
use crate::unit::{lowercase_of, to_lowercase};

verus! {

/// The kind of part a search query names.
#[derive(Debug, Clone, Copy, PartialEq, Eq, Structural)]
pub enum QueryPartType {
    Resistor,
    Capacitor,
    Inductor,
}

/// The kind of part that lower-case query text names: `resistor` first, then
/// `capacitor` or `cap`, then `inductor`.
pub open spec fn query_type_of(lower: Seq<char>) -> Option<QueryPartType> {
    if contains_seq(lower, "resistor"@) {
        Some(QueryPartType::Resistor)
    } else if contains_seq(lower, "capacitor"@) || contains_seq(lower, "cap"@) {
        Some(QueryPartType::Capacitor)
    } else if contains_seq(lower, "inductor"@) {
        Some(QueryPartType::Inductor)
    } else {
        None
    }
}

/// The packages a query can name, in the order they are looked for.
pub open spec fn query_packages() -> Seq<Seq<char>> {
    seq!["0201"@, "0402"@, "0603"@, "0805"@, "1206"@, "1210"@, "sot-23"@, "soic-8"@]
}

/// The first package, from `k` on, that lower-case query text names.
pub open spec fn query_package_from(lower: Seq<char>, k: int) -> Option<Seq<char>>
    decreases query_packages().len() - k,
{
    if k < 0 || k >= query_packages().len() {
        None
    } else if contains_seq(lower, query_packages()[k]) {
        Some(query_packages()[k])
    } else {
        query_package_from(lower, k + 1)
    }
}

/// The kind of part that lower-case query text names.
pub fn query_type(lower: &str) -> (r: Option<QueryPartType>)
    ensures
        r == query_type_of(lower@),
{
    if contains_str(lower, "resistor") {
        Some(QueryPartType::Resistor)
    } else if contains_str(lower, "capacitor") || contains_str(lower, "cap") {
        Some(QueryPartType::Capacitor)
    } else if contains_str(lower, "inductor") {
        Some(QueryPartType::Inductor)
    } else {
        None
    }
}

/// The first package that lower-case query text names.
pub fn query_package(lower: &str) -> (r: Option<&'static str>)
    ensures
        match query_package_from(lower@, 0) {
            Some(p) => r matches Some(x) && x@ == p,
            None => r is None,
        },
{
    let packages: [&'static str; 8] = ["0201", "0402", "0603", "0805", "1206", "1210", "sot-23", "soic-8"];
    proof {
        assert(packages@.map_values(|p: &'static str| p@) =~= query_packages());
    }
    let mut k: usize = 0;
    while k < 8
        invariant
            k <= 8,
            packages@.map_values(|p: &'static str| p@) == query_packages(),
            query_package_from(lower@, 0) == query_package_from(lower@, k as int),
        decreases 8 - k,
    {
        let p = packages[k];
        proof {
            assert(p@ == query_packages()[k as int]);
        }
        if contains_str(lower, p) {
            return Some(p);
        }
        k = k + 1;
    }
    None
}

/// The kind of part and the package that a search query names, in any case.
pub fn query_hints(query: &str) -> (r: (Option<QueryPartType>, Option<&'static str>))
    ensures
        r.0 == query_type_of(lowercase_of(query@)),
        match query_package_from(lowercase_of(query@), 0) {
            Some(p) => r.1 matches Some(x) && x@ == p,
            None => r.1 is None,
        },
{
    let lower = to_lowercase(query);
    (query_type(lower.as_str()), query_package(lower.as_str()))
}

} // verus!
