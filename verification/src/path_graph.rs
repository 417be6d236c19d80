//! Facts about the graph of connected paths: its edges come in both directions,
//! so being connected is an equivalence, and a net of one path of a group is the
//! net of every path of it.

use vstd::prelude::*;
use crate::design::DesignView;
use crate::connection::{Connection, ConnectionKind};
use crate::ids::ModuleId;
use crate::natord::Comparison;
use crate::netlist::NetView;
use crate::sort::{lex_order, lemma_same_items};
use crate::netlist_builder::{
    chain_edges, conn_edges, conns_edges, connected, endpoint_paths, equiv_edges, iface_fields,
    instance_prefixes, is_endpoint, is_least_connected, is_net_of, is_path_walk, linked, path_edges,
    prefix_edges, resolve_path, sub_edges, effective_prefixes,
};

verus! {

/// Every edge of the list is there in the other direction too.
pub open spec fn symmetric(es: Seq<(Seq<char>, Seq<char>)>) -> bool {
    forall|k: int| 0 <= k < es.len() ==> linked(es, (#[trigger] es[k]).1, es[k].0)
}

/// Joining two lists whose edges come in both directions keeps them so.
pub proof fn lemma_sym_concat(a: Seq<(Seq<char>, Seq<char>)>, b: Seq<(Seq<char>, Seq<char>)>)
    requires
        symmetric(a),
        symmetric(b),
    ensures
        symmetric(a + b),
{
    let c = a + b;
    assert forall|k: int| 0 <= k < c.len() implies linked(c, (#[trigger] c[k]).1, c[k].0) by {
        if k < a.len() {
            assert(c[k] == a[k]);
            assert(linked(a, a[k].1, a[k].0));
            let j = choose|j: int| 0 <= j < a.len() && a[j] == (a[k].1, a[k].0);
            assert(c[j] == a[j]);
        } else {
            let i = k - a.len();
            assert(c[k] == b[i]);
            assert(linked(b, b[i].1, b[i].0));
            let j = choose|j: int| 0 <= j < b.len() && b[j] == (b[i].1, b[i].0);
            assert(c[a.len() + j] == b[j]);
        }
    }
}

/// The edges that make two paths equivalent come in both directions.
pub proof fn lemma_equiv_sym(d: DesignView, entry: Option<ModuleId>, a: Seq<char>, b: Seq<char>, depth: nat)
    ensures
        symmetric(equiv_edges(d, entry, a, b, depth)),
    decreases 21 - depth, 1int, 0int,
{
    if depth > 20 || a == b {
    } else {
        let sub = match iface_fields(d, entry, a) {
            Some(fs) => Some(fs),
            None => iface_fields(d, entry, b),
        };
        match sub {
            Some(fs) => {
                lemma_sub_sym(d, entry, a, b, fs, 0, depth);
            },
            None => {
                let es = seq![(a, b), (b, a)];
                assert(es[1] == (b, a));
                assert(es[0] == (a, b));
                assert(symmetric(es));
            },
        }
    }
}

/// The edges for the sub-fields of two paths come in both directions.
pub proof fn lemma_sub_sym(
    d: DesignView,
    entry: Option<ModuleId>,
    a: Seq<char>,
    b: Seq<char>,
    fs: Seq<Seq<char>>,
    k: int,
    depth: nat,
)
    ensures
        symmetric(sub_edges(d, entry, a, b, fs, k, depth)),
    decreases 21 - depth, 0int, fs.len() - k,
{
    if k < 0 || k >= fs.len() || depth > 20 {
    } else {
        lemma_equiv_sym(d, entry, a + seq!['.'] + fs[k], b + seq!['.'] + fs[k], depth + 1);
        lemma_sub_sym(d, entry, a, b, fs, k + 1, depth);
        lemma_sym_concat(
            equiv_edges(d, entry, a + seq!['.'] + fs[k], b + seq!['.'] + fs[k], depth + 1),
            sub_edges(d, entry, a, b, fs, k + 1, depth),
        );
    }
}

/// The edges of a chain of paths come in both directions.
pub proof fn lemma_chain_sym(d: DesignView, entry: Option<ModuleId>, ps: Seq<Seq<char>>, k: int)
    ensures
        symmetric(chain_edges(d, entry, ps, k)),
    decreases ps.len() - k,
{
    if k < 0 || k + 1 >= ps.len() {
    } else {
        lemma_equiv_sym(d, entry, ps[k], ps[k + 1], 0);
        lemma_chain_sym(d, entry, ps, k + 1);
        lemma_sym_concat(equiv_edges(d, entry, ps[k], ps[k + 1], 0), chain_edges(d, entry, ps, k + 1));
    }
}

/// The edges of one connection come in both directions.
pub proof fn lemma_conn_sym(d: DesignView, entry: Option<ModuleId>, c: Connection, prefix: Seq<char>)
    ensures
        symmetric(conn_edges(d, entry, c, prefix)),
{
    let eps = endpoint_paths(d, c.endpoints@, 0, prefix);
    if c.kind == ConnectionKind::Simple && eps.len() == 2 {
        lemma_equiv_sym(d, entry, eps[0], eps[1], 0);
    } else if c.kind is Directed {
        lemma_chain_sym(d, entry, eps, 0);
    }
}

/// The edges of a connection at several prefixes come in both directions.
pub proof fn lemma_prefix_sym(d: DesignView, entry: Option<ModuleId>, c: Connection, ps: Seq<Seq<char>>, j: int)
    ensures
        symmetric(prefix_edges(d, entry, c, ps, j)),
    decreases ps.len() - j,
{
    if j < 0 || j >= ps.len() {
    } else {
        lemma_conn_sym(d, entry, c, ps[j]);
        lemma_prefix_sym(d, entry, c, ps, j + 1);
        lemma_sym_concat(conn_edges(d, entry, c, ps[j]), prefix_edges(d, entry, c, ps, j + 1));
    }
}

/// The edges of the connections come in both directions.
pub proof fn lemma_conns_sym(
    d: DesignView,
    entry: Option<ModuleId>,
    pp: Seq<(ModuleId, Seq<char>)>,
    cs: Seq<Connection>,
    i: int,
)
    ensures
        symmetric(conns_edges(d, entry, pp, cs, i)),
    decreases cs.len() - i,
{
    if i < 0 || i >= cs.len() {
    } else {
        let ps = effective_prefixes(pp, cs[i].parent);
        lemma_prefix_sym(d, entry, cs[i], ps, 0);
        lemma_conns_sym(d, entry, pp, cs, i + 1);
        lemma_sym_concat(prefix_edges(d, entry, cs[i], ps, 0), conns_edges(d, entry, pp, cs, i + 1));
    }
}

/// Every edge of the path graph of a design is there in both directions.
pub proof fn lemma_path_edges_symmetric(d: DesignView, entry: Option<ModuleId>)
    ensures
        symmetric(path_edges(d, entry)),
{
    reveal(path_edges);
    lemma_conns_sym(d, entry, instance_prefixes(d, entry), d.connections, 0);
}

/// With edges in both directions, connection runs both ways.
pub proof fn lemma_connected_reverse(es: Seq<(Seq<char>, Seq<char>)>, s: Seq<char>, x: Seq<char>)
    requires
        symmetric(es),
        connected(es, s, x),
    ensures
        connected(es, x, s),
{
    let w = choose|w: Seq<Seq<char>>| #[trigger] is_path_walk(es, w) && w[0] == s && w.last() == x;
    let r = w.reverse();
    assert forall|i: int| 0 <= i < r.len() - 1 implies #[trigger] linked(es, r[i], r[i + 1]) by {
        let j = w.len() - 2 - i;
        assert(linked(es, w[j], w[j + 1]));
        let k = choose|k: int| 0 <= k < es.len() && es[k] == (w[j], w[j + 1]);
        assert(linked(es, es[k].1, es[k].0));
        assert(r[i] == w[j + 1]);
        assert(r[i + 1] == w[j]);
    }
    assert(is_path_walk(es, r));
    assert(r[0] == x);
    assert(r.last() == s);
}

/// Connection is transitive.
pub proof fn lemma_connected_trans(es: Seq<(Seq<char>, Seq<char>)>, s: Seq<char>, x: Seq<char>, y: Seq<char>)
    requires
        connected(es, s, x),
        connected(es, x, y),
    ensures
        connected(es, s, y),
{
    let w1 = choose|w: Seq<Seq<char>>| #[trigger] is_path_walk(es, w) && w[0] == s && w.last() == x;
    let w2 = choose|w: Seq<Seq<char>>| #[trigger] is_path_walk(es, w) && w[0] == x && w.last() == y;
    let w = w1 + w2.skip(1);
    assert forall|i: int| 0 <= i < w.len() - 1 implies #[trigger] linked(es, w[i], w[i + 1]) by {
        if i < w1.len() - 1 {
            assert(w[i] == w1[i]);
            assert(w[i + 1] == w1[i + 1]);
            assert(linked(es, w1[i], w1[i + 1]));
        } else if i == w1.len() - 1 {
            assert(w[i] == w1.last());
            assert(w[i + 1] == w2[1]);
            assert(linked(es, w2[0], w2[1]));
        } else {
            let j = i - w1.len() + 1;
            assert(w[i] == w2[j]);
            assert(w[i + 1] == w2[j + 1]);
            assert(linked(es, w2[j], w2[j + 1]));
        }
    }
    assert(is_path_walk(es, w));
    assert(w[0] == s);
    if w2.len() == 1 {
        assert(w.last() == w1.last());
    } else {
        assert(w.last() == w2.last());
    }
}

/// `r` is the component pin that some path connected to `s` resolves to.
pub open spec fn pin_of_group(es: Seq<(Seq<char>, Seq<char>)>, im: Seq<(Seq<char>, Seq<char>)>, s: Seq<char>, r: (Seq<char>, Seq<char>)) -> bool {
    exists|x: Seq<char>| connected(es, s, x) && #[trigger] resolve_path(x, im) == Some(r)
}

/// `s` is a node of the graph whose group of connected paths resolves to two or
/// more distinct component pins.
#[verifier::opaque]
pub open spec fn has_two_pins(es: Seq<(Seq<char>, Seq<char>)>, im: Seq<(Seq<char>, Seq<char>)>, s: Seq<char>) -> bool {
    &&& is_endpoint(es, s)
    &&& exists|r1: (Seq<char>, Seq<char>), r2: (Seq<char>, Seq<char>)|
        r1 != r2 && #[trigger] pin_of_group(es, im, s, r1) && #[trigger] pin_of_group(es, im, s, r2)
}

/// Every group of connected paths that resolves to two or more distinct component
/// pins has its net among `ns`.
#[verifier::opaque]
pub open spec fn nets_complete(es: Seq<(Seq<char>, Seq<char>)>, im: Seq<(Seq<char>, Seq<char>)>, ns: Seq<NetView>) -> bool {
    forall|s: Seq<char>| #[trigger] has_two_pins(es, im, s) ==>
        exists|k: int| 0 <= k < ns.len() && #[trigger] is_net_of(es, im, ns[k], s)
}

/// Two connected paths are connected to the same paths.
pub proof fn lemma_same_group(es: Seq<(Seq<char>, Seq<char>)>, s: Seq<char>, x: Seq<char>)
    requires
        symmetric(es),
        connected(es, s, x),
    ensures
        forall|y: Seq<char>| connected(es, x, y) <==> connected(es, s, y),
{
    lemma_connected_reverse(es, s, x);
    assert forall|y: Seq<char>| connected(es, x, y) <==> connected(es, s, y) by {
        if connected(es, x, y) {
            lemma_connected_trans(es, s, x, y);
        }
        if connected(es, s, y) {
            lemma_connected_trans(es, x, s, y);
        }
    }
}

/// The net of a path's group is the net of every path of the group.
pub proof fn lemma_net_of_group(
    es: Seq<(Seq<char>, Seq<char>)>,
    im: Seq<(Seq<char>, Seq<char>)>,
    n: NetView,
    s: Seq<char>,
    x: Seq<char>,
)
    requires
        symmetric(es),
        is_net_of(es, im, n, s),
        connected(es, s, x),
        is_endpoint(es, x),
    ensures
        is_net_of(es, im, n, x),
{
    reveal(is_net_of);
    lemma_same_group(es, s, x);
    let m = choose|m: Seq<char>| #[trigger] is_least_connected(es, s, m) && n.name == crate::text::replace_char_seq(m, '.', '_');
    assert(is_least_connected(es, x, m));
    assert forall|r: (Seq<char>, Seq<char>)| #[trigger] n.nodes.contains(r) <==>
        exists|y: Seq<char>| connected(es, x, y) && #[trigger] resolve_path(y, im) == Some(r) by {
        if n.nodes.contains(r) {
            let y = choose|y: Seq<char>| connected(es, s, y) && #[trigger] resolve_path(y, im) == Some(r);
            assert(connected(es, x, y));
        }
        if exists|y: Seq<char>| connected(es, x, y) && #[trigger] resolve_path(y, im) == Some(r) {
            let y = choose|y: Seq<char>| connected(es, x, y) && #[trigger] resolve_path(y, im) == Some(r);
            assert(connected(es, s, y));
        }
    }
}

/// A path of a group with two or more pins lies in such a group too: the same one.
pub proof fn lemma_two_pins_of_group(
    es: Seq<(Seq<char>, Seq<char>)>,
    im: Seq<(Seq<char>, Seq<char>)>,
    s: Seq<char>,
    x: Seq<char>,
)
    requires
        symmetric(es),
        connected(es, s, x),
        is_endpoint(es, s),
        has_two_pins(es, im, x),
    ensures
        has_two_pins(es, im, s),
{
    reveal(has_two_pins);
    lemma_same_group(es, s, x);
    let (r1, r2) = choose|r1: (Seq<char>, Seq<char>), r2: (Seq<char>, Seq<char>)|
        r1 != r2 && #[trigger] pin_of_group(es, im, x, r1) && #[trigger] pin_of_group(es, im, x, r2);
    let y1 = choose|y: Seq<char>| connected(es, x, y) && #[trigger] resolve_path(y, im) == Some(r1);
    let y2 = choose|y: Seq<char>| connected(es, x, y) && #[trigger] resolve_path(y, im) == Some(r2);
    assert(connected(es, s, y1));
    assert(connected(es, s, y2));
    assert(pin_of_group(es, im, s, r1));
    assert(pin_of_group(es, im, s, r2));
}

/// A net whose nodes are rearranged is still the net of the same path.
pub proof fn lemma_net_of_rearranged(
    es: Seq<(Seq<char>, Seq<char>)>,
    im: Seq<(Seq<char>, Seq<char>)>,
    a: NetView,
    b: NetView,
    s: Seq<char>,
)
    requires
        is_net_of(es, im, a, s),
        a.name == b.name,
        a.nodes.to_multiset() == b.nodes.to_multiset(),
    ensures
        is_net_of(es, im, b, s),
{
    reveal(is_net_of);
    lemma_same_items(a.nodes, b.nodes);
}

/// Completeness survives rearranging the nodes of each net.
pub proof fn lemma_complete_rearranged(
    es: Seq<(Seq<char>, Seq<char>)>,
    im: Seq<(Seq<char>, Seq<char>)>,
    a: Seq<NetView>,
    b: Seq<NetView>,
)
    requires
        nets_complete(es, im, a),
        a.len() == b.len(),
        forall|k: int| 0 <= k < a.len() ==> (#[trigger] a[k]).name == b[k].name
            && a[k].nodes.to_multiset() == b[k].nodes.to_multiset(),
    ensures
        nets_complete(es, im, b),
{
    reveal(nets_complete);
    assert forall|s: Seq<char>| #[trigger] has_two_pins(es, im, s) implies
        exists|k: int| 0 <= k < b.len() && #[trigger] is_net_of(es, im, b[k], s) by {
        let k = choose|k: int| 0 <= k < a.len() && #[trigger] is_net_of(es, im, a[k], s);
        lemma_net_of_rearranged(es, im, a[k], b[k], s);
    }
}

/// Completeness survives reordering the nets.
pub proof fn lemma_complete_permuted(
    es: Seq<(Seq<char>, Seq<char>)>,
    im: Seq<(Seq<char>, Seq<char>)>,
    a: Seq<NetView>,
    b: Seq<NetView>,
)
    requires
        nets_complete(es, im, a),
        a.to_multiset() == b.to_multiset(),
    ensures
        nets_complete(es, im, b),
{
    reveal(nets_complete);
    lemma_same_items(a, b);
    assert forall|s: Seq<char>| #[trigger] has_two_pins(es, im, s) implies
        exists|k: int| 0 <= k < b.len() && #[trigger] is_net_of(es, im, b[k], s) by {
        let k = choose|k: int| 0 <= k < a.len() && #[trigger] is_net_of(es, im, a[k], s);
        assert(a.contains(a[k]));
        assert(b.contains(a[k]));
        let j = choose|j: int| 0 <= j < b.len() && b[j] == a[k];
        assert(is_net_of(es, im, b[j], s));
    }
}

/// If `x` lies in a group with two or more pins, the group's net is among `ns`.
pub open spec fn covered(es: Seq<(Seq<char>, Seq<char>)>, im: Seq<(Seq<char>, Seq<char>)>, ns: Seq<NetView>, x: Seq<char>) -> bool {
    has_two_pins(es, im, x) ==> exists|k: int| 0 <= k < ns.len() && #[trigger] is_net_of(es, im, ns[k], x)
}

/// After the group of `nv[start]` is handled, every path marked done has its
/// group's net, if it needs one.
pub proof fn lemma_covered_after_group(
    es: Seq<(Seq<char>, Seq<char>)>,
    im: Seq<(Seq<char>, Seq<char>)>,
    nv: Seq<Seq<char>>,
    old_done: Seq<bool>,
    new_done: Seq<bool>,
    old_ns: Seq<NetView>,
    new_ns: Seq<NetView>,
    start: int,
)
    requires
        symmetric(es),
        0 <= start < nv.len(),
        old_done.len() == nv.len(),
        new_done.len() == nv.len(),
        forall|j: int| 0 <= j < nv.len() ==> is_endpoint(es, #[trigger] nv[j]),
        forall|j: int| 0 <= j < nv.len() && #[trigger] old_done[j] ==> covered(es, im, old_ns, nv[j]),
        new_ns.len() >= old_ns.len(),
        forall|k: int| 0 <= k < old_ns.len() ==> #[trigger] new_ns[k] == old_ns[k],
        forall|j: int| 0 <= j < nv.len() && #[trigger] old_done[j] ==> new_done[j],
        forall|j: int| 0 <= j < nv.len() && #[trigger] new_done[j] && !old_done[j] ==> connected(es, nv[start], nv[j]),
        has_two_pins(es, im, nv[start]) ==> exists|k: int| 0 <= k < new_ns.len() && #[trigger] is_net_of(es, im, new_ns[k], nv[start]),
    ensures
        forall|j: int| 0 <= j < nv.len() && #[trigger] new_done[j] ==> covered(es, im, new_ns, nv[j]),
{
    assert forall|j: int| 0 <= j < nv.len() && #[trigger] new_done[j] implies covered(es, im, new_ns, nv[j]) by {
        if has_two_pins(es, im, nv[j]) {
            if old_done[j] {
                assert(covered(es, im, old_ns, nv[j]));
                let k = choose|k: int| 0 <= k < old_ns.len() && #[trigger] is_net_of(es, im, old_ns[k], nv[j]);
                assert(new_ns[k] == old_ns[k]);
            } else {
                assert(connected(es, nv[start], nv[j]));
                assert(is_endpoint(es, nv[start]));
                lemma_two_pins_of_group(es, im, nv[start], nv[j]);
                let k = choose|k: int| 0 <= k < new_ns.len() && #[trigger] is_net_of(es, im, new_ns[k], nv[start]);
                lemma_net_of_group(es, im, new_ns[k], nv[start], nv[j]);
            }
        }
    }
}

/// When every node of the graph is covered, the nets are complete.
pub proof fn lemma_complete_from_nodes(
    es: Seq<(Seq<char>, Seq<char>)>,
    im: Seq<(Seq<char>, Seq<char>)>,
    nv: Seq<Seq<char>>,
    ns: Seq<NetView>,
)
    requires
        forall|q: int| 0 <= q < es.len() ==> nv.contains((#[trigger] es[q]).0) && nv.contains(es[q].1),
        forall|j: int| 0 <= j < nv.len() ==> covered(es, im, ns, #[trigger] nv[j]),
    ensures
        nets_complete(es, im, ns),
{
    reveal(nets_complete);
    assert forall|s: Seq<char>| #[trigger] has_two_pins(es, im, s) implies
        exists|k: int| 0 <= k < ns.len() && #[trigger] is_net_of(es, im, ns[k], s) by {
        reveal(has_two_pins);
        let q = choose|q: int| 0 <= q < es.len() && (es[q].0 == s || es[q].1 == s);
        assert(nv.contains(es[q].0) && nv.contains(es[q].1));
        let j = choose|j: int| 0 <= j < nv.len() && nv[j] == s;
        assert(covered(es, im, ns, nv[j]));
    }
}

} // verus!
