//! Names of the node lock files: each node is registered under its id
//! written as 32 lowercase hexadecimal digits.
use vstd::prelude::*;
use vstd::arithmetic::power::pow;
use crate::contracts::NodeId;
use crate::text::{
    all_hex, hex_digits, hex_number, hex_value, hex_value_of, push_hex_digits, lemma_hex_digits_value,
    lemma_hex_number_prefix,
};

verus! {

/// The lock file name of a node: its id in 32 lowercase hexadecimal digits.
pub open spec fn node_name(id: NodeId) -> Seq<char> {
    hex_digits(id.0 as nat, 32)
}

/// The digits of a name: without its leading `+`, if it has one.
pub open spec fn digits_part(s: Seq<char>) -> Seq<char> {
    if s.len() > 0 && s[0] == '+' {
        s.drop_first()
    } else {
        s
    }
}

/// The node a file name stands for: an optional `+` then one or more hexadecimal
/// digits (either case) spelling a number that fits in 128 bits; `None` otherwise.
pub open spec fn parse_node_name(s: Seq<char>) -> Option<NodeId> {
    let d = digits_part(s);
    if d.len() > 0 && all_hex(d) && hex_number(d) <= u128::MAX {
        Some(NodeId(hex_number(d) as u128))
    } else {
        None
    }
}

/// The lock file name of a node.
pub fn node_file_name(node_id: NodeId) -> (r: String)
    ensures
        r@ == node_name(node_id),
{
    let mut s = String::new();
    push_hex_digits(&mut s, node_id.0, 32);
    proof {
        assert(s@ =~= node_name(node_id));
    }
    s
}

/// The node that a lock file name stands for, if it is one.
pub fn parse_node_file_name(name: &str) -> (r: Option<NodeId>)
    ensures
        r == parse_node_name(name@),
{
    let len = name.unicode_len();
    let mut start: usize = 0;
    if len > 0 && name.get_char(0) == '+' {
        start = 1;
    }
    let ghost d = digits_part(name@);
    proof {
        assert(d =~= name@.subrange(start as int, len as int));
    }
    if start == len {
        return None;
    }
    let mut acc: u128 = 0;
    let mut i: usize = start;
    while i < len
        invariant
            start <= i <= len,
            len == name@.len(),
            d == name@.subrange(start as int, len as int),
            d == digits_part(name@),
            all_hex(d.subrange(0, i - start)),
            acc as int == hex_number(d.subrange(0, i - start)),
        decreases len - i,
    {
        let c = name.get_char(i);
        let ghost k = (i - start) as int;
        let ghost p = d.subrange(0, k + 1);
        proof {
            assert(d[k] == c);
            assert(p.drop_last() =~= d.subrange(0, k));
            assert(p.last() == c);
        }
        let dv = match hex_value_of(c) {
            Some(v) => v,
            None => {
                proof {
                    assert(!all_hex(d));
                    assert(parse_node_name(name@) is None);
                }
                return None;
            },
        };
        proof {
            assert forall|j: int| 0 <= j < p.len() implies hex_value(#[trigger] p[j]) >= 0 by {
                if j < k {
                    assert(p[j] == d.subrange(0, k)[j]);
                }
            }
        }
        let next = match acc.checked_mul(16) {
            Some(m) => m.checked_add(dv as u128),
            None => None,
        };
        match next {
            Some(n) => {
                acc = n;
            },
            None => {
                proof {
                    if all_hex(d) {
                        lemma_hex_number_prefix(d, k + 1);
                        assert(hex_number(p) == 16 * acc + dv);
                    }
                    assert(parse_node_name(name@) is None);
                }
                return None;
            },
        }
        i = i + 1;
    }
    proof {
        assert(d.subrange(0, len - start) =~= d);
    }
    Some(NodeId(acc))
}

/// The nodes that a list of file names stand for, in order; names that stand for no node are skipped.
pub fn node_ids_from_names(names: &Vec<String>) -> (r: Vec<NodeId>)
    ensures
        r@ == names@.map_values(|n: String| parse_node_name(n@)).filter(|o: Option<NodeId>| o is Some).map_values(
            |o: Option<NodeId>| o->0,
        ),
{
    let mut out: Vec<NodeId> = Vec::new();
    let mut i: usize = 0;
    while i < names.len()
        invariant
            i <= names@.len(),
            out@ == names@.subrange(0, i as int).map_values(|n: String| parse_node_name(n@)).filter(
                |o: Option<NodeId>| o is Some,
            ).map_values(|o: Option<NodeId>| o->0),
        decreases names@.len() - i,
    {
        let ghost parsed = names@.subrange(0, i as int).map_values(|n: String| parse_node_name(n@));
        let ghost parsed2 = names@.subrange(0, i + 1).map_values(|n: String| parse_node_name(n@));
        proof {
            assert(parsed2 =~= parsed.push(parse_node_name(names@[i as int]@)));
            parsed.lemma_filter_push(parse_node_name(names@[i as int]@), |o: Option<NodeId>| o is Some);
        }
        match parse_node_file_name(names[i].as_str()) {
            Some(id) => {
                out.push(id);
            },
            None => {},
        }
        proof {
            let f = |o: Option<NodeId>| o is Some;
            let g = |o: Option<NodeId>| o->0;
            if parse_node_name(names@[i as int]@) is Some {
                assert(parsed2.filter(f) == parsed.filter(f).push(parse_node_name(names@[i as int]@)));
                assert(parsed2.filter(f).map_values(g) =~= parsed.filter(f).map_values(g).push(
                    parse_node_name(names@[i as int]@)->0,
                ));
            } else {
                assert(parsed2.filter(f) == parsed.filter(f));
            }
        }
        i = i + 1;
    }
    proof {
        assert(names@.subrange(0, names@.len() as int) =~= names@);
    }
    out
}

/// Reading back the lock file name of a node gives that node.
pub proof fn lemma_node_name_roundtrip(id: NodeId)
    ensures
        parse_node_name(node_name(id)) == Some(id),
{
    let s = node_name(id);
    lemma_hex_digits_value(id.0 as nat, 32);
    vstd::arithmetic::power::lemma_pow1(16);
    vstd::arithmetic::power::lemma_pow_adds(16, 1, 1);
    assert(pow(16, 2) == 256);
    vstd::arithmetic::power::lemma_pow_adds(16, 2, 2);
    assert(pow(16, 4) == 65536);
    vstd::arithmetic::power::lemma_pow_adds(16, 4, 4);
    assert(pow(16, 8) == 0x1_0000_0000);
    vstd::arithmetic::power::lemma_pow_adds(16, 8, 8);
    assert(pow(16, 16) == 0x1_0000_0000_0000_0000);
    vstd::arithmetic::power::lemma_pow_adds(16, 16, 16);
    assert(pow(16, 32) == 0x1_0000_0000_0000_0000_0000_0000_0000_0000);
    vstd::arithmetic::div_mod::lemma_small_mod(id.0 as nat, pow(16, 32) as nat);
    assert(hex_value(s[0]) >= 0);
    assert(s[0] != '+');
}

/// The nodes reported dead among the first `n` of `nodes`: those not alive
/// whose lock file was removed, in order.
pub open spec fn dead_nodes_spec(nodes: Seq<NodeId>, alive: Seq<bool>, removed: Seq<bool>, n: nat) -> Seq<NodeId>
    decreases n,
{
    if n == 0 {
        Seq::empty()
    } else {
        let rest = dead_nodes_spec(nodes, alive, removed, (n - 1) as nat);
        if !alive[n - 1] && removed[n - 1] {
            rest.push(nodes[n - 1])
        } else {
            rest
        }
    }
}

/// The nodes a cleanup reports among the first `n` are exactly the nodes at
/// the positions below `n` that are not alive and whose lock file was removed,
/// in the order of those positions: each such node is reported, each reported
/// node stands at such a position, and there is one report per such position.
pub proof fn lemma_dead_nodes_exact(nodes: Seq<NodeId>, alive: Seq<bool>, removed: Seq<bool>, n: nat)
    requires
        n <= nodes.len(),
        n <= alive.len(),
        n <= removed.len(),
    ensures
        dead_nodes_spec(nodes, alive, removed, n) == Seq::new(n, |i: int| i).filter(
            |i: int| !alive[i] && removed[i],
        ).map_values(|i: int| nodes[i]),
        forall|i: int|
            0 <= i < n && !alive[i] && removed[i] ==> #[trigger] dead_nodes_spec(
                nodes,
                alive,
                removed,
                n,
            ).contains(nodes[i]),
        forall|j: int|
            0 <= j < dead_nodes_spec(nodes, alive, removed, n).len() ==> exists|i: int|
                0 <= i < n && !alive[i] && removed[i] && nodes[i] == #[trigger] dead_nodes_spec(
                    nodes,
                    alive,
                    removed,
                    n,
                )[j],
    decreases n,
{
    let dead = |i: int| !alive[i] && removed[i];
    let at = |i: int| nodes[i];
    let r = dead_nodes_spec(nodes, alive, removed, n);
    if n == 0 {
        let e = Seq::new(0, |i: int| i);
        assert(e =~= Seq::<int>::empty());
        assert(e.push(0).filter(dead) == if dead(0) { e.filter(dead).push(0) } else { e.filter(dead) }) by {
            e.lemma_filter_push(0, dead);
        }
        assert(e.filter(dead).len() <= e.len()) by {
            #[allow(deprecated)]
            e.filter_lemma(dead);
        }
        assert(e.filter(dead).map_values(at) =~= Seq::<NodeId>::empty());
    } else {
        let m = (n - 1) as nat;
        lemma_dead_nodes_exact(nodes, alive, removed, m);
        let prev = dead_nodes_spec(nodes, alive, removed, m);
        let ids = Seq::new(m, |i: int| i);
        assert(Seq::new(n, |i: int| i) =~= ids.push(m as int));
        ids.lemma_filter_push(m as int, dead);
        if dead(m as int) {
            assert(ids.push(m as int).filter(dead).map_values(at) =~= ids.filter(dead).map_values(at).push(
                nodes[m as int],
            ));
            assert(r == prev.push(nodes[m as int]));
            assert forall|i: int| 0 <= i < n && !alive[i] && removed[i] implies #[trigger] r.contains(
                nodes[i],
            ) by {
                if i < m {
                    assert(prev.contains(nodes[i]));
                    let k = choose|k: int| 0 <= k < prev.len() && prev[k] == nodes[i];
                    assert(r[k] == nodes[i]);
                } else {
                    assert(r[prev.len() as int] == nodes[i]);
                }
            }
            assert forall|j: int| 0 <= j < r.len() implies exists|i: int|
                0 <= i < n && !alive[i] && removed[i] && nodes[i] == #[trigger] r[j] by {
                if j < prev.len() {
                    assert(r[j] == prev[j]);
                } else {
                    assert(r[j] == nodes[m as int]);
                }
            }
        } else {
            assert(r == prev);
            assert forall|i: int| 0 <= i < n && !alive[i] && removed[i] implies #[trigger] r.contains(
                nodes[i],
            ) by {
                if i < m {
                    assert(prev.contains(nodes[i]));
                }
            }
            assert forall|j: int| 0 <= j < r.len() implies exists|i: int|
                0 <= i < n && !alive[i] && removed[i] && nodes[i] == #[trigger] r[j] by {
                assert(prev[j] == r[j]);
            }
        }
    }
}

/// The nodes that a cleanup reports: node `i` is reported when it is not
/// alive (`alive[i]` false) and its lock file could be removed (`removed[i]`).
pub fn dead_nodes(nodes: &Vec<NodeId>, alive: &Vec<bool>, removed: &Vec<bool>) -> (r: Vec<NodeId>)
    requires
        alive@.len() == nodes@.len(),
        removed@.len() == nodes@.len(),
    ensures
        r@ == dead_nodes_spec(nodes@, alive@, removed@, nodes@.len()),
        r@ == Seq::new(nodes@.len(), |i: int| i).filter(|i: int| !alive@[i] && removed@[i]).map_values(
            |i: int| nodes@[i],
        ),
        forall|i: int| 0 <= i < nodes@.len() && !alive@[i] && removed@[i] ==> #[trigger] r@.contains(nodes@[i]),
        forall|j: int|
            0 <= j < r@.len() ==> exists|i: int|
                0 <= i < nodes@.len() && !alive@[i] && removed@[i] && nodes@[i] == #[trigger] r@[j],
{
    proof {
        lemma_dead_nodes_exact(nodes@, alive@, removed@, nodes@.len());
    }
    let mut out: Vec<NodeId> = Vec::new();
    let mut i: usize = 0;
    while i < nodes.len()
        invariant
            i <= nodes@.len(),
            alive@.len() == nodes@.len(),
            removed@.len() == nodes@.len(),
            out@ == dead_nodes_spec(nodes@, alive@, removed@, i as nat),
        decreases nodes@.len() - i,
    {
        if !alive[i] && removed[i] {
            out.push(nodes[i]);
        }
        i = i + 1;
    }
    out
}

} // verus!
