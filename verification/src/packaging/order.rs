//! Directory trees in the order of their names.
//!
//! A file system lists a directory in an order of its own. Sorting a tree by name, at
//! every depth, makes the order of the archive entries depend on the names alone.

use crate::packaging::tree::holds_file;
use crate::packaging::tree::is_dir_with;
use crate::packaging::tree::is_file;
use crate::packaging::tree::node_name;
use crate::packaging::tree::well_named;
use crate::packaging::tree::Node;
use crate::text::chars_of;
use crate::text::comes_first;
use crate::text::lemma_precedes_total;
use crate::text::lemma_precedes_transitive;
use crate::text::precedes;
use vstd::prelude::*;

verus! {

/// Whether the entries of every directory of a tree stand in the order of their names.
pub open spec fn sorted_tree(nodes: Seq<Node>) -> bool
    decreases nodes,
{
    &&& forall|i: int, j: int|
        0 <= i < j < nodes.len() ==> precedes(
            node_name(#[trigger] nodes[i]),
            node_name(#[trigger] nodes[j]),
        )
    &&& forall|i: int|
        0 <= i < nodes.len() ==> match #[trigger] nodes[i] {
            Node::File { .. } => true,
            Node::Dir { children, .. } => sorted_tree(children@),
        }
}

/// Whether two directory entries are the same but for the order within directories:
/// files of the same name and content, or directories of the same name whose entries
/// are the same but for their order.
pub open spec fn alike(x: Node, y: Node) -> bool
    decreases x, 0nat,
{
    match x {
        Node::File { name, content } => is_file(y, name@, content@),
        Node::Dir { name, children } => match y {
            Node::File { .. } => false,
            Node::Dir { name: other, children: others } => name@ == other@ && rearranged(
                children@,
                others@,
            ),
        },
    }
}

/// Whether `to` and `back` are one-to-one mappings of the positions below `n`, each
/// the reverse of the other.
pub open spec fn bijection(to: Seq<int>, back: Seq<int>, n: nat) -> bool {
    &&& to.len() == n
    &&& back.len() == n
    &&& forall|i: int| 0 <= i < n ==> 0 <= #[trigger] to[i] < n && back[to[i]] == i
    &&& forall|j: int| 0 <= j < n ==> 0 <= #[trigger] back[j] < n && to[back[j]] == j
}

/// Whether the entry at each position of the first list is like the entry of the second
/// list at the position that `to` gives.
pub open spec fn paired(a: Seq<Node>, b: Seq<Node>, to: Seq<int>) -> bool
    decreases a, 1nat,
{
    forall|i: int| 0 <= i < a.len() ==> alike(#[trigger] a[i], b[to[i]])
}

/// Whether the first tree is the second with the entries of its directories in another
/// order.
pub open spec fn rearranged(a: Seq<Node>, b: Seq<Node>) -> bool
    decreases a, 2nat,
{
    &&& a.len() == b.len()
    &&& exists|to: Seq<int>, back: Seq<int>| #[trigger]
        bijection(to, back, a.len()) && paired(a, b, to)
}

/// Entries that are alike have the same name.
pub proof fn lemma_alike_names(x: Node, y: Node)
    requires
        alike(x, y),
    ensures
        node_name(x) == node_name(y),
{
}

/// Entries that are alike hold the same files.
pub proof fn lemma_alike_holds(
    x: Node,
    y: Node,
    dirs: Seq<Seq<char>>,
    name: Seq<char>,
    content: Seq<u8>,
)
    requires
        alike(x, y),
    ensures
        is_file(x, name, content) == is_file(y, name, content),
        dirs.len() > 0 ==> is_dir_with(x, dirs[0], dirs.drop_first(), name, content)
            == is_dir_with(y, dirs[0], dirs.drop_first(), name, content),
    decreases x, 0nat,
{
    match x {
        Node::File { .. } => {},
        Node::Dir { name: n, children } => {
            match y {
                Node::File { .. } => {},
                Node::Dir { name: other, children: others } => {
                    if dirs.len() > 0 {
                        lemma_rearranged_holds(
                            children@,
                            others@,
                            dirs.drop_first(),
                            name,
                            content,
                        );
                    }
                },
            }
        },
    }
}

/// A tree holds the files that it holds in any other order of its directories.
pub proof fn lemma_rearranged_holds(
    a: Seq<Node>,
    b: Seq<Node>,
    dirs: Seq<Seq<char>>,
    name: Seq<char>,
    content: Seq<u8>,
)
    requires
        rearranged(a, b),
    ensures
        holds_file(a, dirs, name, content) == holds_file(b, dirs, name, content),
    decreases a, 1nat,
{
    let (to, back) = choose|to: Seq<int>, back: Seq<int>| #[trigger]
        bijection(to, back, a.len()) && paired(a, b, to);
    assert(paired(a, b, to));
    if holds_file(a, dirs, name, content) {
        if dirs.len() == 0 {
            let i = choose|i: int| 0 <= i < a.len() && is_file(#[trigger] a[i], name, content);
            assert(0 <= to[i] < b.len() && alike(a[i], b[to[i]]));
            lemma_alike_holds(a[i], b[to[i]], dirs, name, content);
        } else {
            let i = choose|i: int|
                0 <= i < a.len() && is_dir_with(
                    #[trigger] a[i],
                    dirs[0],
                    dirs.drop_first(),
                    name,
                    content,
                );
            assert(0 <= to[i] < b.len() && alike(a[i], b[to[i]]));
            lemma_alike_holds(a[i], b[to[i]], dirs, name, content);
        }
    }
    if holds_file(b, dirs, name, content) {
        if dirs.len() == 0 {
            let j = choose|j: int| 0 <= j < b.len() && is_file(#[trigger] b[j], name, content);
            let i = back[j];
            assert(0 <= i < a.len() && to[i] == j && alike(a[i], b[to[i]]));
            lemma_alike_holds(a[i], b[j], dirs, name, content);
        } else {
            let j = choose|j: int|
                0 <= j < b.len() && is_dir_with(
                    #[trigger] b[j],
                    dirs[0],
                    dirs.drop_first(),
                    name,
                    content,
                );
            let i = back[j];
            assert(0 <= i < a.len() && to[i] == j && alike(a[i], b[to[i]]));
            lemma_alike_holds(a[i], b[j], dirs, name, content);
        }
    }
}

/// A tree that is named as a file system names its entries stays so in any other order
/// of its directories.
pub proof fn lemma_rearranged_well_named(a: Seq<Node>, b: Seq<Node>)
    requires
        rearranged(a, b),
        well_named(b),
    ensures
        well_named(a),
    decreases a,
{
    let (to, back) = choose|to: Seq<int>, back: Seq<int>| #[trigger]
        bijection(to, back, a.len()) && paired(a, b, to);
    assert(paired(a, b, to));
    assert forall|i: int| 0 <= i < a.len() implies !node_name(#[trigger] a[i]).contains('/') by {
        assert(0 <= to[i] < b.len() && alike(a[i], b[to[i]]));
        lemma_alike_names(a[i], b[to[i]]);
    }
    assert forall|i: int, j: int| 0 <= i < j < a.len() implies node_name(#[trigger] a[i])
        != node_name(#[trigger] a[j]) by {
        assert(0 <= to[i] < b.len() && back[to[i]] == i && alike(a[i], b[to[i]]));
        assert(0 <= to[j] < b.len() && back[to[j]] == j && alike(a[j], b[to[j]]));
        lemma_alike_names(a[i], b[to[i]]);
        lemma_alike_names(a[j], b[to[j]]);
        if to[i] < to[j] {
            assert(node_name(b[to[i]]) != node_name(b[to[j]]));
        } else {
            assert(node_name(b[to[j]]) != node_name(b[to[i]]));
        }
    }
    assert forall|i: int| 0 <= i < a.len() implies match #[trigger] a[i] {
        Node::File { .. } => true,
        Node::Dir { children, .. } => well_named(children@),
    } by {
        assert(0 <= to[i] < b.len() && alike(a[i], b[to[i]]));
        let y = b[to[i]];
        match a[i] {
            Node::File { .. } => {},
            Node::Dir { name, children } => {
                match y {
                    Node::File { .. } => {},
                    Node::Dir { name: other, children: others } => {
                        lemma_rearranged_well_named(children@, others@);
                    },
                }
            },
        }
    }
}

/// Every directory entry is like itself.
pub proof fn lemma_alike_itself(x: Node)
    ensures
        alike(x, x),
    decreases x, 0nat,
{
    match x {
        Node::File { .. } => {},
        Node::Dir { name, children } => {
            lemma_rearranged_itself(children@);
        },
    }
}

/// Every tree is a rearrangement of itself.
pub proof fn lemma_rearranged_itself(a: Seq<Node>)
    ensures
        rearranged(a, a),
    decreases a, 1nat,
{
    let same = Seq::new(a.len(), |i: int| i);
    assert forall|i: int| 0 <= i < a.len() implies alike(#[trigger] a[i], a[same[i]]) by {
        lemma_alike_itself(a[i]);
    }
    assert(paired(a, a, same));
    assert(bijection(same, same, a.len()));
}

/// The name of a directory entry, as characters.
pub fn name_chars(node: &Node) -> (chars: Vec<char>)
    ensures
        chars@ == node_name(*node),
{
    match node {
        Node::File { name, .. } => chars_of(name.as_str()),
        Node::Dir { name, .. } => chars_of(name.as_str()),
    }
}

/// The place of a new name among names that stand in order: after the names that come
/// before it or equal it, before the first that comes after it.
fn place_of(keys: &Vec<Vec<char>>, key: &Vec<char>) -> (place: usize)
    requires
        forall|i: int, j: int|
            0 <= i < j < keys@.len() ==> precedes((#[trigger] keys@[i])@, (#[trigger] keys@[j])@),
    ensures
        place <= keys@.len(),
        forall|i: int| 0 <= i < place ==> precedes((#[trigger] keys@[i])@, key@),
        forall|i: int| place <= i < keys@.len() ==> precedes(key@, (#[trigger] keys@[i])@),
{
    let mut place: usize = 0;
    let mut found = false;
    while !found && place < keys.len()
        invariant
            place <= keys@.len(),
            forall|i: int| 0 <= i < place ==> precedes((#[trigger] keys@[i])@, key@),
            found ==> place < keys@.len() && !precedes(keys@[place as int]@, key@),
        decreases keys@.len() - place + if found { 0int } else { 1int },
    {
        if comes_first(&keys[place], key) {
            place += 1;
        } else {
            found = true;
        }
    }
    proof {
        if found {
            lemma_precedes_total(keys@[place as int]@, key@);
            assert forall|i: int| place <= i < keys@.len() implies precedes(
                key@,
                (#[trigger] keys@[i])@,
            ) by {
                if i > place {
                    lemma_precedes_transitive(key@, keys@[place as int]@, keys@[i]@);
                }
            }
        }
    }
    place
}

/// Sorts the entries of a tree by name, in every directory: by the order of a
/// dictionary over the codes of the characters. The result holds the same entries, in
/// that order.
pub fn sort_tree(nodes: Vec<Node>) -> (out: Vec<Node>)
    ensures
        sorted_tree(out@),
        rearranged(out@, nodes@),
    decreases nodes@,
{
    broadcast use vstd::std_specs::vec::axiom_vec_decreases_to_view;

    let ghost all = nodes@;
    let mut rest = nodes;
    let mut out: Vec<Node> = Vec::new();
    let mut keys: Vec<Vec<char>> = Vec::new();
    let ghost mut to: Seq<int> = Seq::empty();
    let ghost mut back: Seq<int> = Seq::new(all.len(), |j: int| 0int);
    while rest.len() > 0
        invariant
            all == nodes@,
            rest@.len() <= all.len(),
            rest@ == all.take(rest@.len() as int),
            out@.len() + rest@.len() == all.len(),
            keys@.len() == out@.len(),
            forall|i: int| 0 <= i < out@.len() ==> (#[trigger] keys@[i])@ == node_name(out@[i]),
            to.len() == out@.len(),
            back.len() == all.len(),
            forall|i: int|
                0 <= i < out@.len() ==> rest@.len() <= #[trigger] to[i] < all.len() && back[to[i]]
                    == i,
            forall|i: int| 0 <= i < out@.len() ==> alike(#[trigger] out@[i], all[to[i]]),
            forall|j: int|
                rest@.len() <= j < all.len() ==> 0 <= #[trigger] back[j] < out@.len()
                    && to[back[j]] == j,
            sorted_tree(out@),
        decreases rest@.len(),
    {
        let ghost m = rest@.len() - 1;
        let ghost before = out@;
        let popped = rest.pop();
        let node = match popped {
            Some(node) => node,
            None => {
                return out;
            },
        };
        assert(node == all[m]);
        let node = match node {
            Node::File { name, content } => {
                proof {
                    lemma_alike_itself(all[m]);
                }
                Node::File { name, content }
            },
            Node::Dir { name, children } => {
                proof {
                    vstd::seq::axiom_seq_index_decreases(all, m);
                    assert(decreases_to!(all => all[m]));
                    assert(decreases_to!(all[m] => children));
                    assert(decreases_to!(children => children@));
                }
                let sorted = sort_tree(children);
                Node::Dir { name, children: sorted }
            },
        };
        assert(alike(node, all[m]));
        proof {
            lemma_alike_names(node, all[m]);
        }
        let key = name_chars(&node);
        assert forall|i: int, j: int| 0 <= i < j < keys@.len() implies precedes(
            (#[trigger] keys@[i])@,
            (#[trigger] keys@[j])@,
        ) by {
            assert(precedes(node_name(out@[i]), node_name(out@[j])));
        }
        let place = place_of(&keys, &key);
        proof {
            before.insert_ensures(place as int, node);
            keys@.insert_ensures(place as int, key);
            to.insert_ensures(place as int, m);
        }
        let ghost old_keys = keys@;
        let ghost old_to = to;
        let ghost old_back = back;
        out.insert(place, node);
        keys.insert(place, key);
        proof {
            to = old_to.insert(place as int, m);
            back = Seq::new(
                all.len(),
                |j: int|
                    if j == m {
                        place as int
                    } else if old_back[j] >= place {
                        old_back[j] + 1
                    } else {
                        old_back[j]
                    },
            );
            assert(rest@ == all.take(m)) by {
                assert(all.take(m + 1).subrange(0, m) == all.take(m));
            }
            assert forall|i: int| 0 <= i < out@.len() implies (#[trigger] keys@[i])@ == node_name(
                out@[i],
            ) by {
                if i > place {
                    assert(keys@[i] == old_keys[i - 1]);
                    assert(out@[i] == before[i - 1]);
                }
            }
            assert forall|i: int| 0 <= i < out@.len() implies m <= #[trigger] to[i] < all.len()
                && back[to[i]] == i by {
                if i > place {
                    assert(to[i] == old_to[i - 1]);
                } else if i < place {
                    assert(to[i] == old_to[i]);
                }
            }
            assert forall|i: int| 0 <= i < out@.len() implies alike(#[trigger] out@[i], all[to[i]]) by {
                if i > place {
                    assert(to[i] == old_to[i - 1]);
                    assert(out@[i] == before[i - 1]);
                } else if i < place {
                    assert(to[i] == old_to[i]);
                    assert(out@[i] == before[i]);
                }
            }
            assert forall|j: int| m <= j < all.len() implies 0 <= #[trigger] back[j] < out@.len()
                && to[back[j]] == j by {
                if j > m {
                    let at = old_back[j];
                    assert(old_to[at] == j);
                    if at >= place {
                        assert(to[at + 1] == old_to[at]);
                    } else {
                        assert(to[at] == old_to[at]);
                    }
                }
            }
            assert forall|i: int, j: int| 0 <= i < j < out@.len() implies precedes(
                node_name(#[trigger] out@[i]),
                node_name(#[trigger] out@[j]),
            ) by {
                assert(keys@[i]@ == node_name(out@[i]));
                assert(keys@[j]@ == node_name(out@[j]));
                let a = if i < place {
                    i
                } else {
                    i - 1
                };
                let b = if j < place {
                    j
                } else {
                    j - 1
                };
                if i != place && j != place {
                    assert(out@[i] == before[a]);
                    assert(out@[j] == before[b]);
                    assert(precedes(node_name(before[a]), node_name(before[b])));
                } else if i == place {
                    assert(keys@[j] == old_keys[b]);
                    assert(precedes(key@, old_keys[b]@));
                } else {
                    assert(keys@[i] == old_keys[a]);
                    assert(precedes(old_keys[a]@, key@));
                }
            }
            assert forall|i: int| 0 <= i < out@.len() implies match #[trigger] out@[i] {
                Node::File { .. } => true,
                Node::Dir { children, .. } => sorted_tree(children@),
            } by {
                if i > place {
                    assert(out@[i] == before[i - 1]);
                } else if i < place {
                    assert(out@[i] == before[i]);
                }
            }
        }
    }
    proof {
        assert(bijection(to, back, out@.len()));
        assert(paired(out@, all, to));
    }
    out
}

} // verus!
