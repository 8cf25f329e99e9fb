//! Directory trees and the archive entries that they give rise to.

use vstd::prelude::*;

verus! {

/// One archive entry: its name, the password it is encrypted with (`None` for an entry
/// stored without encryption) and its content.
pub type Entry = (Seq<char>, Option<Seq<char>>, Seq<u8>);

/// An entry of a directory: a regular file with its content, or a subdirectory with its
/// own entries.
#[derive(Debug)]
pub enum Node {
    File { name: String, content: Vec<u8> },
    Dir { name: String, children: Vec<Node> },
}

/// The archive entries that one directory entry gives rise to below the archive path
/// `base`: a file becomes one entry named `base` followed by the file's name; a
/// directory contributes the entries of its children below `base`, its own name and a
/// separator.
pub open spec fn node_entries(node: Node, base: Seq<char>, password: Option<Seq<char>>) -> Seq<
    Entry,
>
    decreases node,
{
    match node {
        Node::File { name, content } => seq![(base + name@, password, content@)],
        Node::Dir { name, children } => tree_entries(
            children@,
            base + name@ + seq!['/'],
            password,
        ),
    }
}

/// The archive entries of a list of directory entries below the archive path `base`:
/// those of each entry, in the order of the list.
pub open spec fn tree_entries(nodes: Seq<Node>, base: Seq<char>, password: Option<Seq<char>>) -> Seq<
    Entry,
>
    decreases nodes,
{
    if nodes.len() == 0 {
        Seq::empty()
    } else {
        tree_entries(nodes.drop_last(), base, password) + node_entries(
            nodes.last(),
            base,
            password,
        )
    }
}

/// The name of a directory entry.
pub open spec fn node_name(node: Node) -> Seq<char> {
    match node {
        Node::File { name, .. } => name@,
        Node::Dir { name, .. } => name@,
    }
}

/// The path of the file `name` below the directories `dirs`, outermost first, relative
/// to where they start: each directory's name with a separator, then the file's name.
pub open spec fn relative_path(dirs: Seq<Seq<char>>, name: Seq<char>) -> Seq<char>
    decreases dirs.len(),
{
    if dirs.len() == 0 {
        name
    } else {
        dirs[0] + seq!['/'] + relative_path(dirs.drop_first(), name)
    }
}

/// Whether a directory entry is the file `name` with the given content.
pub open spec fn is_file(node: Node, name: Seq<char>, content: Seq<u8>) -> bool {
    match node {
        Node::File { name: n, content: c } => n@ == name && c@ == content,
        Node::Dir { .. } => false,
    }
}

/// Whether a directory entry is the directory `name`, and holds the file `name` with
/// the given content below the further directories `dirs`.
pub open spec fn is_dir_with(
    node: Node,
    dir: Seq<char>,
    dirs: Seq<Seq<char>>,
    name: Seq<char>,
    content: Seq<u8>,
) -> bool
    decreases node, 0nat,
{
    match node {
        Node::File { .. } => false,
        Node::Dir { name: n, children } => n@ == dir && holds_file(
            children@,
            dirs,
            name,
            content,
        ),
    }
}

/// Whether the tree holds a regular file `name` with the given content in the
/// directory reached through `dirs`, outermost first.
pub open spec fn holds_file(
    nodes: Seq<Node>,
    dirs: Seq<Seq<char>>,
    name: Seq<char>,
    content: Seq<u8>,
) -> bool
    decreases nodes, 1nat,
{
    if dirs.len() == 0 {
        exists|i: int| 0 <= i < nodes.len() && is_file(#[trigger] nodes[i], name, content)
    } else {
        exists|i: int|
            0 <= i < nodes.len() && is_dir_with(
                #[trigger] nodes[i],
                dirs[0],
                dirs.drop_first(),
                name,
                content,
            )
    }
}

/// Whether a tree is named as a file system names its entries: no name holds a
/// separator, no two entries of one directory share a name, and the same holds in every
/// subdirectory.
pub open spec fn well_named(nodes: Seq<Node>) -> bool
    decreases nodes,
{
    &&& forall|i: int| 0 <= i < nodes.len() ==> !node_name(#[trigger] nodes[i]).contains('/')
    &&& forall|i: int, j: int|
        0 <= i < j < nodes.len() ==> node_name(#[trigger] nodes[i]) != node_name(
            #[trigger] nodes[j],
        )
    &&& forall|i: int|
        0 <= i < nodes.len() ==> match #[trigger] nodes[i] {
            Node::File { .. } => true,
            Node::Dir { children, .. } => well_named(children@),
        }
}

/// Whether the archive name `path` belongs to the directory entry `name` below `base`:
/// it is `base` followed by `name`, or goes on with a separator after them.
pub open spec fn owned(path: Seq<char>, base: Seq<char>, name: Seq<char>) -> bool {
    let stem = base.len() + name.len();
    &&& path.len() >= stem
    &&& path.subrange(0, stem as int) == base + name
    &&& path.len() == stem || path[stem as int] == '/'
}

/// The entries of two lists of directory entries, one after the other, are the entries
/// of the first followed by those of the second.
pub proof fn lemma_tree_entries_concat(
    front: Seq<Node>,
    back: Seq<Node>,
    base: Seq<char>,
    password: Option<Seq<char>>,
)
    ensures
        tree_entries(front + back, base, password) == tree_entries(front, base, password)
            + tree_entries(back, base, password),
    decreases back.len(),
{
    if back.len() == 0 {
        assert(front + back == front);
    } else {
        lemma_tree_entries_concat(front, back.drop_last(), base, password);
        assert((front + back).drop_last() == front + back.drop_last());
        assert((front + back).last() == back.last());
    }
}

/// The entries of a list are those of the directory entries before position `i`, those
/// of the entry at `i`, and those of the entries after it, in this order.
pub proof fn lemma_tree_entries_split(
    nodes: Seq<Node>,
    i: int,
    base: Seq<char>,
    password: Option<Seq<char>>,
)
    requires
        0 <= i < nodes.len(),
    ensures
        tree_entries(nodes, base, password) == tree_entries(nodes.take(i), base, password)
            + node_entries(nodes[i], base, password) + tree_entries(
            nodes.skip(i + 1),
            base,
            password,
        ),
{
    let one = seq![nodes[i]];
    assert(nodes == nodes.take(i) + one + nodes.skip(i + 1));
    lemma_tree_entries_concat(nodes.take(i) + one, nodes.skip(i + 1), base, password);
    lemma_tree_entries_concat(nodes.take(i), one, base, password);
    assert(one.drop_last() == Seq::<Node>::empty());
    assert(tree_entries(one, base, password) == node_entries(nodes[i], base, password)) by {
        assert(one.last() == nodes[i]);
        assert(tree_entries(one.drop_last(), base, password) == Seq::<Entry>::empty());
        assert(Seq::<Entry>::empty() + node_entries(nodes[i], base, password) == node_entries(
            nodes[i],
            base,
            password,
        ));
    }
}

/// Every regular file of a tree, at any depth, has its archive entry: named by the
/// base path, the names of the directories that lead to the file, each with a
/// separator, and the file's name; with the content of the file; and encrypted as the
/// archive asks.
pub proof fn lemma_every_file_is_packed(
    nodes: Seq<Node>,
    dirs: Seq<Seq<char>>,
    name: Seq<char>,
    content: Seq<u8>,
    base: Seq<char>,
    password: Option<Seq<char>>,
)
    requires
        holds_file(nodes, dirs, name, content),
    ensures
        tree_entries(nodes, base, password).contains(
            (base + relative_path(dirs, name), password, content),
        ),
    decreases nodes,
{
    let entry = (base + relative_path(dirs, name), password, content);
    let all = tree_entries(nodes, base, password);
    if dirs.len() == 0 {
        let i = choose|i: int| 0 <= i < nodes.len() && is_file(#[trigger] nodes[i], name, content);
        lemma_tree_entries_split(nodes, i, base, password);
        let before = tree_entries(nodes.take(i), base, password);
        assert(node_entries(nodes[i], base, password)[0] == entry);
        assert(all[before.len() as int] == entry);
    } else {
        let i = choose|i: int|
            0 <= i < nodes.len() && is_dir_with(
                #[trigger] nodes[i],
                dirs[0],
                dirs.drop_first(),
                name,
                content,
            );
        lemma_tree_entries_split(nodes, i, base, password);
        let before = tree_entries(nodes.take(i), base, password);
        let within = node_entries(nodes[i], base, password);
        match nodes[i] {
            Node::File { .. } => {},
            Node::Dir { name: n, children } => {
                let below = base + dirs[0] + seq!['/'];
                lemma_every_file_is_packed(
                    children@,
                    dirs.drop_first(),
                    name,
                    content,
                    below,
                    password,
                );
                assert(below + relative_path(dirs.drop_first(), name) == base + relative_path(
                    dirs,
                    name,
                ));
                let k = choose|k: int| 0 <= k < within.len() && within[k] == entry;
                assert(all[before.len() + k] == entry);
            },
        }
    }
}

/// Every archive entry of a tree is encrypted as the archive asks, has a name that
/// starts with the base path, and belongs to one of the directory entries of the list.
pub proof fn lemma_tree_entry(
    nodes: Seq<Node>,
    base: Seq<char>,
    password: Option<Seq<char>>,
    k: int,
)
    requires
        0 <= k < tree_entries(nodes, base, password).len(),
    ensures
        ({
            let entry = tree_entries(nodes, base, password)[k];
            &&& entry.1 == password
            &&& entry.0.len() >= base.len()
            &&& entry.0.subrange(0, base.len() as int) == base
            &&& exists|i: int|
                0 <= i < nodes.len() && owned(entry.0, base, node_name(#[trigger] nodes[i]))
        }),
    decreases nodes, 1nat,
{
    let front = tree_entries(nodes.drop_last(), base, password);
    let entry = tree_entries(nodes, base, password)[k];
    if k < front.len() {
        lemma_tree_entry(nodes.drop_last(), base, password, k);
        let i = choose|i: int|
            0 <= i < nodes.drop_last().len() && owned(
                entry.0,
                base,
                node_name(#[trigger] nodes.drop_last()[i]),
            );
        assert(nodes[i] == nodes.drop_last()[i]);
    } else {
        lemma_node_entry(nodes.last(), base, password, k - front.len());
        assert(nodes[nodes.len() - 1] == nodes.last());
        let stem = base.len() + node_name(nodes.last()).len();
        assert(entry.0.subrange(0, base.len() as int) == entry.0.subrange(0, stem as int).subrange(
            0,
            base.len() as int,
        ));
    }
}

/// Every archive entry of one directory entry is encrypted as the archive asks and has
/// a name that belongs to that directory entry.
pub proof fn lemma_node_entry(node: Node, base: Seq<char>, password: Option<Seq<char>>, k: int)
    requires
        0 <= k < node_entries(node, base, password).len(),
    ensures
        ({
            let entry = node_entries(node, base, password)[k];
            &&& entry.1 == password
            &&& owned(entry.0, base, node_name(node))
        }),
    decreases node, 0nat,
{
    let entry = node_entries(node, base, password)[k];
    match node {
        Node::File { name, content } => {
            assert(entry.0 == base + name@);
            assert(entry.0.subrange(0, entry.0.len() as int) == entry.0);
        },
        Node::Dir { name, children } => {
            let below = base + name@ + seq!['/'];
            lemma_tree_entry(children@, below, password, k);
            let stem = base.len() + name@.len();
            assert(entry.0.subrange(0, stem as int) == entry.0.subrange(
                0,
                below.len() as int,
            ).subrange(0, stem as int));
            assert(below.subrange(0, stem as int) == base + name@);
            assert(entry.0[stem as int] == entry.0.subrange(0, below.len() as int)[stem as int]);
        },
    }
}

/// Two archive names that belong to directory entries of different names, neither of
/// which holds a separator, differ.
pub proof fn lemma_owned_apart(
    first: Seq<char>,
    second: Seq<char>,
    base: Seq<char>,
    a: Seq<char>,
    b: Seq<char>,
)
    requires
        owned(first, base, a),
        owned(second, base, b),
        a != b,
        !a.contains('/'),
        !b.contains('/'),
    ensures
        first != second,
{
    if first == second {
        let stem_a = base.len() + a.len();
        let stem_b = base.len() + b.len();
        if a.len() == b.len() {
            assert(base + a == base + b);
            assert(a =~= b) by {
                assert forall|i: int| 0 <= i < a.len() implies a[i] == b[i] by {
                    assert((base + a)[base.len() + i] == a[i]);
                    assert((base + b)[base.len() + i] == b[i]);
                }
            }
        } else if a.len() < b.len() {
            assert(first[stem_a as int] == '/');
            assert(second.subrange(0, stem_b as int)[stem_a as int] == (base + b)[stem_a as int]);
            assert(b[a.len() as int] == '/');
        } else {
            assert(second[stem_b as int] == '/');
            assert(first.subrange(0, stem_a as int)[stem_b as int] == (base + a)[stem_b as int]);
            assert(a[b.len() as int] == '/');
        }
    }
}

/// In a tree that is named as a file system names its entries, no two archive entries
/// have the same name: with `lemma_every_file_is_packed`, every file is packed exactly
/// once.
pub proof fn lemma_no_name_twice(
    nodes: Seq<Node>,
    base: Seq<char>,
    password: Option<Seq<char>>,
    first: int,
    second: int,
)
    requires
        well_named(nodes),
        0 <= first < second < tree_entries(nodes, base, password).len(),
    ensures
        tree_entries(nodes, base, password)[first].0 != tree_entries(
            nodes,
            base,
            password,
        )[second].0,
    decreases nodes,
{
    let front = tree_entries(nodes.drop_last(), base, password);
    let all = tree_entries(nodes, base, password);
    let last = nodes.last();
    assert(well_named(nodes.drop_last())) by {
        assert forall|i: int| 0 <= i < nodes.drop_last().len() implies nodes.drop_last()[i]
            == nodes[i] by {}
    }
    assert(nodes[nodes.len() - 1] == last);
    if second < front.len() {
        lemma_no_name_twice(nodes.drop_last(), base, password, first, second);
    } else if first >= front.len() {
        match last {
            Node::File { .. } => {
                assert(node_entries(last, base, password).len() == 1);
            },
            Node::Dir { name, children } => {
                assert(node_entries(last, base, password) == tree_entries(
                    children@,
                    base + name@ + seq!['/'],
                    password,
                ));
                lemma_no_name_twice(
                    children@,
                    base + name@ + seq!['/'],
                    password,
                    first - front.len(),
                    second - front.len(),
                );
            },
        }
    } else {
        lemma_tree_entry(nodes.drop_last(), base, password, first);
        lemma_node_entry(last, base, password, second - front.len());
        let i = choose|i: int|
            0 <= i < nodes.drop_last().len() && owned(
                all[first].0,
                base,
                node_name(#[trigger] nodes.drop_last()[i]),
            );
        assert(nodes.drop_last()[i] == nodes[i]);
        lemma_owned_apart(all[first].0, all[second].0, base, node_name(nodes[i]), node_name(last));
    }
}

/// Every archive entry of a tree is a regular file of the tree: it has the content of a
/// file that the tree holds, and the name that this file is packed under.
pub proof fn lemma_every_entry_is_a_file(
    nodes: Seq<Node>,
    base: Seq<char>,
    password: Option<Seq<char>>,
    k: int,
) -> (place: (Seq<Seq<char>>, Seq<char>))
    requires
        0 <= k < tree_entries(nodes, base, password).len(),
    ensures
        holds_file(nodes, place.0, place.1, tree_entries(nodes, base, password)[k].2),
        tree_entries(nodes, base, password)[k].0 == base + relative_path(place.0, place.1),
    decreases nodes,
{
    let front = tree_entries(nodes.drop_last(), base, password);
    let entry = tree_entries(nodes, base, password)[k];
    let last = nodes.last();
    assert(nodes[nodes.len() - 1] == last);
    if k < front.len() {
        let place = lemma_every_entry_is_a_file(nodes.drop_last(), base, password, k);
        lemma_holds_file_grows(nodes.drop_last(), seq![last], place.0, place.1, entry.2);
        assert(nodes.drop_last() + seq![last] == nodes);
        place
    } else {
        match last {
            Node::File { name, content } => {
                let place = (Seq::<Seq<char>>::empty(), name@);
                assert(node_entries(last, base, password) == seq![
                    (base + name@, password, content@),
                ]);
                assert(is_file(nodes[nodes.len() - 1], name@, content@));
                place
            },
            Node::Dir { name, children } => {
                let below = base + name@ + seq!['/'];
                assert(node_entries(last, base, password) == tree_entries(
                    children@,
                    below,
                    password,
                ));
                let inner = lemma_every_entry_is_a_file(
                    children@,
                    below,
                    password,
                    k - front.len(),
                );
                let dirs = seq![name@] + inner.0;
                assert(dirs.drop_first() == inner.0);
                assert(dirs[0] == name@);
                assert(is_dir_with(nodes[nodes.len() - 1], dirs[0], dirs.drop_first(), inner.1, entry.2));
                assert(below + relative_path(inner.0, inner.1) == base + relative_path(
                    dirs,
                    inner.1,
                ));
                (dirs, inner.1)
            },
        }
    }
}

/// A file that a list of directory entries holds is held by every list that starts
/// with these entries.
pub proof fn lemma_holds_file_grows(
    nodes: Seq<Node>,
    more: Seq<Node>,
    dirs: Seq<Seq<char>>,
    name: Seq<char>,
    content: Seq<u8>,
)
    requires
        holds_file(nodes, dirs, name, content),
    ensures
        holds_file(nodes + more, dirs, name, content),
{
    if dirs.len() == 0 {
        let i = choose|i: int| 0 <= i < nodes.len() && is_file(#[trigger] nodes[i], name, content);
        assert((nodes + more)[i] == nodes[i]);
    } else {
        let i = choose|i: int|
            0 <= i < nodes.len() && is_dir_with(
                #[trigger] nodes[i],
                dirs[0],
                dirs.drop_first(),
                name,
                content,
            );
        assert((nodes + more)[i] == nodes[i]);
    }
}

/// Packing the same tree below the same base path gives, whatever the passwords of
/// the two archives, entries of the same number, names and contents, in the same order.
pub proof fn lemma_packing_is_repeatable(
    nodes: Seq<Node>,
    base: Seq<char>,
    one: Option<Seq<char>>,
    other: Option<Seq<char>>,
)
    ensures
        tree_entries(nodes, base, one).len() == tree_entries(nodes, base, other).len(),
        forall|k: int|
            0 <= k < tree_entries(nodes, base, one).len() ==> {
                &&& (#[trigger] tree_entries(nodes, base, one)[k]).0 == tree_entries(
                    nodes,
                    base,
                    other,
                )[k].0
                &&& tree_entries(nodes, base, one)[k].2 == tree_entries(nodes, base, other)[k].2
            },
    decreases nodes,
{
    if nodes.len() > 0 {
        lemma_packing_is_repeatable(nodes.drop_last(), base, one, other);
        let last = nodes.last();
        match last {
            Node::File { name, content } => {
                assert(node_entries(last, base, one) == seq![(base + name@, one, content@)]);
                assert(node_entries(last, base, other) == seq![(base + name@, other, content@)]);
            },
            Node::Dir { name, children } => {
                let below = base + name@ + seq!['/'];
                lemma_packing_is_repeatable(children@, below, one, other);
                assert(node_entries(last, base, one) == tree_entries(children@, below, one));
                assert(node_entries(last, base, other) == tree_entries(children@, below, other));
            },
        }
    }
}

} // verus!
