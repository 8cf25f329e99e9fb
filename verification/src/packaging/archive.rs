//! A compressed, optionally password-protected archive built in memory.
//!
//! The archive is modelled by the sequence of its entries, each with its name, the
//! password it is encrypted with (if any) and its content, and by the compression
//! method of each entry.

use crate::naming::texts;
use crate::packaging::tree::lemma_tree_entries_concat;
use crate::packaging::tree::lemma_tree_entry;
use crate::packaging::tree::node_entries;
use crate::packaging::tree::tree_entries;
use crate::packaging::tree::Entry;
use crate::packaging::tree::Node;
use crate::text::separated;
use crate::text::unrooted;
use crate::text::with_separator;
use crate::text::without_root;
use std::io::Cursor;
use std::io::Write;
use vstd::prelude::*;
use vstd::string::StringExecFns;
use zip::result::ZipError;
use zip::unstable::write::FileOptionsExt;
use zip::write::FileOptions;
use zip::CompressionMethod;
use zip::ZipWriter;

verus! {

/// The most bytes an entry name may take in its UTF-8 encoding: the archive format
/// stores the length of a name in sixteen bits.
pub const MAX_NAME_BYTES: usize = 65535;

/// The compression method of every entry, by its code in the archive format: bzip2.
pub const BZIP2: u16 = 12;

/// The error type of the `zip` crate (`zip::result::ZipError`), carried as it comes.
#[verifier::external_type_specification]
#[verifier::external_body]
pub struct ExZipError(ZipError);

/// The error type of input and output (`std::io::Error`), carried as it comes.
#[verifier::external_type_specification]
#[verifier::external_body]
pub struct ExIoError(std::io::Error);

/// The archive writer of the `zip` crate (`zip::ZipWriter`) over a buffer in memory.
#[verifier::external_body]
pub struct ZipSink {
    inner: ZipWriter<Cursor<Vec<u8>>>,
}

/// The entries that have been started on a writer, in the order in which they were
/// started, each with the bytes written to it so far.
pub uninterp spec fn sink_entries(sink: ZipSink) -> Seq<(Seq<char>, Option<Seq<char>>, Seq<u8>)>;

/// The compression method of each entry that has been started on a writer, by its code
/// in the archive format, in the order of the entries.
pub uninterp spec fn sink_methods(sink: ZipSink) -> Seq<u16>;

/// Whether a writer is in use as it is meant to be: it has not been finished, and no
/// call on it has failed.
pub uninterp spec fn sink_open(sink: ZipSink) -> bool;

/// The bytes that a writer hands out when it is finished now.
pub uninterp spec fn sink_container(sink: ZipSink) -> Seq<u8>;

/// Whether `ZipWriter::start_file` succeeds on a writer in use that holds the given
/// entries, for a new entry of the given name, compression method and password.
pub uninterp spec fn zip_starts(
    entries: Seq<(Seq<char>, Option<Seq<char>>, Seq<u8>)>,
    methods: Seq<u16>,
    name: Seq<char>,
    method: u16,
    password: Option<Seq<char>>,
) -> bool;

/// Whether `Write::write_all` succeeds on a writer in use that holds the given entries,
/// for the given bytes.
pub uninterp spec fn zip_takes(
    entries: Seq<(Seq<char>, Option<Seq<char>>, Seq<u8>)>,
    methods: Seq<u16>,
    data: Seq<u8>,
) -> bool;

/// Whether `ZipWriter::finish` succeeds on a writer in use that holds the given entries.
pub uninterp spec fn zip_closes(
    entries: Seq<(Seq<char>, Option<Seq<char>>, Seq<u8>)>,
    methods: Seq<u16>,
) -> bool;

/// Whether a name is short enough to be stored in an archive.
pub open spec fn name_fits(name: Seq<char>) -> bool {
    vstd::utf8::encode_utf8(name).len() <= MAX_NAME_BYTES
}

/// The entries with `data` appended to the content of the last one; with no entry,
/// nothing changes.
pub open spec fn extend_last(entries: Seq<Entry>, data: Seq<u8>) -> Seq<Entry> {
    if entries.len() == 0 {
        entries
    } else {
        let last = entries.last();
        entries.update(entries.len() - 1, (last.0, last.1, last.2 + data))
    }
}

/// Whether the entries `before` stand unchanged at the front of `after`.
pub open spec fn kept(before: Seq<Entry>, after: Seq<Entry>) -> bool {
    &&& before.len() <= after.len()
    &&& forall|i: int| 0 <= i < before.len() ==> #[trigger] after[i] == before[i]
}

/// Whether all entries but the last stand unchanged, and none has come or gone.
pub open spec fn kept_but_last(before: Seq<Entry>, after: Seq<Entry>) -> bool {
    &&& before.len() == after.len()
    &&& forall|i: int| 0 <= i < before.len() - 1 ==> #[trigger] after[i] == before[i]
}

/// `ZipWriter::new` over an empty in-memory buffer: a writer in use on which no entry
/// has been started.
#[verifier::external_body]
fn sink_new() -> (sink: ZipSink)
    ensures
        sink_entries(sink) == Seq::<Entry>::empty(),
        sink_methods(sink) == Seq::<u16>::empty(),
        sink_open(sink),
{
    ZipSink { inner: ZipWriter::new(Cursor::new(Vec::new())) }
}

/// `ZipWriter::start_file` with the compression method of the given code
/// (`CompressionMethod::from_u16`) and no encryption. On a writer in use the call
/// succeeds exactly if `zip_starts` says so. When it succeeds, a new, empty,
/// unencrypted entry of the given name and method follows the entries started before,
/// and the writer stays in use. When it fails, the entries started before stay first.
#[verifier::external_body]
#[allow(deprecated)]
fn sink_start_plain(sink: &mut ZipSink, name: &str, method: u16) -> (started: Result<
    (),
    ZipError,
>)
    requires
        name_fits(name@),
    ensures
        sink_open(*old(sink)) ==> (started is Ok) == zip_starts(
            sink_entries(*old(sink)),
            sink_methods(*old(sink)),
            name@,
            method,
            None,
        ),
        started is Ok ==> sink_entries(*final(sink)) == sink_entries(*old(sink)).push(
            (name@, None, Seq::empty()),
        ),
        started is Ok ==> sink_methods(*final(sink)) == sink_methods(*old(sink)).push(method),
        started is Ok && sink_open(*old(sink)) ==> sink_open(*final(sink)),
        started is Err ==> kept(sink_entries(*old(sink)), sink_entries(*final(sink))),
{
    sink.inner.start_file(
        name,
        FileOptions::default().compression_method(CompressionMethod::from_u16(method)),
    )
}

/// `ZipWriter::start_file` with the compression method of the given code
/// (`CompressionMethod::from_u16`) and the format's legacy encryption
/// (`FileOptionsExt::with_deprecated_encryption`) under the given password. On a writer
/// in use the call succeeds exactly if `zip_starts` says so. When it succeeds, a new,
/// empty entry of the given name and method, encrypted with that password, follows the
/// entries started before, and the writer stays in use. When it fails, the entries
/// started before stay first.
#[verifier::external_body]
#[allow(deprecated)]
fn sink_start_encrypted(sink: &mut ZipSink, name: &str, method: u16, password: &str) -> (started:
    Result<(), ZipError>)
    requires
        name_fits(name@),
    ensures
        sink_open(*old(sink)) ==> (started is Ok) == zip_starts(
            sink_entries(*old(sink)),
            sink_methods(*old(sink)),
            name@,
            method,
            Some(password@),
        ),
        started is Ok ==> sink_entries(*final(sink)) == sink_entries(*old(sink)).push(
            (name@, Some(password@), Seq::empty()),
        ),
        started is Ok ==> sink_methods(*final(sink)) == sink_methods(*old(sink)).push(method),
        started is Ok && sink_open(*old(sink)) ==> sink_open(*final(sink)),
        started is Err ==> kept(sink_entries(*old(sink)), sink_entries(*final(sink))),
{
    sink.inner.start_file(
        name,
        FileOptions::default().compression_method(
            CompressionMethod::from_u16(method),
        ).with_deprecated_encryption(password.as_bytes()),
    )
}

/// `Write::write_all` on the `ZipWriter`. On a writer in use the call succeeds exactly
/// if `zip_takes` says so. When it succeeds, the bytes have been appended to the content
/// of the entry started last, and the writer stays in use. When it fails, no entry has
/// come or gone and all but the last are unchanged.
#[verifier::external_body]
fn sink_write(sink: &mut ZipSink, data: &[u8]) -> (written: Result<(), std::io::Error>)
    ensures
        sink_open(*old(sink)) ==> (written is Ok) == zip_takes(
            sink_entries(*old(sink)),
            sink_methods(*old(sink)),
            data@,
        ),
        written is Ok ==> sink_entries(*final(sink)) == extend_last(
            sink_entries(*old(sink)),
            data@,
        ),
        written is Ok ==> sink_methods(*final(sink)) == sink_methods(*old(sink)),
        written is Ok && sink_open(*old(sink)) ==> sink_open(*final(sink)),
        written is Err ==> kept_but_last(sink_entries(*old(sink)), sink_entries(*final(sink))),
{
    sink.inner.write_all(data)
}

/// `ZipWriter::finish`, followed by `Cursor::into_inner`: closes the last entry, writes
/// the directory of the archive and hands out the bytes of the finished container. On a
/// writer in use the call succeeds exactly if `zip_closes` says so. When it succeeds,
/// the bytes are those that `sink_container` names for the writer as it was, and the
/// entries and their methods are those started before. When it fails, the entries
/// started before stay first.
#[verifier::external_body]
fn sink_finish(sink: &mut ZipSink) -> (finished: Result<Vec<u8>, ZipError>)
    ensures
        sink_open(*old(sink)) ==> (finished is Ok) == zip_closes(
            sink_entries(*old(sink)),
            sink_methods(*old(sink)),
        ),
        finished matches Ok(bytes) ==> bytes@ == sink_container(*old(sink)),
        finished is Ok ==> sink_entries(*final(sink)) == sink_entries(*old(sink)),
        finished is Ok ==> sink_methods(*final(sink)) == sink_methods(*old(sink)),
        finished is Err ==> kept(sink_entries(*old(sink)), sink_entries(*final(sink))),
{
    match sink.inner.finish() {
        Ok(cursor) => Ok(cursor.into_inner()),
        Err(e) => Err(e),
    }
}

/// Why an operation on an archive did not take place or did not succeed.
#[derive(Clone, Copy, Debug, PartialEq, Eq, Structural)]
pub enum ArchiveError {
    /// The archive has been finished; it takes no further entries.
    Sealed,
    /// An earlier operation failed in the writer; the archive cannot be used any more.
    Broken,
    /// The name of an entry takes more than `MAX_NAME_BYTES` bytes.
    NameTooLong,
    /// The writer failed to store an entry or to finish the archive.
    Io,
}

/// What an archive is, for its contracts.
pub struct ArchiveState {
    /// The entries added so far, in order.
    pub entries: Seq<Entry>,
    /// The compression method of each entry, by its code in the archive format.
    pub methods: Seq<u16>,
    /// Where the finished archive is meant to be stored.
    pub path: Seq<char>,
    /// The password of the archive; empty for an archive without encryption.
    pub password: Seq<char>,
    /// Whether the archive has been finished.
    pub sealed: bool,
    /// Whether an operation of the writer has failed.
    pub broken: bool,
}

/// The password under which an archive with the given password setting encrypts its
/// entries: none where the setting is empty.
pub open spec fn protection(password: Seq<char>) -> Option<Seq<char>> {
    if password.len() == 0 {
        None
    } else {
        Some(password)
    }
}

/// Whether every entry is compressed with bzip2 and is encrypted under the given
/// password setting: with its password where it is not empty, not at all where it is.
pub open spec fn uniform(entries: Seq<Entry>, methods: Seq<u16>, password: Seq<char>) -> bool {
    &&& methods.len() == entries.len()
    &&& forall|i: int|
        0 <= i < entries.len() ==> (#[trigger] entries[i]).1 == protection(password)
            && methods[i] == BZIP2
}

impl ArchiveState {
    /// Whether the archive holds to its policy: every entry is compressed with bzip2,
    /// and every entry is encrypted under the archive's password, or none is where the
    /// password is empty.
    pub open spec fn uniform(self) -> bool {
        uniform(self.entries, self.methods, self.password)
    }
}

/// The method code of bzip2, `count` times.
pub open spec fn bzip2s(count: nat) -> Seq<u16> {
    Seq::new(count, |i: int| BZIP2)
}

/// Whether the writer, holding the given entries, accepts one more entry: its start and
/// then its bytes.
pub open spec fn accepts_entry(entries: Seq<Entry>, methods: Seq<u16>, entry: Entry) -> bool {
    &&& zip_starts(entries, methods, entry.0, BZIP2, entry.1)
    &&& zip_takes(
        entries.push((entry.0, entry.1, Seq::empty())),
        methods.push(BZIP2),
        entry.2,
    )
}

/// Whether the writer, holding the given entries, accepts the entries of `more` one
/// after the other.
pub open spec fn accepts(entries: Seq<Entry>, methods: Seq<u16>, more: Seq<Entry>) -> bool
    decreases more.len(),
{
    more.len() == 0 || {
        &&& accepts(entries, methods, more.drop_last())
        &&& accepts_entry(
            entries + more.drop_last(),
            methods + bzip2s((more.len() - 1) as nat),
            more.last(),
        )
    }
}

/// The writer accepts two runs of entries one after the other exactly if it accepts
/// the first and, holding it, the second.
pub proof fn lemma_accepts_concat(
    entries: Seq<Entry>,
    methods: Seq<u16>,
    first: Seq<Entry>,
    second: Seq<Entry>,
)
    ensures
        accepts(entries, methods, first + second) == (accepts(entries, methods, first)
            && accepts(entries + first, methods + bzip2s(first.len()), second)),
    decreases second.len(),
{
    if second.len() == 0 {
        assert(first + second == first);
    } else {
        let front = second.drop_last();
        lemma_accepts_concat(entries, methods, first, front);
        assert((first + second).drop_last() == first + front);
        assert((first + second).last() == second.last());
        assert(entries + (first + front) == (entries + first) + front);
        assert(methods + bzip2s((first.len() + front.len()) as nat) == (methods + bzip2s(
            first.len(),
        )) + bzip2s(front.len()));
    }
}

/// The writer accepts a run of one entry exactly if it accepts that entry.
pub proof fn lemma_accepts_one(entries: Seq<Entry>, methods: Seq<u16>, entry: Entry)
    ensures
        accepts(entries, methods, seq![entry]) == accepts_entry(entries, methods, entry),
{
    let one = seq![entry];
    assert(one.drop_last() == Seq::<Entry>::empty());
    assert(one.last() == entry);
    assert(accepts(entries, methods, one.drop_last()));
    assert(entries + one.drop_last() == entries);
    assert(methods + bzip2s(0) == methods);
}

/// Whether every entry has a name short enough to be stored.
pub open spec fn all_names_fit(entries: Seq<Entry>) -> bool {
    forall|i: int| 0 <= i < entries.len() ==> name_fits(#[trigger] entries[i].0)
}

/// The archive path below which a directory is packed: the prefix, then the
/// subdirectory without the separators that it begins with, each closed by one separator
/// unless it is empty.
pub open spec fn dir_base(prefix: Seq<char>, subdir: Seq<char>) -> Seq<char> {
    with_separator(prefix) + with_separator(unrooted(subdir))
}

/// The directory that is read when the directory `root` is packed from the
/// subdirectory `subdir` on: `root` itself where the subdirectory is empty, else the
/// two with one separator between them and one at the end.
pub open spec fn source_dir(root: Seq<char>, subdir: Seq<char>) -> Seq<char> {
    if unrooted(subdir).len() == 0 {
        root
    } else {
        with_separator(root) + with_separator(unrooted(subdir))
    }
}

/// Whether the entry names of one directory entry below `base` are short enough.
pub open spec fn node_fits(node: Node, base: Seq<char>) -> bool
    decreases node,
{
    match node {
        Node::File { name, .. } => name_fits(base + name@),
        Node::Dir { name, children } => tree_fits(children@, base + name@ + seq!['/']),
    }
}

/// Whether the entry names of a list of directory entries below `base` are short enough.
pub open spec fn tree_fits(nodes: Seq<Node>, base: Seq<char>) -> bool
    decreases nodes,
{
    nodes.len() == 0 || (tree_fits(nodes.drop_last(), base) && node_fits(nodes.last(), base))
}

/// The names of a tree are short enough exactly if those of all its archive entries are.
pub proof fn lemma_tree_fits(nodes: Seq<Node>, base: Seq<char>, password: Option<Seq<char>>)
    ensures
        tree_fits(nodes, base) == all_names_fit(tree_entries(nodes, base, password)),
    decreases nodes,
{
    if nodes.len() > 0 {
        let front = tree_entries(nodes.drop_last(), base, password);
        let back = node_entries(nodes.last(), base, password);
        lemma_tree_fits(nodes.drop_last(), base, password);
        lemma_node_fits(nodes.last(), base, password);
        if all_names_fit(front + back) {
            assert forall|i: int| 0 <= i < front.len() implies name_fits(#[trigger] front[i].0) by {
                assert((front + back)[i] == front[i]);
            }
            assert forall|i: int| 0 <= i < back.len() implies name_fits(#[trigger] back[i].0) by {
                assert((front + back)[front.len() + i] == back[i]);
            }
        }
        if all_names_fit(front) && all_names_fit(back) {
            assert forall|i: int| 0 <= i < (front + back).len() implies name_fits(
                #[trigger] (front + back)[i].0,
            ) by {
                if i >= front.len() {
                    assert((front + back)[i] == back[i - front.len()]);
                }
            }
        }
    }
}

/// The names below a directory entry are short enough exactly if those of all its
/// archive entries are.
pub proof fn lemma_node_fits(node: Node, base: Seq<char>, password: Option<Seq<char>>)
    ensures
        node_fits(node, base) == all_names_fit(node_entries(node, base, password)),
    decreases node,
{
    match node {
        Node::File { name, content } => {
            let only = seq![(base + name@, password, content@)];
            assert(only[0].0 == base + name@);
        },
        Node::Dir { name, children } => {
            lemma_tree_fits(children@, base + name@ + seq!['/'], password);
        },
    }
}

/// The entries of the first `n + 1` entries of a list are those of the first `n`,
/// followed by those of the entry at `n`.
pub proof fn lemma_tree_step(nodes: Seq<Node>, n: int, base: Seq<char>, password: Option<Seq<char>>)
    requires
        0 <= n < nodes.len(),
    ensures
        tree_entries(nodes.take(n + 1), base, password) == tree_entries(
            nodes.take(n),
            base,
            password,
        ) + node_entries(nodes[n], base, password),
        tree_fits(nodes.take(n + 1), base) == (tree_fits(nodes.take(n), base) && node_fits(
            nodes[n],
            base,
        )),
{
    assert(nodes.take(n + 1).drop_last() == nodes.take(n));
    assert(nodes.take(n + 1).last() == nodes[n]);
}

/// A name that fits in the whole tree fits at each of its entries.
pub proof fn lemma_fits_at(nodes: Seq<Node>, n: int, base: Seq<char>)
    requires
        0 <= n < nodes.len(),
    ensures
        tree_fits(nodes, base) ==> tree_fits(nodes.take(n), base) && node_fits(nodes[n], base),
    decreases nodes.len(),
{
    if n == nodes.len() - 1 {
        assert(nodes.take(n) == nodes.drop_last());
    } else {
        lemma_fits_at(nodes.drop_last(), n, base);
        assert(nodes.drop_last().take(n) == nodes.take(n));
    }
}

/// A writer that accepts the entries of a whole list accepts those of its first `n`
/// directory entries.
pub proof fn lemma_accepts_front(
    entries: Seq<Entry>,
    methods: Seq<u16>,
    nodes: Seq<Node>,
    n: int,
    base: Seq<char>,
    password: Option<Seq<char>>,
)
    requires
        0 <= n <= nodes.len(),
        accepts(entries, methods, tree_entries(nodes, base, password)),
    ensures
        accepts(entries, methods, tree_entries(nodes.take(n), base, password)),
{
    assert(nodes == nodes.take(n) + nodes.skip(n));
    lemma_tree_entries_concat(nodes.take(n), nodes.skip(n), base, password);
    lemma_accepts_concat(
        entries,
        methods,
        tree_entries(nodes.take(n), base, password),
        tree_entries(nodes.skip(n), base, password),
    );
}

/// The directory that is read when `target_dir_path` is packed from `recursive_subdir`
/// on.
pub fn read_path(target_dir_path: &str, recursive_subdir: &str) -> (path: String)
    ensures
        path@ == source_dir(target_dir_path@, recursive_subdir@),
{
    let below = without_root(recursive_subdir);
    if below.as_str().unicode_len() == 0 {
        String::from_str(target_dir_path)
    } else {
        let mut path = separated(target_dir_path);
        let closed = separated(below.as_str());
        path.append(closed.as_str());
        path
    }
}

/// The archive path below which a directory is packed.
pub fn base_path(archive_subdir: &str, recursive_subdir: &str) -> (base: String)
    ensures
        base@ == dir_base(archive_subdir@, recursive_subdir@),
{
    let mut base = separated(archive_subdir);
    let inner = without_root(recursive_subdir);
    let below = separated(inner.as_str());
    base.append(below.as_str());
    base
}

/// The names of entries, in their order.
pub open spec fn names_of(entries: Seq<Entry>) -> Seq<Seq<char>> {
    Seq::new(entries.len(), |i: int| entries[i].0)
}

/// Appends to `out` the names of the archive entries of a directory below `base`.
fn collect_names(nodes: &Vec<Node>, base: &String, out: &mut Vec<String>)
    ensures
        texts(final(out)@) == texts(old(out)@) + names_of(tree_entries(nodes@, base@, None)),
    decreases nodes,
{
    broadcast use vstd::std_specs::vec::axiom_vec_index_decreases;

    let ghost first = texts(out@);
    let mut i: usize = 0;
    proof {
        assert(first + names_of(tree_entries(nodes@.take(0), base@, None)) == first);
    }
    while i < nodes.len()
        invariant
            i <= nodes.len(),
            first == texts(old(out)@),
            texts(out@) == first + names_of(tree_entries(nodes@.take(i as int), base@, None)),
        decreases nodes.len() - i,
    {
        let ghost done = tree_entries(nodes@.take(i as int), base@, None);
        let ghost next = node_entries(nodes@[i as int], base@, None);
        let ghost held = texts(out@);
        proof {
            lemma_tree_step(nodes@, i as int, base@, None);
            assert(names_of(done + next) == names_of(done) + names_of(next));
        }
        match &nodes[i] {
            Node::File { name, content } => {
                let mut full = base.clone();
                full.append(name.as_str());
                out.push(full);
                proof {
                    assert(next == seq![(base@ + name@, None::<Seq<char>>, content@)]);
                    assert(texts(out@) == held + names_of(next));
                }
            },
            Node::Dir { name, children } => {
                let mut below = base.clone();
                below.append(name.as_str());
                below.append("/");
                proof {
                    reveal_strlit("/");
                    assert("/"@ == seq!['/']);
                    assert(next == tree_entries(children@, base@ + name@ + seq!['/'], None));
                }
                collect_names(children, &below, out);
            },
        }
        proof {
            assert(first + (names_of(done) + names_of(next)) == (first + names_of(done))
                + names_of(next));
        }
        i += 1;
    }
    proof {
        assert(nodes@.take(nodes.len() as int) == nodes@);
    }
}

/// The names under which the files of a tree are packed below `base`, in the order in
/// which they are packed. Only the names of the tree are looked at: with the directory
/// that is read as `base` the result is the path of each file, so that the files can be
/// read and packed one at a time.
pub fn entry_names(tree: &Vec<Node>, base: &str) -> (names: Vec<String>)
    ensures
        texts(names@) == names_of(tree_entries(tree@, base@, None)),
{
    let mut names: Vec<String> = Vec::new();
    let start = String::from_str(base);
    collect_names(tree, &start, &mut names);
    proof {
        assert(texts(Seq::<String>::empty()) == Seq::<Seq<char>>::empty());
        assert(Seq::<Seq<char>>::empty() + names_of(tree_entries(tree@, base@, None)) == names_of(
            tree_entries(tree@, base@, None),
        ));
    }
    names
}

/// Stores one entry on a writer in use: starts it, then writes its bytes.
fn store(sink: &mut ZipSink, password: &String, content: &[u8], name: &str) -> (result: Result<
    (),
    ArchiveError,
>)
    requires
        sink_open(*old(sink)),
        name_fits(name@),
    ensures
        (result is Ok) == accepts_entry(
            sink_entries(*old(sink)),
            sink_methods(*old(sink)),
            (name@, protection(password@), content@),
        ),
        result is Ok ==> {
            &&& sink_entries(*final(sink)) == sink_entries(*old(sink)).push(
                (name@, protection(password@), content@),
            )
            &&& sink_methods(*final(sink)) == sink_methods(*old(sink)).push(BZIP2)
            &&& sink_open(*final(sink))
        },
        result is Err ==> result == Err::<(), ArchiveError>(ArchiveError::Io) && kept(
            sink_entries(*old(sink)),
            sink_entries(*final(sink)),
        ),
{
    let ghost before = sink_entries(*sink);
    let started = if password.as_str().is_empty() {
        sink_start_plain(sink, name, BZIP2)
    } else {
        sink_start_encrypted(sink, name, BZIP2, password.as_str())
    };
    if Archive::settle(started).is_err() {
        return Err(ArchiveError::Io);
    }
    let ghost begun = sink_entries(*sink);
    let written = sink_write(sink, content);
    proof {
        let entry = (name@, protection(password@), content@);
        assert(begun == before.push((entry.0, entry.1, Seq::empty())));
        assert(Seq::<u8>::empty() + content@ == content@);
        assert(extend_last(begun, content@) == before.push(entry));
        if written is Err {
            assert forall|i: int| 0 <= i < before.len() implies #[trigger] sink_entries(*sink)[i]
                == before[i] by {
                assert(begun[i] == before[i]);
            }
        }
    }
    Archive::settle(written)
}

/// Stores the entries of a directory below the archive path `base` on a writer in use,
/// after their names were found to fit.
fn store_nodes(sink: &mut ZipSink, password: &String, nodes: &Vec<Node>, base: &String) -> (result:
    Result<(), ArchiveError>)
    requires
        sink_open(*old(sink)),
        tree_fits(nodes@, base@),
    ensures
        (result is Ok) == accepts(
            sink_entries(*old(sink)),
            sink_methods(*old(sink)),
            tree_entries(nodes@, base@, protection(password@)),
        ),
        result is Ok ==> {
            &&& sink_entries(*final(sink)) == sink_entries(*old(sink)) + tree_entries(
                nodes@,
                base@,
                protection(password@),
            )
            &&& sink_methods(*final(sink)) == sink_methods(*old(sink)) + bzip2s(
                tree_entries(nodes@, base@, protection(password@)).len(),
            )
            &&& sink_open(*final(sink))
        },
        result is Err ==> result == Err::<(), ArchiveError>(ArchiveError::Io) && kept(
            sink_entries(*old(sink)),
            sink_entries(*final(sink)),
        ),
    decreases nodes,
{
    broadcast use vstd::std_specs::vec::axiom_vec_index_decreases;

    let ghost first = sink_entries(*sink);
    let ghost codes = sink_methods(*sink);
    let ghost key = protection(password@);
    let ghost all = tree_entries(nodes@, base@, key);
    let mut i: usize = 0;
    proof {
        assert(first + tree_entries(nodes@.take(0), base@, key) == first);
        assert(codes + bzip2s(0) == codes);
    }
    while i < nodes.len()
        invariant
            i <= nodes.len(),
            first == sink_entries(*old(sink)),
            codes == sink_methods(*old(sink)),
            key == protection(password@),
            all == tree_entries(nodes@, base@, key),
            tree_fits(nodes@, base@),
            sink_open(*sink),
            sink_entries(*sink) == first + tree_entries(nodes@.take(i as int), base@, key),
            sink_methods(*sink) == codes + bzip2s(
                tree_entries(nodes@.take(i as int), base@, key).len(),
            ),
            accepts(first, codes, tree_entries(nodes@.take(i as int), base@, key)),
        decreases nodes.len() - i,
    {
        let ghost done = tree_entries(nodes@.take(i as int), base@, key);
        let ghost next = node_entries(nodes@[i as int], base@, key);
        let ghost held = sink_entries(*sink);
        proof {
            lemma_tree_step(nodes@, i as int, base@, key);
            lemma_fits_at(nodes@, i as int, base@);
            lemma_accepts_concat(first, codes, done, next);
            if accepts(first, codes, all) {
                lemma_accepts_front(first, codes, nodes@, i + 1, base@, key);
            }
        }
        let added = match &nodes[i] {
            Node::File { name, content } => {
                let mut full = base.clone();
                full.append(name.as_str());
                proof {
                    lemma_accepts_one(held, sink_methods(*sink), (base@ + name@, key, content@));
                    assert(next == seq![(base@ + name@, key, content@)]);
                }
                store(sink, password, content.as_slice(), full.as_str())
            },
            Node::Dir { name, children } => {
                let mut below = base.clone();
                below.append(name.as_str());
                below.append("/");
                proof {
                    reveal_strlit("/");
                    assert("/"@ == seq!['/']);
                    assert(next == tree_entries(children@, base@ + name@ + seq!['/'], key));
                }
                store_nodes(sink, password, children, &below)
            },
        };
        if added.is_err() {
            proof {
                assert forall|k: int| 0 <= k < first.len() implies #[trigger] sink_entries(
                    *sink,
                )[k] == first[k] by {
                    assert(held[k] == first[k]);
                }
            }
            return Err(ArchiveError::Io);
        }
        proof {
            assert(first + (done + next) == (first + done) + next);
            assert(codes + bzip2s((done + next).len()) == (codes + bzip2s(done.len())) + bzip2s(
                next.len(),
            ));
            match nodes@[i as int] {
                Node::File { name, content } => {
                    assert(held.push((base@ + name@, key, content@)) == held + next);
                    assert((codes + bzip2s(done.len())).push(BZIP2) == (codes + bzip2s(
                        done.len(),
                    )) + bzip2s(1));
                },
                Node::Dir { .. } => {},
            }
        }
        i += 1;
    }
    proof {
        assert(nodes@.take(nodes.len() as int) == nodes@);
    }
    Ok(())
}

/// Tells whether all entry names of a directory below the archive path `base` are short
/// enough to be stored.
fn names_fit(nodes: &Vec<Node>, base: &String) -> (fits: bool)
    ensures
        fits == tree_fits(nodes@, base@),
    decreases nodes,
{
    broadcast use vstd::std_specs::vec::axiom_vec_index_decreases;

    let mut i: usize = 0;
    while i < nodes.len()
        invariant
            i <= nodes.len(),
            tree_fits(nodes@.take(i as int), base@),
        decreases nodes.len() - i,
    {
        proof {
            lemma_tree_step(nodes@, i as int, base@, None);
        }
        let fits = match &nodes[i] {
            Node::File { name, .. } => {
                let mut full = base.clone();
                full.append(name.as_str());
                full.as_str().as_bytes().len() <= MAX_NAME_BYTES
            },
            Node::Dir { name, children } => {
                let mut below = base.clone();
                below.append(name.as_str());
                below.append("/");
                proof {
                    reveal_strlit("/");
                    assert("/"@ == seq!['/']);
                }
                names_fit(children, &below)
            },
        };
        if !fits {
            proof {
                lemma_fits_at(nodes@, i as int, base@);
            }
            return false;
        }
        i += 1;
    }
    proof {
        assert(nodes@.take(nodes.len() as int) == nodes@);
    }
    true
}

/// An archive under construction.
pub struct Archive {
    sink: ZipSink,
    path: String,
    password: String,
    sealed: bool,
    broken: bool,
}

impl View for Archive {
    type V = ArchiveState;

    closed spec fn view(&self) -> ArchiveState {
        ArchiveState {
            entries: sink_entries(self.sink),
            methods: sink_methods(self.sink),
            path: self.path@,
            password: self.password@,
            sealed: self.sealed,
            broken: self.broken,
        }
    }
}

impl Archive {
    /// Whether the archive is as its operations leave it: unless it is broken it holds
    /// to its policy, and while it is in use its writer is in use.
    pub closed spec fn wf(&self) -> bool {
        &&& !self.broken ==> uniform(
            sink_entries(self.sink),
            sink_methods(self.sink),
            self.password@,
        )
        &&& !self.broken && !self.sealed ==> sink_open(self.sink)
    }

    /// The bytes that finishing the archive now hands out.
    pub closed spec fn container(&self) -> Seq<u8> {
        sink_container(self.sink)
    }

    /// A new, empty archive that is meant to be stored at `archive_path`. With a
    /// non-empty password every entry added later is encrypted under it; with an empty
    /// one no entry is encrypted.
    pub fn new(archive_path: String, password: String) -> (archive: Archive)
        ensures
            archive@ == (ArchiveState {
                entries: Seq::empty(),
                methods: Seq::empty(),
                path: archive_path@,
                password: password@,
                sealed: false,
                broken: false,
            }),
            archive.wf(),
            archive@.uniform(),
    {
        Archive { sink: sink_new(), path: archive_path, password, sealed: false, broken: false }
    }

    /// Where the finished archive is meant to be stored.
    pub fn path(&self) -> (path: &String)
        ensures
            path@ == self@.path,
    {
        &self.path
    }

    /// Whether the archive has been finished.
    pub fn is_sealed(&self) -> (sealed: bool)
        ensures
            sealed == self@.sealed,
    {
        self.sealed
    }

    /// Whether the archive encrypts its entries.
    pub fn is_encrypted(&self) -> (encrypted: bool)
        ensures
            encrypted == (protection(self@.password) is Some),
    {
        !self.password.as_str().is_empty()
    }

    /// What the answer of the writer means for the operation that asked: a failure of
    /// the writer, whatever it is, is reported as `ArchiveError::Io`.
    pub fn settle<E>(answer: Result<(), E>) -> (result: Result<(), ArchiveError>)
        ensures
            answer is Ok ==> result is Ok,
            answer is Err ==> result == Err::<(), ArchiveError>(ArchiveError::Io),
    {
        match answer {
            Ok(()) => Ok(()),
            Err(_) => Err(ArchiveError::Io),
        }
    }

    /// Adds one entry named `archive_file_path` that holds `content`.
    ///
    /// A finished archive, a broken one and a name that is too long are refused, in this
    /// order, and leave the archive as it was. Otherwise the entry is handed to the
    /// writer, and the result is `Ok` exactly if the writer accepts the start of the
    /// entry and its bytes: then the entry follows the earlier ones, compressed with
    /// bzip2 and encrypted under the archive's password if it has one. When the writer
    /// fails, the archive is broken; the entries that it held stay first.
    pub fn pack_file(&mut self, content: &[u8], archive_file_path: String) -> (result: Result<
        (),
        ArchiveError,
    >)
        requires
            old(self).wf(),
        ensures
            final(self).wf(),
            !old(self)@.sealed && !old(self)@.broken && name_fits(archive_file_path@) ==> (result
                is Ok) == accepts_entry(
                old(self)@.entries,
                old(self)@.methods,
                (archive_file_path@, protection(old(self)@.password), content@),
            ),
            match result {
                Ok(()) => {
                    &&& !old(self)@.sealed && !old(self)@.broken && name_fits(archive_file_path@)
                    &&& final(self)@ == (ArchiveState {
                        entries: old(self)@.entries.push(
                            (archive_file_path@, protection(old(self)@.password), content@),
                        ),
                        methods: old(self)@.methods.push(BZIP2),
                        ..old(self)@
                    })
                },
                Err(ArchiveError::Sealed) => old(self)@.sealed && *final(self) == *old(self),
                Err(ArchiveError::Broken) => !old(self)@.sealed && old(self)@.broken && *final(self)
                    == *old(self),
                Err(ArchiveError::NameTooLong) => !old(self)@.sealed && !old(self)@.broken
                    && !name_fits(archive_file_path@) && *final(self) == *old(self),
                Err(ArchiveError::Io) => {
                    &&& !old(self)@.sealed && !old(self)@.broken && name_fits(archive_file_path@)
                    &&& final(self)@.broken
                    &&& !final(self)@.sealed
                    &&& final(self)@.path == old(self)@.path
                    &&& final(self)@.password == old(self)@.password
                    &&& kept(old(self)@.entries, final(self)@.entries)
                },
            },
            !final(self)@.broken ==> final(self)@.uniform(),
    {
        if self.sealed {
            return Err(ArchiveError::Sealed);
        }
        if self.broken {
            return Err(ArchiveError::Broken);
        }
        if archive_file_path.as_str().as_bytes().len() > MAX_NAME_BYTES {
            return Err(ArchiveError::NameTooLong);
        }
        self.broken = true;
        let stored = store(&mut self.sink, &self.password, content, archive_file_path.as_str());
        if stored.is_ok() {
            self.broken = false;
        }
        stored
    }

    /// Adds the files of a directory tree, at any depth, as entries below the archive
    /// path made of `archive_subdir` and `recursive_subdir`: each closed by one
    /// separator unless it is empty, the second without the separators that it begins
    /// with. `tree` holds the entries of the directory that is packed. A file becomes
    /// the entry named by that path, the names of the directories that lead to the
    /// file, each with a separator, and the file's own name; a directory without files
    /// adds nothing. The entries come in the order of the tree, a directory's content in
    /// the place of the directory.
    ///
    /// A finished archive, a broken one and a tree with an entry name that is too long
    /// are refused, in this order, and leave the archive as it was. Otherwise the
    /// entries are handed to the writer one after the other, and the result is `Ok`
    /// exactly if the writer accepts them all; for a tree without files it is `Ok`.
    /// When the writer fails, the archive is broken; the entries that it held stay
    /// first.
    pub fn pack_dir(
        &mut self,
        tree: &Vec<Node>,
        archive_subdir: String,
        recursive_subdir: String,
    ) -> (result: Result<(), ArchiveError>)
        requires
            old(self).wf(),
        ensures
            final(self).wf(),
            ({
                let added = tree_entries(
                    tree@,
                    dir_base(archive_subdir@, recursive_subdir@),
                    protection(old(self)@.password),
                );
                &&& !old(self)@.sealed && !old(self)@.broken && all_names_fit(added) ==> (result
                    is Ok) == accepts(old(self)@.entries, old(self)@.methods, added)
                &&& !old(self)@.sealed && !old(self)@.broken && added.len() == 0 ==> result is Ok
                &&& match result {
                    Ok(()) => {
                        &&& !old(self)@.sealed && !old(self)@.broken && all_names_fit(added)
                        &&& final(self)@ == (ArchiveState {
                            entries: old(self)@.entries + added,
                            methods: old(self)@.methods + bzip2s(added.len()),
                            ..old(self)@
                        })
                    },
                    Err(ArchiveError::Sealed) => old(self)@.sealed && *final(self) == *old(self),
                    Err(ArchiveError::Broken) => !old(self)@.sealed && old(self)@.broken
                        && *final(self) == *old(self),
                    Err(ArchiveError::NameTooLong) => {
                        &&& !old(self)@.sealed && !old(self)@.broken
                        &&& !all_names_fit(added)
                        &&& *final(self) == *old(self)
                    },
                    Err(ArchiveError::Io) => {
                        &&& !old(self)@.sealed && !old(self)@.broken
                        &&& all_names_fit(added)
                        &&& final(self)@.broken
                        &&& !final(self)@.sealed
                        &&& final(self)@.path == old(self)@.path
                        &&& final(self)@.password == old(self)@.password
                        &&& kept(old(self)@.entries, final(self)@.entries)
                    },
                }
            }),
            !final(self)@.broken ==> final(self)@.uniform(),
    {
        if self.sealed {
            return Err(ArchiveError::Sealed);
        }
        if self.broken {
            return Err(ArchiveError::Broken);
        }
        let base = base_path(archive_subdir.as_str(), recursive_subdir.as_str());
        let ghost key = protection(self@.password);
        let ghost added = tree_entries(tree@, base@, key);
        let ghost held = self@.entries;
        let ghost codes = self@.methods;
        proof {
            lemma_tree_fits(tree@, base@, key);
        }
        if !names_fit(tree, &base) {
            return Err(ArchiveError::NameTooLong);
        }
        self.broken = true;
        let stored = store_nodes(&mut self.sink, &self.password, tree, &base);
        if stored.is_ok() {
            proof {
                assert forall|i: int| 0 <= i < (held + added).len() implies (#[trigger] (held
                    + added)[i]).1 == key && (codes + bzip2s(added.len()))[i] == BZIP2 by {
                    if i >= held.len() {
                        lemma_tree_entry(tree@, base@, key, i - held.len());
                        assert((held + added)[i] == added[i - held.len()]);
                    } else {
                        assert((held + added)[i] == held[i]);
                        assert(held[i].1 == key);
                    }
                }
            }
            self.broken = false;
        }
        stored
    }

    /// Finishes the archive and hands out the bytes of the container.
    ///
    /// A finished archive and a broken one are refused, in this order, and stay as they
    /// were. Otherwise the writer is asked to close the archive, and the result is `Ok`
    /// exactly if it does: then the archive is sealed with its entries unchanged, and
    /// the bytes are the container of the archive as it was. When the writer fails, the
    /// archive is broken; the entries that it held stay first.
    pub fn finish(&mut self) -> (result: Result<Vec<u8>, ArchiveError>)
        requires
            old(self).wf(),
        ensures
            final(self).wf(),
            !old(self)@.sealed && !old(self)@.broken ==> (result is Ok) == zip_closes(
                old(self)@.entries,
                old(self)@.methods,
            ),
            match result {
                Ok(bytes) => {
                    &&& !old(self)@.sealed && !old(self)@.broken
                    &&& bytes@ == old(self).container()
                    &&& final(self)@ == (ArchiveState { sealed: true, ..old(self)@ })
                },
                Err(ArchiveError::Sealed) => old(self)@.sealed && *final(self) == *old(self),
                Err(ArchiveError::Broken) => !old(self)@.sealed && old(self)@.broken && *final(self)
                    == *old(self),
                Err(ArchiveError::NameTooLong) => false,
                Err(ArchiveError::Io) => {
                    &&& !old(self)@.sealed && !old(self)@.broken
                    &&& final(self)@.broken
                    &&& !final(self)@.sealed
                    &&& final(self)@.path == old(self)@.path
                    &&& final(self)@.password == old(self)@.password
                    &&& kept(old(self)@.entries, final(self)@.entries)
                },
            },
            !final(self)@.broken ==> final(self)@.uniform(),
    {
        if self.sealed {
            return Err(ArchiveError::Sealed);
        }
        if self.broken {
            return Err(ArchiveError::Broken);
        }
        self.broken = true;
        match sink_finish(&mut self.sink) {
            Ok(bytes) => {
                self.sealed = true;
                self.broken = false;
                Ok(bytes)
            },
            Err(_) => Err(ArchiveError::Io),
        }
    }
}

} // verus!
