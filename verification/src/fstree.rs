//! The in-memory model of a mod directory tree, with the stable visit
//! order the fingerprint and the manifest search use: entries of one
//! directory are visited in case-insensitive lexicographic name order
//! (ties broken by exact name), and hidden entries are skipped.

use vstd::prelude::*;

use crate::ascii::{DOT, lower_seq, to_lower, bytes_eq, subvec, spec_macosx_lower,
    macosx_lower, spec_thumbs_lower, thumbs_lower, spec_modinfo_ext, modinfo_ext,
    spec_sidecar_name, sidecar_name};
use crate::patch::find_last_byte;

verus! {

/// A file or directory in a mod tree.
pub enum FsNode {
    File { bytes: Vec<u8> },
    Dir { entries: Vec<FsEntry> },
}

/// A named entry of a directory.
pub struct FsEntry {
    pub name: Vec<u8>,
    pub node: FsNode,
}

/// The mathematical model of a node.
pub enum GNode {
    File { bytes: Seq<u8> },
    Dir { entries: Seq<GEntry> },
}

/// The mathematical model of an entry.
pub struct GEntry {
    pub name: Seq<u8>,
    pub node: GNode,
}

/// The model of a node.
pub open spec fn node_view(n: FsNode) -> GNode
    decreases n, 1int, 0int,
{
    match n {
        FsNode::File { bytes } => GNode::File { bytes: bytes@ },
        FsNode::Dir { entries } => GNode::Dir { entries: entries_gview(n, 0) },
    }
}

/// The models of the entries of a directory node, from index `j` on.
pub open spec fn entries_gview(n: FsNode, j: int) -> Seq<GEntry>
    decreases n, 0int, entries_left(n, j),
{
    match n {
        FsNode::Dir { entries } => {
            if j < 0 || j >= entries@.len() {
                Seq::empty()
            } else {
                seq![
                    GEntry { name: entries@[j].name@, node: node_view(entries@[j].node) },
                ] + entries_gview(n, j + 1)
            }
        },
        _ => Seq::empty(),
    }
}

pub open spec fn entries_left(n: FsNode, j: int) -> int {
    match n {
        FsNode::Dir { entries } => entries@.len() - j,
        _ => 0,
    }
}

/// The models of an entry vector.
pub open spec fn gviews(s: Seq<FsEntry>) -> Seq<GEntry> {
    Seq::new(s.len(), |i: int| GEntry { name: s[i].name@, node: node_view(s[i].node) })
}

/// The models of the entries of a directory vector agree with the view
/// helper of the node that holds it.
pub proof fn lemma_entries_gview(entries: Vec<FsEntry>, j: int)
    requires
        0 <= j <= entries@.len(),
    ensures
        entries_gview(FsNode::Dir { entries }, j) == gviews(entries@).skip(j),
    decreases entries@.len() - j,
{
    if j == entries@.len() {
        assert(gviews(entries@).skip(j) =~= Seq::<GEntry>::empty());
    } else {
        lemma_entries_gview(entries, j + 1);
        assert(gviews(entries@).skip(j) =~= seq![gviews(entries@)[j]] + gviews(entries@).skip(
            j + 1,
        ));
    }
}

// ---------------------------------------------------------------------
// Name predicates
// ---------------------------------------------------------------------

/// A hidden entry: a name starting with a dot, the platform metadata
/// folder, or the thumbnail-cache file (both case-insensitive).
pub open spec fn hidden_name(name: Seq<u8>) -> bool {
    ||| (name.len() > 0 && name[0] == DOT)
    ||| lower_seq(name) == spec_macosx_lower()
    ||| lower_seq(name) == spec_thumbs_lower()
}

/// Executable copy of `hidden_name`.
pub fn is_entry_hidden(name: &Vec<u8>) -> (r: bool)
    ensures
        r == hidden_name(name@),
{
    if name.len() > 0 && name[0] == DOT {
        return true;
    }
    let low = to_lower(name);
    let mac = macosx_lower();
    let th = thumbs_lower();
    if bytes_eq(&low, &mac) {
        return true;
    }
    bytes_eq(&low, &th)
}

/// A manifest file name: its extension (the part after the last dot,
/// which must not be the first byte) is the manifest extension.
pub open spec fn is_manifest_name(name: Seq<u8>) -> bool {
    let d = find_last_byte(name, DOT);
    d > 0 && name.skip(d + 1) == spec_modinfo_ext()
}

/// Executable copy of `is_manifest_name`.
pub fn manifest_name(name: &Vec<u8>) -> (r: bool)
    ensures
        r == is_manifest_name(name@),
{
    let mut i: usize = name.len();
    proof {
        assert(name@.take(i as int) =~= name@);
    }
    while i > 0
        invariant
            i <= name@.len(),
            find_last_byte(name@, DOT) == find_last_byte(name@.take(i as int), DOT),
        decreases i,
    {
        proof {
            assert(name@.take(i as int).last() == name@[i - 1]);
            assert(name@.take(i as int).drop_last() =~= name@.take(i - 1));
        }
        if name[i - 1] == DOT {
            proof {
                assert(find_last_byte(name@, DOT) == i - 1);
            }
            if i - 1 == 0 {
                return false;
            }
            let ext = subvec(name, i, name.len());
            let me = modinfo_ext();
            return bytes_eq(&ext, &me);
        }
        i = i - 1;
    }
    proof {
        assert(name@.take(0) =~= Seq::<u8>::empty());
        assert(find_last_byte(name@, DOT) == -1);
    }
    false
}

/// The sidecar file name.
pub open spec fn is_sidecar_name(name: Seq<u8>) -> bool {
    name == spec_sidecar_name()
}

// ---------------------------------------------------------------------
// The visit order
// ---------------------------------------------------------------------

/// Lexicographic order on byte strings.
pub open spec fn lex_leq(a: Seq<u8>, b: Seq<u8>) -> bool
    decreases a.len(),
{
    if a.len() == 0 {
        true
    } else if b.len() == 0 {
        false
    } else if a[0] < b[0] {
        true
    } else if a[0] > b[0] {
        false
    } else {
        lex_leq(a.skip(1), b.skip(1))
    }
}

pub proof fn lemma_lex_total(a: Seq<u8>, b: Seq<u8>)
    ensures
        lex_leq(a, b) || lex_leq(b, a),
    decreases a.len(),
{
    if a.len() == 0 || b.len() == 0 {
    } else if a[0] == b[0] {
        lemma_lex_total(a.skip(1), b.skip(1));
    }
}

pub proof fn lemma_lex_antisym(a: Seq<u8>, b: Seq<u8>)
    requires
        lex_leq(a, b),
        lex_leq(b, a),
    ensures
        a == b,
    decreases a.len(),
{
    if a.len() == 0 {
        assert(b.len() == 0);
        assert(a =~= b);
    } else {
        assert(b.len() > 0);
        assert(a[0] == b[0]);
        lemma_lex_antisym(a.skip(1), b.skip(1));
        assert(a =~= seq![a[0]] + a.skip(1));
        assert(b =~= seq![b[0]] + b.skip(1));
    }
}

pub proof fn lemma_lex_trans(a: Seq<u8>, b: Seq<u8>, c: Seq<u8>)
    requires
        lex_leq(a, b),
        lex_leq(b, c),
    ensures
        lex_leq(a, c),
    decreases a.len(),
{
    if a.len() == 0 {
    } else {
        assert(b.len() > 0);
        if c.len() == 0 {
            assert(false);
        } else {
            if a[0] == b[0] && b[0] == c[0] {
                lemma_lex_trans(a.skip(1), b.skip(1), c.skip(1));
            }
        }
    }
}

/// The visit order on entries: case-insensitive lexicographic by name,
/// ties broken by the exact name.
pub open spec fn gentry_leq(x: GEntry, y: GEntry) -> bool {
    if lower_seq(x.name) != lower_seq(y.name) {
        lex_leq(lower_seq(x.name), lower_seq(y.name))
    } else {
        lex_leq(x.name, y.name)
    }
}

pub proof fn lemma_gentry_total(x: GEntry, y: GEntry)
    ensures
        gentry_leq(x, y) || gentry_leq(y, x),
{
    lemma_lex_total(lower_seq(x.name), lower_seq(y.name));
    lemma_lex_total(x.name, y.name);
}

/// Mutual order implies equal names.
pub proof fn lemma_gentry_antisym_names(x: GEntry, y: GEntry)
    requires
        gentry_leq(x, y),
        gentry_leq(y, x),
    ensures
        x.name == y.name,
{
    if lower_seq(x.name) != lower_seq(y.name) {
        lemma_lex_antisym(lower_seq(x.name), lower_seq(y.name));
    } else {
        lemma_lex_antisym(x.name, y.name);
    }
}

pub proof fn lemma_gentry_trans(x: GEntry, y: GEntry, z: GEntry)
    requires
        gentry_leq(x, y),
        gentry_leq(y, z),
    ensures
        gentry_leq(x, z),
{
    let lx = lower_seq(x.name);
    let ly = lower_seq(y.name);
    let lz = lower_seq(z.name);
    if lx != ly && ly != lz {
        lemma_lex_trans(lx, ly, lz);
        if lx == lz {
            lemma_lex_antisym(lx, ly);
        }
    } else if lx == ly && ly != lz {
    } else if lx != ly && ly == lz {
    } else {
        lemma_lex_trans(x.name, y.name, z.name);
    }
}

/// Sorted in the visit order.
pub open spec fn gsorted(s: Seq<GEntry>) -> bool {
    forall|i: int, j: int| 0 <= i < j < s.len() ==> gentry_leq(#[trigger] s[i], #[trigger] s[j])
}

/// Pairwise distinct entry names.
pub open spec fn distinct_names(s: Seq<GEntry>) -> bool {
    forall|i: int, j: int|
        0 <= i < j < s.len() ==> (#[trigger] s[i]).name != (#[trigger] s[j]).name
}

/// The position in sorted `s` at which `e` is inserted: before the first
/// element it precedes.
pub open spec fn insert_pos(e: GEntry, s: Seq<GEntry>) -> int
    decreases s.len(),
{
    if s.len() == 0 {
        0
    } else if gentry_leq(e, s[0]) {
        0
    } else {
        1 + insert_pos(e, s.skip(1))
    }
}

/// `s` with `e` inserted at its position.
pub open spec fn insert_sorted(e: GEntry, s: Seq<GEntry>) -> Seq<GEntry> {
    s.insert(insert_pos(e, s), e)
}

/// Insertion sort of entries in the visit order.
pub open spec fn sort_entries(s: Seq<GEntry>) -> Seq<GEntry>
    decreases s.len(),
{
    if s.len() == 0 {
        Seq::empty()
    } else {
        insert_sorted(s[0], sort_entries(s.skip(1)))
    }
}

pub proof fn lemma_insert_pos_bounds(e: GEntry, s: Seq<GEntry>)
    ensures
        0 <= insert_pos(e, s) <= s.len(),
        forall|k: int| 0 <= k < insert_pos(e, s) ==> !gentry_leq(e, #[trigger] s[k]),
        insert_pos(e, s) < s.len() ==> gentry_leq(e, s[insert_pos(e, s)]),
    decreases s.len(),
{
    if s.len() == 0 {
    } else if gentry_leq(e, s[0]) {
    } else {
        lemma_insert_pos_bounds(e, s.skip(1));
        assert forall|k: int| 0 <= k < insert_pos(e, s) implies !gentry_leq(
            e,
            #[trigger] s[k],
        ) by {
            if k >= 1 {
                assert(s[k] == s.skip(1)[k - 1]);
                assert(!gentry_leq(e, s.skip(1)[k - 1]));
            }
        }
        if insert_pos(e, s) < s.len() {
            assert(s[insert_pos(e, s)] == s.skip(1)[insert_pos(e, s.skip(1))]);
        }
    }
}

pub proof fn lemma_insert_sorted(e: GEntry, s: Seq<GEntry>)
    requires
        gsorted(s),
    ensures
        gsorted(insert_sorted(e, s)),
        insert_sorted(e, s).to_multiset() == s.to_multiset().insert(e),
        insert_sorted(e, s).len() == s.len() + 1,
{
    broadcast use vstd::seq_lib::group_to_multiset_ensures;

    lemma_insert_pos_bounds(e, s);
    let p = insert_pos(e, s);
    let r = insert_sorted(e, s);
    assert(r =~= s.take(p) + seq![e] + s.skip(p));
    assert forall|i: int, j: int| 0 <= i < j < r.len() implies gentry_leq(r[i], r[j]) by {
        if i < p && j == p {
            lemma_gentry_total(e, s[i]);
        } else if i == p && j > p {
            assert(r[j] == s[j - 1]);
            if j - 1 == p {
            } else {
                lemma_gentry_trans(e, s[p], s[j - 1]);
            }
        } else if i < p && j > p {
            assert(r[i] == s[i]);
            assert(r[j] == s[j - 1]);
            assert(gentry_leq(s[i], s[j - 1]));
        }
    }
    vstd::seq_lib::to_multiset_insert(s, p, e);
}

pub proof fn lemma_sort_entries(s: Seq<GEntry>)
    ensures
        gsorted(sort_entries(s)),
        sort_entries(s).to_multiset() == s.to_multiset(),
        sort_entries(s).len() == s.len(),
    decreases s.len(),
{
    broadcast use vstd::seq_lib::group_to_multiset_ensures;

    if s.len() == 0 {
        assert(sort_entries(s).to_multiset() =~= s.to_multiset());
    } else {
        lemma_sort_entries(s.skip(1));
        lemma_insert_sorted(s[0], sort_entries(s.skip(1)));
        vstd::seq_lib::to_multiset_remove(s, 0);
        assert(s.remove(0) =~= s.skip(1));
        assert(s.to_multiset().contains(s[0]));
        assert(s.skip(1).to_multiset().insert(s[0]) =~= s.to_multiset());
    }
}

/// Two sorted entry sequences holding the same entries, with pairwise
/// distinct names, are the same sequence.
pub proof fn lemma_sorted_unique(s1: Seq<GEntry>, s2: Seq<GEntry>)
    requires
        gsorted(s1),
        gsorted(s2),
        distinct_names(s1),
        s1.to_multiset() == s2.to_multiset(),
    ensures
        s1 == s2,
    decreases s1.len(),
{
    broadcast use vstd::seq_lib::group_to_multiset_ensures;

    vstd::seq_lib::to_multiset_len(s1);
    vstd::seq_lib::to_multiset_len(s2);
    if s1.len() == 0 {
        assert(s1 =~= s2);
    } else {
        assert(s1.to_multiset().contains(s1[0]));
        assert(s2.to_multiset().contains(s1[0]));
        assert(s2.contains(s1[0]));
        let k2 = choose|k: int| 0 <= k < s2.len() && s2[k] == s1[0];
        assert(s2.to_multiset().contains(s2[0]));
        assert(s1.to_multiset().contains(s2[0]));
        assert(s1.contains(s2[0]));
        let k1 = choose|k: int| 0 <= k < s1.len() && s1[k] == s2[0];
        assert(gentry_leq(s2[0], s2[k2])) by {
            if k2 > 0 {
            } else {
                lemma_gentry_total(s2[0], s2[0]);
            }
        }
        assert(gentry_leq(s1[0], s1[k1])) by {
            if k1 > 0 {
            } else {
                lemma_gentry_total(s1[0], s1[0]);
            }
        }
        lemma_gentry_antisym_names(s1[0], s2[0]);
        if k1 != 0 {
            assert(s1[0].name != s1[k1].name);
            assert(false);
        }
        assert(s1[0] == s2[0]);
        vstd::seq_lib::to_multiset_remove(s1, 0);
        vstd::seq_lib::to_multiset_remove(s2, 0);
        assert(s1.remove(0) =~= s1.skip(1));
        assert(s2.remove(0) =~= s2.skip(1));
        assert(s1.skip(1).to_multiset() =~= s2.skip(1).to_multiset());
        assert(gsorted(s1.skip(1))) by {
            assert(forall|i: int, j: int|
                0 <= i < j < s1.skip(1).len() ==> gentry_leq(
                    #[trigger] s1.skip(1)[i],
                    #[trigger] s1.skip(1)[j],
                ));
        }
        assert(gsorted(s2.skip(1))) by {
            assert(forall|i: int, j: int|
                0 <= i < j < s2.skip(1).len() ==> gentry_leq(
                    #[trigger] s2.skip(1)[i],
                    #[trigger] s2.skip(1)[j],
                ));
        }
        assert(distinct_names(s1.skip(1))) by {
            assert(forall|i: int, j: int|
                0 <= i < j < s1.skip(1).len() ==> (#[trigger] s1.skip(1)[i]).name != (
                #[trigger] s1.skip(1)[j]).name);
        }
        lemma_sorted_unique(s1.skip(1), s2.skip(1));
        assert(s1.len() == s2.len());
        assert forall|i: int| 0 <= i < s1.len() implies s1[i] == s2[i] by {
            if i > 0 {
                assert(s1[i] == s1.skip(1)[i - 1]);
                assert(s2[i] == s2.skip(1)[i - 1]);
            }
        }
        assert(s1 =~= s2);
    }
}

/// Compares two byte strings in lexicographic order.
pub fn lex_leq_exec(a: &Vec<u8>, b: &Vec<u8>) -> (r: bool)
    ensures
        r == lex_leq(a@, b@),
{
    let mut i: usize = 0;
    proof {
        assert(a@.skip(0) =~= a@);
        assert(b@.skip(0) =~= b@);
    }
    loop
        invariant
            i <= a@.len(),
            i <= b@.len(),
            lex_leq(a@, b@) == lex_leq(a@.skip(i as int), b@.skip(i as int)),
        decreases a@.len() - i,
    {
        if i >= a.len() {
            proof {
                assert(a@.skip(i as int).len() == 0);
            }
            return true;
        }
        if i >= b.len() {
            proof {
                assert(b@.skip(i as int).len() == 0);
                assert(a@.skip(i as int).len() > 0);
            }
            return false;
        }
        proof {
            assert(a@.skip(i as int)[0] == a@[i as int]);
            assert(b@.skip(i as int)[0] == b@[i as int]);
        }
        if a[i] < b[i] {
            return true;
        }
        if a[i] > b[i] {
            return false;
        }
        proof {
            assert(a@.skip(i as int).skip(1) =~= a@.skip(i + 1));
            assert(b@.skip(i as int).skip(1) =~= b@.skip(i + 1));
        }
        i = i + 1;
    }
}

/// The model of one entry.
pub open spec fn gview(e: FsEntry) -> GEntry {
    GEntry { name: e.name@, node: node_view(e.node) }
}

/// Compares two entries in the visit order.
pub fn entry_leq_exec(a: &FsEntry, b: &FsEntry) -> (r: bool)
    ensures
        r == gentry_leq(gview(*a), gview(*b)),
{
    let la = to_lower(&a.name);
    let lb = to_lower(&b.name);
    if !bytes_eq(&la, &lb) {
        lex_leq_exec(&la, &lb)
    } else {
        lex_leq_exec(&a.name, &b.name)
    }
}


} // verus!
