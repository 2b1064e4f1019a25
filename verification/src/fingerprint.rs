//! The fingerprint engine: a deterministic content hash over a mod
//! directory tree. Files are visited in the stable order of `fstree`,
//! hidden entries are skipped, manifest files are restored to their
//! original bytes through their sidecar before hashing, and the digest
//! is the hash of the concatenated file contents alone.

use vstd::prelude::*;

use crate::ModError;
use crate::ascii::subvec;
use crate::fstree::{FsNode, FsEntry, GNode, GEntry, node_view, gviews, gview,
    lemma_entries_gview, hidden_name, is_entry_hidden, is_manifest_name, manifest_name,
    is_sidecar_name, gentry_leq, entry_leq_exec};
use crate::ascii::{bytes_eq, sidecar_name, spec_sidecar_name};
use crate::patch::{apply_diff, restore_patched_modinfo_xml};

verus! {

// ---------------------------------------------------------------------
// The sorted visit order, as indices
// ---------------------------------------------------------------------

/// The index list `0, 1, .., len-1`.
pub open spec fn all_idx(len: int) -> Seq<int> {
    Seq::new(if len < 0 {
        0nat
    } else {
        len as nat
    }, |i: int| i)
}

/// The entries of `es` picked out by an index list.
pub open spec fn picked(es: Seq<GEntry>, idxs: Seq<int>) -> Seq<GEntry> {
    Seq::new(idxs.len(), |j: int| es[idxs[j]])
}

/// All indices of a list lie in `[0, len)`.
pub open spec fn idx_in_range(idxs: Seq<int>, len: int) -> bool {
    forall|j: int| 0 <= j < idxs.len() ==> 0 <= #[trigger] idxs[j] < len
}

/// Position at which index `k` is inserted into the index list `idxs`,
/// ordering by the entries the indices name.
pub open spec fn idx_insert_pos(es: Seq<GEntry>, k: int, idxs: Seq<int>) -> int
    decreases idxs.len(),
{
    if idxs.len() == 0 {
        0
    } else if gentry_leq(es[k], es[idxs[0]]) {
        0
    } else {
        1 + idx_insert_pos(es, k, idxs.skip(1))
    }
}

pub open spec fn idx_insert(es: Seq<GEntry>, k: int, idxs: Seq<int>) -> Seq<int> {
    idxs.insert(idx_insert_pos(es, k, idxs), k)
}

/// Insertion sort of an index list by the entries the indices name.
pub open spec fn idx_sort(es: Seq<GEntry>, idxs: Seq<int>) -> Seq<int>
    decreases idxs.len(),
{
    if idxs.len() == 0 {
        Seq::empty()
    } else {
        idx_insert(es, idxs[0], idx_sort(es, idxs.skip(1)))
    }
}

/// The sorted visit order of a directory's entries.
pub open spec fn sorted_order(es: Seq<GEntry>) -> Seq<int> {
    idx_sort(es, all_idx(es.len() as int))
}

// ---------------------------------------------------------------------
// The sidecar beside a manifest
// ---------------------------------------------------------------------

/// The bytes of the first sidecar file among a directory's entries.
pub open spec fn sidecar_of(es: Seq<GEntry>) -> Option<Seq<u8>>
    decreases es.len(),
{
    if es.len() == 0 {
        None
    } else if is_sidecar_name(es[0].name) && es[0].node is File {
        Some(es[0].node->File_bytes)
    } else {
        sidecar_of(es.skip(1))
    }
}

/// Finds the sidecar file among a directory's entries.
pub fn find_sidecar(entries: &Vec<FsEntry>) -> (r: Option<Vec<u8>>)
    ensures
        match r {
            Some(v) => sidecar_of(gviews(entries@)) == Some(v@),
            None => sidecar_of(gviews(entries@)) is None,
        },
{
    let ghost es = gviews(entries@);
    let sc_name = sidecar_name();
    let mut i: usize = 0;
    proof {
        assert(es.skip(0) =~= es);
    }
    while i < entries.len()
        invariant
            i <= entries@.len(),
            es == gviews(entries@),
            sc_name@ == spec_sidecar_name(),
            sidecar_of(es) == sidecar_of(es.skip(i as int)),
        decreases entries@.len() - i,
    {
        proof {
            assert(es.skip(i as int)[0] == es[i as int]);
            assert(es.skip(i as int).skip(1) =~= es.skip(i + 1));
        }
        let e = &entries[i];
        if bytes_eq(&e.name, &sc_name) {
            match &e.node {
                FsNode::File { bytes } => {
                    proof {
                        assert(es[i as int].node is File);
                        assert(es[i as int].node->File_bytes == bytes@);
                    }
                    return Some(subvec(bytes, 0, bytes.len()));
                },
                FsNode::Dir { .. } => {
                    proof {
                        assert(!(es[i as int].node is File));
                    }
                },
            }
        }
        i = i + 1;
    }
    proof {
        assert(es.skip(i as int) =~= Seq::<GEntry>::empty());
    }
    None
}

// ---------------------------------------------------------------------
// The content stream
// ---------------------------------------------------------------------

/// The concatenated content bytes of a tree, visiting each directory's
/// entries in the sorted order, skipping hidden entries, and restoring a
/// manifest file through the directory's sidecar when one is present.
/// `None` means a sidecar did not apply to a manifest.
pub open spec fn gstream_node(n: GNode) -> Option<Seq<u8>>
    decreases n, 1int, 0int,
{
    match n {
        GNode::File { bytes } => Some(bytes),
        GNode::Dir { entries } => gstream_dir(n, sorted_order(entries), 0),
    }
}

/// The stream of a directory node from position `j` of the visit order
/// `perm`.
pub open spec fn gstream_dir(n: GNode, perm: Seq<int>, j: int) -> Option<Seq<u8>>
    decreases n, 0int, perm.len() - j,
{
    match n {
        GNode::Dir { entries } => {
            if j < 0 || j >= perm.len() {
                Some(Seq::empty())
            } else {
                let k = perm[j];
                if k < 0 || k >= entries.len() {
                    gstream_dir(n, perm, j + 1)
                } else {
                    let head = entry_head(entries, k);
                    match (head, gstream_dir(n, perm, j + 1)) {
                        (Some(h), Some(t)) => Some(h + t),
                        _ => None,
                    }
                }
            }
        },
        _ => Some(Seq::empty()),
    }
}

/// The contribution of entry `k` of a directory to the stream.
pub open spec fn entry_head(entries: Seq<GEntry>, k: int) -> Option<Seq<u8>>
    decreases entries[k].node, 2int, 0int,
{
    let e = entries[k];
    if hidden_name(e.name) {
        Some(Seq::empty())
    } else {
        match e.node {
            GNode::File { bytes } => {
                if is_manifest_name(e.name) {
                    match sidecar_of(entries) {
                        Some(sc) => apply_diff(bytes, sc),
                        None => Some(bytes),
                    }
                } else {
                    Some(bytes)
                }
            },
            GNode::Dir { .. } => gstream_node(e.node),
        }
    }
}

/// The content stream of a directory given by its entries.
pub open spec fn dir_stream(es: Seq<GEntry>) -> Option<Seq<u8>> {
    gstream_node(GNode::Dir { entries: es })
}

// ---------------------------------------------------------------------
// The digest
// ---------------------------------------------------------------------

/// The SHA-256 digest of a byte string, as `sha256` computes it.
pub uninterp spec fn sha256_of(data: Seq<u8>) -> Seq<u8>;

/// Relies on `sha2::Sha256` through the `Digest` trait: the digest is a
/// function of the input bytes alone and is 32 bytes long.
#[verifier::external_body]
fn sha256(data: &Vec<u8>) -> (r: Vec<u8>)
    ensures
        r@ == sha256_of(data@),
        r@.len() == 32,
{
    let mut hasher = <sha2::Sha256 as sha2::Digest>::new();
    sha2::Digest::update(&mut hasher, data.as_slice());
    <sha2::Sha256 as sha2::Digest>::finalize(hasher).to_vec()
}

/// The lowercase hex digit of a value below 16.
pub open spec fn hex_digit(v: u8) -> u8 {
    if v < 10 {
        (48 + v) as u8
    } else {
        (87 + v) as u8
    }
}

/// Lowercase hex encoding, two digits per byte.
pub open spec fn hex_of(s: Seq<u8>) -> Seq<u8>
    decreases s.len(),
{
    if s.len() == 0 {
        Seq::empty()
    } else {
        seq![hex_digit(s[0] / 16), hex_digit(s[0] % 16)] + hex_of(s.skip(1))
    }
}

proof fn lemma_hex_concat(a: Seq<u8>, b: Seq<u8>)
    ensures
        hex_of(a + b) == hex_of(a) + hex_of(b),
    decreases a.len(),
{
    if a.len() == 0 {
        assert(a + b =~= b);
        assert(hex_of(a) + hex_of(b) =~= hex_of(b));
    } else {
        assert((a + b).skip(1) =~= a.skip(1) + b);
        lemma_hex_concat(a.skip(1), b);
        assert(hex_of(a + b) =~= (seq![hex_digit(a[0] / 16), hex_digit(a[0] % 16)] + hex_of(
            a.skip(1),
        )) + hex_of(b));
    }
}

/// Hex-encodes a byte string in lowercase.
pub fn to_hex(s: &Vec<u8>) -> (r: Vec<u8>)
    ensures
        r@ == hex_of(s@),
{
    let mut out: Vec<u8> = Vec::new();
    let mut i: usize = 0;
    while i < s.len()
        invariant
            i <= s@.len(),
            out@ == hex_of(s@.take(i as int)),
        decreases s@.len() - i,
    {
        let b = s[i];
        out.push(if b / 16 < 10 {
            48 + b / 16
        } else {
            87 + b / 16
        });
        out.push(if b % 16 < 10 {
            48 + b % 16
        } else {
            87 + b % 16
        });
        proof {
            assert(s@.take(i + 1) =~= s@.take(i as int) + seq![s@[i as int]]);
            lemma_hex_concat(s@.take(i as int), seq![s@[i as int]]);
            assert(seq![s@[i as int]].skip(1) =~= Seq::<u8>::empty());
            assert(hex_of(seq![s@[i as int]].skip(1)) =~= Seq::<u8>::empty());
            assert(hex_of(seq![s@[i as int]]) =~= seq![
                hex_digit(s@[i as int] / 16),
                hex_digit(s@[i as int] % 16),
            ] + Seq::<u8>::empty());
            assert(out@ =~= hex_of(s@.take(i + 1)));
        }
        i = i + 1;
    }
    proof {
        assert(s@.take(s@.len() as int) =~= s@);
    }
    out
}

/// The fingerprint of a directory: the lowercase hex SHA-256 digest of
/// its content stream, or `None` when a sidecar fails to apply.
pub open spec fn fingerprint_spec(es: Seq<GEntry>) -> Option<Seq<u8>> {
    match dir_stream(es) {
        Some(s) => Some(hex_of(sha256_of(s))),
        None => None,
    }
}

// ---------------------------------------------------------------------
// The executable walk
// ---------------------------------------------------------------------

/// The integer views of an index vector.
pub open spec fn iview(s: Seq<usize>) -> Seq<int> {
    Seq::new(s.len(), |i: int| s[i] as int)
}

proof fn lemma_idx_pos_char(es: Seq<GEntry>, k: int, idxs: Seq<int>)
    ensures
        0 <= idx_insert_pos(es, k, idxs) <= idxs.len(),
        forall|j: int|
            0 <= j < idx_insert_pos(es, k, idxs) ==> !gentry_leq(es[k], es[#[trigger] idxs[j]]),
        idx_insert_pos(es, k, idxs) < idxs.len() ==> gentry_leq(
            es[k],
            es[idxs[idx_insert_pos(es, k, idxs)]],
        ),
    decreases idxs.len(),
{
    if idxs.len() == 0 {
    } else if gentry_leq(es[k], es[idxs[0]]) {
    } else {
        lemma_idx_pos_char(es, k, idxs.skip(1));
        let p = idx_insert_pos(es, k, idxs);
        assert forall|j: int| 0 <= j < p implies !gentry_leq(es[k], es[#[trigger] idxs[j]]) by {
            if j >= 1 {
                assert(idxs[j] == idxs.skip(1)[j - 1]);
                assert(!gentry_leq(es[k], es[idxs.skip(1)[j - 1]]));
            }
        }
        if p < idxs.len() {
            assert(idxs[p] == idxs.skip(1)[idx_insert_pos(es, k, idxs.skip(1))]);
        }
    }
}

proof fn lemma_idx_sort_range(es: Seq<GEntry>, idxs: Seq<int>, len: int)
    requires
        idx_in_range(idxs, len),
    ensures
        idx_in_range(idx_sort(es, idxs), len),
        idx_sort(es, idxs).len() == idxs.len(),
    decreases idxs.len(),
{
    if idxs.len() == 0 {
    } else {
        assert(idx_in_range(idxs.skip(1), len)) by {
            assert(forall|j: int|
                0 <= j < idxs.skip(1).len() ==> #[trigger] idxs.skip(1)[j] == idxs[j + 1]);
        }
        lemma_idx_sort_range(es, idxs.skip(1), len);
        let inner = idx_sort(es, idxs.skip(1));
        lemma_idx_pos_char(es, idxs[0], inner);
        let p = idx_insert_pos(es, idxs[0], inner);
        let r = inner.insert(p, idxs[0]);
        assert(idx_in_range(r, len)) by {
            assert(forall|j: int|
                0 <= j < r.len() ==> #[trigger] r[j] == if j < p {
                    inner[j]
                } else if j == p {
                    idxs[0]
                } else {
                    inner[j - 1]
                });
        }
    }
}

/// Finds the position in the (sorted) index vector at which `target` is
/// inserted.
fn insert_position(entries: &Vec<FsEntry>, idx: &Vec<usize>, target: usize) -> (r: usize)
    requires
        target < entries@.len(),
        forall|jj: int| 0 <= jj < idx@.len() ==> (#[trigger] idx@[jj]) < entries@.len(),
    ensures
        r <= idx@.len(),
        r as int == idx_insert_pos(gviews(entries@), target as int, iview(idx@)),
{
    let ghost es = gviews(entries@);
    let ghost cur = iview(idx@);
    let mut j: usize = 0;
    loop
        invariant
            j <= idx@.len(),
            target < entries@.len(),
            es == gviews(entries@),
            cur == iview(idx@),
            forall|jj: int| 0 <= jj < idx@.len() ==> (#[trigger] idx@[jj]) < entries@.len(),
            forall|jj: int| 0 <= jj < j ==> !gentry_leq(es[target as int], es[#[trigger] cur[jj]]),
        decreases idx@.len() - j,
    {
        let ghost p = idx_insert_pos(es, target as int, cur);
        proof {
            lemma_idx_pos_char(es, target as int, cur);
        }
        if j >= idx.len() {
            proof {
                if p < cur.len() {
                    assert(!gentry_leq(es[target as int], es[cur[p]]));
                    assert(false);
                }
            }
            return j;
        }
        proof {
            assert(gview(entries@[target as int]) == es[target as int]);
            assert(gview(entries@[idx@[j as int] as int]) == es[cur[j as int]]);
        }
        let e = &entries[target];
        let other = &entries[idx[j]];
        proof {
            assert(*e == entries@[target as int]);
            assert(*other == entries@[idx@[j as int] as int]);
            assert(cur[j as int] == idx@[j as int] as int);
        }
        let found = entry_leq_exec(e, other);
        proof {
            assert(found == gentry_leq(gview(*e), gview(*other)));
            assert(gview(*e) == es[target as int]);
            assert(gview(*other) == es[cur[j as int]]);
            assert(found == gentry_leq(es[target as int], es[cur[j as int]]));
        }
        if found {
            proof {
                if (j as int) > p {
                    assert(!gentry_leq(es[target as int], es[cur[p]]));
                    assert(gentry_leq(es[target as int], es[cur[p]]));
                }
                if (j as int) < p {
                    assert(!gentry_leq(es[target as int], es[cur[j as int]]));
                }
            }
            return j;
        }
        j = j + 1;
    }
}

/// Sorts the indices of a directory's entries into the visit order.
pub(crate) fn sorted_all_indices(entries: &Vec<FsEntry>) -> (r: Vec<usize>)
    ensures
        iview(r@) == sorted_order(gviews(entries@)),
        forall|j: int| 0 <= j < r@.len() ==> (#[trigger] r@[j]) < entries@.len(),
        r@.len() == entries@.len(),
{
    let ghost es = gviews(entries@);
    let n = entries.len();
    let mut idx: Vec<usize> = Vec::new();
    let mut k: usize = n;
    proof {
        assert(all_idx(n as int).skip(n as int) =~= Seq::<int>::empty());
        assert(iview(idx@) =~= idx_sort(es, all_idx(n as int).skip(n as int)));
    }
    while k > 0
        invariant
            k <= n,
            n == entries@.len(),
            es == gviews(entries@),
            iview(idx@) == idx_sort(es, all_idx(n as int).skip(k as int)),
            forall|j: int| 0 <= j < idx@.len() ==> (#[trigger] idx@[j]) < n,
            idx@.len() == n - k,
        decreases k,
    {
        let ghost tail = all_idx(n as int).skip(k as int);
        let ghost tail2 = all_idx(n as int).skip(k - 1);
        proof {
            assert(tail2[0] == k - 1);
            assert(tail2.skip(1) =~= tail);
        }
        let ghost cur = iview(idx@);
        let j = insert_position(entries, &idx, k - 1);
        idx.insert(j, k - 1);
        proof {
            assert(iview(idx@) =~= cur.insert(j as int, (k - 1) as int));
            assert(iview(idx@) =~= idx_sort(es, tail2));
        }
        k = k - 1;
    }
    proof {
        assert(all_idx(n as int).skip(0) =~= all_idx(n as int));
    }
    idx
}

proof fn lemma_stream_step(
    gn: GNode,
    perm: Seq<int>,
    p: int,
    acc0: Seq<u8>,
    h: Seq<u8>,
    total: Option<Seq<u8>>,
)
    requires
        total == (match gstream_dir(gn, perm, p) {
            Some(t) => Some(acc0 + t),
            None => None,
        }),
        gstream_dir(gn, perm, p) == (match gstream_dir(gn, perm, p + 1) {
            Some(t) => Some(h + t),
            None => None,
        }),
    ensures
        total == (match gstream_dir(gn, perm, p + 1) {
            Some(t) => Some((acc0 + h) + t),
            None => None,
        }),
{
    match gstream_dir(gn, perm, p + 1) {
        Some(t) => {
            assert(acc0 + (h + t) =~= (acc0 + h) + t);
        },
        None => {},
    }
}

/// The concatenated content bytes of a tree: files in the stable visit
/// order, hidden entries skipped, manifests restored through the
/// directory's sidecar.
pub fn node_stream(n: &FsNode) -> (r: Result<Vec<u8>, ModError>)
    ensures
        match gstream_node(node_view(*n)) {
            Some(s) => r matches Ok(v) && v@ == s,
            None => r == Err::<Vec<u8>, ModError>(ModError::PatchApplyFailure),
        },
    decreases *n,
{
    match n {
        FsNode::File { bytes } => {
            let r = subvec(bytes, 0, bytes.len());
            proof {
                assert(r@ =~= bytes@);
            }
            Ok(r)
        },
        FsNode::Dir { entries } => {
            let ghost es = gviews(entries@);
            let ghost gn = GNode::Dir { entries: es };
            proof {
                lemma_entries_gview(*entries, 0);
                assert(gviews(entries@).skip(0) =~= gviews(entries@));
                assert(*n == (FsNode::Dir { entries: *entries }));
                assert(node_view(*n) == gn);
            }
            let idx = sorted_all_indices(entries);
            let ghost perm = iview(idx@);
            let sidecar = find_sidecar(entries);
            let mut acc: Vec<u8> = Vec::new();
            let mut p: usize = 0;
            proof {
                assert(gstream_node(gn) == gstream_dir(gn, perm, 0));
            }
            while p < idx.len()
                invariant
                    p <= idx@.len(),
                    es == gviews(entries@),
                    gn == (GNode::Dir { entries: es }),
                    node_view(*n) == gn,
                    *n == (FsNode::Dir { entries: *entries }),
                    perm == iview(idx@),
                    perm == sorted_order(es),
                    forall|j: int| 0 <= j < idx@.len() ==> (#[trigger] idx@[j]) < entries@.len(),
                    match sidecar {
                        Some(v) => sidecar_of(es) == Some(v@),
                        None => sidecar_of(es) is None,
                    },
                    gstream_node(gn) == (match gstream_dir(gn, perm, p as int) {
                        Some(t) => Some(acc@ + t),
                        None => None,
                    }),
                decreases idx@.len() - p,
            {
                let ghost acc0 = acc@;
                let k = idx[p];
                let e = &entries[k];
                proof {
                    assert(perm[p as int] == k as int);
                    assert(es[k as int] == gview(entries@[k as int]));
                    assert(gstream_dir(gn, perm, p as int) == (match (
                        entry_head(es, k as int),
                        gstream_dir(gn, perm, p + 1),
                    ) {
                        (Some(h), Some(t)) => Some(h + t),
                        _ => None,
                    }));
                }
                if is_entry_hidden(&e.name) {
                    proof {
                        assert(entry_head(es, k as int) == Some(Seq::<u8>::empty()));
                        match gstream_dir(gn, perm, p + 1) {
                            Some(t) => {
                                assert(Seq::<u8>::empty() + t =~= t);
                            },
                            None => {},
                        }
                    }
                } else {
                    match &e.node {
                        FsNode::File { bytes } => {
                            let is_m = manifest_name(&e.name);
                            if is_m {
                                let rr = restore_patched_modinfo_xml(bytes, sidecar.as_ref());
                                match rr {
                                    Ok(Some(v)) => {
                                        proof {
                                            assert(entry_head(es, k as int) == Some(v@));
                                        }
                                        let ghost h = v@;
                                        crate::ascii::append_bytes(&mut acc, &v);
                                        proof {
                                            lemma_stream_step(gn, perm, p as int, acc0, h, gstream_node(gn));
                                        }
                                    },
                                    Ok(None) => {
                                        proof {
                                            assert(sidecar_of(es) is None);
                                            assert(entry_head(es, k as int) == Some(bytes@));
                                        }
                                        crate::ascii::append_bytes(&mut acc, bytes);
                                        proof {
                                            lemma_stream_step(gn, perm, p as int, acc0, bytes@, gstream_node(gn));
                                        }
                                    },
                                    Err(_) => {
                                        proof {
                                            assert(entry_head(es, k as int) is None);
                                            assert(gstream_dir(gn, perm, p as int) is None);
                                            assert(gstream_node(gn) is None);
                                        }
                                        return Err(ModError::PatchApplyFailure);
                                    },
                                }
                            } else {
                                proof {
                                    assert(entry_head(es, k as int) == Some(bytes@));
                                }
                                crate::ascii::append_bytes(&mut acc, bytes);
                                proof {
                                    lemma_stream_step(gn, perm, p as int, acc0, bytes@, gstream_node(gn));
                                }
                            }
                        },
                        FsNode::Dir { .. } => {
                            proof {
                                assert(decreases_to!(*n => *entries));
                                assert(decreases_to!(*entries => entries@[k as int].node));
                                assert(entry_head(es, k as int) == gstream_node(
                                    node_view(entries@[k as int].node),
                                ));
                            }
                            match node_stream(&e.node) {
                                Ok(v) => {
                                    let ghost h = v@;
                                    crate::ascii::append_bytes(&mut acc, &v);
                                    proof {
                                        lemma_stream_step(gn, perm, p as int, acc0, h, gstream_node(gn));
                                    }
                                },
                                Err(_) => {
                                    proof {
                                        assert(entry_head(es, k as int) is None);
                                        assert(gstream_dir(gn, perm, p as int) is None);
                                        assert(gstream_node(gn) is None);
                                    }
                                    return Err(ModError::PatchApplyFailure);
                                },
                            }
                        },
                    }
                }
                p = p + 1;
            }
            proof {
                assert(gstream_dir(gn, perm, p as int) == Some(Seq::<u8>::empty()));
                assert(acc@ + Seq::<u8>::empty() =~= acc@);
            }
            Ok(acc)
        },
    }
}

/// Computes the content fingerprint of a directory tree: the lowercase
/// hex SHA-256 digest of its content stream. Fails only when a manifest's
/// sidecar does not apply to it.
pub fn compute_folder_hash(dir: &FsNode) -> (r: Result<Vec<u8>, ModError>)
    ensures
        match gstream_node(node_view(*dir)) {
            Some(s) => r matches Ok(v) && v@ == hex_of(sha256_of(s)),
            None => r == Err::<Vec<u8>, ModError>(ModError::PatchApplyFailure),
        },
{
    match node_stream(dir) {
        Ok(s) => {
            let d = sha256(&s);
            Ok(to_hex(&d))
        },
        Err(e) => Err(e),
    }
}

// ---------------------------------------------------------------------
// Laws
// ---------------------------------------------------------------------

/// The contribution of one entry to a stream, given the directory's
/// sidecar bytes.
pub open spec fn ventry_head(e: GEntry, sc: Option<Seq<u8>>) -> Option<Seq<u8>> {
    if hidden_name(e.name) {
        Some(Seq::empty())
    } else {
        match e.node {
            GNode::File { bytes } => {
                if is_manifest_name(e.name) {
                    match sc {
                        Some(d) => apply_diff(bytes, d),
                        None => Some(bytes),
                    }
                } else {
                    Some(bytes)
                }
            },
            GNode::Dir { .. } => gstream_node(e.node),
        }
    }
}

/// The stream of a directory described by the value sequence of its
/// entries in visit order and its sidecar bytes.
pub open spec fn vstream(vals: Seq<GEntry>, sc: Option<Seq<u8>>) -> Option<Seq<u8>>
    decreases vals.len(),
{
    if vals.len() == 0 {
        Some(Seq::empty())
    } else {
        match (ventry_head(vals[0], sc), vstream(vals.skip(1), sc)) {
            (Some(h), Some(t)) => Some(h + t),
            _ => None,
        }
    }
}

proof fn lemma_gstream_dir_vstream(n: GNode, es: Seq<GEntry>, perm: Seq<int>, j: int)
    requires
        n == (GNode::Dir { entries: es }),
        idx_in_range(perm, es.len() as int),
        0 <= j <= perm.len(),
    ensures
        gstream_dir(n, perm, j) == vstream(picked(es, perm).skip(j), sidecar_of(es)),
    decreases perm.len() - j,
{
    let pk = picked(es, perm);
    if j == perm.len() {
        assert(pk.skip(j) =~= Seq::<GEntry>::empty());
    } else {
        lemma_gstream_dir_vstream(n, es, perm, j + 1);
        let k = perm[j];
        assert(0 <= k < es.len());
        assert(pk.skip(j)[0] == es[k]);
        assert(pk.skip(j).skip(1) =~= pk.skip(j + 1));
        assert(entry_head(es, k) == ventry_head(es[k], sidecar_of(es)));
    }
}

proof fn lemma_all_idx_in_range(len: int)
    ensures
        idx_in_range(all_idx(len), len),
{
}

proof fn lemma_idx_pos_picked(es: Seq<GEntry>, k: int, idxs: Seq<int>)
    requires
        idx_in_range(idxs, es.len() as int),
        0 <= k < es.len(),
    ensures
        idx_insert_pos(es, k, idxs) == crate::fstree::insert_pos(es[k], picked(es, idxs)),
    decreases idxs.len(),
{
    if idxs.len() == 0 {
    } else {
        assert(picked(es, idxs)[0] == es[idxs[0]]);
        if gentry_leq(es[k], es[idxs[0]]) {
        } else {
            assert(idx_in_range(idxs.skip(1), es.len() as int)) by {
                assert(forall|j: int|
                    0 <= j < idxs.skip(1).len() ==> #[trigger] idxs.skip(1)[j] == idxs[j + 1]);
            }
            lemma_idx_pos_picked(es, k, idxs.skip(1));
            assert(picked(es, idxs.skip(1)) =~= picked(es, idxs).skip(1));
        }
    }
}

proof fn lemma_picked_sort(es: Seq<GEntry>, idxs: Seq<int>)
    requires
        idx_in_range(idxs, es.len() as int),
    ensures
        picked(es, idx_sort(es, idxs)) == crate::fstree::sort_entries(picked(es, idxs)),
    decreases idxs.len(),
{
    if idxs.len() == 0 {
        assert(picked(es, idx_sort(es, idxs)) =~= Seq::<GEntry>::empty());
        assert(picked(es, idxs) =~= Seq::<GEntry>::empty());
    } else {
        assert(idx_in_range(idxs.skip(1), es.len() as int)) by {
            assert(forall|j: int|
                0 <= j < idxs.skip(1).len() ==> #[trigger] idxs.skip(1)[j] == idxs[j + 1]);
        }
        lemma_picked_sort(es, idxs.skip(1));
        let inner = idx_sort(es, idxs.skip(1));
        lemma_idx_sort_range(es, idxs.skip(1), es.len() as int);
        lemma_idx_pos_picked(es, idxs[0], inner);
        let p = idx_insert_pos(es, idxs[0], inner);
        lemma_idx_pos_char(es, idxs[0], inner);
        crate::fstree::lemma_insert_pos_bounds(es[idxs[0]], picked(es, inner));
        assert(picked(es, inner.insert(p, idxs[0])) =~= picked(es, inner).insert(p, es[idxs[0]]));
        assert(picked(es, idxs.skip(1)) =~= picked(es, idxs).skip(1));
        assert(picked(es, idxs)[0] == es[idxs[0]]);
    }
}

/// The directory stream equals the value-level stream of the entries
/// sorted into the visit order.
pub proof fn lemma_dir_stream_vstream(es: Seq<GEntry>)
    ensures
        dir_stream(es) == vstream(crate::fstree::sort_entries(es), sidecar_of(es)),
{
    let n = GNode::Dir { entries: es };
    lemma_all_idx_in_range(es.len() as int);
    lemma_idx_sort_range(es, all_idx(es.len() as int), es.len() as int);
    lemma_gstream_dir_vstream(n, es, sorted_order(es), 0);
    lemma_picked_sort(es, all_idx(es.len() as int));
    assert(picked(es, all_idx(es.len() as int)) =~= es);
    assert(picked(es, sorted_order(es)).skip(0) =~= picked(es, sorted_order(es)));
}

/// Pairwise distinct names carry over to any reordering.
proof fn lemma_distinct_names_multiset(s1: Seq<GEntry>, s2: Seq<GEntry>)
    requires
        s1.to_multiset() == s2.to_multiset(),
        crate::fstree::distinct_names(s1),
    ensures
        crate::fstree::distinct_names(s2),
    decreases s2.len(),
{
    broadcast use vstd::seq_lib::group_to_multiset_ensures;

    vstd::seq_lib::to_multiset_len(s1);
    vstd::seq_lib::to_multiset_len(s2);
    if s2.len() == 0 {
    } else {
        assert(s2.to_multiset().contains(s2[0]));
        assert(s1.contains(s2[0]));
        let k = choose|k: int| 0 <= k < s1.len() && s1[k] == s2[0];
        vstd::seq_lib::to_multiset_remove(s1, k);
        vstd::seq_lib::to_multiset_remove(s2, 0);
        assert(s2.remove(0) =~= s2.skip(1));
        assert(s1.remove(k).to_multiset() =~= s2.skip(1).to_multiset());
        assert(crate::fstree::distinct_names(s1.remove(k))) by {
            assert(forall|i: int, j: int|
                0 <= i < j < s1.remove(k).len() ==> (#[trigger] s1.remove(k)[i]).name != (
                #[trigger] s1.remove(k)[j]).name);
        }
        lemma_distinct_names_multiset(s1.remove(k), s2.skip(1));
        assert forall|i: int, j: int|
            0 <= i < j < s2.len() implies (#[trigger] s2[i]).name != (#[trigger] s2[j]).name by {
            if i == 0 {
                assert(s2[j] == s2.skip(1)[j - 1]);
                assert(s2.skip(1).to_multiset().contains(s2[j]));
                assert(s1.remove(k).contains(s2[j]));
                let k2 = choose|k2: int|
                    0 <= k2 < s1.remove(k).len() && s1.remove(k)[k2] == s2[j];
                if k2 < k {
                    assert(s1.remove(k)[k2] == s1[k2]);
                    assert(s1[k2].name != s1[k].name);
                } else {
                    assert(s1.remove(k)[k2] == s1[k2 + 1]);
                    assert(s1[k2 + 1].name != s1[k].name);
                }
            } else {
                assert(s2[i] == s2.skip(1)[i - 1]);
                assert(s2[j] == s2.skip(1)[j - 1]);
            }
        }
    }
}

/// The fingerprint of a directory does not depend on the order in which
/// its entries are listed: any reordering of entries with pairwise
/// distinct names has the same content stream, and so the same
/// fingerprint.
pub proof fn lemma_fingerprint_order_independent(es1: Seq<GEntry>, es2: Seq<GEntry>)
    requires
        es1.to_multiset() == es2.to_multiset(),
        crate::fstree::distinct_names(es1),
    ensures
        dir_stream(es1) == dir_stream(es2),
        fingerprint_spec(es1) == fingerprint_spec(es2),
{
    lemma_dir_stream_vstream(es1);
    lemma_dir_stream_vstream(es2);
    crate::fstree::lemma_sort_entries(es1);
    crate::fstree::lemma_sort_entries(es2);
    lemma_distinct_names_multiset(es1, crate::fstree::sort_entries(es1));
    crate::fstree::lemma_sorted_unique(
        crate::fstree::sort_entries(es1),
        crate::fstree::sort_entries(es2),
    );
    lemma_sidecar_same(es1, es2);
}

/// With distinct names, the sidecar of a directory is determined by the
/// set of entries alone, not their order.
proof fn lemma_sidecar_same(es1: Seq<GEntry>, es2: Seq<GEntry>)
    requires
        es1.to_multiset() == es2.to_multiset(),
        crate::fstree::distinct_names(es1),
    ensures
        sidecar_of(es1) == sidecar_of(es2),
{
    broadcast use vstd::seq_lib::group_to_multiset_ensures;

    match sidecar_of(es1) {
        Some(b) => {
            let i = lemma_sidecar_found(es1);
            assert(es1.contains(es1[i]));
            assert(es1.to_multiset().contains(es1[i]));
            assert(es2.to_multiset().contains(es1[i]));
            assert(es2.contains(es1[i]));
            let j = choose|j: int| 0 <= j < es2.len() && es2[j] == es1[i];
            lemma_distinct_names_multiset(es1, es2);
            lemma_sidecar_member(es2, j);
        },
        None => {
            lemma_no_sidecar_none(es1);
            assert forall|j: int| 0 <= j < es2.len() implies !(is_sidecar_name(
                (#[trigger] es2[j]).name,
            ) && es2[j].node is File) by {
                assert(es2.to_multiset().contains(es2[j]));
                assert(es1.contains(es2[j]));
            }
            lemma_none_no_sidecar(es2);
        },
    }
}

/// When a sidecar is found, it sits at an index, and every entry before
/// that index is no sidecar file.
proof fn lemma_sidecar_found(es: Seq<GEntry>) -> (i: int)
    requires
        sidecar_of(es) is Some,
    ensures
        0 <= i < es.len(),
        is_sidecar_name(es[i].name),
        es[i].node is File,
        sidecar_of(es) == Some(es[i].node->File_bytes),
    decreases es.len(),
{
    if es.len() == 0 {
        0
    } else if is_sidecar_name(es[0].name) && es[0].node is File {
        0
    } else {
        let i = lemma_sidecar_found(es.skip(1)) + 1;
        assert(es[i] == es.skip(1)[i - 1]);
        i
    }
}

/// With distinct names, any sidecar file among the entries is the one
/// the lookup returns.
proof fn lemma_sidecar_member(es: Seq<GEntry>, j: int)
    requires
        0 <= j < es.len(),
        is_sidecar_name(es[j].name),
        es[j].node is File,
        crate::fstree::distinct_names(es),
    ensures
        sidecar_of(es) == Some(es[j].node->File_bytes),
    decreases es.len(),
{
    if is_sidecar_name(es[0].name) && es[0].node is File {
        if j != 0 {
            assert(es[0].name == es[j].name);
            assert(false);
        }
    } else {
        assert(j != 0);
        assert(crate::fstree::distinct_names(es.skip(1))) by {
            assert(forall|a: int, b: int|
                0 <= a < b < es.skip(1).len() ==> (#[trigger] es.skip(1)[a]).name != (
                #[trigger] es.skip(1)[b]).name);
        }
        assert(es.skip(1)[j - 1] == es[j]);
        lemma_sidecar_member(es.skip(1), j - 1);
    }
}

proof fn lemma_no_sidecar_none(es: Seq<GEntry>)
    requires
        sidecar_of(es) is None,
    ensures
        forall|j: int|
            0 <= j < es.len() ==> !(is_sidecar_name((#[trigger] es[j]).name) && es[j].node
                is File),
    decreases es.len(),
{
    if es.len() == 0 {
    } else {
        lemma_no_sidecar_none(es.skip(1));
        assert forall|j: int|
            0 <= j < es.len() implies !(is_sidecar_name((#[trigger] es[j]).name) && es[j].node
            is File) by {
            if j > 0 {
                assert(es[j] == es.skip(1)[j - 1]);
            }
        }
    }
}

proof fn lemma_none_no_sidecar(es: Seq<GEntry>)
    requires
        forall|j: int|
            0 <= j < es.len() ==> !(is_sidecar_name((#[trigger] es[j]).name) && es[j].node
                is File),
    ensures
        sidecar_of(es) is None,
    decreases es.len(),
{
    if es.len() == 0 {
    } else {
        assert forall|j: int|
            0 <= j < es.skip(1).len() implies !(is_sidecar_name(
            (#[trigger] es.skip(1)[j]).name,
        ) && es.skip(1)[j].node is File) by {
            assert(es.skip(1)[j] == es[j + 1]);
        }
        lemma_none_no_sidecar(es.skip(1));
    }
}

/// Inserting a hidden entry anywhere leaves a stream unchanged.
proof fn lemma_vstream_insert_hidden(v: Seq<GEntry>, p: int, e: GEntry, sc: Option<Seq<u8>>)
    requires
        0 <= p <= v.len(),
        hidden_name(e.name),
    ensures
        vstream(v.insert(p, e), sc) == vstream(v, sc),
    decreases v.len(),
{
    let w = v.insert(p, e);
    if p == 0 {
        assert(w[0] == e);
        assert(ventry_head(e, sc) == Some(Seq::<u8>::empty()));
        assert(w.skip(1) =~= v);
        match vstream(v, sc) {
            Some(t) => {
                assert(Seq::<u8>::empty() + t =~= t);
            },
            None => {},
        }
    } else {
        assert(w[0] == v[0]);
        assert(w.skip(1) =~= v.skip(1).insert(p - 1, e));
        lemma_vstream_insert_hidden(v.skip(1), p - 1, e, sc);
    }
}

/// The per-entry relation between an unpatched directory and its patched
/// form: an entry is unchanged and unaffected by the sidecar, or it is
/// the manifest file, patched, and the sidecar restores its original
/// bytes.
pub open spec fn patch_pair_ok(x: GEntry, y: GEntry, sc: Seq<u8>) -> bool {
    ||| (y == x && !(x.node is File && is_manifest_name(x.name) && !hidden_name(x.name)))
    ||| (y.name == x.name && !hidden_name(x.name) && is_manifest_name(x.name) && x.node is File
        && y.node is File && apply_diff(y.node->File_bytes, sc) == Some(x.node->File_bytes))
}

/// A patched directory streams the same bytes as the unpatched one.
proof fn lemma_vstream_patch(v1: Seq<GEntry>, v2: Seq<GEntry>, sc: Seq<u8>)
    requires
        v1.len() == v2.len(),
        forall|j: int| 0 <= j < v1.len() ==> patch_pair_ok(#[trigger] v1[j], #[trigger] v2[j], sc),
    ensures
        vstream(v2, Some(sc)) == vstream(v1, None),
    decreases v1.len(),
{
    if v1.len() == 0 {
    } else {
        assert(patch_pair_ok(v1[0], v2[0], sc));
        assert(ventry_head(v2[0], Some(sc)) == ventry_head(v1[0], None));
        assert forall|j: int|
            0 <= j < v1.skip(1).len() implies patch_pair_ok(
            #[trigger] v1.skip(1)[j],
            #[trigger] v2.skip(1)[j],
            sc,
        ) by {
            assert(v1.skip(1)[j] == v1[j + 1]);
            assert(v2.skip(1)[j] == v2[j + 1]);
        }
        lemma_vstream_patch(v1.skip(1), v2.skip(1), sc);
    }
}

proof fn lemma_idx_pos_names(v1: Seq<GEntry>, v2: Seq<GEntry>, k: int, idxs: Seq<int>)
    requires
        v1.len() == v2.len(),
        forall|i: int| 0 <= i < v1.len() ==> (#[trigger] v1[i]).name == (#[trigger] v2[i]).name,
        idx_in_range(idxs, v1.len() as int),
        0 <= k < v1.len(),
    ensures
        idx_insert_pos(v1, k, idxs) == idx_insert_pos(v2, k, idxs),
    decreases idxs.len(),
{
    if idxs.len() == 0 {
    } else {
        assert(gentry_leq(v1[k], v1[idxs[0]]) == gentry_leq(v2[k], v2[idxs[0]]));
        assert(idx_in_range(idxs.skip(1), v1.len() as int)) by {
            assert(forall|j: int|
                0 <= j < idxs.skip(1).len() ==> #[trigger] idxs.skip(1)[j] == idxs[j + 1]);
        }
        lemma_idx_pos_names(v1, v2, k, idxs.skip(1));
    }
}

proof fn lemma_idx_sort_names(v1: Seq<GEntry>, v2: Seq<GEntry>, idxs: Seq<int>)
    requires
        v1.len() == v2.len(),
        forall|i: int| 0 <= i < v1.len() ==> (#[trigger] v1[i]).name == (#[trigger] v2[i]).name,
        idx_in_range(idxs, v1.len() as int),
    ensures
        idx_sort(v1, idxs) == idx_sort(v2, idxs),
    decreases idxs.len(),
{
    if idxs.len() == 0 {
    } else {
        assert(idx_in_range(idxs.skip(1), v1.len() as int)) by {
            assert(forall|j: int|
                0 <= j < idxs.skip(1).len() ==> #[trigger] idxs.skip(1)[j] == idxs[j + 1]);
        }
        lemma_idx_sort_names(v1, v2, idxs.skip(1));
        lemma_idx_sort_range(v1, idxs.skip(1), v1.len() as int);
        lemma_idx_pos_names(v1, v2, idxs[0], idx_sort(v1, idxs.skip(1)));
    }
}

/// The patched form of a directory: the manifest file at index `m`
/// replaced by its patched text, and the sidecar file added.
pub open spec fn patched_dir(es: Seq<GEntry>, m: int, patched: Seq<u8>, sc: Seq<u8>) -> Seq<
    GEntry,
> {
    es.update(
        m,
        GEntry { name: es[m].name, node: GNode::File { bytes: patched } },
    ).push(GEntry { name: spec_sidecar_name(), node: GNode::File { bytes: sc } })
}

/// The fingerprint sees through the manifest patch: patching the (only)
/// manifest file of a directory and laying the sidecar beside it leaves
/// the directory's content stream, and so its fingerprint, unchanged.
pub proof fn lemma_fingerprint_patch_invariant(es: Seq<GEntry>, m: int, patched: Seq<u8>, sc: Seq<u8>)
    requires
        0 <= m < es.len(),
        es[m].node is File,
        is_manifest_name(es[m].name),
        !hidden_name(es[m].name),
        forall|k: int| 0 <= k < es.len() && k != m ==> !is_manifest_name((#[trigger] es[k]).name),
        forall|k: int| 0 <= k < es.len() ==> !is_sidecar_name((#[trigger] es[k]).name),
        crate::fstree::distinct_names(es),
        apply_diff(patched, sc) == Some(es[m].node->File_bytes),
    ensures
        dir_stream(patched_dir(es, m, patched, sc)) == dir_stream(es),
        fingerprint_spec(patched_dir(es, m, patched, sc)) == fingerprint_spec(es),
{
    broadcast use vstd::seq_lib::group_to_multiset_ensures;

    let newe = GEntry { name: es[m].name, node: GNode::File { bytes: patched } };
    let sce = GEntry { name: spec_sidecar_name(), node: GNode::File { bytes: sc } };
    let upd = es.update(m, newe);
    let es2 = patched_dir(es, m, patched, sc);
    assert(es2 =~= upd.push(sce));
    assert(spec_sidecar_name()[0] == 46);
    assert(hidden_name(spec_sidecar_name()));

    // the sidecars of the two directories
    lemma_none_no_sidecar(es);
    assert(crate::fstree::distinct_names(es2)) by {
        assert forall|i: int, j: int|
            0 <= i < j < es2.len() implies (#[trigger] es2[i]).name != (
        #[trigger] es2[j]).name by {
            if j < es2.len() - 1 {
                assert(es2[i].name == es[i].name);
                assert(es2[j].name == es[j].name);
            } else {
                assert(es2[j].name == spec_sidecar_name());
                assert(es2[i].name == es[i].name);
                assert(!is_sidecar_name(es[i].name));
            }
        }
    }
    lemma_sidecar_member(es2, es2.len() - 1);

    // both streams through the sorted value sequences
    lemma_dir_stream_vstream(es);
    lemma_dir_stream_vstream(es2);

    // the sorted form of the patched directory: the sorted updated
    // entries with the sidecar entry inserted at its position
    crate::fstree::lemma_sort_entries(es2);
    crate::fstree::lemma_sort_entries(upd);
    crate::fstree::lemma_insert_sorted(sce, crate::fstree::sort_entries(upd));
    vstd::seq_lib::to_multiset_build(upd, sce);
    lemma_distinct_names_multiset(es2, crate::fstree::sort_entries(es2));
    crate::fstree::lemma_sorted_unique(
        crate::fstree::sort_entries(es2),
        crate::fstree::insert_sorted(sce, crate::fstree::sort_entries(upd)),
    );
    crate::fstree::lemma_insert_pos_bounds(sce, crate::fstree::sort_entries(upd));
    lemma_vstream_insert_hidden(
        crate::fstree::sort_entries(upd),
        crate::fstree::insert_pos(sce, crate::fstree::sort_entries(upd)),
        sce,
        Some(sc),
    );

    // the updated entries sort in the same positions as the originals
    let o = sorted_order(es);
    lemma_all_idx_in_range(es.len() as int);
    assert(upd.len() == es.len());
    assert(all_idx(upd.len() as int) =~= all_idx(es.len() as int));
    lemma_idx_sort_names(es, upd, all_idx(es.len() as int));
    lemma_picked_sort(es, all_idx(es.len() as int));
    lemma_picked_sort(upd, all_idx(upd.len() as int));
    assert(picked(es, all_idx(es.len() as int)) =~= es);
    assert(picked(upd, all_idx(upd.len() as int)) =~= upd);
    let v1 = crate::fstree::sort_entries(es);
    let v2 = crate::fstree::sort_entries(upd);
    assert(v1 == picked(es, o));
    assert(v2 == picked(upd, o));
    lemma_idx_sort_range(es, all_idx(es.len() as int), es.len() as int);
    assert forall|j: int| 0 <= j < v1.len() implies patch_pair_ok(
        #[trigger] v1[j],
        #[trigger] v2[j],
        sc,
    ) by {
        assert(0 <= o[j] < es.len());
        assert(v1[j] == es[o[j]]);
        assert(v2[j] == upd[o[j]]);
        if o[j] == m {
            assert(v2[j] == newe);
        } else {
            assert(v2[j] == es[o[j]]);
            assert(!is_manifest_name(es[o[j]].name));
        }
    }
    lemma_vstream_patch(v1, v2, sc);
}


} // verus!
