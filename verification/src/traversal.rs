//! The mod directory scanner: pairs each top-level mod folder with its
//! manifest anchor (found in the stable, non-hidden walk order), parses
//! the identity fields out of the manifest, and fingerprints the
//! manifest's directory.

use vstd::prelude::*;

use crate::ascii::{SLASH, subvec, append_bytes, bytes_eq, attr_id, spec_attr_id,
    key_internal_version_id, spec_key_internal_version_id, tag_properties, spec_tag_properties,
    hash_error_text, spec_hash_error_text};
use crate::fstree::{FsNode, FsEntry, GNode, GEntry, node_view, gviews, gview,
    lemma_entries_gview, hidden_name, is_entry_hidden, is_manifest_name, manifest_name};
use crate::fingerprint::{sorted_order, sorted_all_indices, iview, gstream_node, node_stream,
    compute_folder_hash, hex_of, sha256_of};
use crate::patch::opt_view;
use crate::xmltree::{ENode, enode_view, enodes_view, child_named, find_child, first_elem,
    find_first_elem, text_content, get_text, attr_of, get_attr};
use crate::schema::{spec_tree_of, tree_of, opt_text_of, get_opt_text};

verus! {

/// The identity fields the scanner reads from a manifest, leniently: the
/// root element's `id` attribute and the application-owned internal
/// version id inside `Properties`.
pub struct ModXml {
    pub id: Option<Vec<u8>>,
    pub properties: Properties,
}

/// The one property of a manifest the scanner itself consumes.
pub struct Properties {
    pub civ_mods_internal_version_id: Option<Vec<u8>>,
}

/// The model of `ModXml`.
pub struct GModXml {
    pub id: Option<Seq<u8>>,
    pub civ_mods_internal_version_id: Option<Seq<u8>>,
}

pub open spec fn mod_xml_view(m: ModXml) -> GModXml {
    GModXml {
        id: opt_view(m.id),
        civ_mods_internal_version_id: opt_view(m.properties.civ_mods_internal_version_id),
    }
}

/// The scanner's lenient read of a manifest: `None` when the text has no
/// root element at all.
pub open spec fn spec_parse_mod_xml(input: Seq<u8>) -> Option<GModXml> {
    match first_elem(spec_tree_of(input)) {
        None => None,
        Some(root) => Some(
            GModXml {
                id: attr_of(root->Elem_attrs, spec_attr_id()),
                civ_mods_internal_version_id: match child_named(
                    root->Elem_children,
                    spec_tag_properties(),
                ) {
                    None => None,
                    Some(p) => opt_text_of(p->Elem_children, spec_key_internal_version_id()),
                },
            },
        ),
    }
}

/// Reads the identity fields out of a manifest text.
pub fn extract_mod_xml(input: &Vec<u8>) -> (r: Option<ModXml>)
    ensures
        match r {
            Some(m) => spec_parse_mod_xml(input@) == Some(mod_xml_view(m)),
            None => spec_parse_mod_xml(input@) is None,
        },
{
    let tree = tree_of(input);
    let root = match find_first_elem(&tree) {
        None => {
            return None;
        },
        Some(e) => e,
    };
    match root {
        ENode::Elem { name, attrs, children } => {
            proof {
                crate::xmltree::lemma_echildren_view_ref(root, 0);
                assert(enodes_view(children@).skip(0) =~= enodes_view(children@));
            }
            let a_id = attr_id();
            let id = get_attr(attrs, &a_id);
            let t_props = tag_properties();
            let civ: Option<Vec<u8>>;
            match find_child(children, &t_props) {
                None => {
                    civ = None;
                },
                Some(p) => match p {
                    ENode::Elem { name: pn, attrs: pa, children: pc } => {
                        proof {
                            crate::xmltree::lemma_echildren_view_ref(p, 0);
                            assert(enodes_view(pc@).skip(0) =~= enodes_view(pc@));
                        }
                        let k_iv = key_internal_version_id();
                        civ = get_opt_text(pc, &k_iv);
                    },
                    ENode::Text { .. } => {
                        proof {
                            crate::xmltree::lemma_child_named_is_elem(
                                enodes_view(children@),
                                t_props@,
                                0,
                            );
                            assert(false);
                        }
                        civ = None;
                    },
                },
            }
            Some(ModXml { id, properties: Properties { civ_mods_internal_version_id: civ } })
        },
        ENode::Text { .. } => {
            proof {
                crate::xmltree::lemma_first_elem_is_elem(enodes_view(tree@), 0);
                assert(false);
            }
            None
        },
    }
}

// ---------------------------------------------------------------------
// The manifest anchor
// ---------------------------------------------------------------------

/// The manifest anchor of a tree: the first manifest-named, non-hidden
/// file in the stable walk order, as its relative path, its bytes, and
/// its containing directory.
pub open spec fn manifest_of(n: GNode) -> Option<(Seq<Seq<u8>>, Seq<u8>, GNode)>
    decreases n, 1int, 0int,
{
    match n {
        GNode::File { bytes } => None,
        GNode::Dir { entries } => manifest_in_dir(n, sorted_order(entries), 0),
    }
}

pub open spec fn manifest_in_dir(n: GNode, perm: Seq<int>, j: int) -> Option<
    (Seq<Seq<u8>>, Seq<u8>, GNode),
>
    decreases n, 0int, perm.len() - j,
{
    match n {
        GNode::Dir { entries } => {
            if j < 0 || j >= perm.len() {
                None
            } else {
                let k = perm[j];
                if k < 0 || k >= entries.len() {
                    manifest_in_dir(n, perm, j + 1)
                } else {
                    let e = entries[k];
                    if hidden_name(e.name) {
                        manifest_in_dir(n, perm, j + 1)
                    } else {
                        match e.node {
                            GNode::File { bytes } => {
                                if is_manifest_name(e.name) {
                                    Some((seq![e.name], bytes, n))
                                } else {
                                    manifest_in_dir(n, perm, j + 1)
                                }
                            },
                            GNode::Dir { .. } => {
                                match manifest_of(e.node) {
                                    Some((p, b, parent)) => Some((seq![e.name] + p, b, parent)),
                                    None => manifest_in_dir(n, perm, j + 1),
                                }
                            },
                        }
                    }
                }
            }
        },
        _ => None,
    }
}

/// The views of a path component vector.
pub open spec fn path_views(s: Seq<Vec<u8>>) -> Seq<Seq<u8>> {
    Seq::new(s.len(), |i: int| s[i]@)
}

/// Finds the manifest anchor inside a directory tree: its relative path
/// components, a copy of its bytes, and its containing directory.
pub fn find_modinfo_file<'a>(n: &'a FsNode) -> (r: Option<(Vec<Vec<u8>>, Vec<u8>, &'a FsNode)>)
    ensures
        match r {
            Some(t) => manifest_of(node_view(*n)) matches Some(g) && path_views(t.0@) == g.0
                && t.1@ == g.1 && node_view(*t.2) == g.2,
            None => manifest_of(node_view(*n)) is None,
        },
    decreases *n,
{
    match n {
        FsNode::File { bytes } => None,
        FsNode::Dir { entries } => {
            let ghost es = gviews(entries@);
            let ghost gn = GNode::Dir { entries: es };
            proof {
                lemma_entries_gview(*entries, 0);
                assert(gviews(entries@).skip(0) =~= gviews(entries@));
                assert(*n == (FsNode::Dir { entries: *entries }));
                assert(node_view(*n) == gn);
            }
            let idx = sorted_all_indices(entries);
            let ghost perm = iview(idx@);
            let mut p: usize = 0;
            while p < idx.len()
                invariant
                    p <= idx@.len(),
                    es == gviews(entries@),
                    gn == (GNode::Dir { entries: es }),
                    node_view(*n) == gn,
                    *n == (FsNode::Dir { entries: *entries }),
                    perm == iview(idx@),
                    perm == sorted_order(es),
                    forall|q: int| 0 <= q < idx@.len() ==> (#[trigger] idx@[q]) < entries@.len(),
                    manifest_of(gn) == manifest_in_dir(gn, perm, p as int),
                decreases idx@.len() - p,
            {
                let k = idx[p];
                let e = &entries[k];
                proof {
                    assert(perm[p as int] == k as int);
                    assert(es[k as int] == gview(entries@[k as int]));
                }
                if !is_entry_hidden(&e.name) {
                    match &e.node {
                        FsNode::File { bytes } => {
                            if manifest_name(&e.name) {
                                let mut path: Vec<Vec<u8>> = Vec::new();
                                path.push(subvec(&e.name, 0, e.name.len()));
                                proof {
                                    assert(e.name@.subrange(0, e.name@.len() as int) =~= e.name@);
                                    assert(path_views(path@) =~= seq![es[k as int].name]);
                                }
                                return Some((path, subvec(bytes, 0, bytes.len()), n));
                            }
                        },
                        FsNode::Dir { .. } => {
                            proof {
                                assert(decreases_to!(*n => *entries));
                                assert(decreases_to!(*entries => entries@[k as int].node));
                            }
                            match find_modinfo_file(&e.node) {
                                Some((tail, bytes, parent)) => {
                                    let mut path: Vec<Vec<u8>> = Vec::new();
                                    path.push(subvec(&e.name, 0, e.name.len()));
                                    let ghost tail0 = path_views(tail@);
                                    let mut tail2 = tail;
                                    path.append(&mut tail2);
                                    proof {
                                        assert(e.name@.subrange(0, e.name@.len() as int)
                                            =~= e.name@);
                                        assert(path_views(path@) =~~= seq![es[k as int].name]
                                            + tail0);
                                    }
                                    return Some((path, bytes, parent));
                                },
                                None => {},
                            }
                        },
                    }
                }
                p = p + 1;
            }
            None
        },
    }
}

// ---------------------------------------------------------------------
// The scan
// ---------------------------------------------------------------------

/// One scanned mod: its folder, manifest location, identity fields, and
/// content fingerprint.
pub struct ModInfo {
    pub mod_name: Vec<u8>,
    pub modinfo_path: Vec<u8>,
    pub modinfo_id: Option<Vec<u8>>,
    pub folder_hash: Vec<u8>,
    pub folder_name: Vec<u8>,
    pub civmods_internal_version_id: Option<Vec<u8>>,
}

/// The model of a scanned mod.
pub struct GModInfo {
    pub mod_name: Seq<u8>,
    pub modinfo_path: Seq<u8>,
    pub modinfo_id: Option<Seq<u8>>,
    pub folder_hash: Seq<u8>,
    pub folder_name: Seq<u8>,
    pub civmods_internal_version_id: Option<Seq<u8>>,
}

pub open spec fn mod_info_view(m: ModInfo) -> GModInfo {
    GModInfo {
        mod_name: m.mod_name@,
        modinfo_path: m.modinfo_path@,
        modinfo_id: opt_view(m.modinfo_id),
        folder_hash: m.folder_hash@,
        folder_name: m.folder_name@,
        civmods_internal_version_id: opt_view(m.civmods_internal_version_id),
    }
}

pub open spec fn infos_view(s: Seq<ModInfo>) -> Seq<GModInfo> {
    Seq::new(s.len(), |i: int| mod_info_view(s[i]))
}

/// Path components each preceded by a separator.
pub open spec fn slash_join(parts: Seq<Seq<u8>>, j: int) -> Seq<u8>
    decreases parts.len() - j,
{
    if j < 0 || j >= parts.len() {
        Seq::empty()
    } else {
        seq![SLASH] + parts[j] + slash_join(parts, j + 1)
    }
}

/// The scan record of one mods-root entry: `None` for plain files and
/// for folders without a manifest anchor, which the scan skips.
pub open spec fn scan_entry_spec(root: Seq<u8>, e: GEntry) -> Option<GModInfo> {
    match e.node {
        GNode::File { .. } => None,
        GNode::Dir { .. } => match manifest_of(e.node) {
            None => None,
            Some((path, bytes, parent)) => {
                let ids = match spec_parse_mod_xml(bytes) {
                    Some(x) => x,
                    None => GModXml { id: None, civ_mods_internal_version_id: None },
                };
                Some(
                    GModInfo {
                        mod_name: e.name,
                        modinfo_path: root + seq![SLASH] + e.name + slash_join(path, 0),
                        modinfo_id: ids.id,
                        folder_hash: match gstream_node(parent) {
                            Some(s) => hex_of(sha256_of(s)),
                            None => spec_hash_error_text(),
                        },
                        folder_name: e.name,
                        civmods_internal_version_id: ids.civ_mods_internal_version_id,
                    },
                )
            },
        },
    }
}

/// The scan of a mods root, from entry `j` on.
pub open spec fn scan_spec(root: Seq<u8>, es: Seq<GEntry>, j: int) -> Seq<GModInfo>
    decreases es.len() - j,
{
    if j < 0 || j >= es.len() {
        Seq::empty()
    } else {
        match scan_entry_spec(root, es[j]) {
            Some(m) => seq![m] + scan_spec(root, es, j + 1),
            None => scan_spec(root, es, j + 1),
        }
    }
}

/// Scans a mods root: each immediate subfolder that holds a manifest
/// anchor becomes one record; folders without one, and plain files, are
/// skipped.
pub fn scan_civ_mods(root_path: &Vec<u8>, mods: &Vec<FsEntry>) -> (r: Vec<ModInfo>)
    ensures
        infos_view(r@) == scan_spec(root_path@, gviews(mods@), 0),
{
    let ghost es = gviews(mods@);
    let mut out: Vec<ModInfo> = Vec::new();
    let mut j: usize = 0;
    proof {
        assert(infos_view(out@) =~= Seq::<GModInfo>::empty());
    }
    while j < mods.len()
        invariant
            j <= mods@.len(),
            es == gviews(mods@),
            infos_view(out@) + scan_spec(root_path@, es, j as int) == scan_spec(root_path@, es, 0),
        decreases mods@.len() - j,
    {
        let ghost out0 = infos_view(out@);
        let e = &mods[j];
        proof {
            assert(es[j as int] == gview(mods@[j as int]));
        }
        match &e.node {
            FsNode::File { .. } => {
                proof {
                    assert(scan_entry_spec(root_path@, es[j as int]) is None);
                }
            },
            FsNode::Dir { .. } => {
                match find_modinfo_file(&e.node) {
                    None => {
                        proof {
                            assert(scan_entry_spec(root_path@, es[j as int]) is None);
                        }
                    },
                    Some((path, bytes, parent)) => {
                        let ids = match extract_mod_xml(&bytes) {
                            Some(x) => x,
                            None => ModXml {
                                id: None,
                                properties: Properties { civ_mods_internal_version_id: None },
                            },
                        };
                        let folder_hash = match compute_folder_hash(parent) {
                            Ok(h) => h,
                            Err(_) => hash_error_text(),
                        };
                        let mut modinfo_path = subvec(root_path, 0, root_path.len());
                        modinfo_path.push(SLASH);
                        append_bytes(&mut modinfo_path, &e.name);
                        let ghost relp = path_views(path@);
                        let ghost base = root_path@ + seq![SLASH] + e.name@;
                        proof {
                            assert(root_path@.subrange(0, root_path@.len() as int) =~= root_path@);
                            assert(modinfo_path@ =~= base);
                        }
                        let mut q: usize = 0;
                        while q < path.len()
                            invariant
                                q <= path@.len(),
                                relp == path_views(path@),
                                modinfo_path@ + slash_join(relp, q as int) == base + slash_join(
                                    relp,
                                    0,
                                ),
                            decreases path@.len() - q,
                        {
                            let ghost mp0 = modinfo_path@;
                            modinfo_path.push(SLASH);
                            append_bytes(&mut modinfo_path, &path[q]);
                            proof {
                                assert(relp[q as int] == path@[q as int]@);
                                assert(modinfo_path@ =~= mp0 + (seq![SLASH] + relp[q as int]));
                                assert((mp0 + (seq![SLASH] + relp[q as int])) + slash_join(
                                    relp,
                                    q + 1,
                                ) =~= mp0 + ((seq![SLASH] + relp[q as int]) + slash_join(
                                    relp,
                                    q + 1,
                                )));
                            }
                            q = q + 1;
                        }
                        proof {
                            assert(slash_join(relp, path@.len() as int)
                                =~= Seq::<u8>::empty());
                            assert(modinfo_path@ + Seq::<u8>::empty() =~= modinfo_path@);
                        }
                        let m = ModInfo {
                            mod_name: subvec(&e.name, 0, e.name.len()),
                            modinfo_path,
                            modinfo_id: ids.id,
                            folder_hash,
                            folder_name: subvec(&e.name, 0, e.name.len()),
                            civmods_internal_version_id:
                                ids.properties.civ_mods_internal_version_id,
                        };
                        proof {
                            assert(e.name@.subrange(0, e.name@.len() as int) =~= e.name@);
                            assert(scan_entry_spec(root_path@, es[j as int]) == Some(
                                mod_info_view(m),
                            ));
                        }
                        out.push(m);
                        proof {
                            assert(infos_view(out@) =~~= out0.push(mod_info_view(m)));
                            assert(out0 + (seq![mod_info_view(m)] + scan_spec(
                                root_path@,
                                es,
                                j + 1,
                            )) =~~= infos_view(out@) + scan_spec(root_path@, es, j + 1));
                        }
                    },
                }
            },
        }
        j = j + 1;
    }
    proof {
        assert(infos_view(out@) + Seq::<GModInfo>::empty() =~~= infos_view(out@));
    }
    out
}

/// Membership of a byte string in a list.
pub open spec fn id_in(ids: Seq<Seq<u8>>, x: Seq<u8>) -> bool
    decreases ids.len(),
{
    if ids.len() == 0 {
        false
    } else if ids[0] == x {
        true
    } else {
        id_in(ids.skip(1), x)
    }
}

pub fn id_in_list(ids: &Vec<Vec<u8>>, x: &Vec<u8>) -> (r: bool)
    ensures
        r == id_in(path_views(ids@), x@),
{
    let ghost g = path_views(ids@);
    let mut i: usize = 0;
    proof {
        assert(g.skip(0) =~= g);
    }
    while i < ids.len()
        invariant
            i <= ids@.len(),
            g == path_views(ids@),
            id_in(g, x@) == id_in(g.skip(i as int), x@),
        decreases ids@.len() - i,
    {
        proof {
            assert(g.skip(i as int)[0] == g[i as int]);
            assert(g.skip(i as int).skip(1) =~= g.skip(i + 1));
        }
        if bytes_eq(&ids[i], x) {
            return true;
        }
        i = i + 1;
    }
    proof {
        assert(g.skip(i as int) =~= Seq::<Seq<u8>>::empty());
    }
    false
}

/// The folder names of the scanned mods whose manifest id is not among
/// the excluded ids; mods with no id are always included.
pub open spec fn unlocked_spec(infos: Seq<GModInfo>, excluded: Seq<Seq<u8>>, j: int) -> Seq<
    Seq<u8>,
>
    decreases infos.len() - j,
{
    if j < 0 || j >= infos.len() {
        Seq::empty()
    } else {
        let keep = match infos[j].modinfo_id {
            Some(id) => !id_in(excluded, id),
            None => true,
        };
        if keep {
            seq![infos[j].folder_name] + unlocked_spec(infos, excluded, j + 1)
        } else {
            unlocked_spec(infos, excluded, j + 1)
        }
    }
}

/// Scans the mods root and returns the folder names of the mods whose
/// manifest id is not excluded; mods without an id are always unlocked.
pub fn get_unlocked_mod_folders(
    root_path: &Vec<u8>,
    mods: &Vec<FsEntry>,
    excluded_modinfo_ids: &Vec<Vec<u8>>,
) -> (r: Vec<Vec<u8>>)
    ensures
        path_views(r@) == unlocked_spec(
            scan_spec(root_path@, gviews(mods@), 0),
            path_views(excluded_modinfo_ids@),
            0,
        ),
{
    let all = scan_civ_mods(root_path, mods);
    let ghost infos = infos_view(all@);
    let ghost excl = path_views(excluded_modinfo_ids@);
    let mut out: Vec<Vec<u8>> = Vec::new();
    let mut j: usize = 0;
    proof {
        assert(path_views(out@) =~= Seq::<Seq<u8>>::empty());
    }
    while j < all.len()
        invariant
            j <= all@.len(),
            infos == infos_view(all@),
            excl == path_views(excluded_modinfo_ids@),
            path_views(out@) + unlocked_spec(infos, excl, j as int) == unlocked_spec(
                infos,
                excl,
                0,
            ),
        decreases all@.len() - j,
    {
        let ghost out0 = path_views(out@);
        proof {
            assert(infos[j as int] == mod_info_view(all@[j as int]));
        }
        let keep = match &all[j].modinfo_id {
            Some(id) => !id_in_list(excluded_modinfo_ids, id),
            None => true,
        };
        if keep {
            let name = subvec(&all[j].folder_name, 0, all[j].folder_name.len());
            proof {
                assert(name@ =~= infos[j as int].folder_name);
            }
            out.push(name);
            proof {
                assert(path_views(out@) =~~= out0.push(infos[j as int].folder_name));
                assert(out0 + (seq![infos[j as int].folder_name] + unlocked_spec(
                    infos,
                    excl,
                    j + 1,
                )) =~~= path_views(out@) + unlocked_spec(infos, excl, j + 1));
            }
        }
        j = j + 1;
    }
    proof {
        assert(path_views(out@) + Seq::<Seq<u8>>::empty() =~~= path_views(out@));
    }
    out
}

} // verus!
