//! The profile manager's decisions, as functions from the current state
//! of the mods root and the profiles store to the new state. The caller
//! performs the file copies and removals these plans describe.

use vstd::prelude::*;

use crate::ModError;
use crate::ascii::{subvec, bytes_eq};
use crate::fstree::{FsNode, FsEntry, GNode, GEntry, node_view, gviews, gview};
use crate::traversal::{scan_spec, unlocked_spec, get_unlocked_mod_folders, path_views, id_in};

verus! {


/// Deep copy of a tree.
pub fn clone_node(n: &FsNode) -> (r: FsNode)
    ensures
        node_view(r) == node_view(*n),
    decreases *n,
{
    match n {
        FsNode::File { bytes } => {
            let r = FsNode::File { bytes: subvec(bytes, 0, bytes.len()) };
            proof {
                assert(bytes@.subrange(0, bytes@.len() as int) =~= bytes@);
            }
            r
        },
        FsNode::Dir { entries } => {
            let mut out: Vec<FsEntry> = Vec::new();
            let mut i: usize = 0;
            proof {
                assert(*n == (FsNode::Dir { entries: *entries }));
                assert forall|k: int| 0 <= k < entries@.len() implies decreases_to!(
                    *n => entries@[k].node,
                ) by {
                    assert(decreases_to!(*n => entries@[k].node));
                }
            }
            while i < entries.len()
                invariant
                    i <= entries@.len(),
                    *n == (FsNode::Dir { entries: *entries }),
                    forall|k: int|
                        0 <= k < entries@.len() ==> decreases_to!(*n => entries@[k].node),
                    out@.len() == i,
                    gviews(out@) =~= gviews(entries@).take(i as int),
                decreases entries@.len() - i,
            {
                let node = clone_node(&entries[i].node);
                let name = subvec(&entries[i].name, 0, entries[i].name.len());
                proof {
                    assert(entries@[i as int].name@.subrange(
                        0,
                        entries@[i as int].name@.len() as int,
                    ) =~= entries@[i as int].name@);
                }
                out.push(FsEntry { name, node });
                proof {
                    assert(gviews(out@) =~= gviews(entries@).take(i + 1));
                }
                i = i + 1;
            }
            let r = FsNode::Dir { entries: out };
            proof {
                assert(gviews(out@) =~= gviews(entries@));
                crate::fstree::lemma_entries_gview(r->Dir_entries, 0);
                crate::fstree::lemma_entries_gview(*entries, 0);
                assert(gviews(out@).skip(0) =~= gviews(out@));
                assert(gviews(entries@).skip(0) =~= gviews(entries@));
            }
            r
        },
    }
}

/// The entries of `es` whose name's membership in `names` equals `keep_in`.
pub open spec fn select_entries(es: Seq<GEntry>, names: Seq<Seq<u8>>, j: int, keep_in: bool) -> Seq<
    GEntry,
>
    decreases es.len() - j,
{
    if j < 0 || j >= es.len() {
        Seq::empty()
    } else {
        if id_in(names, es[j].name) == keep_in {
            seq![es[j]] + select_entries(es, names, j + 1, keep_in)
        } else {
            select_entries(es, names, j + 1, keep_in)
        }
    }
}

/// Copies the entries of `mods` whose membership of `names` equals
/// `keep_in`.
fn select_exec(mods: &Vec<FsEntry>, names: &Vec<Vec<u8>>, keep_in: bool) -> (r: Vec<FsEntry>)
    ensures
        gviews(r@) == select_entries(gviews(mods@), path_views(names@), 0, keep_in),
{
    let ghost es = gviews(mods@);
    let ghost gn = path_views(names@);
    let mut out: Vec<FsEntry> = Vec::new();
    let mut j: usize = 0;
    proof {
        assert(gviews(out@) =~= Seq::<GEntry>::empty());
    }
    while j < mods.len()
        invariant
            j <= mods@.len(),
            es == gviews(mods@),
            gn == path_views(names@),
            gviews(out@) + select_entries(es, gn, j as int, keep_in) == select_entries(
                es,
                gn,
                0,
                keep_in,
            ),
        decreases mods@.len() - j,
    {
        let ghost out0 = gviews(out@);
        let e = &mods[j];
        proof {
            assert(es[j as int] == gview(mods@[j as int]));
        }
        if crate::traversal::id_in_list(names, &e.name) == keep_in {
            let name = subvec(&e.name, 0, e.name.len());
            let node = clone_node(&e.node);
            proof {
                assert(e.name@.subrange(0, e.name@.len() as int) =~= e.name@);
            }
            out.push(FsEntry { name, node });
            proof {
                assert(gviews(out@) =~~= out0.push(es[j as int]));
                assert(out0 + (seq![es[j as int]] + select_entries(es, gn, j + 1, keep_in))
                    =~~= gviews(out@) + select_entries(es, gn, j + 1, keep_in));
            }
        }
        j = j + 1;
    }
    proof {
        assert(gviews(out@) + Seq::<GEntry>::empty() =~~= gviews(out@));
    }
    out
}

/// Copies every unlocked mod of the mods root into a fresh profile, and,
/// when `cleanup` is set, removes exactly those mods from the root
/// afterwards. The returned pair is (profile contents, new mods root).
pub fn copy_mods_to_profile(
    root_path: &Vec<u8>,
    mods: &Vec<FsEntry>,
    locked_ids: &Vec<Vec<u8>>,
    cleanup: bool,
) -> (r: (Vec<FsEntry>, Vec<FsEntry>))
    ensures
        ({
            let unlocked = unlocked_spec(
                scan_spec(root_path@, gviews(mods@), 0),
                path_views(locked_ids@),
                0,
            );
            &&& gviews(r.0@) == select_entries(gviews(mods@), unlocked, 0, true)
            &&& gviews(r.1@) == if cleanup {
                select_entries(gviews(mods@), unlocked, 0, false)
            } else {
                gviews(mods@)
            }
        }),
{
    let unlocked = get_unlocked_mod_folders(root_path, mods, locked_ids);
    let profile = select_exec(mods, &unlocked, true);
    let new_root = if cleanup {
        select_exec(mods, &unlocked, false)
    } else {
        let all: Vec<Vec<u8>> = Vec::new();
        let ghost es = gviews(mods@);
        let kept = select_exec(mods, &all, false);
        proof {
            lemma_select_none(es, path_views(all@), 0);
            assert(path_views(all@) =~= Seq::<Seq<u8>>::empty());
        }
        kept
    };
    (profile, new_root)
}

/// Selecting against an empty name list keeps everything.
proof fn lemma_select_none(es: Seq<GEntry>, names: Seq<Seq<u8>>, j: int)
    requires
        names.len() == 0,
        0 <= j <= es.len(),
    ensures
        select_entries(es, names, j, false) == es.skip(j),
    decreases es.len() - j,
{
    if j == es.len() {
        assert(es.skip(j) =~= Seq::<GEntry>::empty());
    } else {
        lemma_select_none(es, names, j + 1);
        assert(es.skip(j) =~= seq![es[j]] + es.skip(j + 1));
    }
}

/// Replaces the entry named like `e`, or appends `e` when none is named
/// so.
pub open spec fn upsert(es: Seq<GEntry>, e: GEntry, j: int) -> Seq<GEntry>
    decreases es.len() - j,
{
    if j < 0 || j >= es.len() {
        es.push(e)
    } else if es[j].name == e.name {
        es.update(j, e)
    } else {
        upsert(es, e, j + 1)
    }
}

/// The mods root after restoring a profile: every directory entry of the
/// profile is copied in, overwriting the entry of the same name.
pub open spec fn restore_spec(es: Seq<GEntry>, profile: Seq<GEntry>, j: int) -> Seq<GEntry>
    decreases profile.len() - j,
{
    if j < 0 || j >= profile.len() {
        es
    } else if profile[j].node is Dir {
        restore_spec(upsert(es, profile[j], 0), profile, j + 1)
    } else {
        restore_spec(es, profile, j + 1)
    }
}

fn upsert_exec(es: &mut Vec<FsEntry>, name: Vec<u8>, node: FsNode)
    ensures
        gviews(final(es)@) == upsert(
            gviews(old(es)@),
            GEntry { name: name@, node: node_view(node) },
        0,
        ),
{
    let ghost ges = gviews(es@);
    let ghost ge = GEntry { name: name@, node: node_view(node) };
    let mut j: usize = 0;
    while j < es.len()
        invariant
            j <= es@.len(),
            es@ == old(es)@,
            ges == gviews(es@),
            ge == (GEntry { name: name@, node: node_view(node) }),
            upsert(ges, ge, 0) == upsert(ges, ge, j as int),
        decreases es@.len() - j,
    {
        proof {
            assert(ges[j as int] == gview(es@[j as int]));
        }
        if bytes_eq(&es[j].name, &name) {
            proof {
                assert(ges[j as int].name == ge.name);
            }
            es.set(j, FsEntry { name, node });
            proof {
                assert(gviews(es@) =~~= ges.update(j as int, ge));
                assert(upsert(ges, ge, j as int) == ges.update(j as int, ge));
            }
            return;
        }
        j = j + 1;
    }
    es.push(FsEntry { name, node });
    proof {
        assert(gviews(es@) =~~= ges.push(ge));
        assert(upsert(ges, ge, j as int) == ges.push(ge));
    }
}

/// Restores all mods of a profile into the mods root, overwriting mods
/// of the same name; with `dry_run` set nothing changes.
pub fn restore_mods_from_profile(
    mods: &Vec<FsEntry>,
    profile: &Vec<FsEntry>,
    dry_run: bool,
) -> (r: Vec<FsEntry>)
    ensures
        gviews(r@) == if dry_run {
            gviews(mods@)
        } else {
            restore_spec(gviews(mods@), gviews(profile@), 0)
        },
{
    let ghost gp = gviews(profile@);
    let mut out: Vec<FsEntry> = Vec::new();
    let mut i: usize = 0;
    while i < mods.len()
        invariant
            i <= mods@.len(),
            out@.len() == i,
            gviews(out@) =~= gviews(mods@).take(i as int),
        decreases mods@.len() - i,
    {
        let e = &mods[i];
        let name = subvec(&e.name, 0, e.name.len());
        let node = clone_node(&e.node);
        proof {
            assert(e.name@.subrange(0, e.name@.len() as int) =~= e.name@);
        }
        out.push(FsEntry { name, node });
        proof {
            assert(gviews(out@) =~= gviews(mods@).take(i + 1));
        }
        i = i + 1;
    }
    proof {
        assert(gviews(out@) =~= gviews(mods@));
    }
    if dry_run {
        return out;
    }
    let mut j: usize = 0;
    while j < profile.len()
        invariant
            j <= profile@.len(),
            gp == gviews(profile@),
            restore_spec(gviews(out@), gp, j as int) == restore_spec(gviews(mods@), gp, 0),
        decreases profile@.len() - j,
    {
        let e = &profile[j];
        proof {
            assert(gp[j as int] == gview(profile@[j as int]));
        }
        match &e.node {
            FsNode::Dir { .. } => {
                let name = subvec(&e.name, 0, e.name.len());
                let node = clone_node(&e.node);
                proof {
                    assert(e.name@.subrange(0, e.name@.len() as int) =~= e.name@);
                }
                upsert_exec(&mut out, name, node);
            },
            FsNode::File { .. } => {},
        }
        j = j + 1;
    }
    out
}

/// Deletes a profile from the list of profile names; a missing profile
/// is an error.
pub fn delete_profile(profiles: &Vec<Vec<u8>>, name: &Vec<u8>) -> (r: Result<
    Vec<Vec<u8>>,
    ModError,
>)
    ensures
        id_in(path_views(profiles@), name@) ==> (r matches Ok(v) && path_views(v@)
            == remove_name(path_views(profiles@), name@, 0)),
        !id_in(path_views(profiles@), name@) ==> r == Err::<Vec<Vec<u8>>, ModError>(
            ModError::InvalidPath,
        ),
{
    if !crate::traversal::id_in_list(profiles, name) {
        return Err(ModError::InvalidPath);
    }
    let ghost gp = path_views(profiles@);
    let mut out: Vec<Vec<u8>> = Vec::new();
    let mut j: usize = 0;
    proof {
        assert(path_views(out@) =~= Seq::<Seq<u8>>::empty());
    }
    while j < profiles.len()
        invariant
            j <= profiles@.len(),
            gp == path_views(profiles@),
            path_views(out@) + remove_name(gp, name@, j as int) == remove_name(gp, name@, 0),
        decreases profiles@.len() - j,
    {
        let ghost out0 = path_views(out@);
        proof {
            assert(gp[j as int] == profiles@[j as int]@);
        }
        if !bytes_eq(&profiles[j], name) {
            let v = subvec(&profiles[j], 0, profiles[j].len());
            proof {
                assert(v@ =~= gp[j as int]);
            }
            out.push(v);
            proof {
                assert(path_views(out@) =~~= out0.push(gp[j as int]));
                assert(out0 + (seq![gp[j as int]] + remove_name(gp, name@, j + 1)) =~~= path_views(
                    out@,
                ) + remove_name(gp, name@, j + 1));
            }
        }
        j = j + 1;
    }
    proof {
        assert(path_views(out@) + Seq::<Seq<u8>>::empty() =~~= path_views(out@));
    }
    Ok(out)
}

/// The profile names without every occurrence of `name`.
pub open spec fn remove_name(ps: Seq<Seq<u8>>, name: Seq<u8>, j: int) -> Seq<Seq<u8>>
    decreases ps.len() - j,
{
    if j < 0 || j >= ps.len() {
        Seq::empty()
    } else if ps[j] == name {
        remove_name(ps, name, j + 1)
    } else {
        seq![ps[j]] + remove_name(ps, name, j + 1)
    }
}

/// Creates an empty profile in the list of profile names; a profile of
/// that name already existing is an error, never a silent overwrite.
pub fn create_empty_profile(profiles: &Vec<Vec<u8>>, name: &Vec<u8>) -> (r: Result<
    Vec<Vec<u8>>,
    ModError,
>)
    ensures
        id_in(path_views(profiles@), name@) ==> r == Err::<Vec<Vec<u8>>, ModError>(
            ModError::InvalidPath,
        ),
        !id_in(path_views(profiles@), name@) ==> (r matches Ok(v) && path_views(v@)
            == path_views(profiles@).push(name@)),
{
    if crate::traversal::id_in_list(profiles, name) {
        return Err(ModError::InvalidPath);
    }
    let mut out: Vec<Vec<u8>> = Vec::new();
    let mut j: usize = 0;
    while j < profiles.len()
        invariant
            j <= profiles@.len(),
            out@.len() == j,
            path_views(out@) =~= path_views(profiles@).take(j as int),
        decreases profiles@.len() - j,
    {
        let v = subvec(&profiles[j], 0, profiles[j].len());
        proof {
            assert(v@ =~= profiles@[j as int]@);
        }
        out.push(v);
        proof {
            assert(path_views(out@) =~= path_views(profiles@).take(j + 1));
        }
        j = j + 1;
    }
    proof {
        assert(path_views(profiles@).take(profiles@.len() as int) =~= path_views(profiles@));
    }
    out.push(subvec(name, 0, name.len()));
    proof {
        assert(name@.subrange(0, name@.len() as int) =~= name@);
        assert(path_views(out@) =~= path_views(profiles@).push(name@));
    }
    Ok(out)
}

} // verus!
