//! The mod-state reconciler: the disk state the tool cares about — the
//! mod-pak directory, the leftover files in the binaries folder, the mods
//! folder — modelled as plain values, with the toggle as a function on that
//! state.  The caller mirrors each transition onto the real filesystem.

use crate::launch::str_eq;
use crate::selector::Choice;
use vstd::prelude::*;

verus! {

/// The mod-pak directory, relative to the game folder: where the engine
/// scans for active mod payloads.
pub open spec fn pak_subdir() -> Seq<char> {
    "Client\\Content\\Paks\\~mod"@
}

/// The binaries folder, relative to the game folder.
pub open spec fn bin_subdir() -> Seq<char> {
    "Client\\Binaries\\Win64"@
}

/// The fixed leftover filenames that a modded session writes into the
/// binaries folder and that only make sense while mods are active.
pub open spec fn leftover_names() -> Seq<Seq<char>> {
    seq!["reboot.bat"@, "imgui.ini"@, "Pipsi-WW.cfg"@]
}

pub open spec fn is_leftover(n: Seq<char>) -> bool {
    leftover_names().contains(n)
}

/// One top-level file: its name and its byte content.
pub struct FileEntry {
    pub name: String,
    pub data: Vec<u8>,
}

/// What a `FileEntry` denotes.
pub struct FileAbs {
    pub name: Seq<char>,
    pub data: Seq<u8>,
}

impl DeepView for FileEntry {
    type V = FileAbs;

    open spec fn deep_view(&self) -> FileAbs {
        FileAbs { name: self.name@, data: self.data@ }
    }
}

/// The slice of the disk the reconciler owns: the mod-pak directory (absent
/// or present with its files), the leftover filenames present in the
/// binaries folder, and the top-level files of the mods folder (read-only).
pub struct DiskState {
    pub pak_dir: Option<Vec<FileEntry>>,
    pub leftovers: Vec<String>,
    pub mods: Vec<FileEntry>,
}

/// The unconditional pre-clean: whatever a previous run left behind, the
/// mod-pak directory is gone before the user is asked anything, so exactly
/// one branch is responsible for its final state.
pub fn clear_pak_dir(d: DiskState) -> (r: DiskState)
    ensures
        r.pak_dir is None,
        r.leftovers.deep_view() == d.leftovers.deep_view(),
        r.mods.deep_view() == d.mods.deep_view(),
{
    DiskState { pak_dir: None, leftovers: d.leftovers, mods: d.mods }
}

fn is_leftover_name(n: &str) -> (r: bool)
    ensures
        r == is_leftover(n@),
{
    let r = str_eq(n, "reboot.bat") || str_eq(n, "imgui.ini") || str_eq(n, "Pipsi-WW.cfg");
    proof {
        if r {
            assert(leftover_names().contains(n@)) by {
                if n@ == ("reboot.bat")@ {
                    assert(leftover_names()[0] == n@);
                } else if n@ == ("imgui.ini")@ {
                    assert(leftover_names()[1] == n@);
                } else {
                    assert(leftover_names()[2] == n@);
                }
            }
        } else {
            if leftover_names().contains(n@) {
                let i = choose|i: int| 0 <= i < leftover_names().len() && leftover_names()[i]
                    == n@;
                assert(i == 0 || i == 1 || i == 2);
            }
        }
    }
    r
}

fn copy_bytes(v: &Vec<u8>) -> (r: Vec<u8>)
    ensures
        r@ == v@,
{
    let mut r: Vec<u8> = Vec::new();
    let mut i: usize = 0;
    while i < v.len()
        invariant
            i <= v@.len(),
            r@ == v@.take(i as int),
        decreases v@.len() - i,
    {
        r.push(v[i]);
        proof {
            assert(v@.take(i + 1) =~= v@.take(i as int).push(v@[i as int]));
        }
        i = i + 1;
    }
    proof {
        assert(v@.take(v@.len() as int) =~= v@);
    }
    r
}

fn copy_entries(v: &Vec<FileEntry>) -> (r: Vec<FileEntry>)
    ensures
        r.deep_view() == v.deep_view(),
{
    let mut r: Vec<FileEntry> = Vec::new();
    let mut i: usize = 0;
    while i < v.len()
        invariant
            i <= v@.len(),
            r.deep_view() == v.deep_view().take(i as int),
        decreases v@.len() - i,
    {
        let e = FileEntry { name: v[i].name.clone(), data: copy_bytes(&v[i].data) };
        let ghost r0 = r.deep_view();
        let ghost ed = e.deep_view();
        r.push(e);
        proof {
            assert(ed == v@[i as int].deep_view());
            assert(r.deep_view() =~= r0.push(ed));
            assert(v.deep_view().take(i + 1) =~= v.deep_view().take(i as int).push(
                v.deep_view()[i as int],
            ));
            assert(v.deep_view()[i as int] == v@[i as int].deep_view());
        }
        i = i + 1;
    }
    proof {
        assert(v.deep_view().take(v@.len() as int) =~= v.deep_view());
    }
    r
}

/// Branch "original": every leftover filename is removed from the binaries
/// folder, whether or not it was present, and nothing else changes; the
/// mod-pak directory stays gone from the pre-clean.
pub fn apply_original(d: DiskState) -> (r: DiskState)
    requires
        d.pak_dir is None,
    ensures
        r.pak_dir is None,
        r.leftovers.deep_view() == d.leftovers.deep_view().filter(|n: Seq<char>| !is_leftover(n)),
        forall|i: int|
            0 <= i < r.leftovers.deep_view().len() ==> !is_leftover(r.leftovers.deep_view()[i]),
        r.mods.deep_view() == d.mods.deep_view(),
{
    let ghost pred = |n: Seq<char>| !is_leftover(n);
    let mut kept: Vec<String> = Vec::new();
    let mut i: usize = 0;
    while i < d.leftovers.len()
        invariant
            i <= d.leftovers@.len(),
            pred == (|n: Seq<char>| !is_leftover(n)),
            kept.deep_view() == d.leftovers.deep_view().take(i as int).filter(pred),
        decreases d.leftovers@.len() - i,
    {
        let ghost k0 = kept.deep_view();
        let keep = !is_leftover_name(d.leftovers[i].as_str());
        if keep {
            kept.push(d.leftovers[i].clone());
        }
        proof {
            reveal(Seq::filter);
            let prev = d.leftovers.deep_view().take(i as int);
            let next = d.leftovers.deep_view().take(i + 1);
            assert(next.drop_last() =~= prev);
            assert(d.leftovers.deep_view()[i as int] == d.leftovers@[i as int]@);
            assert(next.last() == d.leftovers.deep_view()[i as int]);
            assert(keep == pred(next.last()));
            if keep {
                assert(kept.deep_view() =~= k0.push(d.leftovers@[i as int]@));
                assert(kept.deep_view() =~= prev.filter(pred).push(next.last()));
                assert(next.filter(pred) == prev.filter(pred).push(next.last()));
            } else {
                assert(next.filter(pred) == prev.filter(pred));
            }
        }
        i = i + 1;
    }
    proof {
        assert(d.leftovers.deep_view().take(d.leftovers@.len() as int) =~= d.leftovers.deep_view());
        broadcast use vstd::seq_lib::group_filter_ensures;

    }
    DiskState { pak_dir: None, leftovers: kept, mods: d.mods }
}

/// Branch "modded": the mod-pak directory is recreated and filled with a
/// copy of every top-level file of the mods folder — exactly those files,
/// with identical names and bytes; an empty mods folder leaves it present
/// but empty.  The leftover files are not touched.
pub fn apply_modded(d: DiskState) -> (r: DiskState)
    requires
        d.pak_dir is None,
    ensures
        r.pak_dir matches Some(p) && p.deep_view() == d.mods.deep_view(),
        r.leftovers.deep_view() == d.leftovers.deep_view(),
        r.mods.deep_view() == d.mods.deep_view(),
{
    let fresh = copy_entries(&d.mods);
    DiskState { pak_dir: Some(fresh), leftovers: d.leftovers, mods: d.mods }
}

/// The chosen branch, run once on the pre-cleaned state.
pub fn reconcile(d: DiskState, choice: Choice) -> (r: DiskState)
    requires
        d.pak_dir is None,
    ensures
        choice is Original ==> r.pak_dir is None && r.leftovers.deep_view()
            == d.leftovers.deep_view().filter(|n: Seq<char>| !is_leftover(n)) && (forall|i: int|
            0 <= i < r.leftovers.deep_view().len() ==> !is_leftover(r.leftovers.deep_view()[i])),
        choice is Modded ==> (r.pak_dir matches Some(p) && p.deep_view() == d.mods.deep_view())
            && r.leftovers.deep_view() == d.leftovers.deep_view(),
        r.mods.deep_view() == d.mods.deep_view(),
{
    match choice {
        Choice::Original => apply_original(d),
        Choice::Modded => apply_modded(d),
    }
}

/// The whole toggle of one run: the unconditional pre-clean, then the
/// chosen branch.
pub fn toggle(d: DiskState, choice: Choice) -> (r: DiskState)
    ensures
        choice is Original ==> r.pak_dir is None && r.leftovers.deep_view()
            == d.leftovers.deep_view().filter(|n: Seq<char>| !is_leftover(n)) && (forall|i: int|
            0 <= i < r.leftovers.deep_view().len() ==> !is_leftover(r.leftovers.deep_view()[i])),
        choice is Modded ==> (r.pak_dir matches Some(p) && p.deep_view() == d.mods.deep_view())
            && r.leftovers.deep_view() == d.leftovers.deep_view(),
        r.mods.deep_view() == d.mods.deep_view(),
{
    reconcile(clear_pak_dir(d), choice)
}

/// The path of the mod-pak directory under the game folder.
pub fn pak_dir_path(game_folder: &str) -> (r: String)
    ensures
        r@ == game_folder@ + seq!['\\'] + pak_subdir(),
{
    let mut p = String::from_str(game_folder);
    p.append("\\");
    p.append("Client\\Content\\Paks\\~mod");
    proof {
        reveal_strlit("\\");
        assert(("\\")@ =~= seq!['\\']);
        assert(p@ =~= game_folder@ + seq!['\\'] + pak_subdir());
    }
    p
}

/// The path of the binaries folder under the game folder.
pub fn bin_dir_path(game_folder: &str) -> (r: String)
    ensures
        r@ == game_folder@ + seq!['\\'] + bin_subdir(),
{
    let mut p = String::from_str(game_folder);
    p.append("\\");
    p.append("Client\\Binaries\\Win64");
    proof {
        reveal_strlit("\\");
        assert(("\\")@ =~= seq!['\\']);
        assert(p@ =~= game_folder@ + seq!['\\'] + bin_subdir());
    }
    p
}

/// The leftover filenames, for the caller that deletes them one by one.
pub fn leftover_files() -> (r: Vec<String>)
    ensures
        r.deep_view() == leftover_names(),
{
    let mut r: Vec<String> = Vec::new();
    r.push(String::from_str("reboot.bat"));
    r.push(String::from_str("imgui.ini"));
    r.push(String::from_str("Pipsi-WW.cfg"));
    proof {
        assert(r.deep_view() =~= leftover_names());
    }
    r
}

} // verus!
