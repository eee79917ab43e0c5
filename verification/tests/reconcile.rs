use modswitch::reconcile::{
    bin_dir_path, clear_pak_dir, leftover_files, pak_dir_path, toggle, DiskState, FileEntry,
};
use modswitch::selector::Choice;

fn entry(name: &str, data: &[u8]) -> FileEntry {
    FileEntry {
        name: name.to_string(),
        data: data.to_vec(),
    }
}

fn names(v: &[FileEntry]) -> Vec<String> {
    v.iter().map(|e| e.name.clone()).collect()
}

#[test]
fn pre_clean_always_removes_the_pak_dir() {
    let d = DiskState {
        pak_dir: Some(vec![entry("old.pak", b"old")]),
        leftovers: vec!["imgui.ini".to_string()],
        mods: vec![entry("a.pak", b"a")],
    };
    let d = clear_pak_dir(d);
    assert!(d.pak_dir.is_none());
    assert_eq!(d.leftovers, vec!["imgui.ini".to_string()]);
    assert_eq!(names(&d.mods), vec!["a.pak".to_string()]);
}

#[test]
fn original_branch_purges_every_leftover() {
    let d = DiskState {
        pak_dir: Some(vec![entry("old.pak", b"old")]),
        leftovers: vec![
            "reboot.bat".to_string(),
            "other.txt".to_string(),
            "imgui.ini".to_string(),
            "Pipsi-WW.cfg".to_string(),
        ],
        mods: vec![],
    };
    let d = toggle(d, Choice::Original);
    assert!(d.pak_dir.is_none());
    assert_eq!(d.leftovers, vec!["other.txt".to_string()]);
}

#[test]
fn original_branch_is_idempotent_on_absent_leftovers() {
    let d = DiskState {
        pak_dir: None,
        leftovers: vec![],
        mods: vec![],
    };
    let d = toggle(d, Choice::Original);
    assert!(d.pak_dir.is_none());
    assert!(d.leftovers.is_empty());
}

#[test]
fn modded_branch_copies_exactly_the_mods_files() {
    let d = DiskState {
        pak_dir: None,
        leftovers: vec!["imgui.ini".to_string()],
        mods: vec![entry("a.pak", b"alpha bytes"), entry("b.pak", b"beta bytes")],
    };
    let d = toggle(d, Choice::Modded);
    let pak = d.pak_dir.expect("modded branch must recreate the pak dir");
    assert_eq!(pak.len(), 2);
    assert_eq!(pak[0].name, "a.pak");
    assert_eq!(pak[0].data, b"alpha bytes".to_vec());
    assert_eq!(pak[1].name, "b.pak");
    assert_eq!(pak[1].data, b"beta bytes".to_vec());
    assert_eq!(d.leftovers, vec!["imgui.ini".to_string()]);
}

#[test]
fn modded_branch_with_empty_mods_folder_leaves_pak_dir_present_but_empty() {
    let d = DiskState {
        pak_dir: Some(vec![entry("stale.pak", b"stale")]),
        leftovers: vec![],
        mods: vec![],
    };
    let d = toggle(d, Choice::Modded);
    let pak = d.pak_dir.expect("pak dir must exist after the modded branch");
    assert!(pak.is_empty());
}

#[test]
fn the_fixed_paths_and_names() {
    assert_eq!(
        pak_dir_path("C:\\Games\\WW"),
        "C:\\Games\\WW\\Client\\Content\\Paks\\~mod"
    );
    assert_eq!(
        bin_dir_path("C:\\Games\\WW"),
        "C:\\Games\\WW\\Client\\Binaries\\Win64"
    );
    assert_eq!(
        leftover_files(),
        vec![
            "reboot.bat".to_string(),
            "imgui.ini".to_string(),
            "Pipsi-WW.cfg".to_string()
        ]
    );
}
