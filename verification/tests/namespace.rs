use fmcl_core::disk::Disk;
use fmcl_core::error::Error;
use fmcl_core::filesystem::{
    Vfs, get_fcb, get_or_create_fcb, listdir, makedirs, mount, mount_native, unmount,
    unmount_native,
};

fn wd_vfs() -> Vfs {
    Vfs::new(String::from("/wd"))
}

fn strings(v: &[&str]) -> Vec<String> {
    v.iter().map(|s| String::from(*s)).collect()
}

#[test]
fn mounted_native_directory_lists_physical_entries() {
    // mountNative("/functions", "/abs/game/functions") then
    // listdir("/functions") yields exactly the entries physically present.
    let mut disk = Disk::new();
    disk.add_dir(
        String::from("/abs/game/functions"),
        strings(&["init", "pack.toml"]),
    );
    let mut vfs = wd_vfs();
    mount_native(
        &mut vfs,
        &disk,
        &String::from("/functions"),
        &String::from("/abs/game/functions"),
    )
    .unwrap();
    let names = listdir(&mut vfs, &disk, &String::from("/functions")).unwrap();
    assert_eq!(names, strings(&["init", "pack.toml"]));
}

#[test]
fn resolving_twice_yields_same_content() {
    // Idempotent read: the same path resolved twice with no intervening
    // mutation reports the same node content both times.
    let mut disk = Disk::new();
    disk.add_dir(String::from("/wd"), strings(&["data"]));
    disk.add_dir(String::from("/wd/data"), strings(&["a", "b"]));
    let mut vfs = wd_vfs();
    let first = get_fcb(&mut vfs, &disk, &String::from("/data")).unwrap();
    let second = get_fcb(&mut vfs, &disk, &String::from("/data")).unwrap();
    assert_eq!(first.name, second.name);
    assert_eq!(first.path, second.path);
    assert_eq!(first.native_paths, second.native_paths);
    assert_eq!(first.child_names, second.child_names);
    let third = get_fcb(&mut vfs, &disk, &String::from("/data")).unwrap();
    assert_eq!(second.native_paths, third.native_paths);
}

#[test]
fn mount_unmount_native_round_trip_restores_backing() {
    let mut disk = Disk::new();
    disk.add_dir(String::from("/extra"), strings(&["ghost"]));
    let mut vfs = wd_vfs();
    let p = String::from("/functions");
    let n = String::from("/extra");
    let before = get_or_create_fcb(&mut vfs, &disk, &p).unwrap();
    mount_native(&mut vfs, &disk, &p, &n).unwrap();
    let mounted = get_fcb(&mut vfs, &disk, &p).unwrap();
    assert_eq!(mounted.native_paths, strings(&["/wd/functions", "/extra"]));
    unmount_native(&mut vfs, &disk, &p, &n).unwrap();
    let after = get_fcb(&mut vfs, &disk, &p).unwrap();
    assert_eq!(after.native_paths, before.native_paths);
    // The subtree was unloaded: a later listing reflects only the
    // remaining backing locations, so "ghost" is gone.
    let names = listdir(&mut vfs, &disk, &p).unwrap();
    assert!(!names.contains(&String::from("ghost")));
}

#[test]
fn overlay_union_keeps_layer_order_and_dedups() {
    // mount(t, a), mount(t, b): listdir(t) is the deduplicated union,
    // native/virtual entries first, then a's, then b's.
    let mut disk = Disk::new();
    disk.add_dir(String::from("/na"), strings(&["x", "y"]));
    disk.add_dir(String::from("/nb"), strings(&["y", "z"]));
    let mut vfs = wd_vfs();
    mount_native(&mut vfs, &disk, &String::from("/sa"), &String::from("/na")).unwrap();
    mount_native(&mut vfs, &disk, &String::from("/sb"), &String::from("/nb")).unwrap();
    mount(&mut vfs, &disk, &String::from("/t"), &String::from("/sa")).unwrap();
    mount(&mut vfs, &disk, &String::from("/t"), &String::from("/sb")).unwrap();
    let names = listdir(&mut vfs, &disk, &String::from("/t")).unwrap();
    assert_eq!(names, strings(&["x", "y", "z"]));
    // Resolution follows the overlay: /t/z is the node under /sb.
    let z = get_fcb(&mut vfs, &disk, &String::from("/t/z")).unwrap();
    assert_eq!(z.path, String::from("/sb/z"));
    // Re-reading through the overlay reports the same content.
    let z2 = get_fcb(&mut vfs, &disk, &String::from("/t/z")).unwrap();
    assert_eq!(z.path, z2.path);
    assert_eq!(z.native_paths, z2.native_paths);
    assert_eq!(z.child_names, z2.child_names);
    // Unmounting a source removes its contribution.
    unmount(&mut vfs, &disk, &String::from("/t"), &String::from("/sa")).unwrap();
    let names2 = listdir(&mut vfs, &disk, &String::from("/t")).unwrap();
    assert_eq!(names2, strings(&["y", "z"]));
}

#[test]
fn resolve_or_create_same_name_makes_exactly_one_node() {
    // Two resolve-or-create calls for the same new sibling (serialized by
    // the tree lock) leave exactly one node, and no error.
    let disk = Disk::new();
    let mut vfs = wd_vfs();
    let p = String::from("/saves/world1");
    let first = get_or_create_fcb(&mut vfs, &disk, &p).unwrap();
    let second = get_or_create_fcb(&mut vfs, &disk, &p).unwrap();
    assert_eq!(first.path, second.path);
    let parent = get_fcb(&mut vfs, &disk, &String::from("/saves")).unwrap();
    assert_eq!(parent.child_names, strings(&["world1"]));
}

#[test]
fn created_nodes_inherit_joined_backing() {
    let disk = Disk::new();
    let mut vfs = wd_vfs();
    let nd = get_or_create_fcb(&mut vfs, &disk, &String::from("/a/b")).unwrap();
    assert_eq!(nd.name, String::from("b"));
    assert_eq!(nd.path, String::from("/a/b"));
    assert_eq!(nd.native_paths, strings(&["/wd/a/b"]));
}

#[test]
fn backslashes_normalize_to_slashes() {
    let disk = Disk::new();
    let mut vfs = wd_vfs();
    let nd = get_or_create_fcb(&mut vfs, &disk, &String::from("\\a\\b")).unwrap();
    assert_eq!(nd.path, String::from("/a/b"));
}

#[test]
fn missing_path_reports_not_found_with_path() {
    let disk = Disk::new();
    let mut vfs = wd_vfs();
    match get_fcb(&mut vfs, &disk, &String::from("/nope")) {
        Err(Error::FileNotFound(p)) => {
            assert_eq!(p, String::from("/nope"));
        }
        _ => panic!("expected FileNotFound"),
    }
    let e = get_fcb(&mut vfs, &disk, &String::from("/nope")).unwrap_err();
    assert_eq!(e.message(), String::from("'/nope' not found"));
}

#[test]
fn makedirs_names_first_backing_location() {
    let disk = Disk::new();
    let mut vfs = wd_vfs();
    let (dir, ambiguous) = makedirs(&mut vfs, &disk, &String::from("/saves")).unwrap();
    assert_eq!(dir, String::from("/wd/saves"));
    assert!(!ambiguous);
    mount_native(&mut vfs, &disk, &String::from("/saves"), &String::from("/other")).unwrap();
    let (dir2, ambiguous2) = makedirs(&mut vfs, &disk, &String::from("/saves")).unwrap();
    assert_eq!(dir2, String::from("/wd/saves"));
    assert!(ambiguous2);
}

#[test]
fn unreadable_backing_contributes_nothing() {
    // A backing location with no disk listing is swallowed, not fatal.
    let mut disk = Disk::new();
    disk.add_dir(String::from("/real"), strings(&["present"]));
    let mut vfs = wd_vfs();
    mount_native(&mut vfs, &disk, &String::from("/m"), &String::from("/missing")).unwrap();
    mount_native(&mut vfs, &disk, &String::from("/m"), &String::from("/real")).unwrap();
    let names = listdir(&mut vfs, &disk, &String::from("/m")).unwrap();
    assert_eq!(names, strings(&["present"]));
}
