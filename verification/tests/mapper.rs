use filecloud::clock::Timestamp;
use filecloud::get_map::{build_client_map, recv_framed, send_framed, to_client_map};
use filecloud::ids::Uuid;
use filecloud::map_store::{find_file_mut, with_file_mut, with_file_mut_unchecked, MapStore};
use filecloud::mapper::{
    AccessControl, Fil, Folder, MapError, ScannedFile, ScannedFolder,
};
use filecloud::response::ErrorTransfer;

fn id(n: u8) -> Uuid {
    Uuid { bytes: [n; 16] }
}

fn at(secs: i64) -> Timestamp {
    Timestamp { secs, nanos: 0 }
}

fn private(owner: u8) -> AccessControl {
    AccessControl {
        owner: id(owner),
        is_public_for_viewing: false,
        is_public_for_changing: false,
        is_visible_for: Vec::new(),
        is_editable_for: Vec::new(),
    }
}

fn public(owner: u8) -> AccessControl {
    AccessControl {
        owner: id(owner),
        is_public_for_viewing: true,
        is_public_for_changing: true,
        is_visible_for: Vec::new(),
        is_editable_for: Vec::new(),
    }
}

fn file(n: u8, name: &str, access: AccessControl) -> Fil {
    Fil::with_identity(name.to_string(), format!("./storage/{name}"), access, id(n), at(n as i64))
}

fn folder(n: u8, name: &str, parent: &str, access: AccessControl) -> Folder {
    Folder::with_identity(name, parent, access, id(n), at(n as i64))
}

/// Root 1 of user 100 with file 10; in it folder 2 with file 20, and in that folder 3 with
/// file 30, which only user 101 may view; and folder 4, which only user 101 may view.
fn store() -> MapStore {
    let mut root = folder(1, "storage", ".", public(100));
    let mut two = folder(2, "two", "./storage", public(100));
    let mut three = folder(3, "three", "./storage/two", public(100));
    let mut four = folder(4, "four", "./storage", private(101));
    root.files.push(file(10, "ten", public(100)));
    two.files.push(file(20, "twenty", public(100)));
    three.files.push(file(30, "thirty", private(101)));
    four.files.push(file(40, "forty", public(101)));
    two.folders.push(three);
    root.folders.push(two);
    root.folders.push(four);
    MapStore { inner: root }
}

#[test]
fn owners_viewers_and_editors() {
    let mut access = private(1);
    access.is_visible_for.push(id(2));
    access.is_editable_for.push(id(3));
    assert!(access.can_view(&id(1)) && access.can_edit(&id(1)));
    assert!(access.can_view(&id(2)) && !access.can_edit(&id(2)));
    assert!(access.can_view(&id(3)) && access.can_edit(&id(3)));
    assert!(!access.can_view(&id(4)) && !access.can_edit(&id(4)));
    access.is_public_for_viewing = true;
    assert!(access.can_view(&id(4)) && !access.can_edit(&id(4)));
    access.is_public_for_viewing = false;
    access.is_public_for_changing = true;
    assert!(access.can_view(&id(4)) && access.can_edit(&id(4)));
}

#[test]
fn a_lock_is_taken_once() {
    let mut f = file(1, "a", public(9));
    assert!(f.lock());
    assert!(f.is_locked);
    assert!(!f.lock());
    f.unlock();
    assert!(!f.is_locked);
    assert!(f.lock());
}

#[test]
fn new_files_are_stamped() {
    let f = Fil::new(
        "a".to_string(),
        "p/a".to_string(),
        id(1),
        true,
        false,
        vec![id(2)],
        vec![id(3)],
    );
    assert_eq!((f.name.as_str(), f.path.as_str(), f.is_locked), ("a", "p/a", false));
    assert_eq!(f.access.owner, id(1));
    assert!(f.access.is_public_for_viewing && !f.access.is_public_for_changing);
    assert_eq!(f.access.is_visible_for, vec![id(2)]);
    assert_eq!(f.access.is_editable_for, vec![id(3)]);
    assert_eq!(f.uuid.bytes[6] >> 4, 4);
}

#[test]
fn new_folders_lie_in_their_parent() {
    let f = Folder::new("b", "./storage/a", public(1));
    assert_eq!((f.name.as_str(), f.path.as_str()), ("b", "./storage/a/b"));
    assert!(f.folders.is_empty() && f.files.is_empty() && !f.is_locked);
}

#[test]
fn folders_are_found_at_any_depth() {
    let mut s = store();
    for n in 1..=4 {
        assert_eq!(s.inner.find(id(n)).map(|f| f.uuid), Some(id(n)));
        assert_eq!(s.inner.find_mut(id(n)).map(|f| f.uuid), Some(id(n)));
    }
    assert!(s.inner.find(id(9)).is_none());
    assert!(s.inner.find_mut(id(9)).is_none());
}

#[test]
fn files_are_listed_parents_first() {
    let names: Vec<String> = store().read().list_files().into_iter().map(|f| f.name).collect();
    assert_eq!(names, ["ten", "twenty", "thirty", "forty"]);
}

#[test]
fn parents_of_files_are_found_for_viewers() {
    let mut s = store();
    assert_eq!(s.inner.find_file_parent(&id(20), &id(100)).map(|f| f.uuid).ok(), Some(id(2)));
    assert_eq!(s.inner.find_file_parent(&id(30), &id(101)).map(|f| f.uuid).ok(), Some(id(3)));
    assert_eq!(
        s.inner.find_file_parent(&id(30), &id(100)).map(|f| f.uuid).err(),
        Some(ErrorTransfer::NotFound)
    );
    assert_eq!(
        s.inner.find_file_parent(&id(77), &id(100)).map(|f| f.uuid).err(),
        Some(ErrorTransfer::NotFound)
    );
    s.inner.files[0].access = private(101);
    assert_eq!(
        s.inner.find_file_parent(&id(10), &id(100)).map(|f| f.uuid).err(),
        Some(ErrorTransfer::Forbidden)
    );
}

#[test]
fn copies_of_files_go_to_viewers() {
    let mut s = store();
    assert_eq!(s.inner.find_file_clone(&id(20), &id(5)).map(|f| f.name).ok().unwrap(), "twenty");
    assert_eq!(
        s.inner.find_file_clone(&id(30), &id(5)).map(|f| f.name).err(),
        Some(ErrorTransfer::NotFound)
    );
    s.inner.files[0].access = private(101);
    assert_eq!(
        s.inner.find_file_clone(&id(10), &id(5)).map(|f| f.name).err(),
        Some(ErrorTransfer::Forbidden)
    );
}

#[test]
fn parents_of_folders_are_found_for_viewers() {
    let mut s = store();
    assert_eq!(s.inner.find_folder_parent(&id(3), &id(5)).map(|f| f.uuid).ok(), Some(id(2)));
    assert_eq!(s.inner.find_folder_parent(&id(4), &id(101)).map(|f| f.uuid).ok(), Some(id(1)));
    for (target, user) in [(4, 5), (1, 100), (9, 100)] {
        assert!(matches!(
            s.inner.find_folder_parent(&id(target), &id(user)),
            Err(MapError::InvalidFolderLocation)
        ));
    }
}

#[test]
fn added_files_are_found_again() {
    let mut s = store();
    assert!(s.add_file(Some(id(3)), file(50, "fifty", public(100))).is_ok());
    assert!(s.add_file(None, file(60, "sixty", public(100))).is_ok());
    assert_eq!(s.inner.find(id(3)).unwrap().files[1].uuid, id(50));
    assert_eq!(s.inner.files[1].uuid, id(60));
    assert_eq!(s.inner.list_files().len(), 6);
    match s.add_file(Some(id(99)), file(70, "seventy", public(100))) {
        Err(MapError::FolderNotFound(x)) => assert_eq!(x, id(99)),
        _ => panic!("a file was added nowhere"),
    }
    assert_eq!(s.inner.list_files().len(), 6);
}

#[test]
fn removed_files_are_gone() {
    let mut s = store();
    assert_eq!(s.remove_file(&id(20), &id(5)), Ok(()));
    assert!(find_file_mut(&mut s.inner, &id(20)).is_none());
    assert_eq!(s.inner.list_files().len(), 3);
    assert_eq!(s.remove_file(&id(20), &id(5)), Err(ErrorTransfer::NotFound));
    assert_eq!(s.remove_file(&id(30), &id(5)), Err(ErrorTransfer::NotFound));
    s.inner.files[0].access = private(101);
    assert_eq!(s.remove_file(&id(10), &id(5)), Err(ErrorTransfer::Forbidden));
    assert_eq!(s.inner.list_files().len(), 3);
}

#[test]
fn files_are_changed_by_viewers() {
    let mut s = store();
    assert!(with_file_mut(&id(30), &mut s, &id(101)).unwrap().lock());
    assert!(s.inner.folders[0].folders[0].files[0].is_locked);
    assert_eq!(
        with_file_mut(&id(30), &mut s, &id(5)).map(|f| f.uuid).err(),
        Some(ErrorTransfer::Forbidden)
    );
    assert_eq!(
        with_file_mut(&id(31), &mut s, &id(5)).map(|f| f.uuid).err(),
        Some(ErrorTransfer::NotFound)
    );
    with_file_mut_unchecked(&id(30), &mut s).unwrap().unlock();
    assert!(!s.inner.folders[0].folders[0].files[0].is_locked);
    assert_eq!(
        with_file_mut_unchecked(&id(31), &mut s).map(|f| f.uuid).err(),
        Some(ErrorTransfer::NotFound)
    );
}

#[test]
fn unlocking_all_unlocks_copies() {
    let mut s = store();
    assert!(with_file_mut_unchecked(&id(20), &mut s).unwrap().lock());
    let copies = s.unlock_all();
    assert_eq!(copies.len(), 4);
    assert!(copies.iter().all(|f| !f.is_locked));
    assert!(s.inner.folders[0].files[0].is_locked);
}

#[test]
fn scanned_folders_become_the_map() {
    let scanned = ScannedFolder {
        path: "./storage".to_string(),
        modified: at(5),
        folders: vec![ScannedFolder {
            path: "./storage/sub".to_string(),
            modified: at(6),
            folders: Vec::new(),
            files: vec![ScannedFile {
                name: "x".to_string(),
                path: "./storage/sub/x".to_string(),
                modified: at(7),
            }],
        }],
        files: Vec::new(),
    };
    let root = Folder::scan(&scanned, id(8));
    assert_eq!((root.name.as_str(), root.path.as_str()), ("storage", "./storage"));
    assert_eq!(root.last_changed_at, at(5));
    assert!(!root.access.is_public_for_viewing && !root.access.is_public_for_changing);
    let sub = &root.folders[0];
    assert_eq!((sub.name.as_str(), sub.last_changed_at), ("sub", at(6)));
    let x = &sub.files[0];
    assert_eq!((x.name.as_str(), x.path.as_str()), ("x", "./storage/sub/x"));
    assert_eq!((x.last_changed_at, x.access.owner, x.is_locked), (at(7), id(8), false));
    assert!(x.access.is_public_for_viewing && x.access.is_public_for_changing);

    let mut s = store();
    s.map_new(&scanned);
    assert_eq!(s.inner.list_files().len(), 1);
    assert_eq!(s.inner.folders[0].files[0].access.owner, s.inner.access.owner);
}

#[test]
fn created_folders_are_found() {
    let mut s = store();
    assert_eq!(
        s.folder_to_create(Some(id(2)), "x/new", &id(5)).ok().flatten().unwrap(),
        "./storage/two/new"
    );
    assert!(s
        .create_folder_as(Some(id(2)), "x/new", &id(5), public(5), true, id(50), at(50))
        .is_ok());
    let made = s.inner.find(id(50)).unwrap();
    assert_eq!((made.name.as_str(), made.path.as_str()), ("new", "./storage/two/new"));
    assert_eq!(made.access.owner, id(5));
    assert!(matches!(
        s.create_folder(Some(id(2)), "new", &id(5), public(5), true),
        Err(MapError::FolderAlreadyPresent)
    ));
    assert!(matches!(
        s.folder_to_create(Some(id(2)), "new", &id(5)),
        Err(MapError::FolderAlreadyPresent)
    ));
}

#[test]
fn folders_are_not_created_elsewhere() {
    let mut s = store();
    assert!(matches!(
        s.create_folder(Some(id(2)), "..", &id(5), public(5), true),
        Err(MapError::InvalidFolderLocation)
    ));
    assert!(matches!(
        s.create_folder(Some(id(9)), "new", &id(5), public(5), true),
        Err(MapError::FolderNotFound(_))
    ));
    assert!(matches!(
        s.create_folder(Some(id(4)), "new", &id(5), public(5), true),
        Err(MapError::InvalidFolderLocation)
    ));
    assert!(matches!(
        s.create_folder(Some(id(2)), "new", &id(5), public(5), false),
        Err(MapError::InvalidFolderLocation)
    ));
    assert_eq!(s.inner.find(id(2)).unwrap().folders.len(), 1);
    assert!(matches!(s.folder_to_create(None, "new", &id(5)), Ok(None)));
    assert!(s.create_folder(None, "new", &id(5), public(5), false).is_ok());
    assert_eq!(s.inner.folders[2].path, "./storage/new");
}

#[test]
fn deleted_folders_are_gone() {
    let mut s = store();
    assert_eq!(s.folder_to_delete(id(3), &id(5)).ok().unwrap(), "./storage/two/three");
    assert!(s.delete_folder(id(3), &id(5), true).is_ok());
    assert!(s.inner.find(id(3)).is_none());
    assert_eq!(s.inner.list_files().len(), 3);
    assert!(matches!(s.delete_folder(id(3), &id(5), true), Err(MapError::FolderNotFound(_))));
    assert!(matches!(
        s.delete_folder(id(4), &id(5), true),
        Err(MapError::InvalidFolderLocation)
    ));
    assert!(matches!(
        s.delete_folder(id(2), &id(5), false),
        Err(MapError::InvalidFolderLocation)
    ));
    assert!(matches!(
        s.delete_folder(id(1), &id(5), true),
        Err(MapError::InvalidFolderLocation)
    ));
    assert!(s.inner.find(id(2)).is_some() && s.inner.find(id(4)).is_some());
}

#[test]
fn paths_of_folders() {
    let s = store();
    assert_eq!(s.get_path(id(3)).ok().unwrap(), "./storage/two/three");
    assert!(matches!(s.get_path(id(9)), Err(MapError::FolderNotFound(_))));
}

#[test]
fn client_maps_show_what_may_be_viewed() {
    let s = store();
    let map = to_client_map(&s.inner, id(5)).unwrap();
    assert_eq!((map.uuid, map.name.as_str(), map.last_changed_at), (id(1), "storage", at(1)));
    assert_eq!(map.folders.len(), 1);
    assert_eq!(map.folders[0].folders[0].files.len(), 0);
    let ten = &map.files[0];
    assert_eq!((ten.uuid, ten.name.as_str(), ten.path.as_str()), (id(10), "ten", "./storage/ten"));
    assert_eq!(ten.last_changed_at, at(10));

    let full = to_client_map(&s.inner, id(101)).unwrap();
    assert_eq!(full.folders.len(), 2);
    assert_eq!(full.folders[0].folders[0].files[0].uuid, id(30));
    assert_eq!(full.folders[1].files[0].uuid, id(40));
}

#[test]
fn a_hidden_root_has_no_map() {
    let mut s = store();
    s.inner.access = private(101);
    assert!(to_client_map(&s.inner, id(5)).is_none());
    assert_eq!(build_client_map(&s.inner, id(5)).files.len(), 1);
}

#[test]
fn frames_are_read_back() {
    for payload in [&b""[..], &b"{}"[..], &[0u8; 700][..]] {
        let message = send_framed(payload);
        assert_eq!(message[0..4], (payload.len() as u32).to_be_bytes());
        assert_eq!(recv_framed(&message).unwrap(), payload);
    }
    assert!(recv_framed(&[0, 0, 0]).is_none());
    assert!(recv_framed(&[0, 0, 0, 2, 1]).is_none());
}
