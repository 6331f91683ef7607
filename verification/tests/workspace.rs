use hydroxyl::domain::files::detect::{detect_file_kind, infer_server_root, is_world_root, world_root_markers};
use hydroxyl::domain::files::kind::FileKind;
use hydroxyl::domain::files::naming::parse_uuid_from_path;
use hydroxyl::domain::minecraft::server::{WorkspaceEntry, WorkspacePane};
use hydroxyl::services::workspace::{
    list_files, parse_properties, player_data_path, property, ListedFile, WorkspaceScan, WorkspaceService,
};
use hydroxyl::session::context::WorldFileStructure;
use hydroxyl::util::error::HydroxylError;
use hydroxyl::util::fs::FilePath;

fn file(p: &str) -> ListedFile {
    ListedFile { path: FilePath::from_text(p), is_file: true }
}

#[test]
fn properties_keep_the_last_setting() {
    let props = parse_properties("# comment\nlevel-name = survival \r\nonline-mode=TRUE\n\nnoequals\nlevel-name=final\n");
    assert_eq!(property(&props, "level-name"), Some("final".to_owned()));
    assert_eq!(property(&props, "online-mode"), Some("TRUE".to_owned()));
    assert_eq!(property(&props, "noequals"), None);
    assert_eq!(props.len(), 2);
}

#[test]
fn listings_keep_matching_files_by_name() {
    let listing = vec![
        file("w/playerdata/b.dat"),
        file("w/playerdata/a.DAT"),
        file("w/playerdata/c.dat_old"),
        ListedFile { path: FilePath::from_text("w/playerdata/d.dat"), is_file: false },
    ];
    let files = list_files(&listing, "dat");
    let names: Vec<String> = files.iter().map(|p| p.display()).collect();
    assert_eq!(names, vec!["w/playerdata/a.DAT", "w/playerdata/b.dat"]);
}

#[test]
fn loading_a_server_root_reads_its_world() {
    let uuid = "069a79f4-44e9-4726-a5be-fca90e38aaf5";
    let scan = WorkspaceScan {
        server_root: true,
        properties: Some("level-name=survival\nonline-mode=true\n".to_owned()),
        world_root: false,
        players: vec![file(&format!("srv/survival/playerdata/{uuid}.dat"))],
        stats: vec![file("srv/survival/stats/x.json")],
        advancements: vec![],
    };
    let server = WorkspaceService.load(&FilePath::from_text("srv"), WorldFileStructure::Legacy, &scan).unwrap();
    assert_eq!(server.world_path.display(), "srv/survival");
    assert_eq!(server.level_name, "survival");
    assert!(server.online_mode);
    assert_eq!(server.player_entries.len(), 1);
    assert_eq!(server.player_entries[0].label, uuid);
    assert_eq!(server.player_entries[0].kind, FileKind::PlayerData);
    assert_eq!(server.player_entries[0].uuid, Some(0x069a79f444e94726a5befca90e38aaf5));
    assert_eq!(server.stats_entries[0].uuid, None);
    assert_eq!(server.advancements_files.len(), 0);
}

#[test]
fn loading_anything_else_is_refused() {
    let scan = WorkspaceScan {
        server_root: false,
        properties: None,
        world_root: false,
        players: vec![],
        stats: vec![],
        advancements: vec![],
    };
    let err = WorkspaceService.load(&FilePath::from_text("/tmp/x"), WorldFileStructure::New, &scan).unwrap_err();
    assert_eq!(err, HydroxylError::InvalidData("/tmp/x is not a server root or world directory".to_owned()));
}

#[test]
fn a_world_root_is_its_own_world() {
    let scan = WorkspaceScan {
        server_root: false,
        properties: None,
        world_root: true,
        players: vec![],
        stats: vec![],
        advancements: vec![],
    };
    let server = WorkspaceService.load(&FilePath::from_text("saves/w1"), WorldFileStructure::New, &scan).unwrap();
    assert_eq!(server.root.display(), "saves/w1");
    assert_eq!(server.world_path.display(), "saves/w1");
    assert!(!server.online_mode);
    assert_eq!(
        player_data_path(&server.world_path, WorldFileStructure::New).display(),
        "saves/w1/players/data"
    );
}

#[test]
fn file_kinds_follow_names_and_structure() {
    let p = FilePath::from_text("w/playerdata/x.dat");
    assert_eq!(detect_file_kind(&p, WorldFileStructure::Legacy, false), FileKind::PlayerData);
    assert_eq!(detect_file_kind(&p, WorldFileStructure::New, false), FileKind::Nbt);
    let n = FilePath::from_text("w/players/data/x.dat");
    assert_eq!(detect_file_kind(&n, WorldFileStructure::New, false), FileKind::PlayerData);
    assert_eq!(detect_file_kind(&FilePath::from_text("w/advancements/x.json"), WorldFileStructure::Legacy, false), FileKind::Advancements);
    assert_eq!(detect_file_kind(&FilePath::from_text("x.json"), WorldFileStructure::Legacy, false), FileKind::Stats);
    assert_eq!(detect_file_kind(&FilePath::from_text("x.txt"), WorldFileStructure::Legacy, false), FileKind::Unknown);
    assert_eq!(detect_file_kind(&FilePath::from_text("x.txt"), WorldFileStructure::Legacy, true), FileKind::Workspace);
}

#[test]
fn roots_are_found_among_ancestors() {
    let p = FilePath::from_text("/srv/world/playerdata/a.dat");
    let root = infer_server_root(&p, &vec![false, false, false, true, false]).unwrap();
    assert_eq!(root.display(), "/srv");
    assert!(infer_server_root(&p, &vec![false; 5]).is_none());
    assert_eq!(world_root_markers(&FilePath::from_text("w"), WorldFileStructure::Legacy).len(), 3);
    assert!(is_world_root(&vec![false, true, false]));
    assert!(!is_world_root(&vec![]));
}

#[test]
fn uuids_are_read_from_stems() {
    let dashed = FilePath::from_text("a/069a79f4-44e9-4726-a5be-fca90e38aaf5.dat");
    assert_eq!(parse_uuid_from_path(&dashed), Some(0x069a79f444e94726a5befca90e38aaf5));
    let plain = FilePath::from_text("a/069a79f444e94726a5befca90e38aaf5.dat");
    assert_eq!(parse_uuid_from_path(&plain), Some(0x069a79f444e94726a5befca90e38aaf5));
    assert_eq!(parse_uuid_from_path(&FilePath::from_text("a/steve.dat")), None);
}

#[test]
fn entries_show_resolved_names() {
    let mut entry = WorkspaceEntry {
        label: "abc".to_owned(),
        path: FilePath::from_text("abc.dat"),
        kind: FileKind::PlayerData,
        uuid: None,
        resolved_name: None,
    };
    assert_eq!(entry.display_label(), "abc");
    entry.resolved_name = Some("Steve".to_owned());
    assert_eq!(entry.display_label(), "Steve (abc)");
    assert_eq!(WorkspacePane::Stats.title(), "Stats");
}
