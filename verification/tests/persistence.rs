use hydroxyl::persistence::backup::{backup_path, preserve_compression};
use hydroxyl::persistence::dirty::DirtyState;
use hydroxyl::persistence::nbt_codec::{decode_payload, detect_compression, encode_payload, CompressionKind};
use hydroxyl::services::save::BackupService;
use hydroxyl::util::error::HydroxylError;
use hydroxyl::util::fs::FilePath;

#[test]
fn dirty_state_follows_marks() {
    let mut d = DirtyState::clean();
    assert!(!d.is_dirty());
    d.mark_dirty();
    assert!(d.is_dirty());
    d.mark_clean();
    assert!(!d.is_dirty());
    assert!(!DirtyState::default().is_dirty());
}

#[test]
fn gzip_magic_selects_gzip() {
    assert_eq!(detect_compression(&[0x1f, 0x8b, 8]), CompressionKind::Gzip);
    assert_eq!(detect_compression(&[0x0a, 0, 0]), CompressionKind::Raw);
    assert_eq!(detect_compression(&[0x1f]), CompressionKind::Raw);
}

#[test]
fn written_payloads_read_back() {
    let payload = vec![0x0a, 0x00, 0x00, 0x00];
    let framed = encode_payload(&payload, CompressionKind::Gzip).unwrap();
    assert_ne!(framed, payload);
    assert_eq!(&framed[..2], &[0x1f, 0x8b]);
    let read = decode_payload(framed).unwrap();
    assert_eq!(read.payload, payload);
    assert_eq!(read.compression, CompressionKind::Gzip);

    let raw = encode_payload(&payload, CompressionKind::Raw).unwrap();
    assert_eq!(raw, payload);
    let read = decode_payload(raw).unwrap();
    assert_eq!(read.payload, payload);
    assert_eq!(read.compression, CompressionKind::Raw);
}

#[test]
fn broken_gzip_is_an_io_error() {
    let err = decode_payload(vec![0x1f, 0x8b, 0, 0, 0]).unwrap_err();
    assert!(matches!(err, HydroxylError::Io(_)));
}

#[test]
fn dat_files_are_saved_compressed() {
    assert_eq!(preserve_compression(&FilePath::from_text("world/playerdata/a.dat")), CompressionKind::Gzip);
    assert_eq!(preserve_compression(&FilePath::from_text("a.DAT")), CompressionKind::Gzip);
    assert_eq!(preserve_compression(&FilePath::from_text("level.nbt")), CompressionKind::Raw);
    assert_eq!(preserve_compression(&FilePath::from_text("README")), CompressionKind::Raw);
}

#[test]
fn backups_sit_beside_the_file() {
    let b = backup_path(&FilePath::from_text("/srv/world/playerdata/a.dat"), 1700000000);
    assert_eq!(b.display(), "/srv/world/playerdata/a.dat.hydroxyl-1700000000.bak");
    let b = BackupService.create_backup(&FilePath::from_text("notes"), 5);
    assert_eq!(b.display(), "notes.hydroxyl-5.bak");
    let b = backup_path(&FilePath::from_text("a.tar.gz"), 1);
    assert_eq!(b.display(), "a.tar.gz.hydroxyl-1.bak");
}
