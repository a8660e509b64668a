use rotating_file_handler::disk::{DiskError, FileOp, MemDisk, Slot};
use rotating_file_handler::handler::{ConfigError, RotateError, RotatingFileHandler};
use rotating_file_handler::naming::backup_path;

fn open(disk: &mut MemDisk, base: &str, max_bytes: u64, backups: usize, header: Option<Vec<u8>>) -> RotatingFileHandler {
    RotatingFileHandler::open_on(disk, base, max_bytes, backups, header).unwrap()
}

fn contents(disk: &MemDisk, slot: Slot) -> String {
    String::from_utf8(disk.read(slot).unwrap()).unwrap()
}

#[test]
fn test_rotation_on_max_file_size() {
    let mut disk = MemDisk::new();
    let mut handler = open(&mut disk, "test_case_1_log.txt", 10, 3, None);

    handler.emit_on(&mut disk, b"12345").unwrap();
    handler.emit_on(&mut disk, b"67890").unwrap();
    assert!(disk.contains(Slot::Live));
    assert!(!disk.contains(Slot::Backup(0)));

    handler.emit_on(&mut disk, b"abcde").unwrap();
    handler.emit_on(&mut disk, b"fghij").unwrap();
    assert!(disk.contains(Slot::Live));
    assert!(disk.contains(Slot::Backup(0)));
    assert!(!disk.contains(Slot::Backup(1)));

    assert_eq!(contents(&disk, Slot::Live), "abcdefghij");
    assert_eq!(contents(&disk, Slot::Backup(0)), "1234567890");
    assert_eq!(handler.path_of(Slot::Backup(0)), "test_case_1_log.txt.0");
}

#[test]
fn test_rotation_on_max_count() {
    let mut disk = MemDisk::new();
    let mut handler = open(&mut disk, "test_case_2_log.txt", 10, 2, None);
    handler.emit_on(&mut disk, b"1234567890").unwrap();
    handler.emit_on(&mut disk, b"abcdefghij").unwrap();
    handler.emit_on(&mut disk, b"klmnopqrst").unwrap();
    handler.emit_on(&mut disk, b"uvwxyzabcd").unwrap();

    assert!(disk.contains(Slot::Live));
    assert!(disk.contains(Slot::Backup(0)));
    assert!(disk.contains(Slot::Backup(1)));
    assert!(!disk.contains(Slot::Backup(2)));

    assert_eq!(contents(&disk, Slot::Live), "uvwxyzabcd");
    assert_eq!(contents(&disk, Slot::Backup(0)), "klmnopqrst");
    assert_eq!(contents(&disk, Slot::Backup(1)), "abcdefghij");
    assert_eq!(handler.path_of(Slot::Backup(1)), "test_case_2_log.txt.1");
}

#[test]
fn test_emit() {
    let mut disk = MemDisk::new();
    let mut handler = open(&mut disk, "test_case_3_log.txt", 50, 1, None);
    handler.emit_on(&mut disk, b"Hello, world!").unwrap();
    handler.emit_on(&mut disk, b" More data.").unwrap();
    assert_eq!(contents(&disk, Slot::Live), "Hello, world! More data.");
}

#[test]
fn test_write_trait() {
    let mut disk = MemDisk::new();
    let mut handler = open(&mut disk, "test_case_4_log.txt", 50, 1, None);
    assert_eq!(handler.write_on(&mut disk, "Hello, world!".as_bytes()).unwrap(), 13);
    assert_eq!(handler.write_on(&mut disk, " More data.".as_bytes()).unwrap(), 11);
    assert_eq!(contents(&disk, Slot::Live), "Hello, world! More data.");
}

#[test]
fn rotation_happens_before_the_crossing_write() {
    let mut disk = MemDisk::new();
    let mut handler = open(&mut disk, "log", 10, 3, None);
    handler.emit_on(&mut disk, b"12345").unwrap();
    handler.emit_on(&mut disk, b"67890").unwrap();
    assert_eq!(contents(&disk, Slot::Live), "1234567890");
    assert!(!disk.contains(Slot::Backup(0)));
    handler.emit_on(&mut disk, b"abcde").unwrap();
    assert_eq!(contents(&disk, Slot::Live), "abcde");
    assert_eq!(contents(&disk, Slot::Backup(0)), "1234567890");
}

#[test]
fn oversized_write_rotates_once_and_is_kept_whole() {
    let mut disk = MemDisk::new();
    let mut handler = open(&mut disk, "log", 4, 3, None);
    handler.emit_on(&mut disk, b"ab").unwrap();
    handler.emit_on(&mut disk, b"0123456789").unwrap();
    assert_eq!(contents(&disk, Slot::Live), "0123456789");
    assert_eq!(contents(&disk, Slot::Backup(0)), "ab");
    assert!(!disk.contains(Slot::Backup(1)));
}

#[test]
fn first_payload_is_dropped_beyond_the_chain() {
    let mut disk = MemDisk::new();
    let mut handler = open(&mut disk, "log", 10, 2, None);
    for p in [b"aaaaaaaaaa", b"bbbbbbbbbb", b"cccccccccc", b"dddddddddd"] {
        handler.emit_on(&mut disk, p).unwrap();
    }
    for slot in [Slot::Live, Slot::Backup(0), Slot::Backup(1)] {
        assert!(!contents(&disk, slot).contains('a'));
    }
    assert!(!disk.contains(Slot::Backup(2)));
}

#[test]
fn single_backup_slot_is_overwritten() {
    let mut disk = MemDisk::new();
    let mut handler = open(&mut disk, "log", 3, 1, None);
    handler.emit_on(&mut disk, b"one").unwrap();
    handler.emit_on(&mut disk, b"two").unwrap();
    handler.emit_on(&mut disk, b"six").unwrap();
    assert_eq!(contents(&disk, Slot::Live), "six");
    assert_eq!(contents(&disk, Slot::Backup(0)), "two");
    assert!(!disk.contains(Slot::Backup(1)));
}

#[test]
fn zero_backups_still_retires_into_slot_zero() {
    let mut disk = MemDisk::new();
    let mut handler = open(&mut disk, "log", 3, 0, None);
    handler.emit_on(&mut disk, b"one").unwrap();
    handler.emit_on(&mut disk, b"two").unwrap();
    assert_eq!(contents(&disk, Slot::Live), "two");
    assert_eq!(contents(&disk, Slot::Backup(0)), "one");
}

#[test]
fn header_starts_every_live_file() {
    let mut disk = MemDisk::new();
    let mut handler = open(&mut disk, "log", 8, 2, Some(b"H:".to_vec()));
    assert_eq!(contents(&disk, Slot::Live), "H:");
    handler.emit_on(&mut disk, b"abcd").unwrap();
    assert_eq!(contents(&disk, Slot::Live), "H:abcd");
    handler.emit_on(&mut disk, b"efgh").unwrap();
    assert_eq!(contents(&disk, Slot::Backup(0)), "H:abcd");
    assert_eq!(contents(&disk, Slot::Live), "H:efgh");
    handler.emit_on(&mut disk, b"ijklmnop").unwrap();
    assert_eq!(contents(&disk, Slot::Live), "H:ijklmnop");
    assert_eq!(contents(&disk, Slot::Backup(1)), "H:abcd");
}

#[test]
fn header_counts_at_opening_but_not_after_rotation() {
    let mut disk = MemDisk::new();
    let mut handler = open(&mut disk, "log", 6, 2, Some(b"HH".to_vec()));
    // 2 header bytes + 5 crosses 6: the first write already rotates.
    handler.emit_on(&mut disk, b"12345").unwrap();
    assert_eq!(contents(&disk, Slot::Backup(0)), "HH");
    // After the rotation the header is not counted: 5 + 1 fits.
    handler.emit_on(&mut disk, b"6").unwrap();
    assert_eq!(contents(&disk, Slot::Live), "HH123456");
    assert!(!disk.contains(Slot::Backup(1)));
}

#[test]
fn oversized_header_is_refused_without_touching_the_disk() {
    let mut disk = MemDisk::new();
    let r = RotatingFileHandler::open_on(&mut disk, "log", 3, 2, Some(b"HEAD".to_vec()));
    assert!(matches!(r, Err(RotateError::InvalidConfig)));
    assert!(!disk.contains(Slot::Live));
    assert!(matches!(
        RotatingFileHandler::new("log", 3, 2, Some(b"HEAD".to_vec())),
        Err(ConfigError::HeaderTooLarge)
    ));
    assert!(RotatingFileHandler::new("log", 4, 2, Some(b"HEAD".to_vec())).is_ok());
}

#[test]
fn reopening_counts_existing_bytes() {
    let mut disk = MemDisk::new();
    disk.perform(&FileOp::OpenLive).unwrap();
    disk.perform(&FileOp::Append(b"1234".to_vec())).unwrap();
    let mut handler = open(&mut disk, "log", 10, 2, None);
    handler.emit_on(&mut disk, b"567890").unwrap();
    assert_eq!(contents(&disk, Slot::Live), "1234567890");
    assert!(!disk.contains(Slot::Backup(0)));
    handler.emit_on(&mut disk, b"x").unwrap();
    assert_eq!(contents(&disk, Slot::Backup(0)), "1234567890");
    assert_eq!(contents(&disk, Slot::Live), "x");
}

#[test]
fn reopening_appends_the_header_again() {
    let mut disk = MemDisk::new();
    disk.perform(&FileOp::OpenLive).unwrap();
    disk.perform(&FileOp::Append(b"H:ab".to_vec())).unwrap();
    let mut handler = open(&mut disk, "log", 9, 2, Some(b"H:".to_vec()));
    assert_eq!(contents(&disk, Slot::Live), "H:abH:");
    handler.emit_on(&mut disk, b"cde").unwrap();
    assert_eq!(contents(&disk, Slot::Live), "H:abH:cde");
    assert!(!disk.contains(Slot::Backup(0)));
}

#[test]
fn writes_within_the_limit_never_rotate() {
    let mut disk = MemDisk::new();
    let mut handler = open(&mut disk, "log", 100, 3, None);
    for _ in 0..20 {
        handler.emit_on(&mut disk, b"12345").unwrap();
        assert!(!disk.contains(Slot::Backup(0)));
    }
    assert_eq!(disk.read(Slot::Live).unwrap().len(), 100);
}

#[test]
fn sink_and_emit_leave_the_same_files() {
    let payloads: [&[u8]; 5] = [b"abc", b"defgh", b"ij", b"klmnopq", b"r"];
    let mut disk_a = MemDisk::new();
    let mut disk_b = MemDisk::new();
    let mut a = open(&mut disk_a, "log", 8, 3, Some(b"#".to_vec()));
    let mut b = open(&mut disk_b, "log", 8, 3, Some(b"#".to_vec()));
    for p in payloads {
        a.emit_on(&mut disk_a, p).unwrap();
        assert_eq!(b.write_on(&mut disk_b, p).unwrap(), p.len());
    }
    for slot in [Slot::Live, Slot::Backup(0), Slot::Backup(1), Slot::Backup(2), Slot::Backup(3)] {
        assert_eq!(disk_a.read(slot), disk_b.read(slot));
    }
}

#[test]
fn missing_live_file_fails_the_rotation() {
    let mut disk = MemDisk::new();
    let mut handler = open(&mut disk, "log", 4, 2, None);
    handler.emit_on(&mut disk, b"abcd").unwrap();
    disk.perform(&FileOp::Rename { from: Slot::Live, to: Slot::Backup(9) }).unwrap();
    let r = handler.emit_on(&mut disk, b"e");
    assert!(matches!(r, Err(RotateError::Disk(DiskError::NotFound))));
    assert!(!disk.contains(Slot::Backup(0)));
}

#[test]
fn rename_of_a_missing_file_fails_and_changes_nothing() {
    let mut disk = MemDisk::new();
    let r = disk.perform(&FileOp::Rename { from: Slot::Backup(0), to: Slot::Backup(1) });
    assert_eq!(r, Err(DiskError::NotFound));
    disk.perform(&FileOp::RenameIfExists { from: Slot::Backup(0), to: Slot::Backup(1) }).unwrap();
    assert!(!disk.contains(Slot::Backup(1)));
    assert_eq!(disk.perform(&FileOp::Append(b"x".to_vec())), Err(DiskError::NotFound));
}

#[test]
fn plan_of_a_rotation() {
    let mut handler = RotatingFileHandler::new("log", 4, 3, Some(b"h".to_vec())).unwrap();
    handler.opened(3);
    assert!(!handler.must_rotate(1));
    assert!(handler.must_rotate(2));
    let plan = handler.emit(b"xy");
    assert_eq!(plan.rotation.len(), 6);
    assert!(matches!(plan.rotation[0], FileOp::Flush));
    assert!(matches!(
        plan.rotation[1],
        FileOp::RenameIfExists { from: Slot::Backup(1), to: Slot::Backup(2) }
    ));
    assert!(matches!(
        plan.rotation[2],
        FileOp::RenameIfExists { from: Slot::Backup(0), to: Slot::Backup(1) }
    ));
    assert!(matches!(plan.rotation[3], FileOp::Rename { from: Slot::Live, to: Slot::Backup(0) }));
    assert!(matches!(plan.rotation[4], FileOp::OpenLive));
    assert!(matches!(&plan.rotation[5], FileOp::Append(h) if h == b"h"));
    assert!(matches!(&plan.append, FileOp::Append(b) if b == b"xy"));
    assert!(handler.emit(b"x").rotation.is_empty());
}

#[test]
fn size_counter_follows_the_outcome() {
    let mut handler = RotatingFileHandler::new("log", 10, 2, None).unwrap();
    handler.opened(8);
    handler.appended(5);
    assert!(handler.must_rotate(0));
    handler.rotated();
    assert!(!handler.must_rotate(10));
    assert!(handler.must_rotate(11));
    handler.opened(u64::MAX);
    handler.appended(1);
    assert!(handler.must_rotate(0));
}

#[test]
fn open_ops_write_the_header() {
    let handler = RotatingFileHandler::new("log", 10, 2, Some(b"hd".to_vec())).unwrap();
    let ops = handler.open_ops();
    assert_eq!(ops.len(), 2);
    assert!(matches!(ops[0], FileOp::OpenLive));
    assert!(matches!(&ops[1], FileOp::Append(h) if h == b"hd"));
    let plain = RotatingFileHandler::new("log", 10, 2, None).unwrap();
    assert_eq!(plain.open_ops().len(), 1);
}

#[test]
fn backup_names() {
    assert_eq!(backup_path("log.txt", 0), "log.txt.0");
    assert_eq!(backup_path("log.txt", 9), "log.txt.9");
    assert_eq!(backup_path("log.txt", 10), "log.txt.10");
    assert_eq!(backup_path("a/b", 1203), "a/b.1203");
    assert_eq!(backup_path("", usize::MAX), format!(".{}", usize::MAX));
    let handler = RotatingFileHandler::new("dir/app.log", 1, 1, None).unwrap();
    assert_eq!(handler.path_of(Slot::Live), "dir/app.log");
    assert_eq!(handler.path_of(Slot::Backup(42)), "dir/app.log.42");
}
