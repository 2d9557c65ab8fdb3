use aegis::windows::{HandleResource, VirtualWindows};

#[test]
fn virtual_files_preserve_content_across_handles() {
    let mut windows = VirtualWindows::default();
    let writer = windows.open_file("C:\\Temp\\sample.bin".into()).unwrap();
    assert_eq!(windows.write_file(writer, b"aegis"), 5);
    let reader = windows.open_file("C:\\Temp\\sample.bin".into()).unwrap();
    assert_eq!(windows.read_file(reader, 3), b"aeg");
    assert_eq!(windows.read_file(reader, 8), b"is");
    assert!(windows.close(writer));
    assert!(windows.close(reader));
}

#[test]
fn handles_start_at_0x100_and_close_once() {
    let mut windows = VirtualWindows::default();
    let first = windows.allocate(HandleResource::Process { pid: 7 }).unwrap();
    let second = windows.open_process(9).unwrap();
    assert_eq!(first, 0x100);
    assert_eq!(second, 0x101);
    assert_eq!(windows.describe(first), Some("process:7".to_string()));
    assert!(windows.close(first));
    assert_eq!(windows.last_error(), 0);
    assert!(!windows.close(first));
    assert_eq!(windows.last_error(), 6);
    assert_eq!(windows.describe(first), None);
}

#[test]
fn describes_each_kind_of_handle() {
    let mut windows = VirtualWindows::default();
    let mutex = windows
        .allocate(HandleResource::Mutex { name: "m".into(), owned: false })
        .unwrap();
    let event = windows
        .allocate(HandleResource::Event { name: "e".into(), signaled: false, manual_reset: true })
        .unwrap();
    let snapshot = windows.allocate(HandleResource::Snapshot { index: 0 }).unwrap();
    let provider = windows.allocate(HandleResource::CryptoProvider).unwrap();
    let thread = windows.allocate(HandleResource::Thread { tid: 12 }).unwrap();
    let mapping = windows
        .allocate(HandleResource::Mapping { name: "map".into(), size: 4096 })
        .unwrap();
    assert_eq!(windows.describe(mutex), Some("mutex:m".to_string()));
    assert_eq!(windows.describe(event), Some("event:e".to_string()));
    assert_eq!(windows.describe(snapshot), Some("process snapshot".to_string()));
    assert_eq!(windows.describe(provider), Some("crypto provider".to_string()));
    assert_eq!(windows.describe(thread), Some("thread:12".to_string()));
    assert_eq!(windows.describe(mapping), Some("mapping:map".to_string()));
    assert_eq!(windows.mapping_size(mapping), Some(4096));
    assert_eq!(windows.mapping_size(mutex), None);
}

#[test]
fn events_and_mutexes_follow_wait_rules() {
    let mut windows = VirtualWindows::default();
    let auto = windows
        .allocate(HandleResource::Event { name: "a".into(), signaled: true, manual_reset: false })
        .unwrap();
    assert_eq!(windows.wait(auto), Some(true));
    assert_eq!(windows.wait(auto), Some(false));
    assert!(windows.signal_event(auto, true));
    assert_eq!(windows.wait(auto), Some(true));

    let manual = windows
        .allocate(HandleResource::Event { name: "b".into(), signaled: true, manual_reset: true })
        .unwrap();
    assert_eq!(windows.wait(manual), Some(true));
    assert_eq!(windows.wait(manual), Some(true));

    let mutex = windows
        .allocate(HandleResource::Mutex { name: "m".into(), owned: false })
        .unwrap();
    assert_eq!(windows.wait(mutex), Some(true));
    assert_eq!(windows.wait(mutex), Some(false));
    assert!(windows.release_mutex(mutex));
    assert_eq!(windows.wait(mutex), Some(true));
    assert!(!windows.release_mutex(auto));
    assert!(!windows.signal_event(mutex, true));

    let process = windows.open_process(4).unwrap();
    assert_eq!(windows.wait(process), Some(true));
    let provider = windows.allocate(HandleResource::CryptoProvider).unwrap();
    assert_eq!(windows.wait(provider), None);
}

#[test]
fn process_snapshot_lists_three_processes() {
    let mut windows = VirtualWindows::default();
    let snapshot = windows.allocate(HandleResource::Snapshot { index: 0 }).unwrap();
    assert_eq!(windows.next_process(snapshot, true), Some((4, "System")));
    assert_eq!(windows.next_process(snapshot, false), Some((1200, "explorer.exe")));
    assert_eq!(windows.next_process(snapshot, false), Some((1337, "sample.exe")));
    assert_eq!(windows.next_process(snapshot, false), None);
    assert_eq!(windows.next_process(snapshot, true), Some((4, "System")));
}

#[test]
fn file_search_matches_case_insensitively() {
    let mut windows = VirtualWindows::default();
    windows.open_file("C:\\Data\\Report.TXT".into()).unwrap();
    windows.open_file("C:\\Data\\notes.txt".into()).unwrap();
    windows.open_file("C:\\Data\\image.png".into()).unwrap();
    let (handle, first) = windows.start_file_find("*.txt").unwrap();
    assert_eq!(first, "C:\\Data\\Report.TXT");
    assert_eq!(windows.next_file_find(handle), Some("C:\\Data\\notes.txt".to_string()));
    assert_eq!(windows.next_file_find(handle), None);
    assert!(windows.start_file_find("*.doc").is_none());
    let (_, everything) = windows.start_file_find("*").unwrap();
    assert_eq!(everything, "C:\\Data\\Report.TXT");
}

#[test]
fn file_offsets_move_and_clamp() {
    let mut windows = VirtualWindows::default();
    let handle = windows.open_file("f".into()).unwrap();
    assert_eq!(windows.write_file(handle, b"0123456789"), 10);
    assert_eq!(windows.file_size(handle), Some(10));
    assert_eq!(windows.set_file_offset(handle, 2, 0), Some(2));
    assert_eq!(windows.read_file(handle, 3), b"234");
    assert_eq!(windows.set_file_offset(handle, -1, 1), Some(4));
    assert_eq!(windows.set_file_offset(handle, -4, 2), Some(6));
    assert_eq!(windows.read_file(handle, 100), b"6789");
    assert_eq!(windows.set_file_offset(handle, -100, 0), Some(0));
    assert_eq!(windows.set_file_offset(handle, 1, 3), None);
    assert_eq!(windows.set_file_offset(handle, i32::MAX, 0), Some(1024 * 1024));
}

#[test]
fn writes_past_the_end_fill_with_zeros() {
    let mut windows = VirtualWindows::default();
    let handle = windows.open_file("gap".into()).unwrap();
    assert_eq!(windows.set_file_offset(handle, 3, 0), Some(3));
    assert_eq!(windows.write_file(handle, b"xy"), 2);
    let reader = windows.open_file("gap".into()).unwrap();
    assert_eq!(windows.read_file(reader, 10), vec![0, 0, 0, b'x', b'y']);
}

#[test]
fn writes_are_cut_at_the_file_limit() {
    let mut windows = VirtualWindows::default();
    let handle = windows.open_file("big".into()).unwrap();
    assert_eq!(windows.set_file_offset(handle, 1024 * 1024 - 2, 0), Some(1024 * 1024 - 2));
    assert_eq!(windows.write_file(handle, b"abcd"), 2);
    assert_eq!(windows.last_error(), 8);
    assert_eq!(windows.file_size(handle), Some(1024 * 1024));
}

#[test]
fn writing_through_a_handle_that_is_not_a_file_fails() {
    let mut windows = VirtualWindows::default();
    let process = windows.open_process(1).unwrap();
    assert_eq!(windows.write_file(process, b"data"), 0);
    assert_eq!(windows.last_error(), 6);
    assert!(windows.read_file(process, 4).is_empty());
    assert_eq!(windows.last_error(), 6);
    assert_eq!(windows.file_path(process), None);
}

#[test]
fn files_copy_move_and_delete() {
    let mut windows = VirtualWindows::default();
    let handle = windows.open_file("a".into()).unwrap();
    assert_eq!(windows.write_file(handle, b"hello"), 5);
    assert!(windows.copy_file("a", "b"));
    assert!(!windows.copy_file("missing", "c"));
    assert!(windows.move_file("a", "c"));
    assert_eq!(windows.file_path(handle), Some("c"));
    assert!(!windows.move_file("a", "d"));
    let snapshots = windows.file_snapshots();
    assert_eq!(snapshots, vec![("b", &b"hello"[..]), ("c", &b"hello"[..])]);
    assert!(windows.delete_file("b"));
    assert!(!windows.delete_file("b"));
    assert_eq!(windows.file_snapshots().len(), 1);
}

#[test]
fn empty_files_are_not_in_snapshots() {
    let mut windows = VirtualWindows::default();
    windows.open_file("empty".into()).unwrap();
    assert!(windows.file_snapshots().is_empty());
}

#[test]
fn registry_values_round_trip() {
    let mut windows = VirtualWindows::default();
    let key = windows
        .allocate(HandleResource::Registry { key: "HKCU\\Software\\Run".into() })
        .unwrap();
    assert_eq!(windows.registry_path(key), Some("HKCU\\Software\\Run"));
    assert!(windows.set_registry_value(key, "updater", b"C:\\a.exe"));
    assert_eq!(windows.registry_value(key, "updater"), Some(&b"C:\\a.exe"[..]));
    assert_eq!(windows.registry_value(key, "other"), None);
    assert!(windows.delete_registry_value(key, "updater"));
    assert_eq!(windows.last_error(), 0);
    assert!(!windows.delete_registry_value(key, "updater"));
    assert_eq!(windows.last_error(), 2);
    assert_eq!(windows.registry_value(key, "updater"), None);

    let process = windows.open_process(3).unwrap();
    assert!(!windows.set_registry_value(process, "x", b"y"));
    assert_eq!(windows.last_error(), 6);
}

#[test]
fn hashes_collect_their_input() {
    let mut windows = VirtualWindows::default();
    let hash = windows.allocate(HandleResource::CryptoHash { data: Vec::new() }).unwrap();
    assert!(windows.hash_update(hash, b"ab"));
    assert!(windows.hash_update(hash, b"cd"));
    assert_eq!(windows.hash_bytes(hash), Some(&b"abcd"[..]));
    assert_eq!(windows.describe(hash), Some("crypto hash".to_string()));
    let process = windows.open_process(3).unwrap();
    assert!(!windows.hash_update(process, b"x"));
    assert_eq!(windows.hash_bytes(process), None);
}

#[test]
fn remote_memory_is_allocated_and_written() {
    let mut windows = VirtualWindows::default();
    let process = windows.open_process(1337).unwrap();
    assert!(windows.allocate_remote(process, 0x1000, 16));
    assert!(!windows.allocate_remote(process, 0x1008, 16));
    assert_eq!(windows.last_error(), 487);
    assert!(!windows.allocate_remote(process, 0x2000, 0));
    assert_eq!(windows.last_error(), 8);
    assert!(windows.remote_snapshots().is_empty());
    assert_eq!(windows.write_remote(process, 0x1004, b"MZ"), 2);
    assert_eq!(windows.last_error(), 0);
    let snapshots = windows.remote_snapshots();
    assert_eq!(snapshots.len(), 1);
    assert_eq!(snapshots[0].0, process);
    assert_eq!(snapshots[0].1, 0x1000);
    assert_eq!(&snapshots[0].2[4..6], b"MZ");
    assert_eq!(windows.write_remote(process, 0x100e, b"toolong"), 0);
    assert_eq!(windows.last_error(), 299);

    let file = windows.open_file("x".into()).unwrap();
    assert!(!windows.allocate_remote(file, 0x3000, 16));
    assert_eq!(windows.last_error(), 8);
}

#[test]
fn handles_stop_at_the_limit() {
    let mut windows = VirtualWindows::default();
    for _ in 0..4096 {
        assert!(windows.allocate(HandleResource::CryptoProvider).is_some());
    }
    assert_eq!(windows.allocate(HandleResource::CryptoProvider), None);
    assert_eq!(windows.last_error(), 4);
}
