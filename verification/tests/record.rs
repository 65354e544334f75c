use bailey::event::{AccessKind, Resolution, Resource};
use bailey::path::PathBuf;
use bailey::record::{read_frames, AccessRecord, AT_FDCWD, FAMILY_INET, FRAME_RECORD, FRAME_SUMMARY, KIND_CONNECT, KIND_WRITE, RECORD_SIZE};

fn bytes_of(r: &AccessRecord) -> Vec<u8> {
    let mut b = Vec::new();
    b.extend_from_slice(&r.kind.to_le_bytes());
    b.extend_from_slice(&r.pid.to_le_bytes());
    b.extend_from_slice(&r.timestamp_ns.to_le_bytes());
    b.extend_from_slice(&r.addr);
    b.extend_from_slice(&r.family.to_le_bytes());
    b.extend_from_slice(&r.port.to_le_bytes());
    b.extend_from_slice(&r.path_len.to_le_bytes());
    b.extend_from_slice(&r._padding.to_le_bytes());
    b.extend_from_slice(&r.dirfd.to_le_bytes());
    b.extend_from_slice(&r.flags.to_le_bytes());
    b.extend_from_slice(&r.path);
    assert_eq!(b.len(), RECORD_SIZE);
    b
}

fn with_path(kind: u32, path: &str) -> AccessRecord {
    let mut r = AccessRecord::empty();
    r.kind = kind;
    r.pid = 77;
    r.timestamp_ns = 123456789;
    r.path[..path.len()].copy_from_slice(path.as_bytes());
    r.path_len = path.len() as u16;
    r
}

#[test]
fn an_empty_record_is_a_read_relative_to_the_working_directory() {
    let r = AccessRecord::empty();
    assert_eq!(r.kind, 0);
    assert_eq!(r.dirfd, AT_FDCWD);
    assert!(r.path.iter().all(|b| *b == 0));
}

#[test]
fn frames_decode_count_and_stop_at_a_short_frame() {
    let one = with_path(KIND_WRITE, "/tmp/out");
    let mut stream = vec![FRAME_RECORD];
    stream.extend(bytes_of(&one));
    stream.push(FRAME_SUMMARY);
    stream.extend(5u64.to_le_bytes());
    stream.push(FRAME_RECORD);
    stream.extend([0u8; 10]);
    let (records, dropped) = read_frames(&stream);
    assert_eq!(records.len(), 1);
    assert_eq!(dropped, 5);
    assert_eq!(records[0].path_len, 8);
    assert_eq!(records[0].pid, 77);
    assert_eq!(records[0].timestamp_ns, 123456789);

    let event = records[0].to_event(None, None);
    assert_eq!(event.kind, AccessKind::Write);
    assert_eq!(event.resource, Resource::Path(PathBuf::parse("/tmp/out")));
    assert_eq!(event.resolution, Resolution::Absolute);
    assert_eq!(records[0].relative_link(), None);
}

#[test]
fn a_relative_path_resolves_against_the_link_or_says_it_could_not() {
    let r = with_path(0, "data/x.bin");
    assert_eq!(r.relative_link(), Some("/proc/77/cwd".to_string()));
    let resolved = r.to_event(None, Some(PathBuf::parse("/game")));
    assert_eq!(resolved.resource, Resource::Path(PathBuf::parse("/game/data/x.bin")));
    assert_eq!(resolved.resolution, Resolution::Userspace);
    let unresolved = r.to_event(None, None);
    assert_eq!(unresolved.resolution, Resolution::Unresolved);

    let mut at_fd = with_path(0, "x");
    at_fd.dirfd = 5;
    assert_eq!(at_fd.relative_link(), Some("/proc/77/fd/5".to_string()));
}

#[test]
fn a_connect_names_its_host_and_port() {
    let mut r = AccessRecord::empty();
    r.kind = KIND_CONNECT;
    r.family = FAMILY_INET;
    r.addr[..4].copy_from_slice(&[93, 184, 216, 34]);
    r.port = 443;
    let event = r.to_event(None, None);
    assert_eq!(event.kind, AccessKind::Connect);
    assert_eq!(event.resource, Resource::Net { host: Some("93.184.216.34".to_string()), port: 443 });
    assert_eq!(event.resolution, Resolution::NotApplicable);
}
