use std::collections::BTreeMap;
use std::io::Read;

use log_rotate::compress::gzip;
use log_rotate::naming::{candidate_name, day_label, gz_name, listing_dir_of, sweep_list};
use log_rotate::rotate::{Action, CutMode, Event, FileInfo, Rotation, DEFAULT_SIZE_LIMIT};

/// 2024-01-01, counted from the common era.
const JAN_1_2024: i32 = 738886;

/// Files in memory: path to (contents, day of last modification).
struct MemFs {
    files: BTreeMap<Vec<u8>, (Vec<u8>, i32)>,
    open: Option<Vec<u8>>,
    fail_renames: bool,
    rotations: Vec<(Vec<u8>, Vec<u8>)>,
    removed: Vec<Vec<u8>>,
}

impl MemFs {
    fn new() -> Self {
        MemFs {
            files: BTreeMap::new(),
            open: None,
            fail_renames: false,
            rotations: Vec::new(),
            removed: Vec::new(),
        }
    }

    fn put(&mut self, path: &[u8], contents: &[u8], day: i32) {
        self.files.insert(path.to_vec(), (contents.to_vec(), day));
    }

    fn contents(&self, path: &[u8]) -> Option<Vec<u8>> {
        self.files.get(path).map(|f| f.0.clone())
    }

    /// Carries out the engine's actions for one line; returns whether the
    /// line was written.
    fn write_line(&mut self, engine: &mut Rotation, line: &[u8], today: i32) -> bool {
        let mut event = Event::Write { len: line.len() as u64, today };
        loop {
            event = match engine.step(event) {
                Action::Open { path } => {
                    let existing = self.files.get(&path).map(|(c, d)| FileInfo {
                        len: c.len() as u64,
                        modified_day: *d,
                    });
                    if existing.is_none() {
                        self.put(&path, b"", today);
                    }
                    self.open = Some(path);
                    Event::Opened { existing }
                }
                Action::Write => {
                    let path = self.open.clone().expect("a file is open");
                    let entry = self.files.get_mut(&path).unwrap();
                    entry.0.extend_from_slice(line);
                    entry.1 = today;
                    return true;
                }
                Action::Skip => return false,
                Action::Probe { paths } => Event::Probed {
                    taken: paths.iter().any(|p| self.files.contains_key(p)),
                },
                Action::Rotate { from, to } => {
                    self.open = None;
                    if self.fail_renames {
                        Event::Renamed { ok: false }
                    } else {
                        let f = self.files.remove(&from).unwrap();
                        self.files.insert(to.clone(), f);
                        self.rotations.push((from, to));
                        Event::Renamed { ok: true }
                    }
                }
                Action::Compress { from, to } => {
                    let (c, d) = self.files.remove(&from).unwrap();
                    self.files.insert(to, (gzip(&c), d));
                    Event::Compressed { ok: true }
                }
                Action::List { dir } => {
                    let names = self
                        .files
                        .keys()
                        .filter_map(|p| {
                            if dir == b"." {
                                if p.contains(&b'/') { None } else { Some(p.clone()) }
                            } else if p.starts_with(&dir) && !p[dir.len()..].contains(&b'/') {
                                Some(p[dir.len()..].to_vec())
                            } else {
                                None
                            }
                        })
                        .collect();
                    Event::Listed { names }
                }
                Action::Remove { paths } => {
                    for p in paths {
                        if self.files.remove(&p).is_some() {
                            self.removed.push(p);
                        }
                    }
                    Event::Removed
                }
                Action::Ignore => panic!("the engine ignored an event of its own protocol"),
            };
        }
    }
}

fn label(day: i32) -> String {
    String::from_utf8(day_label(day).unwrap()).unwrap()
}

fn archive(path: &str, day: i32, n: u64) -> Vec<u8> {
    candidate_name(path.as_bytes(), label(day).as_bytes(), n)
}

#[test]
fn day_labels_are_yyyymmdd() {
    assert_eq!(label(JAN_1_2024), "20240101");
    assert_eq!(label(JAN_1_2024 + 59), "20240229");
    assert_eq!(label(1), "00010101");
    assert_eq!(label(3652059), "99991231");
    assert_eq!(day_label(0), None);
    assert_eq!(day_label(3652060), None);
}

#[test]
fn archive_names_and_directories() {
    assert_eq!(archive("logs/out", JAN_1_2024, 0), b"logs/out.20240101".to_vec());
    assert_eq!(archive("logs/out", JAN_1_2024, 1), b"logs/out.20240101-1".to_vec());
    assert_eq!(archive("logs/out", JAN_1_2024, 12), b"logs/out.20240101-12".to_vec());
    assert_eq!(gz_name(b"a.1"), b"a.1.gz".to_vec());
    assert_eq!(listing_dir_of(b"logs/out"), b"logs/".to_vec());
    assert_eq!(listing_dir_of(b"/var/log/app"), b"/var/log/".to_vec());
    assert_eq!(listing_dir_of(b"out"), b".".to_vec());
}

#[test]
fn sweep_matches_only_the_expiry_day() {
    let names: Vec<Vec<u8>> = vec![
        b"out".to_vec(),
        b"out.20240101".to_vec(),
        b"out.20240101-3.gz".to_vec(),
        b"out.20240102".to_vec(),
        b"other.20240101".to_vec(),
    ];
    assert_eq!(
        sweep_list(&names, b"logs/out", b"20240101"),
        vec![b"logs/out.20240101".to_vec(), b"logs/out.20240101-3.gz".to_vec()]
    );
    assert_eq!(
        sweep_list(&names, b"out", b"20240102"),
        vec![b"out.20240102".to_vec()]
    );
}

#[test]
fn defaults() {
    let engine = Rotation::new(None, CutMode::Size, None, false, 0);
    assert_eq!(engine.path(), b"logs/out");
    assert_eq!(DEFAULT_SIZE_LIMIT, 16 * 1024 * 1024);
}

#[test]
fn size_policy_rotates_only_past_threshold() {
    let mut fs = MemFs::new();
    let mut engine = Rotation::new(Some(b"logs/out".to_vec()), CutMode::Size, Some(10), false, 0);
    let day = JAN_1_2024;
    assert!(fs.write_line(&mut engine, b"12345\n", day));
    assert!(fs.write_line(&mut engine, b"123\n", day));
    assert!(fs.rotations.is_empty());
    // 10 bytes so far: one more byte goes past the threshold.
    assert!(fs.write_line(&mut engine, b"\n", day));
    assert_eq!(fs.rotations, vec![(b"logs/out".to_vec(), archive("logs/out", day, 1))]);
    assert_eq!(fs.contents(&archive("logs/out", day, 1)), Some(b"12345\n123\n".to_vec()));
    assert_eq!(fs.contents(b"logs/out"), Some(b"\n".to_vec()));
    // A line larger than the threshold still lands, after one rotation.
    assert!(fs.write_line(&mut engine, b"0123456789ABCDEF\n", day));
    assert_eq!(fs.rotations.len(), 2);
    assert_eq!(fs.rotations[1].1, archive("logs/out", day, 2));
    assert_eq!(fs.contents(b"logs/out"), Some(b"0123456789ABCDEF\n".to_vec()));
}

#[test]
fn size_policy_counts_an_existing_file() {
    let mut fs = MemFs::new();
    fs.put(b"out", b"12345678", JAN_1_2024);
    let mut engine = Rotation::new(Some(b"out".to_vec()), CutMode::Size, Some(10), false, 0);
    assert!(fs.write_line(&mut engine, b"ab\n", JAN_1_2024));
    assert_eq!(fs.rotations.len(), 1);
    assert_eq!(fs.contents(&archive("out", JAN_1_2024, 1)), Some(b"12345678".to_vec()));
    assert_eq!(fs.contents(b"out"), Some(b"ab\n".to_vec()));
}

#[test]
fn daily_policy_rotates_once_on_day_change() {
    let mut fs = MemFs::new();
    let mut engine = Rotation::new(Some(b"logs/out".to_vec()), CutMode::Daily, None, false, 0);
    let day = JAN_1_2024;
    for _ in 0..3 {
        assert!(fs.write_line(&mut engine, b"same day\n", day));
    }
    assert!(fs.rotations.is_empty());
    assert!(fs.write_line(&mut engine, b"next day\n", day + 1));
    // The archive is named after the day of the rotation.
    assert_eq!(fs.rotations, vec![(b"logs/out".to_vec(), b"logs/out.20240102".to_vec())]);
    assert_eq!(
        fs.contents(b"logs/out.20240102"),
        Some(b"same day\nsame day\nsame day\n".to_vec())
    );
    assert!(fs.write_line(&mut engine, b"still next day\n", day + 1));
    assert_eq!(fs.rotations.len(), 1);
    assert_eq!(
        fs.contents(b"logs/out"),
        Some(b"next day\nstill next day\n".to_vec())
    );
}

#[test]
fn daily_policy_rotates_a_stale_file_on_first_write() {
    let mut fs = MemFs::new();
    fs.put(b"logs/out", b"old\n", JAN_1_2024 - 3);
    let mut engine = Rotation::new(Some(b"logs/out".to_vec()), CutMode::Daily, None, false, 0);
    assert!(fs.write_line(&mut engine, b"new\n", JAN_1_2024));
    assert_eq!(fs.rotations.len(), 1);
    assert_eq!(fs.rotations[0].1, b"logs/out.20240101".to_vec());
    assert_eq!(fs.contents(b"logs/out.20240101"), Some(b"old\n".to_vec()));
    assert_eq!(fs.contents(b"logs/out"), Some(b"new\n".to_vec()));
}

#[test]
fn same_day_rotations_never_overwrite() {
    let mut fs = MemFs::new();
    let day = JAN_1_2024 + 10;
    fs.put(b"logs/out", b"first\n", day - 1);
    let mut engine = Rotation::new(Some(b"logs/out".to_vec()), CutMode::Daily, None, false, 0);
    assert!(fs.write_line(&mut engine, b"a\n", day));
    // A later run finds a stale live file again on the same day.
    fs.files.get_mut(&b"logs/out".to_vec()).unwrap().1 = day - 1;
    let mut engine = Rotation::new(Some(b"logs/out".to_vec()), CutMode::Daily, None, false, 0);
    assert!(fs.write_line(&mut engine, b"b\n", day));
    fs.files.get_mut(&b"logs/out".to_vec()).unwrap().1 = day - 1;
    let mut engine = Rotation::new(Some(b"logs/out".to_vec()), CutMode::Daily, None, false, 0);
    assert!(fs.write_line(&mut engine, b"c\n", day));
    let targets: Vec<Vec<u8>> = fs.rotations.iter().map(|r| r.1.clone()).collect();
    assert_eq!(
        targets,
        vec![
            b"logs/out.20240111".to_vec(),
            b"logs/out.20240111-1".to_vec(),
            b"logs/out.20240111-2".to_vec()
        ]
    );
    assert_eq!(fs.contents(b"logs/out.20240111"), Some(b"first\n".to_vec()));
    assert_eq!(fs.contents(b"logs/out.20240111-1"), Some(b"a\n".to_vec()));
}

#[test]
fn collision_with_compressed_archive_is_detected() {
    let mut fs = MemFs::new();
    let day = JAN_1_2024;
    fs.put(b"out.20240101.gz", b"older", day);
    fs.put(b"out", b"x\n", day - 1);
    let mut engine = Rotation::new(Some(b"out".to_vec()), CutMode::Daily, None, true, 0);
    assert!(fs.write_line(&mut engine, b"y\n", day));
    assert_eq!(fs.rotations[0].1, b"out.20240101-1".to_vec());
    assert_eq!(fs.contents(b"out.20240101.gz"), Some(b"older".to_vec()));
    assert!(fs.files.contains_key(&b"out.20240101-1.gz".to_vec()));
}

#[test]
fn retention_removes_exactly_the_expiry_day() {
    let mut fs = MemFs::new();
    let today = JAN_1_2024 + 40;
    for d in 1..=30 {
        let name = archive("logs/out", today - d, 0);
        fs.put(&name, b"old\n", today - d);
        let numbered = archive("logs/out", today - d, 1);
        fs.put(&gz_name(&numbered), b"older", today - d);
    }
    fs.put(b"logs/out", b"live\n", today - 1);
    fs.put(b"logs/other.txt", b"keep", today - 5);
    let before: Vec<Vec<u8>> = fs.files.keys().cloned().collect();
    let mut engine = Rotation::new(Some(b"logs/out".to_vec()), CutMode::Daily, None, false, 5);
    assert!(fs.write_line(&mut engine, b"today\n", today));
    let mut expected_removed = vec![
        archive("logs/out", today - 5, 0),
        gz_name(&archive("logs/out", today - 5, 1)),
    ];
    expected_removed.sort();
    let mut removed = fs.removed.clone();
    removed.sort();
    assert_eq!(removed, expected_removed);
    for name in before {
        if !expected_removed.contains(&name) && name != b"logs/out".to_vec() {
            assert!(fs.files.contains_key(&name), "{:?} was removed", String::from_utf8_lossy(&name));
        }
    }
    assert_eq!(fs.contents(b"logs/out"), Some(b"today\n".to_vec()));
    assert_eq!(fs.contents(&archive("logs/out", today, 0)), Some(b"live\n".to_vec()));
}

#[test]
fn retention_disabled_at_zero_days() {
    let mut fs = MemFs::new();
    let today = JAN_1_2024;
    fs.put(&archive("out", today, 0), b"a", today);
    fs.put(b"out", b"live\n", today - 1);
    let mut engine = Rotation::new(Some(b"out".to_vec()), CutMode::Daily, None, false, 0);
    assert!(fs.write_line(&mut engine, b"n\n", today));
    assert!(fs.removed.is_empty());
    assert_eq!(fs.files.len(), 3);
}

#[test]
fn failed_rename_keeps_writing_to_the_live_file() {
    let mut fs = MemFs::new();
    fs.fail_renames = true;
    let mut engine = Rotation::new(Some(b"out".to_vec()), CutMode::Size, Some(4), true, 3);
    assert!(fs.write_line(&mut engine, b"abc\n", JAN_1_2024));
    assert!(fs.write_line(&mut engine, b"def\n", JAN_1_2024));
    assert!(fs.write_line(&mut engine, b"ghi\n", JAN_1_2024));
    assert_eq!(fs.contents(b"out"), Some(b"abc\ndef\nghi\n".to_vec()));
    assert_eq!(fs.files.len(), 1);
    assert!(fs.removed.is_empty());
}

#[test]
fn unexpected_event_is_ignored() {
    let mut engine = Rotation::new(None, CutMode::Size, None, false, 0);
    assert!(matches!(engine.step(Event::Removed), Action::Ignore));
    assert!(matches!(engine.step(Event::Probed { taken: true }), Action::Ignore));
    assert!(matches!(engine.step(Event::Write { len: 1, today: JAN_1_2024 }), Action::Open { .. }));
    assert!(matches!(engine.step(Event::Write { len: 1, today: JAN_1_2024 }), Action::Ignore));
    assert!(matches!(engine.step(Event::OpenFailed), Action::Skip));
}

#[test]
fn close_is_idempotent() {
    let mut fs = MemFs::new();
    let mut engine = Rotation::new(Some(b"out".to_vec()), CutMode::Size, None, false, 0);
    assert!(!engine.close());
    assert!(fs.write_line(&mut engine, b"x\n", JAN_1_2024));
    assert!(engine.close());
    assert!(!engine.close());
}

fn gunzip(data: &[u8]) -> Vec<u8> {
    let mut decoder = libflate::gzip::Decoder::new(data).unwrap();
    let mut out = Vec::new();
    decoder.read_to_end(&mut out).unwrap();
    out
}

#[test]
fn gzip_round_trip() {
    let plain = b"line one\nline two\n".repeat(100);
    let packed = gzip(&plain);
    assert_eq!(&packed[..4], &[31u8, 139u8, 8u8, 0u8]);
    assert_eq!(&packed[8..10], &[0u8, 3u8]);
    let n = plain.len() as u32;
    assert_eq!(&packed[packed.len() - 4..], &n.to_le_bytes());
    assert_ne!(packed, plain);
    assert_eq!(gunzip(&packed), plain);
    assert_eq!(gunzip(&gzip(b"")), Vec::<u8>::new());
}

#[test]
fn compressed_rotation_replaces_the_plain_archive() {
    let mut fs = MemFs::new();
    let day = JAN_1_2024;
    let mut engine = Rotation::new(Some(b"logs/out".to_vec()), CutMode::Size, Some(8), true, 0);
    assert!(fs.write_line(&mut engine, b"aaaa\n", day));
    assert!(fs.write_line(&mut engine, b"bbbb\n", day));
    let plain = archive("logs/out", day, 1);
    assert_eq!(fs.rotations, vec![(b"logs/out".to_vec(), plain.clone())]);
    assert!(!fs.files.contains_key(&plain));
    let packed = fs.contents(&gz_name(&plain)).unwrap();
    assert_eq!(gunzip(&packed), b"aaaa\n".to_vec());
    assert_eq!(fs.contents(b"logs/out"), Some(b"bbbb\n".to_vec()));
}
