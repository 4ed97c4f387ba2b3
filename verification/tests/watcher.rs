use std::str::FromStr;

use logwatcher::lines::{line_text, next_line_len};
use logwatcher::watcher::{
    EofStep, IdentityCheck, LogWatcher, RotationStep, StartFrom, parse_start_from,
};

#[test]
fn parse_start_names_the_beginning() {
    assert!(matches!(parse_start_from("start"), StartFrom::Beginning));
}

#[test]
fn parse_end_names_the_end() {
    assert!(matches!(parse_start_from("end"), StartFrom::End));
}

#[test]
fn parse_is_leniently_end_by_default() {
    assert!(matches!(parse_start_from("bogus"), StartFrom::End));
    assert!(matches!(parse_start_from(""), StartFrom::End));
    assert!(matches!(parse_start_from("Start"), StartFrom::End));
}

#[test]
fn parse_through_from_str() {
    assert!(matches!(StartFrom::from_str("start"), Ok(StartFrom::Beginning)));
    assert!(matches!("end".parse::<StartFrom>(), Ok(StartFrom::End)));
}

#[test]
fn register_resolves_the_policy() {
    let w = LogWatcher::register("log".to_string(), StartFrom::Beginning, 100, 40, 1);
    assert_eq!(w.pos, 0);
    assert_eq!(w.inode, 1);
    assert!(!w.draining);

    let w = LogWatcher::register("log".to_string(), StartFrom::Offset(7), 100, 40, 1);
    assert_eq!(w.pos, 7);

    // Seeking past the end is legal and simply yields no data yet.
    let w = LogWatcher::register("log".to_string(), StartFrom::Offset(100), 100, 40, 1);
    assert_eq!(w.pos, 100);
}

#[test]
fn starting_policy_end_delivers_nothing_until_growth() {
    // A non-empty file, opened with the end policy: the cursor starts at its
    // length, so the existing content is never delivered.
    let file: Vec<u8> = b"old1\nold2\n".to_vec();
    let mut w = LogWatcher::register("log".to_string(), StartFrom::End, 100, file.len() as u64, 1);
    assert_eq!(w.pos, 10);
    assert_eq!(next_line_len(&file, w.pos as usize), None);
    assert!(matches!(w.on_eof(), EofStep::CheckIdentity));

    // Content appended after the open is delivered, from the old end on.
    let mut file = file;
    file.extend_from_slice(b"new\n");
    let len = next_line_len(&file, w.pos as usize).unwrap();
    let (start, len) = w.advance_line(len);
    assert_eq!((start, len), (10, 4));
    assert_eq!(line_text(&file, start as usize, len), b"new".to_vec());
}

#[test]
fn order_preservation() {
    let file: Vec<u8> = b"l1\nl2\nl3\n".to_vec();
    let mut w = LogWatcher::register("log".to_string(), StartFrom::Beginning, 100, 0, 1);
    let mut starts: Vec<u64> = Vec::new();
    let mut texts: Vec<Vec<u8>> = Vec::new();
    while let Some(n) = next_line_len(&file, w.pos as usize) {
        let (start, len) = w.advance_line(n);
        starts.push(start);
        texts.push(line_text(&file, start as usize, len));
    }
    assert_eq!(starts, vec![0, 3, 6]);
    assert!(starts.windows(2).all(|p| p[0] < p[1]));
    assert_eq!(texts, vec![b"l1".to_vec(), b"l2".to_vec(), b"l3".to_vec()]);
    assert_eq!(w.pos, 9);
}

#[test]
fn rotation_via_replace() {
    // The file "a\n" (identity 1) is fully consumed.
    let old_file: Vec<u8> = b"a\n".to_vec();
    let mut w = LogWatcher::register("log".to_string(), StartFrom::Beginning, 100, 0, 1);
    let n = next_line_len(&old_file, 0).unwrap();
    let (start, len) = w.advance_line(n);
    assert_eq!((start, len), (0, 2));
    assert_eq!(line_text(&old_file, 0, 2), b"a".to_vec());

    // The path is replaced by a new file "b\n" (identity 2): the zero-byte
    // read leads to the identity check, which detects the rotation.
    assert_eq!(next_line_len(&old_file, w.pos as usize), None);
    assert!(matches!(w.on_eof(), EofStep::CheckIdentity));
    assert!(matches!(
        w.on_identity_check(&IdentityCheck::Found(2)),
        RotationStep::BeginDrain
    ));

    // The old file holds nothing more: the drain ends at once and the
    // watcher switches over with the identity updated.
    assert_eq!(next_line_len(&old_file, w.pos as usize), None);
    assert!(matches!(w.on_eof(), EofStep::EndDrain));
    w.complete_rotation(2);
    assert_eq!(w.inode, 2);
    assert_eq!(w.pos, 0);
    assert!(!w.draining);

    // "b" is delivered from the new file at offset 0.
    let new_file: Vec<u8> = b"b\n".to_vec();
    let n = next_line_len(&new_file, 0).unwrap();
    let (start, len) = w.advance_line(n);
    assert_eq!((start, len), (0, 2));
    assert_eq!(line_text(&new_file, 0, 2), b"b".to_vec());
}

#[test]
fn drain_before_switch() {
    // The old file's trailing line "x\n" was written just before rotation
    // and never consumed.
    let old_file: Vec<u8> = b"seen\nx\n".to_vec();
    let mut w = LogWatcher::register("log".to_string(), StartFrom::Beginning, 100, 0, 1);
    let n = next_line_len(&old_file, 0).unwrap();
    w.advance_line(n);
    assert_eq!(w.pos, 5);

    // Rotation is detected while "x\n" still waits in the old file.
    assert!(matches!(
        w.on_identity_check(&IdentityCheck::Found(2)),
        RotationStep::BeginDrain
    ));
    assert!(w.draining);

    // The drain still delivers "x" from the old handle, before any switch:
    // the identity is still the old file's.
    let n = next_line_len(&old_file, w.pos as usize).unwrap();
    let (start, len) = w.advance_line(n);
    assert_eq!((start, len), (5, 2));
    assert_eq!(line_text(&old_file, start as usize, len), b"x".to_vec());
    assert_eq!(w.inode, 1);

    // Only when the old handle runs dry does the switch happen.
    assert_eq!(next_line_len(&old_file, w.pos as usize), None);
    assert!(matches!(w.on_eof(), EofStep::EndDrain));
    w.complete_rotation(2);
    assert_eq!((w.pos, w.inode), (0, 2));
}

#[test]
fn seek_to_end_action_discards_the_backlog() {
    // Ten unread lines of three bytes each.
    let mut file: Vec<u8> = Vec::new();
    for i in 0..10 {
        file.extend_from_slice(format!("l{}\n", i).as_bytes());
    }
    let mut w = LogWatcher::register("log".to_string(), StartFrom::Beginning, 100, 0, 1);

    // The first delivered line's callback answers with a seek to the end.
    let n = next_line_len(&file, 0).unwrap();
    let (start, len) = w.advance_line(n);
    assert_eq!((start, len), (0, 3));
    w.seek_to_end(file.len() as u64);
    assert_eq!(w.pos, 30);

    // No further line of the backlog is delivered.
    assert_eq!(next_line_len(&file, w.pos as usize), None);

    // A subsequently appended line is delivered next.
    file.extend_from_slice(b"tail\n");
    let n = next_line_len(&file, w.pos as usize).unwrap();
    let (start, len) = w.advance_line(n);
    assert_eq!((start, len), (30, 5));
    assert_eq!(line_text(&file, start as usize, len), b"tail".to_vec());
}

#[test]
fn offset_accounting() {
    // The delivered byte lengths, terminators included, sum to exactly the
    // bytes consumed from the start of the file.
    let file: Vec<u8> = b"a\nlonger line\n\nmid\n".to_vec();
    let mut w = LogWatcher::register("log".to_string(), StartFrom::Beginning, 100, 0, 1);
    let mut total: u64 = 0;
    while let Some(n) = next_line_len(&file, w.pos as usize) {
        let (_, len) = w.advance_line(n);
        total += len as u64;
    }
    assert_eq!(total, w.pos);
    assert_eq!(total, file.len() as u64);
}

#[test]
fn unchanged_identity_means_sleep_and_retry() {
    let mut w = LogWatcher::register("log".to_string(), StartFrom::Beginning, 100, 4, 1);
    let before = (w.pos, w.inode, w.draining);
    assert!(matches!(
        w.on_identity_check(&IdentityCheck::Found(1)),
        RotationStep::SleepAndRetry
    ));
    assert_eq!((w.pos, w.inode, w.draining), before);
}

#[test]
fn unavailable_path_means_sleep_and_retry() {
    let mut w = LogWatcher::register("log".to_string(), StartFrom::Beginning, 100, 4, 1);
    let before = (w.pos, w.inode, w.draining);
    assert!(matches!(
        w.on_identity_check(&IdentityCheck::Unavailable),
        RotationStep::SleepAndRetry
    ));
    assert_eq!((w.pos, w.inode, w.draining), before);
}
