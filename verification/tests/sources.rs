//! Where events come from.
use purple_wolf::relay::config::SourceConfig;
use purple_wolf::relay::sources::log_tail::{
    bookmark_path_for, detect_rotation, parse_bookmark, start_position, temporary_path_for, Bookmark,
    Probe, Tail, TailAction, TailEvent,
};
use purple_wolf::relay::sources::stdin::{run_reader, ReaderAction, ReaderEvent, StdinSource};
use purple_wolf::relay::sources::{build, BuiltSource};

#[test]
fn stdin_yields_lines_until_eof() {
    for line in ["line1\n", "line2\n"] {
        match run_reader("stdin-test", ReaderEvent::Line(line.to_string())) {
            ReaderAction::Send(e) => {
                assert_eq!(e.line, line.as_bytes());
                assert_eq!(e.source_id, "stdin-test");
            }
            other => panic!("expected an event, got {other:?}"),
        }
        assert!(matches!(run_reader("stdin-test", ReaderEvent::Sent), ReaderAction::Read));
    }
    assert!(matches!(run_reader("stdin-test", ReaderEvent::EndOfStream), ReaderAction::Stop));
}

#[test]
fn stdin_exits_on_shutdown_signal() {
    assert!(matches!(run_reader("s", ReaderEvent::Shutdown), ReaderAction::Stop));
    assert!(matches!(run_reader("s", ReaderEvent::Failed), ReaderAction::Fail));
}

#[test]
fn stdin_exits_when_downstream_closes() {
    assert!(matches!(run_reader("s", ReaderEvent::Closed), ReaderAction::Stop));
    assert_eq!(StdinSource::new().id(), "stdin");
}

fn sent(tail: &mut Tail, line: &str) -> Vec<u8> {
    match tail.run_tail(TailEvent::Line(line.to_string())) {
        TailAction::Send(e) => {
            assert!(matches!(tail.run_tail(TailEvent::Sent), TailAction::Read));
            e.line
        }
        other => panic!("expected an event, got {other:?}"),
    }
}

#[test]
fn log_tail_emits_lines_appended_after_start() {
    let at = start_position(None, 7, 12, false);
    assert_eq!(at, 12);
    let mut tail = Tail::start("test", 7, at);
    assert!(matches!(tail.run_tail(TailEvent::EndOfFile), TailAction::Wait));
    assert!(matches!(tail.run_tail(TailEvent::Woken), TailAction::Probe));
    let found = Some(Probe { inode: 7, len: 18 });
    assert!(matches!(tail.run_tail(TailEvent::Probed(found)), TailAction::Read));
    assert_eq!(sent(&mut tail, "line2\n"), b"line2\n");
    assert_eq!(tail.position, 18);
}

#[test]
fn log_tail_from_beginning_emits_existing_lines() {
    let at = start_position(None, 7, 12, true);
    assert_eq!(at, 0);
    let mut tail = Tail::start("test", 7, at);
    assert_eq!(sent(&mut tail, "line1\n"), b"line1\n");
    assert_eq!(sent(&mut tail, "line2\n"), b"line2\n");
    assert_eq!(tail.position, 12);
}

#[test]
fn log_tail_survives_rotation() {
    let mut tail = Tail::start("test", 7, 6);
    let found = Some(Probe { inode: 8, len: 0 });
    match tail.run_tail(TailEvent::Probed(found)) {
        TailAction::Reopen(b) => assert_eq!(b, Bookmark { inode: 8, position: 0 }),
        other => panic!("expected a reopening, got {other:?}"),
    }
    assert_eq!(sent(&mut tail, "line2\n"), b"line2\n");
    assert!(detect_rotation(8, 6, Probe { inode: 8, len: 3 }), "cut off in place");
    assert!(!detect_rotation(8, 6, Probe { inode: 8, len: 6 }));
    assert!(matches!(tail.run_tail(TailEvent::Probed(None)), TailAction::Read));
}

#[test]
fn log_tail_resumes_from_bookmark() {
    let mut tail = Tail::start("test", 7, 0);
    assert_eq!(sent(&mut tail, "old\n"), b"old\n");
    let saved = match tail.run_tail(TailEvent::Shutdown) {
        TailAction::Stop(b) => b.to_text(),
        other => panic!("expected a stop, got {other:?}"),
    };
    assert_eq!(saved, "7 4\n");
    let at = start_position(parse_bookmark(&saved), 7, 8, true);
    assert_eq!(at, 4, "must skip the line that was read already");
    assert_eq!(start_position(parse_bookmark(&saved), 9, 8, true), 0);
    assert_eq!(start_position(parse_bookmark(&saved), 7, 2, true), 2);
}

#[test]
fn a_bookmark_is_saved_every_hundred_events() {
    let mut tail = Tail::start("test", 1, 0);
    for n in 1..=100u64 {
        assert!(matches!(tail.run_tail(TailEvent::Line("x\n".into())), TailAction::Send(_)));
        match tail.run_tail(TailEvent::Sent) {
            TailAction::SaveAndRead(b) => {
                assert_eq!(n, 100);
                assert_eq!(b.position, 200);
            }
            TailAction::Read => assert!(n < 100),
            other => panic!("unexpected {other:?}"),
        }
    }
    assert_eq!(tail.emitted_since_bookmark, 0);
    assert!(matches!(tail.run_tail(TailEvent::Failed), TailAction::Fail));
}

#[test]
fn bookmarks_are_read_leniently() {
    assert_eq!(parse_bookmark("  +5\t6 rest"), Some(Bookmark { inode: 5, position: 6 }));
    assert_eq!(parse_bookmark("5"), None);
    assert_eq!(parse_bookmark(""), None);
    assert_eq!(parse_bookmark("x 6"), None);
    assert_eq!(parse_bookmark("5 18446744073709551616"), None);
    assert_eq!(
        parse_bookmark("5 18446744073709551615"),
        Some(Bookmark { inode: 5, position: u64::MAX })
    );
    let p = bookmark_path_for("/var/log/a.log");
    assert_eq!(p, "/var/log/a.log.purple-wolf-relay.bookmark");
    assert_eq!(temporary_path_for(&p), "/var/log/a.log.purple-wolf-relay.bookmark.tmp");
}

#[test]
fn sources_are_built_from_their_configuration() {
    match build(&SourceConfig::LogTail { path: "/a".into(), from_beginning: true }) {
        BuiltSource::LogTail(s) => {
            assert_eq!(s.id(), "log_tail:/a");
            assert!(s.from_beginning);
        }
        BuiltSource::Stdin(_) => panic!("expected a file"),
    }
    assert!(matches!(build(&SourceConfig::Stdin), BuiltSource::Stdin(_)));
}
