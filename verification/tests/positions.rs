use partiql_frontend::lexer::PartiqlLexer;
use partiql_frontend::location::{
    ByteOffset, BytePosition, CharOffset, LineAndCharPosition, LineOffset,
};
use partiql_frontend::parser::lex_items;
use partiql_frontend::tracker::LineOffsetTracker;

#[test]
fn a_new_tracker_has_one_line() {
    let tracker = LineOffsetTracker::default();
    assert_eq!(1, tracker.num_lines());
    assert_eq!(LineAndCharPosition::new(0, 0), tracker.at("", BytePosition::from_usize(0)));
    assert_eq!(LineAndCharPosition::new(0, 3), tracker.at("abc", BytePosition::from_usize(3)));
}

#[test]
fn recorded_lines_resolve() {
    let source = "12345\n789012345\n789012345\n789012345";
    let mut tracker = LineOffsetTracker::default();
    tracker.record(ByteOffset(6));
    tracker.record(ByteOffset(16));
    tracker.record(ByteOffset(26));
    assert_eq!(4, tracker.num_lines());
    assert_eq!(LineAndCharPosition::new(0, 0), tracker.at(source, BytePosition::from_usize(0)));
    assert_eq!(LineAndCharPosition::new(0, 5), tracker.at(source, BytePosition::from_usize(5)));
    assert_eq!(LineAndCharPosition::new(1, 0), tracker.at(source, BytePosition::from_usize(6)));
    assert_eq!(LineAndCharPosition::new(1, 9), tracker.at(source, BytePosition::from_usize(15)));
    assert_eq!(LineAndCharPosition::new(2, 0), tracker.at(source, BytePosition::from_usize(16)));
    assert_eq!(LineAndCharPosition::new(3, 4), tracker.at(source, BytePosition::from_usize(30)));
    assert_eq!(LineAndCharPosition::new(3, 9), tracker.at(source, BytePosition::from_usize(35)));
}

#[test]
fn a_line_start_is_recorded_once() {
    let mut tracker = LineOffsetTracker::default();
    tracker.record(ByteOffset(6));
    tracker.record(ByteOffset(6));
    tracker.record(ByteOffset(3));
    tracker.record(ByteOffset(0));
    assert_eq!(2, tracker.num_lines());
    tracker.record(ByteOffset(7));
    assert_eq!(3, tracker.num_lines());
}

#[test]
fn characters_are_counted_not_bytes() {
    let source = "\u{e9}\u{20ac}\n\u{1f600}b\n";
    let (_, _, tracker) = lex_items(source);
    assert_eq!(3, tracker.num_lines());
    let at = |offset: usize| tracker.at(source, BytePosition::from_usize(offset));
    assert_eq!(LineAndCharPosition { line: LineOffset(0), char: CharOffset(0) }, at(0));
    assert_eq!(LineAndCharPosition { line: LineOffset(0), char: CharOffset(1) }, at(2));
    assert_eq!(LineAndCharPosition { line: LineOffset(0), char: CharOffset(2) }, at(5));
    assert_eq!(LineAndCharPosition { line: LineOffset(1), char: CharOffset(0) }, at(6));
    assert_eq!(LineAndCharPosition { line: LineOffset(1), char: CharOffset(1) }, at(10));
    assert_eq!(LineAndCharPosition { line: LineOffset(1), char: CharOffset(2) }, at(11));
    assert_eq!(LineAndCharPosition { line: LineOffset(2), char: CharOffset(0) }, at(12));
}

#[test]
fn newlines_in_comments_and_texts_are_lines() {
    let source = "a /* 1\n2 */ 'x\ny' `i\nj` // c\nb";
    let (_, _, tracker) = lex_items(source);
    assert_eq!(5, tracker.num_lines());
    assert_eq!(
        LineAndCharPosition::new(4, 0),
        tracker.at(source, BytePosition::from_usize(source.len() - 1))
    );
    assert_eq!(
        LineAndCharPosition::new(4, 1),
        tracker.at(source, BytePosition::from_usize(source.len()))
    );
}

#[test]
fn resolving_does_not_depend_on_how_far_the_scan_went() {
    let source = "SELECT a,\n  b\nFROM t\n\nWHERE a = 'x\ny'\n";
    let (_, _, whole) = lex_items(source);
    assert_eq!(7, whole.num_lines());
    let mut lexer = PartiqlLexer::new(source);
    let mut scanned = 0;
    loop {
        for offset in 0..=scanned {
            assert_eq!(
                whole.at(source, BytePosition::from_usize(offset)),
                lexer.tracker().at(source, BytePosition::from_usize(offset))
            );
        }
        match lexer.next() {
            Some(Ok((_, _, end))) => scanned = end.0,
            Some(Err(e)) => panic!("{:?}", e),
            None => break,
        }
    }
    assert_eq!(37, scanned);
    assert_eq!(whole.num_lines(), lexer.tracker().num_lines());
}

#[test]
fn positions_grow_with_the_offset() {
    let source = "ab\n\u{e9}c\n\nd";
    let (_, _, tracker) = lex_items(source);
    let mut before = (0, 0);
    for offset in 0..=source.len() {
        if !source.is_char_boundary(offset) {
            continue;
        }
        let p = tracker.at(source, BytePosition::from_usize(offset));
        let now = (p.line.0, p.char.0);
        assert!(before <= now, "{:?} {:?}", before, now);
        before = now;
    }
    assert_eq!((3, 1), before);
}

#[test]
fn offsets_convert() {
    assert_eq!(ByteOffset(5), ByteOffset::from_usize(5));
    assert_eq!(5, ByteOffset(5).to_usize());
    assert_eq!(BytePosition(ByteOffset(7)), BytePosition::from_usize(7));
    assert_eq!(7, BytePosition(ByteOffset(7)).to_usize());
}
