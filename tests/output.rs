use ccjson::reader::{MockReader, Reader};
use ccjson::writer::Framer;
use ccjson::{CompileRecord, Parser};

#[test]
fn framer_writes_one_array() {
    let mut parser = Parser::new("/b");
    let mut framer = Framer::new(2);
    let (mut text, opened) = framer.open();
    let mut flushes = vec![opened];
    for name in ["a.c", "b.c", "c.c"].iter() {
        let json = parser.parse_line(&format!("gcc {}", name)).unwrap().unwrap();
        let (piece, flush) = framer.record(&json);
        text.push_str(&piece);
        flushes.push(flush);
    }
    let (closing, closed) = framer.close();
    text.push_str(&closing);
    flushes.push(closed);
    assert_eq!(flushes, vec![false, true, false, true, false]);
    let value: serde_json::Value = serde_json::from_str(&text).unwrap();
    let items = value.as_array().unwrap();
    assert_eq!(items.len(), 3);
    assert_eq!(items[0]["file"], "a.c");
    assert_eq!(items[2]["file"], "c.c");
}

#[test]
fn framer_separates_all_but_the_first() {
    let mut framer = Framer::new(1);
    let (first, f1) = framer.record("[\n  {}\n]");
    let (second, f2) = framer.record("[\n  {}\n]");
    assert_eq!(first, "  {}");
    assert_eq!(second, ",\n  {}");
    assert!(f1 && f2);
    assert_eq!(framer.open(), ("[\n".to_string(), true));
    assert_eq!(framer.close(), ("\n]".to_string(), true));
}

#[test]
fn pipeline_of_many_compile_lines() {
    let n = 12;
    let mut parser = Parser::new("/src");
    let mut framer = Framer::new(5);
    let mut text = framer.open().0;
    let mut records: Vec<CompileRecord> = Vec::new();
    for i in 0..n {
        let line = format!("clang -O2 unit{}.cpp", i);
        let recs = parser.parse_records(&line).unwrap();
        records.extend(recs);
        let json = parser.parser_command(&line).unwrap();
        text.push_str(&framer.record(&json).0);
    }
    text.push_str(&framer.close().0);
    assert_eq!(records.len(), n);
    let value: serde_json::Value = serde_json::from_str(&text).unwrap();
    let items = value.as_array().unwrap();
    assert_eq!(items.len(), n);
    for i in 0..n {
        assert_eq!(items[i]["file"], format!("unit{}.cpp", i));
        assert_eq!(records[i].file, format!("unit{}.cpp", i));
    }
}

#[test]
fn mock_reader_hands_out_lines_in_order() {
    let mut r = MockReader::new(vec!["one".to_string(), "two".to_string()]);
    assert!(r.readable());
    assert_eq!(r.read_line(), Some("one".to_string()));
    assert_eq!(r.read_line(), Some("two".to_string()));
    assert!(r.readable());
    assert_eq!(r.read_line(), None);
    assert!(!r.readable());
}

#[test]
fn framer_flushes_every_piece_with_a_batch_of_one() {
    let mut framer = Framer::new(1);
    assert!(framer.open().1);
    assert!(framer.record("[\n  {}\n]").1);
    assert!(framer.close().1);
}
