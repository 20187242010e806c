use ccjson::{find_target, CompileRecord, Directive, ParseError, Parser};

fn lines(v: &[&str]) -> Vec<String> {
    v.iter().map(|s| s.to_string()).collect()
}

fn strings(v: &[&str]) -> Vec<String> {
    v.iter().map(|s| s.to_string()).collect()
}

#[test]
fn test_parser_command() {
    let parser = Parser::new("/coder/build");
    let test_cases = [
        (
            "gcc main.c -o main",
            "[\n  {\n    \"arguments\": [\n      \"gcc\",\n      \"-o\",\n      \"main\",\n      \"main.c\"\n    ],\n    \"directory\": \"/coder/build\",\n    \"file\": \"main.c\"\n  }\n]",
        ),
        (
            "g++ main.cpp -o main -I/usr/include -DFLAG",
            "[\n  {\n    \"arguments\": [\n      \"g++\",\n      \"-o\",\n      \"main\",\n      \"-I../../usr/include\",\n      \"-DFLAG\",\n      \"main.cpp\"\n    ],\n    \"directory\": \"/coder/build\",\n    \"file\": \"main.cpp\"\n  }\n]",
        ),
        (
            "clang main.c -I/usr/include -DFLAG",
            "[\n  {\n    \"arguments\": [\n      \"clang\",\n      \"-I../../usr/include\",\n      \"-DFLAG\",\n      \"main.c\"\n    ],\n    \"directory\": \"/coder/build\",\n    \"file\": \"main.c\"\n  }\n]",
        ),
        (
            "clang++ main.cxx -o main -DFLAG",
            "[\n  {\n    \"arguments\": [\n      \"clang++\",\n      \"-o\",\n      \"main\",\n      \"-DFLAG\",\n      \"main.cxx\"\n    ],\n    \"directory\": \"/coder/build\",\n    \"file\": \"main.cxx\"\n  }\n]",
        ),
        (
            "gcc main.c -x c -E",
            "[\n  {\n    \"arguments\": [\n      \"gcc\",\n      \"-x\",\n      \"c\",\n      \"-E\",\n      \"main.c\"\n    ],\n    \"directory\": \"/coder/build\",\n    \"file\": \"main.c\"\n  }\n]",
        ),
    ];
    for (i, (input, expected)) in test_cases.iter().enumerate() {
        let result = parser.parser_command(input);
        assert_eq!(result, Some(expected.to_string()), "Test case {} failed", i);
    }
}

#[test]
fn test_find_target() {
    assert_eq!(find_target("hello", &["world!"]), false);
    assert_eq!(find_target("hello world", &["world"]), true);
    assert_eq!(find_target("hello world", &["world!"]), false);
    assert_eq!(find_target("hello world", &["hello"]), false);
    assert_eq!(find_target("hello", &["planet"]), false);
    assert_eq!(find_target("hello", &["world", "planet"]), false);
    assert_eq!(find_target("hello", &["world", "planet", "universe"]), false);
    assert_eq!(find_target("hello, world", &["world", "planet", "universe", "multiverse"]), true);
}

#[test]
fn classify_gcc_with_include_and_define() {
    let parser = Parser::new("/coder/build");
    let recs = parser.command_records("gcc main.c -o main -I/usr/include -DFLAG").unwrap();
    assert_eq!(recs.len(), 1);
    assert_eq!(recs[0].file, "main.c");
    assert_eq!(recs[0].directory, "/coder/build");
    assert_eq!(
        recs[0].arguments,
        strings(&["gcc", "-o", "main", "-I../../usr/include", "-DFLAG", "main.c"])
    );
}

#[test]
fn compiler_without_source_yields_nothing() {
    let parser = Parser::new("/coder/build");
    assert!(parser.command_records("gcc -o main main.o util.o").is_none());
    assert!(parser.parser_command("gcc -o main main.o").is_none());
    assert!(parser.command_records("clang++ --version").is_none());
}

#[test]
fn source_without_compiler_yields_nothing() {
    let parser = Parser::new("/coder/build");
    assert!(parser.command_records("cp main.c backup.c").is_none());
    assert!(parser.command_records("").is_none());
}

#[test]
fn one_record_per_source_file() {
    let parser = Parser::new("/p");
    let recs = parser.command_records("cc-wrapper-gcc a.c sub/b.cc -O2").unwrap();
    assert_eq!(recs.len(), 2);
    assert_eq!(recs[0].file, "a.c");
    assert_eq!(recs[1].file, "sub/b.cc");
    assert_eq!(recs[0].arguments, strings(&["cc-wrapper-gcc", "-O2", "a.c"]));
    assert_eq!(recs[1].arguments, strings(&["cc-wrapper-gcc", "-O2", "sub/b.cc"]));
}

#[test]
fn bare_include_and_define_take_the_next_token() {
    let parser = Parser::new("/p/build");
    let recs = parser.command_records("gcc -I ../inc -D NAME=1 x.cpp").unwrap();
    assert_eq!(recs[0].arguments, strings(&["gcc", "-I../inc", "-DNAME=1", "x.cpp"]));
}

#[test]
fn bare_flag_at_end_yields_nothing() {
    let parser = Parser::new("/p/build");
    assert!(parser.command_records("gcc x.c -I").is_none());
    assert!(parser.command_records("gcc x.c -D").is_none());
}

#[test]
fn object_files_are_rebased() {
    let parser = Parser::new("/p/build");
    let recs = parser.command_records("gcc x.c /p/build/out/x.o /other/y.obj").unwrap();
    assert_eq!(recs[0].arguments, strings(&["gcc", "out/x.o", "../../other/y.obj", "x.c"]));
}

#[test]
fn tabs_and_repeated_spaces_separate_tokens() {
    let parser = Parser::new("/b");
    let recs = parser.command_records("  gcc\t\ta.c   -Wall\n").unwrap();
    assert_eq!(recs[0].arguments, strings(&["gcc", "-Wall", "a.c"]));
}

#[test]
fn entering_leaving_and_compiling() {
    let mut parser = Parser::new("/coder/build");
    let mut out: Vec<CompileRecord> = Vec::new();
    let r = parser.parse_lines(
        &lines(&[
            "Make[1]: Entering directory '/x'",
            "gcc a.c",
            "Make[1]: Leaving directory '/x'",
        ]),
        &mut out,
    );
    assert!(r.is_ok());
    assert_eq!(out.len(), 1);
    assert_eq!(out[0].directory, "/coder/build");
    assert_eq!(out[0].file, Parser::relative_path("/x/a.c", "/coder/build"));
    assert_eq!(out[0].file, "../../x/a.c");
    assert_eq!(parser.directory(), "");
}

#[test]
fn leaving_another_directory_is_fatal() {
    let mut parser = Parser::new("/coder/build");
    let mut out: Vec<CompileRecord> = Vec::new();
    let r = parser.parse_lines(
        &lines(&[
            "gcc first.c",
            "Make[1]: Entering directory '/x'",
            "Make[1]: Leaving directory '/y'",
            "gcc second.c",
        ]),
        &mut out,
    );
    assert_eq!(
        r,
        Err(ParseError::DirectoryMismatch { expected: "/x".to_string(), found: "/y".to_string() })
    );
    assert_eq!(out.len(), 1);
    assert_eq!(out[0].file, "first.c");
    assert_eq!(parser.directory(), "/x");
}

#[test]
fn parse_directory_reports_each_directive() {
    let mut parser = Parser::new("/root");
    assert_eq!(parser.parse_directory("gcc a.c"), Ok(Directive::NotADirective));
    assert_eq!(parser.parse_directory("Make[1]: Entering directory '/w/src'"), Ok(Directive::Entered));
    assert_eq!(parser.directory(), "/w/src");
    assert_eq!(parser.parse_directory("Make[1]: Entering directory"), Ok(Directive::Malformed));
    assert_eq!(parser.parse_directory("Make[1]: Entering directory '/a' '/b'"), Ok(Directive::Malformed));
    assert_eq!(parser.directory(), "/w/src");
    assert_eq!(parser.parse_directory("Make[1]: Leaving directory '/w/src'"), Ok(Directive::Left));
    assert_eq!(parser.directory(), "");
    assert_eq!(parser.parse_directory("+ cd /tmp/t"), Ok(Directive::Entered));
    assert_eq!(parser.directory(), "/tmp/t");
}

#[test]
fn parse_directory_mismatch_keeps_state() {
    let mut parser = Parser::new("/root");
    let r = parser.parse_directory("Make[1]: Leaving directory '/elsewhere'");
    assert_eq!(
        r,
        Err(ParseError::DirectoryMismatch { expected: "/root".to_string(), found: "/elsewhere".to_string() })
    );
    assert_eq!(parser.directory(), "/root");
}

#[test]
fn effective_directory_falls_back_to_root() {
    let mut parser = Parser::new("/r/build");
    assert_eq!(parser.parse_directory("Make[1]: Entering directory '/r/lib'"), Ok(Directive::Entered));
    let recs = parser.parse_records("gcc util.c").unwrap();
    assert_eq!(recs[0].file, "../lib/util.c");
    assert_eq!(parser.parse_directory("Make[1]: Leaving directory '/r/lib'"), Ok(Directive::Left));
    let recs = parser.parse_records("gcc main.c").unwrap();
    assert_eq!(recs[0].file, "main.c");
    assert_eq!(parser.absolute_path("/r/./build//main.c"), "/r/build/main.c");
}

#[test]
fn parse_line_yields_json_only_for_compile_lines() {
    let mut parser = Parser::new("/coder/build");
    assert_eq!(parser.parse_line("Make[1]: Entering directory '/coder/build'"), Ok(None));
    assert_eq!(parser.parse_line("echo done"), Ok(None));
    let json = parser.parse_line("gcc main.c").unwrap().unwrap();
    assert!(json.starts_with("[\n  {"));
    assert!(json.contains("\"file\": \"main.c\""));
}

#[test]
fn compile_lines_keep_their_order() {
    let mut parser = Parser::new("/b");
    let input: Vec<String> = (0..7).map(|i| format!("gcc -c f{}.c -o f{}.o", i, i)).collect();
    let mut out: Vec<CompileRecord> = Vec::new();
    assert!(parser.parse_lines(&input, &mut out).is_ok());
    assert_eq!(out.len(), 7);
    for (i, r) in out.iter().enumerate() {
        assert_eq!(r.file, format!("f{}.c", i));
        assert_eq!(r.arguments, vec!["gcc".to_string(), "-c".to_string(), "-o".to_string(), format!("f{}.o", i), format!("f{}.c", i)]);
    }
}

#[test]
fn new_parser_normalises_its_root() {
    let parser = Parser::new("/a//b/./c/..");
    assert_eq!(parser.build_dir(), "/a/b");
    assert_eq!(parser.directory(), "/a/b");
}

#[test]
fn absolute_path_resolves_against_the_entered_directory() {
    let mut parser = Parser::new("/r/build");
    assert_eq!(parser.parse_directory("+ cd /r/lib/sub"), Ok(Directive::Entered));
    assert_eq!(parser.absolute_path("../x.c"), "/r/lib/x.c");
}

#[test]
fn parse_line_after_entering_gives_one_record() {
    let mut parser = Parser::new("/coder/build");
    assert_eq!(parser.parse_line("Make[1]: Entering directory '/x'"), Ok(None));
    let json = parser.parse_line("gcc a.c").unwrap().unwrap();
    let value: serde_json::Value = serde_json::from_str(&json).unwrap();
    let items = value.as_array().unwrap();
    assert_eq!(items.len(), 1);
    assert_eq!(items[0]["directory"], "/coder/build");
    assert_eq!(items[0]["file"], "../../x/a.c");
    let args: Vec<&str> = items[0]["arguments"].as_array().unwrap().iter().map(|a| a.as_str().unwrap()).collect();
    assert_eq!(args, vec!["gcc", "../../x/a.c"]);
}
