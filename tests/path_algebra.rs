use ccjson::Parser;
use std::path::PathBuf;

#[test]
fn test_norm_path() {
    let src = "..//./../a//b/c/";
    let dst = Parser::norm_path(src);
    assert_eq!(PathBuf::from(src), PathBuf::from(&dst));

    let src = "../a/./b/c//";
    let dst = Parser::norm_path(src);
    assert_eq!(PathBuf::from(src), PathBuf::from(&dst));

    let src = "..///..";
    let dst = Parser::norm_path(src);
    assert_eq!(PathBuf::from(src), PathBuf::from(&dst));
}

#[test]
fn test_absolute_path() {
    let parser = Parser::new("/cc//rust");
    let src_path = "../././tests/code//config.txt";
    let abs_path = parser.absolute_path(src_path);
    assert_eq!(abs_path, "/cc/tests/code/config.txt");
}

#[test]
fn test_relative_path() {
    assert_eq!(Parser::relative_path("/", "/"), ".");
    assert_eq!(Parser::relative_path("/a/b/c/d/e/f", "/a/b/c"), "d/e/f");
    assert_eq!(Parser::relative_path("/a/b/c/d/e/f.cc", "/a/b/c"), "d/e/f.cc");
    assert_eq!(Parser::relative_path("/a/b/c", "/a/b/c"), ".");
    assert_eq!(Parser::relative_path("/a/b/c", "/a/b/d"), "../c");
    assert_eq!(Parser::relative_path("/a/b/c", "/a/c/d"), "../../b/c");
    assert_eq!(Parser::relative_path("/a/b/c", "/b/c/d"), "../../../a/b/c");
}

#[test]
fn parser_test_relative_path() {
    let src_path = "../././tests/code//config.txt";
    let base_path = "../tests/./../tests";
    assert_eq!(Parser::relative_path(src_path, base_path), "code/config.txt");
}

#[test]
fn norm_path_exact_values() {
    assert_eq!(Parser::norm_path("..//./../a//b/c/"), "../../a/b/c");
    assert_eq!(Parser::norm_path("../a/./b/c//"), "../a/b/c");
    assert_eq!(Parser::norm_path("..///.."), "../..");
    assert_eq!(Parser::norm_path("/a/b/../../.."), "/");
    assert_eq!(Parser::norm_path("a/../.."), "..");
    assert_eq!(Parser::norm_path(""), "");
    assert_eq!(Parser::norm_path("./."), "");
}

#[test]
fn norm_path_keeps_two_leading_separators() {
    assert_eq!(Parser::norm_path("//a//b"), "//a/b");
    assert_eq!(Parser::norm_path("///a//b"), "/a/b");
    assert_eq!(Parser::norm_path("////"), "/");
    assert_eq!(Parser::norm_path("//"), "//");
    assert_eq!(Parser::norm_path("/"), "/");
}

#[test]
fn norm_path_is_idempotent_on_samples() {
    let samples = [
        "..//./../a//b/c/",
        "//./../a/../..//b/c/",
        "///./../a//b//./c/",
        "a/b/../../../c",
        "/x/./y/../z",
        "",
        ".",
        "//",
    ];
    for s in samples.iter() {
        let once = Parser::norm_path(s);
        let twice = Parser::norm_path(&once);
        assert_eq!(once, twice);
    }
}

#[test]
fn norm_path_agrees_with_pathbuf() {
    let src = "..//./../a//b/c/";
    let dst = Parser::norm_path(src);
    assert_eq!(dst, "../../a/b/c");
    let ours: Vec<String> = PathBuf::from(&dst)
        .components()
        .map(|c| c.as_os_str().to_str().unwrap().to_string())
        .collect();
    let std_view: Vec<String> = PathBuf::from(src)
        .components()
        .map(|c| c.as_os_str().to_str().unwrap().to_string())
        .collect();
    assert_eq!(ours, std_view);
}

#[test]
fn relative_of_a_directory_to_itself_is_dot() {
    for p in ["/", "/a", "/a/b/c", "//a/b", "/coder/build"].iter() {
        assert_eq!(Parser::relative_path(p, p), ".");
    }
}

#[test]
fn relative_descendant() {
    assert_eq!(Parser::relative_path("/a/b/c/d/e/f", "/a/b/c"), "d/e/f");
}

#[test]
fn relative_sibling_and_cousin() {
    assert_eq!(Parser::relative_path("/a/b/d", "/a/b/c"), "../d");
    assert_eq!(Parser::relative_path("/b/c/d", "/a/b/c"), "../../../b/c/d");
}

#[test]
fn relative_to_a_descendant_climbs_each_component() {
    assert_eq!(Parser::relative_path("/a", "/a/b/c"), "../..");
    assert_eq!(Parser::relative_path("/", "/a/b"), "../..");
}

#[test]
fn relative_without_common_root_gives_the_target() {
    assert_eq!(Parser::relative_path("a/b", "/x/y"), "a/b");
    assert_eq!(Parser::relative_path("/a//b/", "x"), "/a/b");
    assert_eq!(Parser::relative_path("a/b", "c/d"), "a/b");
    assert_eq!(Parser::relative_path("", ""), ".");
    assert_eq!(Parser::relative_path("a/./b", ""), "a/b");
}

#[test]
fn absolute_path_of_absolute_input_is_normalised_input() {
    let parser = Parser::new("/work");
    assert_eq!(parser.absolute_path("/usr//include/./x"), "/usr/include/x");
    assert_eq!(parser.absolute_path("src/../lib/a.c"), "/work/lib/a.c");
}
