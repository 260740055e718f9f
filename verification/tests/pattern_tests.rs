use mmove::build_target_path::{build_target_path, extract_generic_parts};
use mmove::search_by_pattern::{parse_full_path, wildcard_to_regex_pattern};
use mmove::wildcard::{wildcard_extract, wildcard_match};

#[test]
fn test_extract_generic_parts() {
    assert_eq!(
        extract_generic_parts("some_file_name", "som*e_n*"),
        vec!["e_fil".to_string(), "ame".to_string()]
    );
    assert_eq!(
        extract_generic_parts("a_bc_def_hello.txt", "*e*he*"),
        vec!["a_bc_d".to_string(), "f_".to_string(), "llo.txt".to_string()]
    );
    assert_eq!(extract_generic_parts("a_b", "a_*b"), vec!["".to_string()]);
    assert_eq!(
        extract_generic_parts("a_b", "*a_*b"),
        vec!["".to_string(), "".to_string()]
    );
}

#[test]
fn test_build_path_target() {
    let generic_parts: Vec<String> = vec![
        String::from("hello"),
        String::from("world"),
        String::from("txt"),
    ];
    let path = "path/to/#1_#2.#3";
    assert_eq!(
        build_target_path(generic_parts, path),
        "path/to/hello_world.txt"
    );

    let generic_parts: Vec<String> =
        vec![String::from(""), String::from("he"), String::from("j")];
    let path = "path/to/#1#2#2#2_#3_#4.txt";
    assert_eq!(
        build_target_path(generic_parts, path),
        "path/to/hehehe_j_.txt"
    );
}

#[test]
fn test_wildcard_to_regex_pattern() {
    assert_eq!(
        wildcard_to_regex_pattern("some_*file*_name.txt"),
        r"^some_.*file.*_name\.txt$"
    );
    assert_eq!(
        wildcard_to_regex_pattern("*file*_name.*"),
        r"^.*file.*_name\..*$"
    );
}

#[test]
fn test_parse_full_path() {
    assert_eq!(parse_full_path("path/to/file.txt"), ("path/to", "file.txt"));
    assert_eq!(parse_full_path("to/file.txt"), ("to", "file.txt"));
    assert_eq!(parse_full_path("file.txt"), ("", "file.txt"));
}

#[test]
fn test_wildcard_match_whole_string() {
    assert!(wildcard_match("abba.txt", "*b*.txt"));
    assert!(wildcard_match("b.txt", "*b*.txt"));
    assert!(wildcard_match("some_A_filename.bin", "some_*_filename.*"));
    assert!(!wildcard_match("hello_b_world", "*b*.txt"));
    assert!(!wildcard_match("aba.bin", "*b*.txt"));
    // `.` is literal, never a wildcard
    assert!(!wildcard_match("abtxt", "ab.txt"));
    // the match is anchored to the full string
    assert!(!wildcard_match("xa_b", "a_*b"));
    assert!(!wildcard_match("a_bx", "a_*b"));
}

#[test]
fn test_wildcard_extract_no_match_is_empty() {
    let r = wildcard_extract("wholly_other", "som*e_n*");
    assert_eq!(r.len(), 0);
}

#[test]
fn test_extract_round_trip_concrete() {
    // Fill the pattern's wildcards with chosen parts, then extract them back.
    let pattern = "some_*_filename.*";
    let filled = "some_A_filename.bin";
    assert_eq!(
        wildcard_extract(filled, pattern),
        vec!["A".to_string(), "bin".to_string()]
    );
}

#[test]
fn test_wildcard_edge_cases() {
    // the empty pattern matches only the empty filename
    assert!(wildcard_match("", ""));
    assert!(!wildcard_match("a", ""));
    // a bare `*` matches anything and captures all of it
    assert!(wildcard_match("", "*"));
    assert!(wildcard_match("anything.at.all", "*"));
    assert_eq!(
        wildcard_extract("anything.at.all", "*"),
        vec!["anything.at.all".to_string()]
    );
}

#[test]
fn test_build_marker_edge_cases() {
    // marker zero is out of range and becomes empty
    assert_eq!(
        build_target_path(vec!["a".to_string()], "d/#0x#1"),
        "d/xa".to_string()
    );
    // `#` without digits stands for itself
    assert_eq!(
        build_target_path(vec!["a".to_string()], "d/#x#"),
        "d/#x#".to_string()
    );
    // a template without a directory still gets the separator
    assert_eq!(build_target_path(vec!["a".to_string()], "#1.txt"), "/a.txt");
    // a marker far out of range becomes empty
    assert_eq!(
        build_target_path(vec!["a".to_string()], "d/#1#99999999999999999999999end"),
        "d/aend"
    );
}
