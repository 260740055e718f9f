use mmove::mass_move::{decide_destination, plan_moves, replace_failed_message, DestinationDecision};
use mmove::search_by_pattern::find_matching_files;

fn entry_names() -> Vec<String> {
    vec![
        "abba.txt".to_string(),
        "aba.txt".to_string(),
        "aba.bin".to_string(),
        "b.txt".to_string(),
        "b.exe".to_string(),
        "hello_b_world".to_string(),
        "bba.exe.txt".to_string(),
    ]
}

#[test]
fn test_find_matching_files() {
    let entries = entry_names();
    let mut result = find_matching_files("path/to/*b*.txt", &entries).unwrap();
    let mut expected = vec![
        "path/to/abba.txt".to_string(),
        "path/to/aba.txt".to_string(),
        "path/to/bba.exe.txt".to_string(),
        "path/to/b.txt".to_string(),
    ];
    result.sort();
    expected.sort();
    assert_eq!(result, expected);
}

#[test]
fn test_find_matching_files_no_match_error() {
    let entries = entry_names();
    let queried = "path/to/zzz_*.doc";
    let err = find_matching_files(queried, &entries).unwrap_err();
    assert_eq!(err, format!("mmv: Files for pattern '{}' not found", queried));
    assert!(err.contains(queried));
}

#[test]
fn test_plan_moves_two_files() {
    let sources = vec![
        "path/to/some_A_filename.bin".to_string(),
        "path/to/some_B_filename.txt".to_string(),
    ];
    let plans = plan_moves(
        &sources,
        "path/to/some_*_filename.*",
        "path2/to/change_#1_filename.#2",
    );
    assert_eq!(plans.len(), 2);
    assert_eq!(plans[0].0, "path/to/some_A_filename.bin");
    assert_eq!(plans[0].1, "path2/to/change_A_filename.bin");
    assert_eq!(plans[1].0, "path/to/some_B_filename.txt");
    assert_eq!(plans[1].1, "path2/to/change_B_filename.txt");
}

#[test]
fn test_decide_destination_free() {
    assert!(matches!(
        decide_destination("path2/to/change_A_filename.bin", false, false),
        DestinationDecision::Proceed
    ));
    assert!(matches!(
        decide_destination("path2/to/change_A_filename.bin", false, true),
        DestinationDecision::Proceed
    ));
}

#[test]
fn test_decide_destination_taken_without_force() {
    let d = decide_destination("path2/to/change_A_filename.bin", true, false);
    match d {
        DestinationDecision::Refuse(msg) => assert_eq!(
            msg,
            "mmv: Not able to replace existing file: path2/to/change_A_filename.bin"
        ),
        _ => panic!("a taken destination without force must be refused"),
    }
}

#[test]
fn test_decide_destination_taken_with_force() {
    assert!(matches!(
        decide_destination("path2/to/change_A_filename.bin", true, true),
        DestinationDecision::ReplaceFirst
    ));
}

#[test]
fn test_replace_failed_message_text() {
    assert_eq!(
        replace_failed_message(),
        "mmv: Not able to replace existing file"
    );
}
