use morfo::utils::extension_matches;
use morfo::utils::file_name;
use morfo::utils::to_c_extension;

#[test]
fn test_act_file_name() {
    assert_eq!(file_name("main.c"), "main");

    assert_eq!(file_name("src/main.cpp"), "main");
}

#[test]
fn file_name_without_extension_keeps_name() {
    assert_eq!(file_name("noext"), "noext");
    assert_eq!(file_name("dir/noext"), "noext");
}

#[test]
fn file_name_is_idempotent() {
    let once = file_name("examples/hello_world/main.c");
    assert_eq!(once, "main");
    assert_eq!(file_name(&once), once);
}

#[test]
fn to_c_extension_swaps_header_extension() {
    assert_eq!(to_c_extension("aux.h"), "aux.c");
    assert_eq!(to_c_extension("subdir/aux.h"), "subdir/aux.c");
    assert_eq!(to_c_extension("a.b.h"), "a.b.c");
}

#[test]
fn to_c_extension_appends_when_none() {
    assert_eq!(to_c_extension("plain"), "plain.c");
    assert_eq!(to_c_extension(".hidden"), ".hidden.c");
}

#[test]
fn extension_matches_single_letter() {
    assert!(extension_matches("main.c", 'c'));
    assert!(extension_matches("sub/aux.h", 'h'));
    assert!(!extension_matches("main.c", 'h'));
    assert!(!extension_matches("main.cpp", 'c'));
    assert!(!extension_matches(".c", 'c'));
    assert!(!extension_matches("c", 'c'));
}
