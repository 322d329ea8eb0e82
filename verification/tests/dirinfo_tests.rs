use morfo::act::dirinfo::get_dir_info;

#[test]
fn get_dir_info_same_dir() {
    let files = vec!["main.c".to_string(), "main.rs".to_string()];
    let dir_info = get_dir_info(&files);
    assert_eq!(dir_info.header_files, Vec::<String>::new());
    assert_eq!(dir_info.c_files, vec!["main.c"]);
}

#[test]
fn get_dir_info_subdir() {
    let files = vec![
        "main.c".to_string(),
        "subdir/aux.h".to_string(),
        "subdir/aux.c".to_string(),
    ];
    let dir_info = get_dir_info(&files);
    assert_eq!(dir_info.header_files, vec!["subdir/aux.h"]);
    assert_eq!(dir_info.c_files, vec!["main.c", "subdir/aux.c"]);
}

#[test]
fn get_dir_info_ignores_other_extensions() {
    let files = vec![
        "notes.txt".to_string(),
        "a.cpp".to_string(),
        "h".to_string(),
        ".h".to_string(),
    ];
    let dir_info = get_dir_info(&files);
    assert_eq!(dir_info.header_files, Vec::<String>::new());
    assert_eq!(dir_info.c_files, Vec::<String>::new());
}
