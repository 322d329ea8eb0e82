use morfo::act::dirinfo::DirInfo;
use morfo::act::ACT;
use morfo::act::SourceFile;

fn source(path: &str, text: &str) -> SourceFile {
    SourceFile { path: path.to_string(), text: text.to_string() }
}

#[test]
fn act_new() {
    let act = ACT::new("main.c");
    assert_eq!(
        act,
        ACT {
            name: "main.c".to_string(),
            header: None,
            linkers: Vec::default(),
            dependencies: Vec::default(),
        }
    );
}

#[test]
fn build_resolves_one_dependency() {
    let dirinfo = DirInfo {
        header_files: vec!["aux.h".to_string()],
        c_files: vec!["aux.c".to_string()],
    };
    let files = vec![
        source("main.c", "#include \"aux.h\"\n"),
        source("aux.c", ""),
    ];
    let act = ACT::build(&"main.c".to_string(), &dirinfo, &files);
    assert_eq!(act.name, "main.c");
    assert_eq!(act.dependencies.len(), 1);
    assert_eq!(act.dependencies[0].name, "aux.c");
    assert_eq!(act.dependencies[0].dependencies.len(), 0);
}

#[test]
fn build_ignores_unresolvable_include() {
    let dirinfo = DirInfo { header_files: vec![], c_files: vec!["main.c".to_string()] };
    let files = vec![source("main.c", "#include \"missing.h\"\n")];
    let act = ACT::build(&"main.c".to_string(), &dirinfo, &files);
    assert_eq!(act.name, "main.c");
    assert_eq!(act.dependencies.len(), 0);
}

#[test]
fn build_ignores_header_without_source() {
    let dirinfo = DirInfo {
        header_files: vec!["only.h".to_string()],
        c_files: vec!["main.c".to_string()],
    };
    let files = vec![source("main.c", "#include \"only.h\"\n")];
    let act = ACT::build(&"main.c".to_string(), &dirinfo, &files);
    assert_eq!(act.dependencies.len(), 0);
}

#[test]
fn build_resolves_nested_dependencies() {
    let dirinfo = DirInfo {
        header_files: vec!["a.h".to_string(), "b.h".to_string()],
        c_files: vec!["a.c".to_string(), "b.c".to_string()],
    };
    let files = vec![
        source("main.c", "#include \"a.h\"\n"),
        source("a.c", "#include \"b.h\"\n"),
        source("b.c", ""),
    ];
    let act = ACT::build(&"main.c".to_string(), &dirinfo, &files);
    assert_eq!(act.dependencies.len(), 1);
    assert_eq!(act.dependencies[0].name, "a.c");
    assert_eq!(act.dependencies[0].dependencies.len(), 1);
    assert_eq!(act.dependencies[0].dependencies[0].name, "b.c");
    assert_eq!(act.dependencies[0].dependencies[0].dependencies.len(), 0);
}

#[test]
fn build_keeps_duplicate_dependencies() {
    let dirinfo = DirInfo {
        header_files: vec!["a.h".to_string()],
        c_files: vec!["a.c".to_string()],
    };
    let files = vec![
        source("main.c", "#include \"a.h\"\n#include \"a.h\"\n"),
        source("a.c", ""),
    ];
    let act = ACT::build(&"main.c".to_string(), &dirinfo, &files);
    assert_eq!(act.dependencies.len(), 2);
    assert_eq!(act.dependencies[0].name, "a.c");
    assert_eq!(act.dependencies[1].name, "a.c");
}

#[test]
fn build_cuts_off_cyclic_includes() {
    let dirinfo = DirInfo {
        header_files: vec!["a.h".to_string(), "b.h".to_string()],
        c_files: vec!["a.c".to_string(), "b.c".to_string()],
    };
    let files = vec![
        source("a.c", "#include \"b.h\"\n"),
        source("b.c", "#include \"a.h\"\n"),
    ];
    let act = ACT::build(&"a.c".to_string(), &dirinfo, &files);
    // With two recorded sources the recursion bound is three, so the
    // mutual inclusion unrolls to a -> b -> a -> b and stops there.
    assert_eq!(act.name, "a.c");
    assert_eq!(act.dependencies.len(), 1);
    let b = &act.dependencies[0];
    assert_eq!(b.name, "b.c");
    assert_eq!(b.dependencies.len(), 1);
    let a = &b.dependencies[0];
    assert_eq!(a.name, "a.c");
    assert_eq!(a.dependencies.len(), 1);
    let b2 = &a.dependencies[0];
    assert_eq!(b2.name, "b.c");
    assert_eq!(b2.dependencies.len(), 0);
}
