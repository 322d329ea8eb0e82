use morfo::act::builder::get_all_includes;

#[test]
fn builder_get_all_includes() {
    let contents = "\n            #include <stdio.h>\n            #include \"aux.h\"\n            #include <string.h>\n            ";
    let includes = get_all_includes(contents);
    assert_eq!(includes, vec!["aux.h"]);
}

#[test]
fn scanner_ignores_angle_brackets_only() {
    let contents = "#include <stdio.h>\n#include <string.h>\n";
    assert_eq!(get_all_includes(contents), Vec::<String>::new());
}

#[test]
fn scanner_keeps_source_order() {
    let contents = "#include \"b.h\"\n#include <x.h>\n#include \"a.h\"\n";
    assert_eq!(get_all_includes(contents), vec!["b.h", "a.h"]);
}

#[test]
fn scanner_accepts_missing_space() {
    assert_eq!(get_all_includes("#include\"tight.h\"\n"), vec!["tight.h"]);
}

#[test]
fn scanner_ignores_unclosed_quote() {
    assert_eq!(get_all_includes("#include \"broken.h\n"), Vec::<String>::new());
}

#[test]
fn scanner_empty_input_yields_nothing() {
    assert_eq!(get_all_includes(""), Vec::<String>::new());
}

#[test]
fn scanner_one_match_per_line_greedy_quotes() {
    // The closing quote of a directive is the last quote of its line.
    assert_eq!(get_all_includes("#include \"a.h\" \"b.h\"\n"), vec!["a.h\" \"b.h"]);
}

#[test]
fn scanner_handles_crlf_lines() {
    assert_eq!(get_all_includes("#include \"w.h\"\r\n#include \"v.h\""), vec!["w.h", "v.h"]);
}
