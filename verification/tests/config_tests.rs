use morfo::config::ConfigBuilder;

#[test]
fn config_builder_defaults() {
    let config = ConfigBuilder::default().build();
    assert_eq!(config.get_cc(), "");
    assert_eq!(config.get_cflags(), Vec::<String>::new());
    assert_eq!(config.get_build_dir(), ".out");
    assert_eq!(config.get_includes(), Vec::<String>::new());
}

#[test]
fn config_builder_sets_everything() {
    let config = ConfigBuilder::default()
        .set_cc("gcc")
        .add_cflag("-Wall")
        .add_cflag("-Wextra")
        .set_build_dir(".build")
        .add_include("src/include")
        .add_include("src/aux/include")
        .build();
    assert_eq!(config.get_cc(), "gcc");
    assert_eq!(config.get_cflags(), vec!["-Wall", "-Wextra"]);
    assert_eq!(config.get_build_dir(), ".build");
    assert_eq!(config.get_includes(), vec!["src/include", "src/aux/include"]);
}

#[test]
fn config_builder_overwrites_cc() {
    let config = ConfigBuilder::default().set_cc("gcc").set_cc("clang").build();
    assert_eq!(config.get_cc(), "clang");
}
