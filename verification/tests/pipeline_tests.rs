use morfo::act::ACT;
use morfo::compile_command;
use morfo::compile_plan;
use morfo::config::ConfigBuilder;
use morfo::render;
use morfo::run_command;
use morfo::Cmd;
use morfo::Execution;
use morfo::MorfoError;
use morfo::Step;

fn leaf(name: &str) -> ACT {
    ACT {
        name: name.to_string(),
        header: None,
        linkers: Vec::new(),
        dependencies: Vec::new(),
    }
}

fn two_level_tree() -> ACT {
    ACT {
        name: "main.c".to_string(),
        header: None,
        linkers: Vec::new(),
        dependencies: vec![leaf("aux.c")],
    }
}

#[test]
fn compile_command_joins_flags_into_one_argument() {
    let config = ConfigBuilder::default()
        .set_cc("gcc")
        .add_cflag("-Wall")
        .add_cflag("-Wextra")
        .set_build_dir(".build")
        .build();
    let cmd = compile_command(&"src/main.c".to_string(), &config);
    assert_eq!(cmd.program, "gcc");
    assert_eq!(cmd.args, vec!["-Wall -Wextra", "src/main.c", "-o", ".build/main"]);
}

#[test]
fn compile_command_without_flags() {
    let config = ConfigBuilder::default().set_cc("cc").build();
    let cmd = compile_command(&"main.c".to_string(), &config);
    assert_eq!(cmd.args, vec!["main.c", "-o", ".out/main"]);
}

#[test]
fn run_command_targets_artifact() {
    let config = ConfigBuilder::default().set_cc("cc").build();
    let act = leaf("examples/hello_world/main.c");
    let cmd = run_command(&act, &config, vec!["one".to_string(), "two".to_string()]);
    assert_eq!(cmd.program, ".out/main");
    assert_eq!(cmd.args, vec!["one", "two"]);
}

#[test]
fn run_command_avoids_doubling_the_separator() {
    let config = ConfigBuilder::default().set_cc("cc").set_build_dir(".build/").build();
    let act = leaf("main.c");
    let cmd = run_command(&act, &config, vec![]);
    assert_eq!(cmd.program, ".build/main");
}

#[test]
fn compile_plan_orders_dependencies_first() {
    let config = ConfigBuilder::default().set_cc("cc").build();
    let act = two_level_tree();
    let plan = compile_plan(&act, &config);
    assert_eq!(plan.len(), 2);
    assert_eq!(plan[0].args[0], "aux.c");
    assert_eq!(plan[1].args[0], "main.c");
}

#[test]
fn render_joins_and_strips_quotes() {
    let cmd = Cmd {
        program: "gcc".to_string(),
        args: vec!["-Wall".to_string(), "say \"hi\".c".to_string()],
    };
    assert_eq!(render(&cmd), "gcc -Wall say hi.c");
}

#[test]
fn execution_runs_after_all_compiles_succeed() {
    let config = ConfigBuilder::default().set_cc("cc").build();
    let act = two_level_tree();
    let mut ex = Execution::new(&act, &config, vec!["arg1".to_string()]);

    let first = match ex.next_step() {
        Step::Compile(c) => c.args[0].clone(),
        _ => panic!("expected a compile step"),
    };
    assert_eq!(first, "aux.c");
    ex.on_compile_exit(Some(0));

    let second = match ex.next_step() {
        Step::Compile(c) => c.args[0].clone(),
        _ => panic!("expected a second compile step"),
    };
    assert_eq!(second, "main.c");
    ex.on_compile_exit(Some(0));

    match ex.next_step() {
        Step::Run(c) => {
            assert_eq!(c.program, ".out/main");
            assert_eq!(c.args, vec!["arg1"]);
        },
        _ => panic!("expected the run step"),
    }
    ex.on_run_completed();

    assert!(matches!(ex.next_step(), Step::Finished));
    assert_eq!(ex.outcome(), None);
}

#[test]
fn execution_surfaces_compilation_failure_and_never_runs() {
    let config = ConfigBuilder::default().set_cc("cc").build();
    let act = two_level_tree();
    let mut ex = Execution::new(&act, &config, vec![]);

    assert!(matches!(ex.next_step(), Step::Compile(_)));
    ex.on_compile_exit(Some(1));

    assert!(matches!(ex.next_step(), Step::Finished));
    assert_eq!(ex.outcome(), Some(&MorfoError::CompilationFailure(Some(1))));
}

#[test]
fn execution_surfaces_signal_death() {
    let config = ConfigBuilder::default().set_cc("cc").build();
    let act = leaf("main.c");
    let mut ex = Execution::new(&act, &config, vec![]);

    assert!(matches!(ex.next_step(), Step::Compile(_)));
    ex.on_compile_exit(None);

    assert!(matches!(ex.next_step(), Step::Finished));
    assert_eq!(ex.outcome(), Some(&MorfoError::CompilationFailure(None)));
}

#[test]
fn execution_surfaces_spawn_failure_not_missing_executable() {
    let config = ConfigBuilder::default().set_cc("does-not-exist").build();
    let act = leaf("main.c");
    let mut ex = Execution::new(&act, &config, vec![]);

    assert!(matches!(ex.next_step(), Step::Compile(_)));
    ex.on_io_error(MorfoError::IoError("entity not found".to_string()));

    assert!(matches!(ex.next_step(), Step::Finished));
    assert_eq!(ex.outcome(), Some(&MorfoError::IoError("entity not found".to_string())));
}

#[test]
fn execution_reports_missing_executable() {
    let config = ConfigBuilder::default().set_cc("cc").build();
    let act = leaf("main.c");
    let mut ex = Execution::new(&act, &config, vec![]);

    assert!(matches!(ex.next_step(), Step::Compile(_)));
    ex.on_compile_exit(Some(0));

    assert!(matches!(ex.next_step(), Step::Run(_)));
    ex.on_missing_executable();

    assert!(matches!(ex.next_step(), Step::Finished));
    assert_eq!(ex.outcome(), Some(&MorfoError::MissingExecutable));
}
