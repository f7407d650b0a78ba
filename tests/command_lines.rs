use libosml::cli::{cli as compiler_cli, CompilerArgs};
use libosml::make::{cli as make_cli, list_remove_statics, should_compile, ArgsError, RunCommand};

fn strings(v: &[&str]) -> Vec<String> {
    v.iter().map(|s| s.to_string()).collect()
}

#[test]
fn compiler_command_line() {
    let run = compiler_cli(&strings(&["in.osml", "-o", "out.html", "-l", "-c"])).unwrap();
    assert_eq!(run.input, "in.osml");
    assert_eq!(run.output, "out.html");
    assert!(run.lame);
    assert!(run.color);
    assert!(!run.dryrun);
}

#[test]
fn compiler_dryrun_flag() {
    let run = compiler_cli(&strings(&["-d", "a", "-o", "b"])).unwrap();
    assert!(run.dryrun);
    assert!(!run.lame);
    assert_eq!(run.input, "a");
    assert_eq!(run.output, "b");
}

#[test]
fn compiler_needs_one_input_and_output() {
    let sorted: CompilerArgs = compiler_cli(&strings(&["a", "b"])).err().unwrap();
    assert_eq!(sorted.inputs, strings(&["a", "b"]));
    assert!(sorted.outputs.is_empty());
    let sorted = compiler_cli(&strings(&["a", "-o", "b", "c"])).err().unwrap();
    assert_eq!(sorted.inputs, strings(&["a"]));
    assert_eq!(sorted.outputs, strings(&["b", "c"]));
}

#[test]
fn make_command_line() {
    let run = make_cli(&strings(&["b", "-l", "site"])).unwrap();
    assert_eq!(run.command, RunCommand::Build);
    assert!(run.lame);
    assert!(!run.dryrun);
    assert!(!run.success);
    assert_eq!(run.project_dir, "site");
}

#[test]
fn make_default_project() {
    let run = make_cli(&strings(&["clean", "--dryrun"])).unwrap();
    assert_eq!(run.command, RunCommand::Clean);
    assert!(run.dryrun);
    assert_eq!(run.project_dir, "./");
}

#[test]
fn make_command_errors() {
    assert!(matches!(make_cli(&strings(&["site"])), Err(ArgsError::NoCommand)));
    match make_cli(&strings(&["i", "build"])) {
        Err(ArgsError::MultipleCommands(c)) => assert_eq!(c, vec![RunCommand::Init, RunCommand::Build]),
        _ => panic!("expected several commands"),
    }
    match make_cli(&strings(&["l", "x", "y"])) {
        Err(ArgsError::MultipleProjects(p)) => assert_eq!(p, strings(&["x", "y"])),
        _ => panic!("expected several projects"),
    }
}

#[test]
fn command_names() {
    assert_eq!(RunCommand::Init.to_string(), "init");
    assert_eq!(RunCommand::Build.to_string(), "build");
    assert_eq!(RunCommand::Clean.to_string(), "clean");
    assert_eq!(RunCommand::Live.to_string(), "live");
}

#[test]
fn stale_static_files() {
    let statics = strings(&["static/a.css", "static/img/b.png"]);
    let built = strings(&["dist/static/a.css", "dist/static/old.js", "dist/static/img/b.png", "dist/static/img/c.png"]);
    assert_eq!(
        list_remove_statics(&statics, &built),
        strings(&["dist/static/old.js", "dist/static/img/c.png"])
    );
    assert!(list_remove_statics(&statics, &Vec::new()).is_empty());
}

#[test]
fn compile_decision() {
    assert!(should_compile(false, None, 5));
    assert!(should_compile(false, Some(4), 5));
    assert!(!should_compile(false, Some(5), 5));
    assert!(!should_compile(true, None, 5));
}
