use zetch::error::Zerr;
use zetch::tasks::{Task, Tasks};

fn one_task(cmd: &str) -> Task {
    Task { commands: vec![cmd.to_string()] }
}

#[test]
fn recursion_guard_blocks_tasks() {
    let task = one_task("zetch render");
    let e = task.run("proj/zetch.config.toml", None, true).err().unwrap();
    assert_eq!(e.kind, Zerr::TaskRecursionError);
}

#[test]
fn recursion_guard_blocks_task_lists() {
    let tasks = Tasks { pre: vec![one_task("echo hi")], post: Vec::new() };
    let e = tasks.run_pre("proj/zetch.config.toml", true).err().unwrap();
    assert_eq!(e.kind, Zerr::TaskRecursionError);
}

#[test]
fn empty_task_list_is_fine_under_the_guard() {
    let tasks = Tasks { pre: Vec::new(), post: Vec::new() };
    let runs = tasks.run_pre("proj/zetch.config.toml", true).unwrap();
    assert!(runs.is_empty());
}

#[test]
fn pre_tasks_get_the_guard_and_the_config_directory() {
    let tasks = Tasks { pre: vec![one_task("make generate")], post: Vec::new() };
    let runs = tasks.run_pre("proj/zetch.config.toml", false).unwrap();
    assert_eq!(runs.len(), 1);
    assert_eq!(runs[0].workdir, "proj");
    assert_eq!(runs[0].commands, vec!["make generate".to_string()]);
    assert_eq!(runs[0].env, vec![("ZETCH_IN_TASK".to_string(), "1".to_string())]);
}

#[test]
fn post_tasks_carry_the_cached_state_path() {
    let tasks = Tasks { pre: Vec::new(), post: vec![one_task("zetch var NAME")] };
    let cached = "/tmp/zetch-state.json".to_string();
    let runs = tasks.run_post("proj/zetch.config.toml", &cached, false).unwrap();
    assert_eq!(runs.len(), 1);
    assert_eq!(runs[0].env.len(), 2);
    assert_eq!(runs[0].env[0], ("ZETCH_IN_TASK".to_string(), "1".to_string()));
    assert_eq!(
        runs[0].env[1],
        ("ZETCH_TMP_STORED_CONFIG_PATH".to_string(), "/tmp/zetch-state.json".to_string())
    );
}

#[test]
fn config_in_the_working_directory_runs_there() {
    let tasks = Tasks { pre: vec![one_task("echo hi")], post: Vec::new() };
    let runs = tasks.run_pre("zetch.config.toml", false).unwrap();
    assert_eq!(runs[0].workdir, "");
}
