use zetch::cmd::CmdOut;
use zetch::coerce::Coerce;
use zetch::config::{Config, Engine};
use zetch::context::{Context, CtxCliVar, CtxEnvVar, CtxStaticVar};
use zetch::error::Zerr;
use zetch::state::{EnvMap, State, VarPlan};
use zetch::tasks::Tasks;
use zetch::values::JVal;

fn conf_with(context: Context) -> Config {
    Config {
        context,
        exclude: Vec::new(),
        engine: Engine::default(),
        ignore_files: Vec::new(),
        matchers: vec!["zetch".to_string()],
        tasks: Tasks::default(),
    }
}

fn static_str(v: &str) -> CtxStaticVar {
    CtxStaticVar { value: JVal::Str(v.to_string()), coerce: None }
}

#[test]
fn env_var_with_default_banned_fails_only_when_absent() {
    let var = CtxEnvVar { env_name: None, default: Some(static_str("fallback")), coerce: None };
    // Absent and banned: a ContextLoadError.
    let e = var.read("NAME", true, None).err().expect("banned default must fail");
    assert_eq!(e.kind, Zerr::ContextLoadError);
    // Present and banned: the environment value is used.
    let present = "from-env".to_string();
    match var.read("NAME", true, Some(&present)) {
        Ok(JVal::Str(s)) => assert_eq!(s, "from-env"),
        _ => panic!("the environment value should win"),
    }
    // Absent and not banned: the default resolves.
    match var.read("NAME", false, None) {
        Ok(JVal::Str(s)) => assert_eq!(s, "fallback"),
        _ => panic!("the default should resolve"),
    }
}

#[test]
fn env_var_without_default_fails_when_absent() {
    let var = CtxEnvVar { env_name: None, default: None, coerce: None };
    let e = var.read("NAME", false, None).err().expect("no default, no value");
    assert_eq!(e.kind, Zerr::ContextLoadError);
    assert!(e.notes[0].contains("'NAME'"), "the missing variable is named");
    // With an explicit name configured, that name is the one reported.
    let aliased = CtxEnvVar {
        env_name: Some("REAL_NAME".to_string()),
        default: None,
        coerce: None,
    };
    let e2 = aliased.read("KEY", false, None).err().unwrap();
    assert!(e2.notes[0].contains("'REAL_NAME'"), "note: {}", e2.notes[0]);
}

#[test]
fn ban_list_must_name_declared_env_vars() {
    let mut context = Context::default();
    context.env.push(("HOME_DIR".to_string(), CtxEnvVar {
        env_name: None,
        default: Some(static_str("d")),
        coerce: None,
    }));
    let state = State::new_fresh(conf_with(context), "./c.toml".to_string(), false, false);
    assert!(state.validate_ban_list(&vec!["HOME_DIR".to_string()]).is_ok());
    let e = state.validate_ban_list(&vec!["NOPE".to_string()]).err().unwrap();
    assert_eq!(e.kind, Zerr::ContextLoadError);
    assert!(e.notes[0].contains("'NOPE'"), "the unrecognized key is named");
    assert!(e.notes[0].contains("HOME_DIR"), "the declared env vars are listed");
}

#[test]
fn ban_list_errors_list_env_vars_sorted_without_case() {
    let mut context = Context::default();
    let ev = |_: ()| CtxEnvVar { env_name: None, default: None, coerce: None };
    context.env.push(("banana".to_string(), ev(())));
    context.env.push(("APPLE".to_string(), ev(())));
    context.env.push(("cherry".to_string(), ev(())));
    let state = State::new_fresh(conf_with(context), "./c.toml".to_string(), false, false);
    let e = state.validate_ban_list(&vec!["NOPE".to_string()]).err().unwrap();
    assert!(e.notes[0].contains("APPLE, banana, cherry"), "note: {}", e.notes[0]);
}

#[test]
fn ban_all_fails_resolution_when_env_is_absent() {
    let mut context = Context::default();
    context.env.push(("NAME".to_string(), CtxEnvVar {
        env_name: None,
        default: Some(static_str("world")),
        coerce: None,
    }));
    let mut state = State::new_fresh(conf_with(context), "./c.toml".to_string(), false, false);
    let env = EnvMap::new(Vec::new());
    // An empty (but present) ban list bans every default.
    let e = state.resolve_sequential(&Some(Vec::new()), &env).err().unwrap();
    assert_eq!(e.kind, Zerr::ContextLoadError);
}

#[test]
fn ban_all_succeeds_when_env_is_present() {
    let mut context = Context::default();
    context.env.push(("NAME".to_string(), CtxEnvVar {
        env_name: None,
        default: Some(static_str("world")),
        coerce: None,
    }));
    let mut state = State::new_fresh(conf_with(context), "./c.toml".to_string(), false, false);
    let env = EnvMap::new(vec![("NAME".to_string(), "live".to_string())]);
    state.resolve_sequential(&Some(Vec::new()), &env).expect("present env value resolves");
    match state.plan_var("NAME", true, &env) {
        Ok(VarPlan::Ready(JVal::Str(s))) => assert_eq!(s, "live"),
        _ => panic!("the resolved value should be cached"),
    }
}

#[test]
fn statics_resolve_in_declaration_order() {
    let mut context = Context::default();
    context.stat.push(("A".to_string(), static_str("one")));
    context.stat.push(("B".to_string(), CtxStaticVar {
        value: JVal::Str("2".to_string()),
        coerce: Some(Coerce::Int),
    }));
    let mut state = State::new_fresh(conf_with(context), "./c.toml".to_string(), false, false);
    let env = EnvMap::new(Vec::new());
    state.resolve_sequential(&None, &env).expect("statics resolve");
    match state.plan_var("B", false, &env) {
        Ok(VarPlan::Ready(JVal::Int(2))) => {}
        _ => panic!("B should be the coerced integer"),
    }
}

#[test]
fn unknown_variable_is_read_var_missing() {
    let mut context = Context::default();
    context.stat.push(("FIRST".to_string(), static_str("a")));
    context.env.push(("SECOND".to_string(), CtxEnvVar { env_name: None, default: None, coerce: None }));
    let state = State::new_fresh(conf_with(context), "./c.toml".to_string(), false, false);
    let env = EnvMap::new(Vec::new());
    let e = state.plan_var("ABSENT", false, &env).err().unwrap();
    assert_eq!(e.kind, Zerr::ReadVarMissing);
    assert!(e.notes[0].contains("FIRST, SECOND"), "the declared keys are listed");
    assert!(e.notes.last().unwrap().contains("'ABSENT'"), "the failing variable is named");
}

#[test]
fn resolution_failures_name_the_variable() {
    let mut context = Context::default();
    context.env.push(("NEEDED".to_string(), CtxEnvVar { env_name: None, default: None, coerce: None }));
    let state = State::new_fresh(conf_with(context), "./c.toml".to_string(), false, false);
    let env = EnvMap::new(Vec::new());
    let e = state.plan_var("NEEDED", false, &env).err().unwrap();
    assert_eq!(e.kind, Zerr::ContextLoadError);
    assert!(e.notes.last().unwrap().contains("'NEEDED'"));
}

#[test]
fn cli_vars_hand_back_their_commands() {
    let mut context = Context::default();
    context.cli.push(("GIT_REV".to_string(), CtxCliVar {
        commands: vec!["git rev-parse HEAD".to_string()],
        coerce: None,
        light: None,
        initial: None,
    }));
    let mut state = State::new_fresh(conf_with(context), "./c.toml".to_string(), false, false);
    let (pending, used) = state.resolve_cli_local(false).expect("planning succeeds");
    assert!(!used);
    assert_eq!(pending.len(), 1);
    assert_eq!(pending[0].0, "GIT_REV");
    assert_eq!(pending[0].1, vec!["git rev-parse HEAD".to_string()]);
}

#[test]
fn light_mode_substitutes_without_running() {
    let mut context = Context::default();
    context.cli.push(("SLOW".to_string(), CtxCliVar {
        commands: vec!["sleep 60".to_string()],
        coerce: None,
        light: Some(static_str("quick")),
        initial: None,
    }));
    context.cli.push(("OTHER".to_string(), CtxCliVar {
        commands: vec!["whoami".to_string()],
        coerce: None,
        light: None,
        initial: None,
    }));
    let mut state = State::new_fresh(conf_with(context), "./c.toml".to_string(), true, false);
    let (pending, _used) = state.resolve_cli_local(false).expect("light planning succeeds");
    assert!(pending.is_empty(), "light mode never runs commands");
    let env = EnvMap::new(Vec::new());
    match state.plan_var("SLOW", false, &env) {
        Ok(VarPlan::Ready(JVal::Str(s))) => assert_eq!(s, "quick"),
        _ => panic!("the light value should be used"),
    }
    match state.plan_var("OTHER", false, &env) {
        Ok(VarPlan::Ready(JVal::Str(s))) => assert_eq!(s, ""),
        _ => panic!("an empty string stands in without a light value"),
    }
}

#[test]
fn initial_values_serve_the_first_run() {
    let mut context = Context::default();
    context.cli.push(("SEED".to_string(), CtxCliVar {
        commands: vec!["expensive-command".to_string()],
        coerce: None,
        light: None,
        initial: Some(JVal::Str("seeded".to_string())),
    }));
    let mut state = State::new_fresh(conf_with(context), "./c.toml".to_string(), false, false);
    let (pending, used) = state.resolve_cli_local(true).expect("initials pass succeeds");
    assert!(used, "the initial value was taken");
    assert!(pending.is_empty());
    let env = EnvMap::new(Vec::new());
    match state.plan_var("SEED", false, &env) {
        Ok(VarPlan::Ready(JVal::Str(s))) => assert_eq!(s, "seeded"),
        _ => panic!("the initial value should be cached"),
    }
}

#[test]
fn finished_commands_coerce_their_trimmed_output() {
    let mut context = Context::default();
    context.cli.push(("COUNT".to_string(), CtxCliVar {
        commands: vec!["echo 2".to_string()],
        coerce: Some(Coerce::Int),
        light: None,
        initial: None,
    }));
    let mut state = State::new_fresh(conf_with(context), "./c.toml".to_string(), false, false);
    let out = CmdOut::new(
        vec!["echo 2".to_string()],
        vec!["2\n".to_string()],
        vec!["".to_string()],
    );
    state.finish_cli_var("COUNT", &out).expect("output should coerce");
    let env = EnvMap::new(Vec::new());
    match state.plan_var("COUNT", false, &env) {
        Ok(VarPlan::Ready(JVal::Int(2))) => {}
        _ => panic!("the coerced output should be cached"),
    }
}

#[test]
fn empty_command_output_is_a_user_error() {
    let mut context = Context::default();
    context.cli.push(("EMPTY".to_string(), CtxCliVar {
        commands: vec!["true".to_string()],
        coerce: None,
        light: None,
        initial: None,
    }));
    let mut state = State::new_fresh(conf_with(context), "./c.toml".to_string(), false, false);
    let out = CmdOut::new(vec!["true".to_string()], vec!["  \n".to_string()], vec!["".to_string()]);
    let e = state.finish_cli_var("EMPTY", &out).err().unwrap();
    assert_eq!(e.kind, Zerr::UserCommandError);
}

#[test]
fn parent_state_skips_pre_tasks() {
    let conf = conf_with(Context::default());
    let state = State::from_parent(
        conf,
        vec![("NAME".to_string(), JVal::Str("cached".to_string()))],
        "./c.toml".to_string(),
    );
    assert!(!state.should_run_pre_tasks(&zetch::state::CommandKind::Render));
    let env = EnvMap::new(Vec::new());
    match state.plan_var("NAME", false, &env) {
        Ok(VarPlan::Ready(JVal::Str(s))) => assert_eq!(s, "cached"),
        _ => panic!("the parent-resolved value should be reused"),
    }
}

#[test]
fn pre_tasks_run_for_render_and_var_only() {
    let conf = conf_with(Context::default());
    let state = State::new_fresh(conf, "./c.toml".to_string(), false, false);
    assert!(state.should_run_pre_tasks(&zetch::state::CommandKind::Render));
    assert!(state.should_run_pre_tasks(&zetch::state::CommandKind::Var));
    assert!(!state.should_run_pre_tasks(&zetch::state::CommandKind::Init));
    assert!(!state.should_run_pre_tasks(&zetch::state::CommandKind::Read));
}
