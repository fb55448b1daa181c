use zetch::context::CtxEnvVar;
use zetch::lockfile::{hash_contents, Lockfile};
use zetch::state::{EnvMap, State, VarPlan};
use zetch::values::JVal;
use zetch::walker::Template;

fn template(rel: &str) -> Template {
    Template::new(".", format!("./{}", rel), format!("./{}", "out.txt"))
}

#[test]
fn sha256_matches_known_digests() {
    assert_eq!(
        hash_contents(""),
        "e3b0c44298fc1c149afbf4c8996fb92427ae41e4649b934ca495991b7852b855"
    );
    assert_eq!(
        hash_contents("hello world"),
        "b94d27b9934d3e08a52e52d7da7dabfac484efe37a5380ee9088f7ace2efcde9"
    );
}

#[test]
fn fresh_lockfile_is_marked_modified() {
    let lf = Lockfile::load(".", false, "1.0.0", None);
    assert!(lf.modified);
    assert!(lf.newly_created);
    let forced = Lockfile::load(".", true, "1.0.0", Some("{\"anything\": 1}"));
    assert!(forced.modified);
}

#[test]
fn unparsable_or_mismatched_disk_state_starts_afresh() {
    let lf = Lockfile::load(".", false, "1.0.0", Some("not json at all"));
    assert!(lf.modified && lf.newly_created);
    let other_version = "{\"version\": \"0.0.9\", \"files\": {}}";
    let lf2 = Lockfile::load(".", false, "1.0.0", Some(other_version));
    assert!(lf2.modified && lf2.newly_created);
}

#[test]
fn loaded_lockfile_reuses_stored_hashes() {
    let compiled = "rendered output";
    let h = hash_contents(compiled);
    let disk = format!("{{\"version\": \"1.0.0\", \"files\": {{\"a.zetch.txt\": \"{}\"}}}}", h);
    let mut lf = Lockfile::load(".", false, "1.0.0", Some(disk.as_str()));
    assert!(!lf.modified);
    let written = lf.add_template(&template("a.zetch.txt"), compiled);
    assert!(!written);
    assert!(!lf.modified);
    assert!(lf.sync().is_none());
}

#[test]
fn rendering_twice_writes_once() {
    let mut lf = Lockfile::load(".", false, "1.0.0", None);
    let t = template("hello.zetch.txt");
    assert!(lf.add_template(&t, "hello world"));
    assert!(!lf.add_template(&t, "hello world"));
    assert!(lf.add_template(&t, "hello again"));
}

#[test]
fn sync_prunes_stale_entries() {
    let h = hash_contents("old");
    let disk = format!(
        "{{\"version\": \"1.0.0\", \"files\": {{\"gone.zetch.txt\": \"{}\"}}}}",
        h
    );
    let mut lf = Lockfile::load(".", false, "1.0.0", Some(disk.as_str()));
    assert!(!lf.modified);
    // The stale entry was never seen this run: it is removed, and the
    // lockfile reports itself modified.
    let out = lf.sync();
    assert!(lf.modified);
    let text = out.expect("a modified lockfile serializes");
    assert!(!text.contains("gone.zetch.txt"));
}

#[test]
fn serialized_lockfile_is_key_sorted_json() {
    let mut lf = Lockfile::load(".", false, "1.0.0", None);
    lf.add_template(&template("b.zetch.txt"), "two");
    lf.add_template(&template("a.zetch.txt"), "one");
    let text = lf.sync().expect("first run always serializes");
    let a = text.find("a.zetch.txt").unwrap();
    let b = text.find("b.zetch.txt").unwrap();
    assert!(a < b, "keys should be written in sorted order");
    assert!(text.contains("\"version\""));
}

#[test]
fn greeting_render_end_to_end() {
    // A config declaring an env variable with a default, and one
    // template; the engine's work is the substitution of that default.
    let conf_toml = "matchers = [\"zetch\"]\n[context.env]\nNAME = { default = \"world\" }\n";
    assert!(conf_toml.contains("NAME"));

    // Resolve NAME with the variable unset in the environment.
    let var = CtxEnvVar {
        env_name: None,
        default: Some(zetch::context::CtxStaticVar { value: JVal::Str("world".to_string()), coerce: None }),
        coerce: None,
    };
    let value = var.read("NAME", false, None).expect("the default should resolve");
    let name = match value {
        JVal::Str(s) => s,
        _ => panic!("expected a string"),
    };
    assert_eq!(name, "world");

    // The matcher computes the output path.
    let matchers = vec!["zetch".to_string()];
    let t = zetch::walker::match_template(".", "./hello.zetch.txt", &matchers)
        .expect("the template should match");
    assert_eq!(t.out_path, "./hello.txt");
    assert_eq!(t.rel_path, "hello.zetch.txt");

    // Render (the engine substitutes the resolved value) and track it.
    let compiled = format!("hello {}\n", name);
    let mut lf = Lockfile::load(".", false, "1.0.0", None);
    assert!(lf.add_template(&t, compiled.as_str()), "first run writes the file");
    let text = lf.sync().expect("first run serializes the lockfile");
    assert!(text.contains("hello.zetch.txt"));
    assert!(text.contains(hash_contents(compiled.as_str()).as_str()));

    // A second render with nothing changed: one identical, zero written,
    // lockfile unmodified.
    let mut lf2 = Lockfile::load(".", false, "1.0.0", Some(text.as_str()));
    assert!(!lf2.modified);
    assert!(!lf2.add_template(&t, compiled.as_str()));
    assert!(lf2.sync().is_none());

    // The state machinery agrees: a cached value is reused as-is.
    let conf = zetch::config::Config {
        context: zetch::context::Context::default(),
        exclude: Vec::new(),
        engine: zetch::config::Engine::default(),
        ignore_files: Vec::new(),
        matchers,
        tasks: zetch::tasks::Tasks::default(),
    };
    let mut state = State::new_fresh(conf, "./zetch.config.toml".to_string(), false, false);
    state.store_var("NAME", JVal::Str(name.clone()));
    let env = EnvMap::new(Vec::new());
    match state.plan_var("NAME", false, &env) {
        Ok(VarPlan::Ready(JVal::Str(s))) => assert_eq!(s, "world"),
        _ => panic!("the cached value should be served"),
    }
}
