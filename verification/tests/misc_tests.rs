use zetch::cmd::CmdOut;
use zetch::config::{
    coerce_kind_of, default_matchers, env_default_lookup, env_defaults_table, resolve_rel_path,
    static_var_from_value, validate_matchers, Engine,
};
use zetch::context::{CtxEnvVar, CtxStaticVar};
use zetch::error::Zerr;
use zetch::init::{build_final_config_path, get_schema_directive, update_schema_directive_if_needed};
use zetch::timing::format_duration;
use zetch::toml_path::{toml_read_str, TomlErr};
use zetch::values::JVal;

#[test]
fn durations_use_the_largest_whole_unit() {
    assert_eq!(format_duration(1), "1ns");
    assert_eq!(format_duration(1000), "1\u{03BC}s");
    assert_eq!(format_duration(1000000), "1ms");
    assert_eq!(format_duration(999000000), "999ms");
    assert_eq!(format_duration(1000000000), "1s");
    assert_eq!(format_duration(61000000000), "61s");
}

#[test]
fn filetype_options_list() {
    assert_eq!(zetch::filetype::valid_ft_opts_str(), "'--json', '--yaml', '--yml', or '--toml'");
}

#[test]
fn engine_defaults_are_the_stock_delimiters() {
    let e = Engine::default();
    assert_eq!(e.block_start, "{%");
    assert_eq!(e.block_end, "%}");
    assert_eq!(e.variable_start, "{{");
    assert_eq!(e.variable_end, "}}");
    assert_eq!(e.comment_start, "{#");
    assert_eq!(e.comment_end, "#}");
    assert!(e.custom_extensions.is_empty());
    let m = default_matchers();
    assert_eq!(m, vec!["zetch".to_string()]);
}

#[test]
fn matcher_validation() {
    assert!(validate_matchers(&vec!["zetch".to_string(), "a-b_2".to_string()]).is_ok());
    assert_eq!(validate_matchers(&Vec::new()).err().unwrap().kind, Zerr::ConfigInvalid);
    assert_eq!(
        validate_matchers(&vec!["Bad".to_string()]).err().unwrap().kind,
        Zerr::ConfigInvalid
    );
    assert_eq!(
        validate_matchers(&vec!["".to_string()]).err().unwrap().kind,
        Zerr::ConfigInvalid
    );
}

#[test]
fn coercion_kind_names() {
    assert_eq!(coerce_kind_of("json"), Some(zetch::coerce::Coerce::Json));
    assert_eq!(coerce_kind_of("str"), Some(zetch::coerce::Coerce::Str));
    assert_eq!(coerce_kind_of("int"), Some(zetch::coerce::Coerce::Int));
    assert_eq!(coerce_kind_of("float"), Some(zetch::coerce::Coerce::Float));
    assert_eq!(coerce_kind_of("bool"), Some(zetch::coerce::Coerce::Bool));
    assert_eq!(coerce_kind_of("other"), None);
}

#[test]
fn static_var_shapes() {
    // The fully specified table shape.
    let full = JVal::Obj(vec![
        ("value".to_string(), JVal::Int(3)),
        ("coerce".to_string(), JVal::Str("str".to_string())),
    ]);
    let sv = static_var_from_value(&full).unwrap();
    assert!(matches!(sv.value, JVal::Int(3)));
    assert_eq!(sv.coerce, Some(zetch::coerce::Coerce::Str));
    // Any other value is the value itself.
    let raw = static_var_from_value(&JVal::Str("plain".to_string())).unwrap();
    assert!(matches!(raw.value, JVal::Str(_)));
    assert_eq!(raw.coerce, None);
    // A table with extra keys is a plain value too.
    let extra = JVal::Obj(vec![
        ("value".to_string(), JVal::Int(3)),
        ("unrelated".to_string(), JVal::Int(4)),
    ]);
    let as_raw = static_var_from_value(&extra).unwrap();
    assert!(matches!(as_raw.value, JVal::Obj(_)));
    // A bad coerce name is refused.
    let bad = JVal::Obj(vec![
        ("value".to_string(), JVal::Int(3)),
        ("coerce".to_string(), JVal::Str("nope".to_string())),
    ]);
    assert_eq!(static_var_from_value(&bad).err().unwrap().kind, Zerr::ConfigInvalid);
}

#[test]
fn env_default_table_serves_declared_defaults() {
    let env = vec![
        ("WITH".to_string(), CtxEnvVar {
            env_name: None,
            default: Some(CtxStaticVar { value: JVal::Str("d".to_string()), coerce: None }),
            coerce: None,
        }),
        ("WITHOUT".to_string(), CtxEnvVar { env_name: None, default: None, coerce: None }),
    ];
    let table = env_defaults_table(&env).unwrap();
    assert_eq!(table.len(), 1);
    match env_default_lookup(&table, "WITH") {
        Ok(JVal::Str(s)) => assert_eq!(s, "d"),
        _ => panic!("the default should be served"),
    }
    let e = env_default_lookup(&table, "WITHOUT").err().unwrap();
    assert_eq!(e.kind, Zerr::ReadVarMissing);
    assert!(e.notes[0].contains("WITH"), "the env vars with defaults are listed");
}

#[test]
fn relative_paths_resolve_under_the_config_directory() {
    assert_eq!(resolve_rel_path("/proj", "extra.ignore"), "/proj/extra.ignore");
    assert_eq!(resolve_rel_path("/proj", "/abs/path"), "/abs/path");
}

#[test]
fn schema_directive_updates_in_place() {
    let contents = format!("{}\n\nmatchers = [\"zetch\"]\n", "#:schema https://github.com/zakstucke/zetch/blob/v0.0.1/py_rust/src/config/schema.json");
    let updated = update_schema_directive_if_needed(contents.as_str(), "0.0.2")
        .expect("an old directive is rewritten");
    assert!(updated.contains(get_schema_directive("0.0.2").as_str()));
    assert!(updated.contains("matchers = [\"zetch\"]"));
    // The current directive is left alone.
    assert!(update_schema_directive_if_needed(updated.as_str(), "0.0.2").is_none());
    // A file without a directive is left alone.
    assert!(update_schema_directive_if_needed("matchers = []\n", "0.0.2").is_none());
    // Blank lines before the directive are fine.
    let padded = format!("\n  \n{}\n", "#:schema old");
    assert!(update_schema_directive_if_needed(padded.as_str(), "0.0.2").is_some());
}

#[test]
fn config_path_resolution() {
    match build_final_config_path("./zetch.config.toml", true, None, false) {
        Ok(p) => assert_eq!(p, "./zetch.config.toml"),
        Err(_) => panic!("an existing path resolves to itself"),
    }
    match build_final_config_path("zetch.config.toml", false, Some("sub"), true) {
        Ok(p) => assert_eq!(p, "sub/zetch.config.toml"),
        Err(_) => panic!("the render root is searched for relative paths"),
    }
    let e = build_final_config_path("zetch.config.toml", false, None, false).err().unwrap();
    assert_eq!(e.kind, Zerr::ConfigInvalid);
}

#[test]
fn toml_paths_read_values() {
    let src = "a = 1\nlist = [1, 2, 3]\n[b]\nc = \"x\"\n";
    assert!(matches!(toml_read_str(src, &vec!["a".to_string()]), Ok(JVal::Int(1))));
    match toml_read_str(src, &vec!["b".to_string(), "c".to_string()]) {
        Ok(JVal::Str(s)) => assert_eq!(s, "x"),
        _ => panic!("the nested key should resolve"),
    }
    assert!(matches!(
        toml_read_str(src, &vec!["list".to_string(), "1".to_string()]),
        Ok(JVal::Int(2))
    ));
    assert!(matches!(
        toml_read_str(src, &vec!["missing".to_string()]),
        Err(TomlErr::TomlReadPathError)
    ));
    assert!(matches!(toml_read_str("= not toml", &Vec::new()), Err(TomlErr::TomlInvalid)));
    // Empty path segments are skipped.
    assert!(matches!(
        toml_read_str(src, &vec!["".to_string(), "a".to_string()]),
        Ok(JVal::Int(1))
    ));
}

#[test]
fn json_round_trip_through_the_library() {
    let v = JVal::Obj(vec![
        ("b".to_string(), JVal::Bool(true)),
        ("n".to_string(), JVal::Int(7)),
    ]);
    let text = v.to_json_string();
    assert_eq!(text, "{\"b\":true,\"n\":7}");
    assert_eq!(JVal::Bool(true).to_json_string(), "true");
}

#[test]
fn command_outputs_format_and_expose_the_last_stdout() {
    let out = CmdOut::new(
        vec!["echo one".to_string(), "echo two".to_string()],
        vec!["one\n".to_string(), "two\n".to_string()],
        vec!["".to_string(), "warning\n".to_string()],
    );
    assert_eq!(out.last_stdout(), "two\n");
    let blocks = out.iter_formatted_commands_and_outputs();
    assert_eq!(blocks.len(), 2);
    assert_eq!(blocks[0], "Command: 'echo one'\nStdout:\none\n\nStderr:\n");
    assert_eq!(blocks[1], "Command: 'echo two'\nStdout:\ntwo\n\nStderr:\nwarning\n");
    let empty = CmdOut::new(Vec::new(), Vec::new(), Vec::new());
    assert_eq!(empty.last_stdout(), "");
}

#[test]
fn template_error_excerpts_mark_the_failing_line() {
    let lines: Vec<String> = (1..=10).map(|i| format!("line {}", i)).collect();
    let excerpt = zetch::render::template_error_excerpt(&lines, 5);
    assert!(excerpt.contains("5| line 5 <-- ERR\n"));
    assert!(excerpt.contains("2| line 2\n"));
    assert!(excerpt.contains("8| line 8\n"));
    assert!(!excerpt.contains("line 1\n"));
    assert!(!excerpt.contains("line 9"));
    // Near the top of the file the window clips to the first line.
    let top = zetch::render::template_error_excerpt(&lines, 1);
    assert!(top.contains("1| line 1 <-- ERR\n"));
    assert!(top.contains("4| line 4\n"));
    // Numbers align to the widest in the window.
    let tail = zetch::render::template_error_excerpt(&lines, 9);
    assert!(tail.contains(" 6| line 6\n"));
    assert!(tail.contains("10| line 10\n"));
}
