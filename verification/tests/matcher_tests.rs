use zetch::matcher::{match_and_rewrite, rewrite_template_matcher};
use zetch::walker::{
    build_override_globs, config_path_relative_to_root, find_templates,
    get_template_matcher_rewrite_mapping, match_template, Template,
};

#[test]
fn mid_filename_token_collapses_to_a_dot() {
    assert_eq!(match_and_rewrite("foo.zetch.txt", "zetch").as_deref(), Some("foo.txt"));
}

#[test]
fn suffix_token_is_dropped() {
    assert_eq!(match_and_rewrite("foo.txt.zetch", "zetch").as_deref(), Some("foo.txt"));
}

#[test]
fn unmatched_name_is_none() {
    assert!(match_and_rewrite("foo.txt", "zetch").is_none());
    assert!(match_and_rewrite("zetch", "zetch").is_none());
    assert!(match_and_rewrite("foozetch.txt", "zetch").is_none());
}

#[test]
fn last_mid_occurrence_wins() {
    assert_eq!(
        match_and_rewrite("a.zetch.b.zetch.txt", "zetch").as_deref(),
        Some("a.zetch.b.txt")
    );
}

#[test]
fn rewrite_round_trip() {
    assert_eq!(rewrite_template_matcher("foo.zetch.txt", "zetch", "zet"), "foo.zet.txt");
    assert_eq!(rewrite_template_matcher("foo.txt.zetch", "zetch", "zet"), "foo.txt.zet");
    assert_eq!(rewrite_template_matcher("foo.txt", "zetch", "zet"), "foo.txt");
}

#[test]
fn template_paths_are_computed_from_the_root() {
    let t = Template::new(
        ".",
        "./sub/hello.zetch.txt".to_string(),
        "./sub/hello.txt".to_string(),
    );
    assert_eq!(t.rel_path, "sub/hello.zetch.txt");
    assert_eq!(t.path, "./sub/hello.zetch.txt");
    assert_eq!(t.out_path, "./sub/hello.txt");
}

#[test]
fn match_template_applies_first_matcher() {
    let matchers = vec!["zet".to_string(), "zetch".to_string()];
    let t = match_template(".", "./a.zet.txt", &matchers).expect("should match");
    assert_eq!(t.out_path, "./a.txt");
    let t2 = match_template(".", "./b.zetch.md", &matchers).expect("should match");
    assert_eq!(t2.out_path, "./b.md");
    assert!(match_template(".", "./c.md", &matchers).is_none());
}

#[test]
fn find_templates_keeps_walk_order() {
    let files = vec![
        "./one.zetch.txt".to_string(),
        "./skip.txt".to_string(),
        "./two.txt.zetch".to_string(),
    ];
    let matchers = vec!["zetch".to_string()];
    let ts = find_templates(".", &files, &matchers);
    assert_eq!(ts.len(), 2);
    assert_eq!(ts[0].rel_path, "one.zetch.txt");
    assert_eq!(ts[0].out_path, "./one.txt");
    assert_eq!(ts[1].out_path, "./two.txt");
}

#[test]
fn rewrite_mapping_round_trip() {
    let files = vec!["./foo.zetch.txt".to_string(), "./other.txt".to_string()];
    let mapping = get_template_matcher_rewrite_mapping(".", &files, "zetch", "zet");
    assert_eq!(mapping.len(), 1);
    assert_eq!(mapping[0].0, "./foo.zetch.txt");
    assert_eq!(mapping[0].1, "./foo.zet.txt");
}

#[test]
fn config_inside_root_is_made_relative() {
    let r = config_path_relative_to_root("/proj", "/proj/zetch.config.toml");
    assert_eq!(r.as_deref(), Some("zetch.config.toml"));
    assert!(config_path_relative_to_root("/proj", "/elsewhere/zetch.config.toml").is_none());
}

#[test]
fn override_globs_invert_excludes() {
    let globs = build_override_globs(
        &Some("zetch.config.toml".to_string()),
        &vec!["target".to_string(), "!keep.txt".to_string()],
    );
    assert_eq!(
        globs,
        vec![
            "!.zetch.lock".to_string(),
            "!zetch.config.toml".to_string(),
            "!target".to_string(),
            "keep.txt".to_string(),
        ]
    );
}
