use of_project_gen::agg::IncludePathAggregator;
use of_project_gen::config::addon_dir_candidate;
use of_project_gen::config::build_config;
use of_project_gen::config::seed_include_paths;
use of_project_gen::config::OS;
use of_project_gen::order::sort_strings;
use of_project_gen::rules::is_excluded_dir;
use of_project_gen::rules::join_path;
use of_project_gen::rules::parse_addon_excludes;
use of_project_gen::rules::parse_exclude_line;
use of_project_gen::rules::ExcludePattern;
use of_project_gen::rules::MatchKind;
use of_project_gen::walk::add_directories_recursively;
use of_project_gen::walk::walk;
use of_project_gen::walk::DirTree;

fn leaf(path: &str) -> DirTree {
    DirTree { path: path.to_string(), children: Vec::new() }
}

fn node(path: &str, children: Vec<DirTree>) -> DirTree {
    DirTree { path: path.to_string(), children }
}

fn sorted(mut v: Vec<String>) -> Vec<String> {
    v.sort();
    v
}

#[test]
fn no_directive_lines_give_empty_rule_set() {
    let lines = vec![
        "".to_string(),
        "   ".to_string(),
        "# ADDON_SOURCES_EXCLUDE = libs/foo".to_string(),
        "meta: something else".to_string(),
        "ADDON_DEPENDENCIES = ofxOsc".to_string(),
    ];
    let rules = parse_addon_excludes("/of/addons/ofxA", &lines);
    assert_eq!(rules.len(), 0);
}

#[test]
fn walk_with_empty_rules_admits_every_subdirectory() {
    let tree = node(
        "/r",
        vec![node("/r/a", vec![leaf("/r/a/b")]), leaf("/r/c")],
    );
    let out = walk(tree, &Vec::new());
    assert_eq!(
        sorted(out),
        vec![
            "/r".to_string(),
            "/r/a".to_string(),
            "/r/a/b".to_string(),
            "/r/c".to_string()
        ]
    );
}

#[test]
fn exact_rule_matches_only_its_pattern() {
    let rules = vec![ExcludePattern {
        pattern: "/m/libs/foo".to_string(),
        kind: MatchKind::Exact,
    }];
    assert!(is_excluded_dir("/m/libs/foo", &rules));
    assert!(!is_excluded_dir("/m/libs/foox", &rules));
    assert!(!is_excluded_dir("/m/libs/fo", &rules));
    assert!(!is_excluded_dir("/m/libs/foo/sub", &rules));
}

#[test]
fn prefix_rule_matches_string_level_extensions() {
    let rules = vec![ExcludePattern {
        pattern: "/m/libs/foo".to_string(),
        kind: MatchKind::PrefixWildcard,
    }];
    assert!(is_excluded_dir("/m/libs/foo", &rules));
    assert!(is_excluded_dir("/m/libs/foo/anything", &rules));
    // prefix semantics are string-level, not segment-level
    assert!(is_excluded_dir("/m/libs/foox", &rules));
    assert!(!is_excluded_dir("/m/libs/fo", &rules));
}

#[test]
fn subtree_rule_matches_exactly_as_prefix_rule() {
    // the subtree kind is matched by the same plain string prefix test
    // as the prefix kind, segment boundaries notwithstanding
    let candidates = ["/m/s", "/m/src", "/m/src/deep", "/m/srcx", "/m/other"];
    for dir in candidates {
        let as_subtree = vec![ExcludePattern {
            pattern: "/m/src".to_string(),
            kind: MatchKind::SubtreeWildcard,
        }];
        let as_prefix = vec![ExcludePattern {
            pattern: "/m/src".to_string(),
            kind: MatchKind::PrefixWildcard,
        }];
        assert_eq!(
            is_excluded_dir(dir, &as_subtree),
            is_excluded_dir(dir, &as_prefix)
        );
    }
}

#[test]
fn finalize_is_idempotent_sorted_and_duplicate_free() {
    let mut agg = IncludePathAggregator::new();
    for p in ["/z", "/a", "/m", "/a", "/z", "/m", "/a"] {
        agg.add(p.to_string());
    }
    let first = agg.finalize();
    let second = agg.finalize();
    assert_eq!(first, second);
    assert_eq!(
        first,
        vec!["/a".to_string(), "/m".to_string(), "/z".to_string()]
    );
    for w in first.windows(2) {
        assert!(w[0] < w[1]);
    }
}

#[test]
fn finalize_ignores_insertion_order() {
    let mut fwd = IncludePathAggregator::new();
    let mut rev = IncludePathAggregator::new();
    let paths = ["/p/b", "/p/a", "/p/c/**", "/p/a"];
    for p in paths {
        fwd.add(p.to_string());
    }
    for p in paths.iter().rev() {
        rev.add(p.to_string());
    }
    assert_eq!(fwd.finalize(), rev.finalize());
}

#[test]
fn walk_descends_under_an_excluded_directory() {
    let tree = node(
        "/root",
        vec![node("/root/a", vec![leaf("/root/a/b")]), leaf("/root/c")],
    );
    let rules = vec![ExcludePattern {
        pattern: "/root/a".to_string(),
        kind: MatchKind::Exact,
    }];
    let out = sorted(walk(tree, &rules));
    assert_eq!(
        out,
        vec![
            "/root".to_string(),
            "/root/a/b".to_string(),
            "/root/c".to_string()
        ]
    );
}

#[test]
fn end_to_end_prefix_exclude_shapes_the_final_list() {
    // one module declaring `libs/foo%`, holding libs/{foo,foobar,bar}
    let module_root = "/of/addons/ofxM";
    let lines = vec!["ADDON_SOURCES_EXCLUDE = libs/foo%".to_string()];
    let rules = parse_addon_excludes(module_root, &lines);
    assert_eq!(rules.len(), 1);
    assert_eq!(rules[0].pattern, "/of/addons/ofxM/libs/foo");
    assert_eq!(rules[0].kind, MatchKind::PrefixWildcard);

    let tree = node(
        "/of/addons/ofxM/libs",
        vec![
            leaf("/of/addons/ofxM/libs/foo"),
            leaf("/of/addons/ofxM/libs/foobar"),
            leaf("/of/addons/ofxM/libs/bar"),
        ],
    );
    let mut agg = IncludePathAggregator::new();
    add_directories_recursively(tree, &rules, &mut agg);
    let fin = agg.finalize();
    assert_eq!(
        fin,
        vec![
            "/of/addons/ofxM/libs".to_string(),
            "/of/addons/ofxM/libs/bar".to_string()
        ]
    );
    assert!(!fin.contains(&"/of/addons/ofxM/libs/foo".to_string()));
    assert!(!fin.contains(&"/of/addons/ofxM/libs/foobar".to_string()));
}

#[test]
fn directive_lines_compile_by_suffix() {
    let root = "/of/addons/ofxA";
    let subtree = parse_exclude_line(root, "ADDON_SOURCES_EXCLUDE = libs/x/%").unwrap();
    assert_eq!(subtree.pattern, "/of/addons/ofxA/libs/x");
    assert_eq!(subtree.kind, MatchKind::SubtreeWildcard);

    let prefix = parse_exclude_line(root, "ADDON_INCLUDES_EXCLUDE += libs/y%").unwrap();
    assert_eq!(prefix.pattern, "/of/addons/ofxA/libs/y");
    assert_eq!(prefix.kind, MatchKind::PrefixWildcard);

    let exact = parse_exclude_line(root, "  ADDON_SOURCES_EXCLUDE = libs/z  ").unwrap();
    assert_eq!(exact.pattern, "/of/addons/ofxA/libs/z");
    assert_eq!(exact.kind, MatchKind::Exact);
}

#[test]
fn directive_lines_split_on_the_last_separator() {
    let root = "/m";
    let r = parse_exclude_line(root, "ADDON_SOURCES_EXCLUDE = a + b").unwrap();
    assert_eq!(r.pattern, "/m/b");
    assert_eq!(r.kind, MatchKind::Exact);
}

#[test]
fn non_candidate_lines_are_skipped() {
    let root = "/m";
    assert!(parse_exclude_line(root, "").is_none());
    assert!(parse_exclude_line(root, "   \t ").is_none());
    assert!(parse_exclude_line(root, "# ADDON_SOURCES_EXCLUDE = x").is_none());
    assert!(parse_exclude_line(root, "OTHER_SETTING = x").is_none());
    // a directive without `=` or `+` carries nothing to take
    assert!(parse_exclude_line(root, "ADDON_SOURCES_EXCLUDE").is_none());
    // a directive whose pattern trims to nothing is ignored
    assert!(parse_exclude_line(root, "ADDON_SOURCES_EXCLUDE =   ").is_none());
}

#[test]
fn absolute_patterns_bypass_the_module_root() {
    let r = parse_exclude_line("/m", "ADDON_SOURCES_EXCLUDE = /elsewhere/x%").unwrap();
    assert_eq!(r.pattern, "/elsewhere/x");
    assert_eq!(r.kind, MatchKind::PrefixWildcard);
}

#[test]
fn pattern_str_restores_the_wildcard_suffix() {
    let exact = ExcludePattern { pattern: "/m/a".to_string(), kind: MatchKind::Exact };
    let prefix = ExcludePattern { pattern: "/m/a".to_string(), kind: MatchKind::PrefixWildcard };
    let subtree = ExcludePattern { pattern: "/m/a".to_string(), kind: MatchKind::SubtreeWildcard };
    assert_eq!(exact.pattern_str(), "/m/a");
    assert_eq!(prefix.pattern_str(), "/m/a%");
    assert_eq!(subtree.pattern_str(), "/m/a/%");
}

#[test]
fn join_path_resolves_against_the_base() {
    assert_eq!(join_path("/m", "libs/foo"), "/m/libs/foo");
    assert_eq!(join_path("/m", "/abs/p"), "/abs/p");
    assert_eq!(join_path("/m", ""), "/m/");
}

#[test]
fn addon_dir_candidate_picks_project_or_toolkit() {
    assert_eq!(
        addon_dir_candidate("/proj", "/of", "addons/ofxLocal"),
        "/proj/addons/ofxLocal"
    );
    assert_eq!(
        addon_dir_candidate("/proj", "/of", "ofxShared"),
        "/of/addons/ofxShared"
    );
}

#[test]
fn os_names_follow_the_configuration_format() {
    assert_eq!(OS::Mac.to_str(), "Mac");
    assert_eq!(OS::Linux.to_str(), "Linux");
    assert_eq!(OS::Windows.to_str(), "Win32");
    assert_eq!(OS::Unknown.to_str(), "Unknown");
}

#[test]
fn build_config_pins_every_field() {
    let cfg = build_config(
        OS::Linux,
        "x64",
        vec!["/a".to_string(), "/b".to_string()],
        Vec::new(),
    );
    assert_eq!(cfg.name, "Linux");
    assert_eq!(cfg.include_paths, vec!["/a".to_string(), "/b".to_string()]);
    assert!(cfg.defines.is_empty());
    assert!(cfg.mac_framework_paths.is_empty());
    assert_eq!(cfg.c_standard, "c11");
    assert_eq!(cfg.cpp_standard, "c++17");
    assert_eq!(cfg.intellisense_mode, "clang-x64");
    assert_eq!(cfg.version, 4);
}

#[test]
fn sort_strings_orders_lexicographically() {
    let v = vec![
        "/b".to_string(),
        "/a/**".to_string(),
        "/a".to_string(),
        "/b".to_string(),
    ];
    let s = sort_strings(&v);
    assert_eq!(
        s,
        vec![
            "/a".to_string(),
            "/a/**".to_string(),
            "/b".to_string(),
            "/b".to_string()
        ]
    );
}

#[test]
fn aggregator_contains_reports_membership() {
    let mut agg = IncludePathAggregator::new();
    assert!(!agg.contains("/x"));
    agg.add("/x".to_string());
    assert!(agg.contains("/x"));
    assert!(!agg.contains("/y"));
    assert_eq!(agg.finalize(), vec!["/x".to_string()]);
}

#[test]
fn seeding_adds_workspace_tokens_and_toolkit_paths() {
    let mut agg = IncludePathAggregator::new();
    seed_include_paths(&mut agg, "/of");
    assert_eq!(
        agg.finalize(),
        vec![
            "${workspaceFolder}/**".to_string(),
            "${workspaceFolder}/src".to_string(),
            "${workspaceFolder}/src/**".to_string(),
            "/of/libs/openFrameworks".to_string(),
            "/of/libs/openFrameworks/**".to_string(),
        ]
    );
}

#[test]
fn empty_aggregator_finalizes_to_nothing() {
    let agg = IncludePathAggregator::new();
    assert!(agg.finalize().is_empty());
}
