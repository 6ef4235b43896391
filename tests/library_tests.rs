use gradle_deps_diff::{
    create_gradle_lists, diff_snapshots, get_greatest, get_versions, parse_snapshot,
    DepParseResult, Dependency, DependencyParser, DepsError, GradleEntry, LineParseResult,
    ParserState, Version, Versions,
};

fn lines(text: &[&str]) -> Vec<String> {
    text.iter().map(|l| l.to_string()).collect()
}

fn report(dep_line: &str) -> Vec<String> {
    lines(&[
        "> Task :dependencies",
        "",
        "------------------------------------------------------------",
        "Root project 'demo'",
        "------------------------------------------------------------",
        "",
        "compileClasspath - Compile classpath for source set 'main'.",
        dep_line,
        "",
        "(c) - dependency constraint",
        "\\--- io.github.openfeign:ignored-after-terminator:9.9.9",
    ])
}

fn pinned_of(parser: &DependencyParser, name: &str, config: &str) -> String {
    let dep = parser.snapshot.get(name).expect("dependency present");
    let entry = dep
        .gradle_entries
        .iter()
        .find(|e| e.gradle_config_name == config)
        .expect("entry present");
    entry.versions.pinned.to_string()
}

#[test]
fn decode_fails_without_colon() {
    let parser = DependencyParser::new();
    let parsed = parser.parse_dep_line(String::from("io.github.openfeign -> 4.0.4"));
    assert!(matches!(parsed, Err(DepsError::Decode)));
}

#[test]
fn decode_recognises_no_dependencies_sentinel() {
    let parser = DependencyParser::new();
    let parsed = parser.parse_dep_line(String::from("No dependencies"));
    assert!(matches!(parsed, Ok(DepParseResult::NoDependencies)));
}

#[test]
fn decode_strips_tree_prefix_and_specifier() {
    let parser = DependencyParser::new();
    let parsed = parser.parse_dep_line(String::from("|    +--- org.apache.commons:commons-text:1.10.0 (*)"));
    match parsed {
        Ok(DepParseResult::Dep(dep)) => {
            assert_eq!(dep.namespace, "org.apache.commons");
            assert_eq!(dep.name, "commons-text");
            assert_eq!(dep.transitive.to_string(), "1.10.0");
            assert!(matches!(dep.pinned, Version::NotApplicable));
        }
        _ => panic!("expected a dependency"),
    }
}

#[test]
fn decode_pinned_before_specifier() {
    let parser = DependencyParser::new();
    let parsed = parser.parse_dep_line(String::from("+--- org.projectlombok:lombok:1.18.20 -> 1.18.30 (c)"));
    match parsed {
        Ok(DepParseResult::Dep(dep)) => {
            assert_eq!(dep.name, "lombok");
            assert_eq!(dep.transitive.to_string(), "1.18.20");
            assert_eq!(dep.pinned.to_string(), "1.18.30");
        }
        _ => panic!("expected a dependency"),
    }
}

#[test]
fn greatest_ignores_order_and_absent_readings() {
    let vers = vec![
        Version::NotApplicable,
        Version::Transitive("1.3.0".to_string()),
        Version::Transitive("1.2.4".to_string()),
        Version::Transitive("1.10.0".to_string()),
    ];
    assert_eq!(get_greatest(&vers).unwrap().unwrap(), "1.10.0");
}

#[test]
fn greatest_of_nothing_applicable_is_none() {
    let vers = vec![Version::NotApplicable, Version::NotApplicable];
    assert!(get_greatest(&vers).unwrap().is_none());
    assert!(get_greatest(&[]).unwrap().is_none());
}

#[test]
fn greatest_fails_on_uncomparable_version() {
    let vers = vec![
        Version::Transitive("1.0".to_string()),
        Version::Transitive("abc".to_string()),
    ];
    assert_eq!(get_greatest(&vers), Err(DepsError::Comparison));
}

#[test]
fn version_display_and_applicability() {
    assert_eq!(Version::NotApplicable.to_string(), "N/A");
    assert_eq!(Version::Pinned("2.0".to_string()).to_string(), "2.0");
    assert!(!Version::NotApplicable.is_applicable());
    assert!(Version::Transitive("1".to_string()).is_applicable());
}

#[test]
fn transitive_contains_is_structural() {
    let v = Versions {
        transitive: vec![Version::Transitive("1.0".to_string())],
        pinned: Version::NotApplicable,
    };
    assert!(v.transitive_contains(&Version::Transitive("1.0".to_string())));
    assert!(!v.transitive_contains(&Version::Pinned("1.0".to_string())));
    assert!(!v.transitive_contains(&Version::Transitive("1.1".to_string())));
}

#[test]
fn effective_version_prefers_pinned_then_greatest() {
    let dep = Dependency {
        name: "dep".to_string(),
        namespace: "ns".to_string(),
        gradle_entries: vec![
            GradleEntry {
                gradle_config_name: "a".to_string(),
                versions: Versions {
                    transitive: vec![Version::Transitive("9.0".to_string())],
                    pinned: Version::Pinned("1.0".to_string()),
                },
            },
            GradleEntry {
                gradle_config_name: "b".to_string(),
                versions: Versions {
                    transitive: vec![
                        Version::Transitive("1.2.2".to_string()),
                        Version::Transitive("1.2.7".to_string()),
                    ],
                    pinned: Version::NotApplicable,
                },
            },
            GradleEntry {
                gradle_config_name: "c".to_string(),
                versions: Versions { transitive: vec![Version::NotApplicable], pinned: Version::NotApplicable },
            },
        ],
    };
    let v = get_versions(&dep).unwrap();
    let got: Vec<(String, String)> = v.into_iter().map(|t| (t.gradle_config_name, t.version)).collect();
    assert_eq!(
        got,
        vec![
            ("a".to_string(), "1.0".to_string()),
            ("b".to_string(), "1.2.7".to_string()),
            ("c".to_string(), "N/A".to_string()),
        ]
    );
}

#[test]
fn join_fills_missing_sides_with_na() {
    let mk = |configs: &[(&str, &str)]| Dependency {
        name: "dep".to_string(),
        namespace: "dep_ns".to_string(),
        gradle_entries: configs
            .iter()
            .map(|(c, p)| GradleEntry {
                gradle_config_name: c.to_string(),
                versions: Versions { transitive: vec![], pinned: Version::Pinned(p.to_string()) },
            })
            .collect(),
    };
    let before = mk(&[("compileClasspath", "1.2.4"), ("runtimeClasspath", "1.2.4")]);
    let after = mk(&[("compileClasspath", "1.2.7"), ("productionRuntimeClasspath", "1.2.7")]);
    let list = create_gradle_lists(Some(&before), Some(&after)).unwrap();
    let got: Vec<(String, String, String)> = list
        .into_iter()
        .map(|l| (l.gradle_config_name, l.version_before, l.version_after))
        .collect();
    assert_eq!(
        got,
        vec![
            ("compileClasspath".to_string(), "1.2.4".to_string(), "1.2.7".to_string()),
            ("runtimeClasspath".to_string(), "1.2.4".to_string(), "N/A".to_string()),
            ("productionRuntimeClasspath".to_string(), "N/A".to_string(), "1.2.7".to_string()),
        ]
    );
}

#[test]
fn lesser_pinned_does_not_overwrite() {
    let mut parser = DependencyParser::new();
    parser.state = ParserState::AwaitingTaskOrDependency;
    parser.parse_line("compileClasspath".to_string()).unwrap();
    parser.parse_line(String::from("| io.github.openfeign:feign-core:4.0.3 -> 4.0.5")).unwrap();
    parser.parse_line(String::from("| io.github.openfeign:feign-core:4.0.3 -> 4.0.4")).unwrap();
    assert_eq!(pinned_of(&parser, "feign-core", "compileClasspath"), "4.0.5");
}

#[test]
fn repeat_sightings_dedup_transitive_and_split_configs() {
    let mut parser = DependencyParser::new();
    parser.state = ParserState::AwaitingTaskOrDependency;
    parser.parse_line("compileClasspath - x".to_string()).unwrap();
    parser.parse_line(String::from("+--- a.b:c:1.0")).unwrap();
    parser.parse_line(String::from("+--- a.b:c:1.0")).unwrap();
    parser.parse_line(String::from("+--- a.b:c:1.1")).unwrap();
    parser.parse_line("runtimeClasspath".to_string()).unwrap();
    parser.parse_line(String::from("   \\--- a.b:c:2.0")).unwrap();
    assert_eq!(parser.curr_gradle_task, "runtimeClasspath");
    let dep = parser.snapshot.get("c").unwrap();
    assert_eq!(dep.gradle_entries.len(), 2);
    assert_eq!(dep.gradle_entries[0].gradle_config_name, "compileClasspath");
    let t: Vec<String> = dep.gradle_entries[0].versions.transitive.iter().map(|v| v.to_string()).collect();
    assert_eq!(t, vec!["1.0".to_string(), "1.1".to_string()]);
    assert_eq!(dep.gradle_entries[1].versions.transitive[0].to_string(), "2.0");
}

#[test]
fn pinned_comparison_failure_is_reported() {
    let mut parser = DependencyParser::new();
    parser.state = ParserState::AwaitingTaskOrDependency;
    parser.parse_line("compileClasspath".to_string()).unwrap();
    parser.parse_line(String::from("+--- a.b:c -> 1.0")).unwrap();
    let r = parser.parse_line(String::from("+--- a.b:c -> abc"));
    assert_eq!(r, Err(DepsError::Comparison));
    assert_eq!(pinned_of(&parser, "c", "compileClasspath"), "1.0");
}

#[test]
fn state_machine_skips_and_terminates() {
    let mut parser = DependencyParser::new();
    assert_eq!(parser.parse_line("+--- a:b:1".to_string()), Ok(LineParseResult::Skip));
    assert_eq!(parser.state, ParserState::SeekingRoot);
    assert_eq!(parser.parse_line("Root project 'x'".to_string()), Ok(LineParseResult::Skip));
    assert_eq!(parser.state, ParserState::SkippingFixedCount(2));
    parser.parse_line("-----".to_string()).unwrap();
    parser.parse_line("+--- a:skipped:1".to_string()).unwrap();
    assert_eq!(parser.state, ParserState::AwaitingTaskOrDependency);
    parser.parse_line("api".to_string()).unwrap();
    assert_eq!(parser.parse_line("No dependencies".to_string()), Ok(LineParseResult::Skip));
    assert_eq!(parser.state, ParserState::SkippingFixedCount(1));
    parser.parse_line("+--- a:also-skipped:1".to_string()).unwrap();
    assert_eq!(parser.parse_line("   ".to_string()), Ok(LineParseResult::Skip));
    assert_eq!(parser.parse_line("+--- a:kept:1".to_string()), Ok(LineParseResult::Parsed));
    assert_eq!(parser.parse_line("(*) - repeated".to_string()), Ok(LineParseResult::End));
    assert_eq!(parser.parse_line("+--- a:late:1".to_string()), Ok(LineParseResult::End));
    assert_eq!(parser.snapshot.deps.len(), 1);
    assert_eq!(parser.snapshot.deps[0].name, "kept");
    assert!(parser.snapshot.get("skipped").is_none());
}

#[test]
fn report_without_root_is_empty() {
    let snap = parse_snapshot(&lines(&["compileClasspath", "+--- a:b:1.0"])).unwrap();
    assert!(snap.deps.is_empty());
}

#[test]
fn end_to_end_pinned_change() {
    let before = parse_snapshot(&report("\\--- io.github.openfeign:feign-core -> 1.0.0")).unwrap();
    let after = parse_snapshot(&report("\\--- io.github.openfeign:feign-core -> 1.1.0")).unwrap();
    assert!(before.get("ignored-after-terminator").is_none());
    let diff = diff_snapshots(&before, &after).unwrap();
    assert_eq!(diff.len(), 1);
    let rec = &diff[0];
    assert_eq!(rec.dependency.name, "feign-core");
    assert_eq!(rec.dependency.namespace, "io.github.openfeign");
    assert!(rec.changed);
    assert_eq!(rec.gradle_versions.len(), 1);
    assert_eq!(rec.gradle_versions[0].gradle_config_name, "compileClasspath");
    assert_eq!(rec.gradle_versions[0].version_before, "1.0.0");
    assert_eq!(rec.gradle_versions[0].version_after, "1.1.0");
}

#[test]
fn diff_orders_records_and_flags_unchanged() {
    let before = parse_snapshot(&lines(&[
        "Root project 'p'",
        "---",
        "",
        "compileClasspath",
        "+--- g:same:1.0",
        "\\--- g:gone:2.0",
    ]))
    .unwrap();
    let mut parser_after = DependencyParser::new();
    parser_after
        .parse_file(&lines(&["Root project 'p'", "---", "", "compileClasspath", "+--- g:same:1.0", "\\--- g:new:3.0"]))
        .unwrap();
    let mut parser_before = DependencyParser::new();
    parser_before.snapshot = before;
    let diff = parser_before.compare_versions(&parser_after).unwrap();
    let names: Vec<&str> = diff.iter().map(|r| r.dependency.name.as_str()).collect();
    assert_eq!(names, vec!["same", "gone", "new"]);
    assert!(!diff[0].changed);
    assert!(diff[1].changed);
    assert_eq!(diff[1].gradle_versions[0].version_after, "N/A");
    assert!(diff[1].dependency.gradle_entries_after.is_empty());
    assert_eq!(diff[2].gradle_versions[0].version_before, "N/A");
    assert!(diff[2].dependency.gradle_entries_before.is_empty());
    assert_eq!(diff[2].dependency.gradle_entries_after.len(), 1);
}
