use gradle_deps_diff::{
    create_gradle_lists, get_greatest, DepParseResult, Dependency, DependencyParser, GradleEntry,
    ParserState, Version, Versions,
};

#[test]
fn it_parses_dep_line_without_versions() {
    let parser = DependencyParser::new();

    let parsed = parser.parse_dep_line(String::from("io.github.openfeign:feign-core (n)"));

    if let Ok(DepParseResult::Dep(dep)) = parsed {
        assert_eq!(dep.name, "feign-core");
        assert_eq!(dep.namespace, "io.github.openfeign");
        assert!(matches!(dep.transitive, Version::NotApplicable));
        assert!(matches!(dep.pinned, Version::NotApplicable));
    } else {
        panic!("Unable to destructure DepParseResult object");
    }
}

#[test]
fn it_parses_dep_line_with_transitive_version() {
    let parser = DependencyParser::new();

    let parsed = parser.parse_dep_line(String::from("io.github.openfeign:feign-core:4.0.4"));

    if let Ok(DepParseResult::Dep(dep)) = parsed {
        assert_eq!(dep.name, "feign-core");
        assert_eq!(dep.namespace, "io.github.openfeign");
        assert!(matches!(dep.transitive, Version::Transitive(_)));
        assert!(matches!(dep.pinned, Version::NotApplicable));

        if let Version::Transitive(ver) = dep.transitive {
            assert_eq!(ver, "4.0.4");
        } else {
            panic!("Transitive version parsed incorrectly");
        }
    } else {
        panic!("Unable to destructure DepParseResult object");
    }
}

#[test]
fn it_parses_dep_line_with_pinned_version() {
    let parser = DependencyParser::new();
    let dep_line = "io.github.openfeign:feign-core -> 4.0.4".to_string();

    let parsed = parser.parse_dep_line(dep_line);

    if let Ok(DepParseResult::Dep(dep)) = parsed {
        assert_eq!(dep.name, "feign-core");
        assert_eq!(dep.namespace, "io.github.openfeign");
        assert!(matches!(dep.transitive, Version::NotApplicable));
        assert!(matches!(dep.pinned, Version::Pinned(_)));

        if let Version::Pinned(ver) = dep.pinned {
            assert_eq!(ver, "4.0.4");
        } else {
            panic!("Pinned version parsed incorrectly");
        }
    } else {
        panic!("Unable to destructure DepParseResult object");
    }
}

#[test]
fn it_parses_dep_line_with_transitive_and_pinned_version() {
    let parser = DependencyParser::new();

    let parsed = parser.parse_dep_line(String::from("io.github.openfeign:feign-core:4.0.3 -> 4.0.4"));

    if let Ok(DepParseResult::Dep(dep)) = parsed {
        assert_eq!(dep.name, "feign-core");
        assert_eq!(dep.namespace, "io.github.openfeign");
        assert!(matches!(dep.transitive, Version::Transitive(_)));
        assert!(matches!(dep.pinned, Version::Pinned(_)));

        if let Version::Transitive(ver) = dep.transitive {
            assert_eq!(ver, "4.0.3");
        } else {
            panic!("Transitive version parsed incorrectly");
        }

        if let Version::Pinned(ver) = dep.pinned {
            assert_eq!(ver, "4.0.4");
        } else {
            panic!("Pinned version parsed incorrectly");
        }
    } else {
        panic!("Unable to destructure DepParseResult object");
    }
}

#[test]
#[should_panic]
fn it_panics_on_dep_line_with_no_colon() {
    let parser = DependencyParser::new();
    let _ = parser.parse_dep_line(String::from("io.github.openfeign -> 4.0.4")).unwrap();
}

#[test]
fn it_returns_largest_transitive_version() {
    let transitive_vers = ["1.2.3", "1.2.4", "1.3.0"].map(|v| Version::Transitive(v.to_string()));

    let largest = get_greatest(&transitive_vers).unwrap().unwrap();
    assert_eq!(largest, "1.3.0");
}

fn entry(config: &str, transitive: &[&str], pinned: Option<&str>) -> GradleEntry {
    GradleEntry {
        gradle_config_name: config.to_string(),
        versions: Versions {
            transitive: transitive.iter().map(|v| Version::Transitive(v.to_string())).collect(),
            pinned: match pinned {
                Some(p) => Version::Pinned(p.to_string()),
                None => Version::NotApplicable,
            },
        },
    }
}

fn dep_before() -> Dependency {
    Dependency {
        name: "dep".to_string(),
        namespace: "dep_ns".to_string(),
        gradle_entries: vec![
            entry("compileClasspath", &["1.2.3"], Some("1.2.4")),
            entry("runtimeClasspath", &["1.2.3"], Some("1.2.4")),
        ],
    }
}

fn dep_after() -> Dependency {
    Dependency {
        name: "dep".to_string(),
        namespace: "dep_ns".to_string(),
        gradle_entries: vec![
            entry("compileClasspath", &["1.2.2", "1.2.7"], None),
            entry("productionRuntimeClasspath", &["1.2.6"], Some("1.2.7")),
        ],
    }
}

#[test]
fn it_returns_join_of_gradle_tasks_before_and_after() {
    let dep_before = dep_before();
    let dep_after = dep_after();

    let list = create_gradle_lists(Option::Some(&dep_before), Option::Some(&dep_after)).unwrap();

    assert_eq!(list.len(), 3);

    let gradle_tasks_set: Vec<String> = list
        .iter()
        .map(|o| o.gradle_config_name.clone())
        .collect();

    assert!(gradle_tasks_set.contains(&"productionRuntimeClasspath".to_string()));
    assert!(gradle_tasks_set.contains(&"runtimeClasspath".to_string()));
    assert!(gradle_tasks_set.contains(&"compileClasspath".to_string()));
}

#[test]
fn it_returns_empty_after_when_only_providing_before() {
    let dep_before = dep_before();

    let list = create_gradle_lists(Option::Some(&dep_before), Option::None).unwrap();

    assert_eq!(list.len(), 2);

    let gradle_tasks_set: Vec<String> = list
        .iter()
        .map(|o| o.gradle_config_name.clone())
        .collect();

    assert!(gradle_tasks_set.contains(&"runtimeClasspath".to_string()));
    assert!(gradle_tasks_set.contains(&"compileClasspath".to_string()));

    list.iter().for_each(|t| assert!(t.version_after == "N/A"))
}

#[test]
fn it_returns_empty_before_when_only_providing_after() {
    let dep_after = dep_after();

    let list = create_gradle_lists(Option::None, Option::Some(&dep_after)).unwrap();

    assert_eq!(list.len(), 2);

    let gradle_tasks_set: Vec<String> = list
        .iter()
        .map(|o| o.gradle_config_name.clone())
        .collect();

    assert!(gradle_tasks_set.contains(&"productionRuntimeClasspath".to_string()));
    assert!(gradle_tasks_set.contains(&"compileClasspath".to_string()));

    list.iter().for_each(|t| assert!(t.version_before == "N/A"))
}

#[test]
fn it_updates_existing_pinned_version_if_is_greater() {
    let mut parser = DependencyParser::new();
    parser.state = ParserState::AwaitingTaskOrDependency;
    parser.parse_line("compileClasspath".to_string()).unwrap();

    parser.parse_line(String::from("| io.github.openfeign:feign-core:4.0.3 -> 4.0.4")).unwrap();
    parser.parse_line(String::from("| io.github.openfeign:feign-core:4.0.3 -> 4.0.5")).unwrap();

    let dep = parser
        .snapshot
        .get("feign-core")
        .expect("Dependency should exist");

    let gradle_entry: &GradleEntry = &dep
        .gradle_entries
        .iter()
        .cloned()
        .filter(|e| e.gradle_config_name == "compileClasspath")
        .collect::<Vec<GradleEntry>>()[0];

    assert_eq!(gradle_entry.versions.pinned.to_string(), "4.0.5");
}
