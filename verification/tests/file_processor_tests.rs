use importee::configs::run::RunConfig;
use importee::file_processor::{
    cache_file_path, cache_location, cache_version_current, check_edges,
    compute_hash_from_string, find_project_root, ignore_marker_path, make_cache_entry,
    process_file_with_rules, process_source, process_unless_directory, root_step, to_hex,
    try_load_cache, CacheEntry, RootStep,
};
use importee::imports::classification::ImportResolver;
use importee::imports::import_line::ImportLine;
use importee::modpath::ModulePath;
use importee::results::Issue;
use importee::rules::linear::LinearOrderInFolder;
use importee::walker::relevant_rules;
use std::io::Write;
use tempfile::{Builder, TempDir};

fn processor_dir(parent: &std::path::Path, name: &str) -> std::path::PathBuf {
    Builder::new().prefix(name).rand_bytes(0).tempdir_in(parent).unwrap().keep()
}

fn processor_file(parent: &std::path::Path, stem: &str, suffix: &str) {
    let mut file =
        Builder::new().prefix(stem).suffix(suffix).rand_bytes(0).tempfile_in(parent).unwrap();
    file.write_all(b"").unwrap();
    file.keep().unwrap();
}

/// root/app/{__init__,api,service,repo}.py
fn layered_tree() -> (TempDir, ImportResolver) {
    let root = Builder::new().prefix("importee_process_").tempdir().unwrap();
    let app = processor_dir(root.path(), "app");
    for stem in ["__init__", "api", "service", "repo"] {
        processor_file(&app, stem, ".py");
    }
    let resolver =
        ImportResolver::new(app.to_string_lossy().to_string(), Some("app".to_string()), false);
    (root, resolver)
}

fn layers() -> LinearOrderInFolder {
    LinearOrderInFolder::new(
        ModulePath::from_dotted("app"),
        vec!["api".to_string(), "service".to_string(), "repo".to_string()],
    )
}

fn link(from: &str, target: &str, line: u32) -> ImportLine {
    ImportLine {
        from_module: ModulePath::from_dotted(from),
        target_module: ModulePath::from_dotted(target),
        import_line: line,
    }
}

fn violation(path: &str, line: u32, target: &str, from: &str, to: &str) -> Issue {
    Issue {
        rule_name: "Linear".to_string(),
        path: path.to_string(),
        line,
        message: format!(
            "imported \"{}\" : order violation: '{}' cannot import from '{}'",
            target, from, to
        ),
    }
}

#[test]
fn hash_is_the_blake3_digest_in_hex() {
    assert_eq!(
        compute_hash_from_string(""),
        "af1349b9f5f9a1a6a0404dea36dcc9499bcb25c9adc112b7cc9a93cae41f3262"
    );
    for content in ["", "abc", "import os\n", "é\n"] {
        assert_eq!(
            compute_hash_from_string(content),
            blake3::hash(content.as_bytes()).to_hex().to_string()
        );
    }
    assert_ne!(compute_hash_from_string("a"), compute_hash_from_string("b"));
    assert_eq!(compute_hash_from_string("abc").len(), 64);
}

#[test]
fn hex_is_lower_case_two_digits_a_byte() {
    assert_eq!(to_hex(&[]), "");
    assert_eq!(to_hex(&[0x00, 0x0f, 0xa0, 0xff, 0x5c]), "000fa0ff5c");
    assert_eq!(to_hex(&[0x12, 0x34, 0x56, 0x78, 0x9a, 0xbc, 0xde, 0xf0]), "123456789abcdef0");
}

#[test]
fn the_current_cache_version() {
    assert_eq!(cache_version_current(), 2);
}

#[test]
fn a_record_is_loaded_only_for_its_hash_and_a_supported_version() {
    let module = ModulePath::from_dotted("app.api");
    let entry = CacheEntry {
        version: 2,
        hash: "h1".to_string(),
        imports: vec![("app.repo".to_string(), 4), ("x..y".to_string(), 0)],
    };
    assert_eq!(
        try_load_cache(Some(&entry), &module, "h1"),
        Some(vec![link("app.api", "app.repo", 4), link("app.api", "x.y", 0)])
    );
    assert_eq!(try_load_cache(Some(&entry), &module, "h2"), None);
    assert_eq!(try_load_cache(Some(&entry), &module, ""), None);
    assert_eq!(try_load_cache(None, &module, "h1"), None);
    let old = CacheEntry { version: 1, hash: "h1".to_string(), imports: vec![] };
    assert_eq!(try_load_cache(Some(&old), &module, "h1"), None);
    let newer = CacheEntry { version: 3, hash: "h1".to_string(), imports: vec![] };
    assert_eq!(try_load_cache(Some(&newer), &module, "h1"), Some(vec![]));
}

#[test]
fn a_record_holds_target_and_line_of_every_edge() {
    let edges = vec![link("app.api", "app.repo", 4), link("app.api", "app.service.core", 9)];
    let entry = make_cache_entry("abc", &edges);
    assert_eq!(
        entry,
        CacheEntry {
            version: 2,
            hash: "abc".to_string(),
            imports: vec![("app.repo".to_string(), 4), ("app.service.core".to_string(), 9)],
        }
    );
    assert_eq!(make_cache_entry("", &[]).imports, vec![]);
}

#[test]
fn what_is_stored_is_what_is_loaded() {
    let module = ModulePath::from_dotted("app.api");
    let edges = vec![
        link("app.api", "app.repo", 4),
        link("app.api", "service.core", 9),
        link("app.api", "app", 1),
    ];
    let hash = compute_hash_from_string("content");
    let entry = make_cache_entry(&hash, &edges);
    assert_eq!(try_load_cache(Some(&entry), &module, &hash), Some(edges));
    let changed = compute_hash_from_string("content!");
    assert_eq!(try_load_cache(Some(&entry), &module, &changed), None);
}

#[test]
fn where_a_record_is_kept() {
    let module = ModulePath::from_dotted("app.service.core");
    assert_eq!(cache_location("proj", &module), "proj/.importee_cache/app/service/core.imports.json");
    assert_eq!(cache_location("", &module), ".importee_cache/app/service/core.imports.json");
    assert_eq!(
        cache_location("/abs/proj/", &ModulePath::from_dotted("m")),
        "/abs/proj/.importee_cache/m.imports.json"
    );
    assert_eq!(
        cache_location("proj", &ModulePath::new(vec![])),
        "proj/.importee_cache/.imports.json"
    );
    assert_eq!(ignore_marker_path("proj"), "proj/.importee_cache/.gitignore");
}

#[test]
fn the_record_location_agrees_with_the_standard_path_type() {
    let module = ModulePath::from_dotted("app.service.core");
    let mut expected =
        std::path::Path::new("proj").join(".importee_cache").join(module.file_path());
    expected.set_extension("imports.json");
    assert_eq!(cache_location("proj", &module), expected.to_string_lossy());
}

#[test]
fn the_project_root_is_the_nearest_directory_with_a_manifest() {
    let root = Builder::new().prefix("importee_root_").tempdir().unwrap();
    let proj = processor_dir(root.path(), "proj");
    processor_file(&proj, "pyproject", ".toml");
    let src = processor_dir(&proj, "src");
    let pkg = processor_dir(&src, "pkg");
    let proj_text = proj.to_string_lossy().to_string();
    assert_eq!(find_project_root(&pkg.to_string_lossy()), proj_text);
    assert_eq!(find_project_root(&src.to_string_lossy()), proj_text);
    assert_eq!(find_project_root(&proj_text), proj_text);
    assert_eq!(find_project_root(&format!("{}/", pkg.to_string_lossy())), proj_text);
    let inner = processor_dir(&pkg, "inner");
    processor_file(&inner, "pyproject", ".toml");
    assert_eq!(find_project_root(&inner.to_string_lossy()), inner.to_string_lossy());
    let resolver = ImportResolver::new(pkg.to_string_lossy().to_string(), None, false);
    assert_eq!(
        cache_file_path(&resolver, &ModulePath::from_dotted("a.b")),
        format!("{}/.importee_cache/a/b.imports.json", proj_text)
    );
}

#[test]
fn without_a_manifest_the_start_is_the_project_root() {
    let root = Builder::new().prefix("importee_bare_").tempdir().unwrap();
    let deep = processor_dir(root.path(), "deep");
    let start = deep.to_string_lossy().to_string();
    let found = find_project_root(&start);
    let above_has_manifest = deep
        .ancestors()
        .any(|dir| dir.join("pyproject.toml").exists());
    if !above_has_manifest {
        assert_eq!(found, start);
    }
    assert_eq!(find_project_root("importee_no_such_dir/x"), "importee_no_such_dir/x");
    assert_eq!(find_project_root(""), "");
}

#[test]
fn every_failed_rule_raises_one_issue_for_every_edge() {
    let module = ModulePath::from_dotted("app.api");
    let strict = layers();
    let reversed = LinearOrderInFolder::new(
        ModulePath::from_dotted("app"),
        vec!["repo".to_string(), "api".to_string()],
    );
    let edges = vec![
        link("app.api", "app.repo", 2),
        link("app.api", "app.api", 3),
        link("app.api", "app.service", 5),
    ];
    let issues = check_edges(&module, &edges, &[&strict, &reversed]);
    assert_eq!(
        issues,
        vec![
            violation("app/api.py", 2, "app.repo", "api", "repo"),
            violation("app/api.py", 5, "app.service", "api", "service"),
        ]
    );
    let from_repo = vec![link("app.repo", "app.api", 7)];
    let issues = check_edges(&ModulePath::from_dotted("app.repo"), &from_repo, &[&strict, &reversed]);
    assert_eq!(issues, vec![violation("app/repo.py", 7, "app.api", "repo", "api")]);
    assert_eq!(check_edges::<LinearOrderInFolder>(&module, &edges, &[]), vec![]);
    assert_eq!(check_edges(&module, &[], &[&strict]), vec![]);
}

#[test]
fn a_fresh_file_is_extracted_and_its_record_handed_back() {
    let (_root, resolver) = layered_tree();
    let module = ModulePath::from_dotted("app.api");
    let content = "import os\nfrom app import repo\nimport app.service\n";
    let rule = layers();
    let report =
        process_source(&module, &RunConfig::default(), &resolver, &[&rule], content, None);
    assert_eq!(
        report.edges,
        vec![link("app.api", "app.repo", 2), link("app.api", "app.service", 3)]
    );
    assert_eq!(
        report.issues,
        vec![
            violation("app/api.py", 2, "app.repo", "api", "repo"),
            violation("app/api.py", 3, "app.service", "api", "service"),
        ]
    );
    assert_eq!(
        report.to_store,
        Some(CacheEntry {
            version: 2,
            hash: compute_hash_from_string(content),
            imports: vec![("app.repo".to_string(), 2), ("app.service".to_string(), 3)],
        })
    );
}

#[test]
fn an_unchanged_file_is_not_parsed_again() {
    let (_root, resolver) = layered_tree();
    let module = ModulePath::from_dotted("app.api");
    let content = "from app import repo\n";
    let rule = layers();
    let run = RunConfig::default();
    let first = process_source(&module, &run, &resolver, &[&rule], content, None);
    let stored = first.to_store.unwrap();
    let second = process_source(&module, &run, &resolver, &[&rule], content, Some(&stored));
    assert_eq!(second.edges, first.edges);
    assert_eq!(second.issues, first.issues);
    assert_eq!(second.to_store, None);

    let unparsable = "def broken(:\n";
    let record = CacheEntry {
        version: 2,
        hash: compute_hash_from_string(unparsable),
        imports: vec![("app.repo".to_string(), 9)],
    };
    let from_record = process_source(&module, &run, &resolver, &[&rule], unparsable, Some(&record));
    assert_eq!(from_record.edges, vec![link("app.api", "app.repo", 9)]);
    assert_eq!(from_record.issues, vec![violation("app/api.py", 9, "app.repo", "api", "repo")]);
    assert_eq!(from_record.to_store, None);
}

#[test]
fn a_valid_record_without_edges_is_used_as_it_is() {
    let (_root, resolver) = layered_tree();
    let module = ModulePath::from_dotted("app.api");
    let content = "from app import repo\n";
    let record =
        CacheEntry { version: 2, hash: compute_hash_from_string(content), imports: vec![] };
    let rule = layers();
    let report = process_source(
        &module,
        &RunConfig::default(),
        &resolver,
        &[&rule],
        content,
        Some(&record),
    );
    assert_eq!(report.edges, vec![]);
    assert_eq!(report.issues, vec![]);
    assert_eq!(report.to_store, None);
}

#[test]
fn a_changed_file_is_parsed_again_and_its_record_renewed() {
    let (_root, resolver) = layered_tree();
    let module = ModulePath::from_dotted("app.api");
    let rule = layers();
    let run = RunConfig::default();
    let before = "from app import repo\n";
    let first = process_source(&module, &run, &resolver, &[&rule], before, None);
    let stored = first.to_store.unwrap();
    let after = "\nfrom app import service\n";
    let second = process_source(&module, &run, &resolver, &[&rule], after, Some(&stored));
    assert_eq!(second.edges, vec![link("app.api", "app.service", 2)]);
    assert_eq!(
        second.to_store,
        Some(CacheEntry {
            version: 2,
            hash: compute_hash_from_string(after),
            imports: vec![("app.service".to_string(), 2)],
        })
    );
    let old_format =
        CacheEntry { version: 1, hash: compute_hash_from_string(after), imports: vec![] };
    let third = process_source(&module, &run, &resolver, &[&rule], after, Some(&old_format));
    assert_eq!(third.edges, second.edges);
    assert_eq!(third.to_store, second.to_store);
}

#[test]
fn with_the_cache_switched_off_nothing_is_loaded_or_stored() {
    let (_root, resolver) = layered_tree();
    let module = ModulePath::from_dotted("app.api");
    let content = "from app import repo\n";
    let record = CacheEntry {
        version: 2,
        hash: compute_hash_from_string(content),
        imports: vec![("app.service".to_string(), 5)],
    };
    let run = RunConfig { verbose: None, quiet: None, no_cache: Some(true) };
    let rule = layers();
    let report = process_source(&module, &run, &resolver, &[&rule], content, Some(&record));
    assert_eq!(report.edges, vec![link("app.api", "app.repo", 1)]);
    assert_eq!(report.to_store, None);
}

#[test]
fn a_module_that_names_a_directory_is_not_processed() {
    let root = Builder::new().prefix("importee_dirmod_").tempdir().unwrap();
    let app = processor_dir(root.path(), "app");
    processor_file(&app, "repo", ".py");
    processor_file(&app, "__init__", ".py");
    let resolver = ImportResolver::new(app.to_string_lossy().to_string(), None, false);
    let rule = LinearOrderInFolder::new(ModulePath::new(vec![]), vec![]);
    let run = RunConfig::default();
    let as_dir = ModulePath::new(vec![root.path().to_string_lossy().to_string(), "app".to_string()]);
    let blank = process_file_with_rules(&as_dir, &run, &resolver, &[&rule], "import repo\n", None);
    assert_eq!(blank.edges, vec![]);
    assert_eq!(blank.issues, vec![]);
    assert_eq!(blank.to_store, None);
    let as_file =
        ModulePath::new(vec![root.path().to_string_lossy().to_string(), "app".to_string(), "x".to_string()]);
    let report = process_file_with_rules(&as_file, &run, &resolver, &[&rule], "import repo\n", None);
    assert_eq!(report.edges.len(), 1);
    assert_eq!(report.edges[0].target_module, ModulePath::from_dotted("repo"));
    assert!(report.to_store.is_some());
}

#[test]
fn the_rules_of_concern_raise_the_issues_of_all_rules() {
    let rules = vec![
        layers(),
        LinearOrderInFolder::new(
            ModulePath::from_dotted("app.api"),
            vec!["low".to_string(), "high".to_string()],
        ),
        LinearOrderInFolder::new(ModulePath::from_dotted("lib"), vec!["x".to_string()]),
        LinearOrderInFolder::new(
            ModulePath::from_dotted("app.service"),
            vec!["a".to_string(), "b".to_string()],
        ),
    ];
    let all: Vec<&LinearOrderInFolder> = rules.iter().collect();
    let path = ModulePath::from_dotted("app.api");
    let relevant = relevant_rules(&rules, &path);
    assert_eq!(relevant.len(), 2);
    for from in ["app.api", "app.api.low.m", "app.api.high"] {
        let module = ModulePath::from_dotted(from);
        let edges = vec![
            link(from, "app.repo.db", 1),
            link(from, "app.api.high.n", 2),
            link(from, "app.service.b.z", 3),
            link(from, "lib.x", 4),
        ];
        let by_all = check_edges(&module, &edges, &all);
        let by_relevant = check_edges(&module, &edges, &relevant);
        assert_eq!(by_all, by_relevant);
        assert!(!by_all.is_empty());
    }
    let elsewhere = ModulePath::from_dotted("tools.scripts");
    assert!(relevant_rules(&rules, &elsewhere).is_empty());
    let edges = vec![link("tools.scripts.run", "app.repo", 1), link("tools.scripts.run", "lib.x", 2)];
    assert_eq!(check_edges(&ModulePath::from_dotted("tools.scripts.run"), &edges, &all), vec![]);
}

#[test]
fn what_names_a_directory_yields_a_blank_report() {
    let (_root, resolver) = layered_tree();
    let module = ModulePath::from_dotted("app.api");
    let content = "from app import repo\n";
    let rule = layers();
    let run = RunConfig::default();
    let blank = process_unless_directory(true, &module, &run, &resolver, &[&rule], content, None);
    assert_eq!(blank.edges, vec![]);
    assert_eq!(blank.issues, vec![]);
    assert_eq!(blank.to_store, None);
    let full = process_unless_directory(false, &module, &run, &resolver, &[&rule], content, None);
    let direct = process_source(&module, &run, &resolver, &[&rule], content, None);
    assert_eq!(full.edges, vec![link("app.api", "app.repo", 1)]);
    assert_eq!(full.edges, direct.edges);
    assert_eq!(full.issues, direct.issues);
    assert_eq!(full.to_store, direct.to_store);
}

#[test]
fn one_step_of_the_search_for_the_project_root() {
    assert_eq!(root_step("a/b", true), RootStep::Found);
    assert_eq!(root_step("", true), RootStep::Found);
    assert_eq!(root_step("a/b", false), RootStep::Up("a".to_string()));
    assert_eq!(root_step("a", false), RootStep::Up(String::new()));
    assert_eq!(root_step("/a", false), RootStep::Up("/".to_string()));
    assert_eq!(root_step("/", false), RootStep::Fallback);
    assert_eq!(root_step("", false), RootStep::Fallback);
}

#[test]
fn the_nearest_manifest_wins_over_one_further_up() {
    let root = Builder::new().prefix("importee_nearest_").tempdir().unwrap();
    processor_file(root.path(), "pyproject", ".toml");
    let outer = processor_dir(root.path(), "outer");
    let inner = processor_dir(&outer, "inner");
    processor_file(&inner, "pyproject", ".toml");
    let leaf = processor_dir(&inner, "leaf");
    assert_eq!(find_project_root(&leaf.to_string_lossy()), inner.to_string_lossy());
    assert_eq!(find_project_root(&outer.to_string_lossy()), root.path().to_string_lossy());
}
