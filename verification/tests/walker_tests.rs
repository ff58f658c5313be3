use importee::configs::project::{ProjectConfig, ProjectRulesConfig};
use importee::modpath::ModulePath;
use importee::rules::linear::LinearOrderInFolder;
use importee::rules::ImportRule;
use importee::walker::{
    classify_entry, plan_visit, relevant_rules, resolver_for_root, scan_roots, source_stem,
    EntryAction, Visit,
};

fn order(parts: &[&str]) -> Vec<String> {
    parts.iter().map(|p| p.to_string()).collect()
}

#[test]
fn bytecode_directories_are_passed_over() {
    let parent = ModulePath::from_dotted("app");
    assert_eq!(classify_entry(&parent, "__pycache__", true, false), EntryAction::Skip);
    assert_eq!(
        classify_entry(&ModulePath::new(vec![]), "__pycache__", true, false),
        EntryAction::Skip
    );
}

#[test]
fn a_file_named_like_the_bytecode_directory_is_no_module() {
    let parent = ModulePath::from_dotted("app");
    assert_eq!(classify_entry(&parent, "__pycache__", false, true), EntryAction::Skip);
}

#[test]
fn other_directories_are_entered() {
    let parent = ModulePath::from_dotted("app");
    assert_eq!(
        classify_entry(&parent, "api", true, false),
        EntryAction::Descend(ModulePath::from_dotted("app.api"))
    );
    assert_eq!(
        classify_entry(&parent, "v1.py", true, false),
        EntryAction::Descend(parent.append("v1.py".to_string()))
    );
}

#[test]
fn only_source_files_are_processed() {
    let parent = ModulePath::from_dotted("app");
    assert_eq!(
        classify_entry(&parent, "x.py", false, true),
        EntryAction::Process(ModulePath::from_dotted("app.x"))
    );
    for name in ["x.pyi", "x.pyc", "x.so", "x", "x.txt", ".py", "py", "x.PY", "x.py.bak", ""] {
        assert_eq!(classify_entry(&parent, name, false, true), EntryAction::Skip);
    }
}

#[test]
fn what_is_neither_file_nor_directory_is_passed_over() {
    let parent = ModulePath::from_dotted("app");
    assert_eq!(classify_entry(&parent, "x.py", false, false), EntryAction::Skip);
}

#[test]
fn stem_is_what_precedes_the_extension() {
    assert_eq!(source_stem("a.py"), Some("a".to_string()));
    assert_eq!(source_stem("a.b.py"), Some("a.b".to_string()));
    assert_eq!(source_stem("__init__.py"), Some("__init__".to_string()));
    assert_eq!(source_stem("..py"), Some(".".to_string()));
    assert_eq!(source_stem(".py"), None);
    assert_eq!(source_stem("apy"), None);
    assert_eq!(source_stem("a.pyc"), None);
    assert_eq!(source_stem(""), None);
}

#[test]
fn stem_agrees_with_the_standard_path_type() {
    for name in ["a.py", "a.b.py", ".py", "..py", "x", "x.pyi", ".hidden.py", "é.py"] {
        let path = std::path::Path::new(name);
        let expected = if path.extension().and_then(|e| e.to_str()) == Some("py") {
            path.file_stem().and_then(|s| s.to_str()).map(|s| s.to_string())
        } else {
            None
        };
        assert_eq!(source_stem(name), expected);
    }
}

#[test]
fn a_run_starts_at_the_sources_or_at_the_working_directory() {
    let none = ProjectConfig::default();
    assert_eq!(scan_roots(&none), vec![ModulePath::new(vec![])]);
    let some = ProjectConfig {
        source_modules: vec![ModulePath::from_dotted("a"), ModulePath::from_dotted("b.c")],
        rules: ProjectRulesConfig::default(),
        exclude: vec![],
    };
    assert_eq!(
        scan_roots(&some),
        vec![ModulePath::from_dotted("a"), ModulePath::from_dotted("b.c")]
    );
}

#[test]
fn the_resolver_of_a_root() {
    let root = ModulePath::from_dotted("app.core");
    assert_eq!(resolver_for_root(&root, true, false).root_dir(), "app/core");
    assert_eq!(resolver_for_root(&root, false, false).root_dir(), "app");
    let top = ModulePath::from_dotted("app");
    assert_eq!(resolver_for_root(&top, false, false).root_dir(), "");
    let empty = ModulePath::new(vec![]);
    assert_eq!(resolver_for_root(&empty, true, false).root_dir(), "");
    assert_eq!(resolver_for_root(&empty, false, false).root_dir(), ".");
}

#[test]
fn the_namespace_of_a_root_is_its_first_segment() {
    let with = resolver_for_root(&ModulePath::from_dotted("app.core"), true, false);
    assert!(with.has_namespace("app"));
    assert!(with.has_namespace("app.x"));
    assert!(!with.has_namespace("core"));
    let without = resolver_for_root(&ModulePath::new(vec![]), true, false);
    assert!(!without.has_namespace("app"));
    assert_eq!(without.namespace_rest("app.x"), Some("app.x".to_string()));
}

#[test]
fn rules_are_filtered_by_concern() {
    let rules = vec![
        LinearOrderInFolder::new(ModulePath::from_dotted("app.core"), order(&["a"])),
        LinearOrderInFolder::new(ModulePath::from_dotted("lib"), order(&["b"])),
        LinearOrderInFolder::new(ModulePath::from_dotted("app"), order(&["c"])),
    ];
    let at = |path: &str| -> Vec<String> {
        relevant_rules(&rules, &ModulePath::from_dotted(path))
            .iter()
            .map(|r| r.describe())
            .collect()
    };
    assert_eq!(at("app"), vec!["folder=app.core order=a", "folder=app order=c"]);
    assert_eq!(at("app.core.x"), vec!["folder=app.core order=a", "folder=app order=c"]);
    assert_eq!(at("app.other"), vec!["folder=app order=c"]);
    assert_eq!(at("lib.x"), vec!["folder=lib order=b"]);
    assert_eq!(at("elsewhere"), Vec::<String>::new());
    assert_eq!(at("").len(), 3);
}

#[test]
fn a_path_of_no_concern_is_skipped_whatever_it_names() {
    let none: Vec<&LinearOrderInFolder> = vec![];
    for is_dir in [false, true] {
        for is_file in [false, true] {
            for source_is_file in [false, true] {
                assert_eq!(plan_visit(&none, is_dir, is_file, source_is_file), Visit::Skip);
            }
        }
    }
}

#[test]
fn a_path_of_concern_is_walked_or_processed() {
    let rule = LinearOrderInFolder::new(ModulePath::from_dotted("app"), order(&["a"]));
    let some = vec![&rule];
    assert_eq!(plan_visit(&some, true, false, false), Visit::Walk);
    assert_eq!(plan_visit(&some, true, false, true), Visit::Walk);
    assert_eq!(plan_visit(&some, false, true, false), Visit::ProcessOne);
    assert_eq!(plan_visit(&some, false, false, true), Visit::ProcessOne);
    assert_eq!(plan_visit(&some, false, false, false), Visit::Skip);
}
