use importee::configs::project::{LinearRuleDef, ProjectConfig, ProjectRulesConfig};
use importee::configs::run::RunConfig;
use importee::imports::import_line::ImportLine;
use importee::modpath::ModulePath;
use importee::rules::linear::LinearOrderInFolder;
use importee::rules::{build_rules, scope_of, ImportRule, RuleOutcome};

fn names(parts: &[&str]) -> Vec<String> {
    parts.iter().map(|p| p.to_string()).collect()
}

fn layered() -> LinearOrderInFolder {
    LinearOrderInFolder::new(ModulePath::from_dotted("app"), names(&["api", "service", "repo"]))
}

fn edge(from: &str, target: &str) -> ImportLine {
    ImportLine {
        from_module: ModulePath::from_dotted(from),
        target_module: ModulePath::from_dotted(target),
        import_line: 3,
    }
}

#[test]
fn layering_passes_toward_lower_rank() {
    let out = layered().check_line("app/repo/x.py", &edge("app.repo.x", "app.api.y"));
    assert_eq!(
        out,
        RuleOutcome { pass: true, reason: "ok: repo can import api".to_string() }
    );
}

#[test]
fn layering_fails_toward_higher_rank() {
    let out = layered().check_line("app/api/x.py", &edge("app.api.x", "app.repo.y"));
    assert!(!out.pass);
    assert_eq!(out.reason, "order violation: 'api' cannot import from 'repo'");
    assert!(out.reason.contains("api"));
    assert!(out.reason.contains("repo"));
}

#[test]
fn layering_every_pair_of_ranks() {
    let rule = layered();
    let layers = ["api", "service", "repo"];
    for (from_rank, from) in layers.iter().enumerate() {
        for (target_rank, target) in layers.iter().enumerate() {
            let e = edge(&format!("app.{}.m", from), &format!("app.{}.n", target));
            assert_eq!(rule.check_line("f.py", &e).pass, target_rank <= from_rank);
        }
    }
}

#[test]
fn same_layer_passes() {
    let out = layered().check_line("f.py", &edge("app.service.a", "app.service.b"));
    assert_eq!(out.reason, "ok: service can import service");
    assert!(out.pass);
}

#[test]
fn out_of_scope_is_a_no_op() {
    let rule = layered();
    let from_outside = rule.check_line("f.py", &edge("other.api.x", "app.repo.y"));
    assert_eq!(
        from_outside,
        RuleOutcome { pass: true, reason: "out of scope (not under source folder)".to_string() }
    );
    let target_outside = rule.check_line("f.py", &edge("app.api.x", "lib.repo.y"));
    assert_eq!(
        target_outside,
        RuleOutcome {
            pass: true,
            reason: "out of scope (target not under source folder)".to_string()
        }
    );
    let both_outside = rule.check_line("f.py", &edge("x.api", "y.repo"));
    assert!(both_outside.pass);
    assert!(both_outside.reason.starts_with("out of scope"));
}

#[test]
fn out_of_scope_whatever_the_order() {
    let orders: [&[&str]; 4] = [&[], &["repo", "api"], &["api", "repo"], &["x", "x", "api"]];
    for order in orders {
        let rule = LinearOrderInFolder::new(ModulePath::from_dotted("app.core"), names(order));
        for (from, target) in [("app.api.x", "app.core.repo.y"), ("app.core.api.x", "app.repo.y")]
        {
            let out = rule.check_line("f.py", &edge(from, target));
            assert!(out.pass);
            assert!(out.reason.starts_with("out of scope"));
        }
    }
}

#[test]
fn the_scope_itself_has_no_layer() {
    let rule = layered();
    let to_scope = rule.check_line("f.py", &edge("app.api.x", "app"));
    assert_eq!(to_scope, RuleOutcome { pass: true, reason: "empty target head".to_string() });
    let from_scope = rule.check_line("f.py", &edge("app", "app.repo.y"));
    assert_eq!(from_scope, RuleOutcome { pass: true, reason: "empty current head".to_string() });
}

#[test]
fn unranked_layers_are_not_constrained() {
    let rule = layered();
    let out = rule.check_line("f.py", &edge("app.api.x", "app.tools.y"));
    assert_eq!(out, RuleOutcome { pass: true, reason: "ok: api can import tools".to_string() });
    let out = rule.check_line("f.py", &edge("app.tools.x", "app.repo.y"));
    assert_eq!(out, RuleOutcome { pass: true, reason: "ok: tools can import repo".to_string() });
}

#[test]
fn an_empty_scope_ranks_the_first_segment() {
    let rule = LinearOrderInFolder::new(ModulePath::new(vec![]), names(&["low", "high"]));
    assert!(!rule.check_line("f.py", &edge("low.a", "high.b")).pass);
    assert!(rule.check_line("f.py", &edge("high.a", "low.b")).pass);
}

#[test]
fn rank_is_the_last_position_of_a_name() {
    let rule = LinearOrderInFolder::new(ModulePath::from_dotted("p"), names(&["a", "b", "a"]));
    assert_eq!(rule.rank("a"), Some(2));
    assert_eq!(rule.rank("b"), Some(1));
    assert_eq!(rule.rank("c"), None);
    assert!(!rule.check_line("f.py", &edge("p.b.x", "p.a.y")).pass);
    assert!(rule.check_line("f.py", &edge("p.a.x", "p.b.y")).pass);
    assert_eq!(layered().rank("api"), Some(0));
    assert_eq!(layered().rank("repo"), Some(2));
}

#[test]
fn rule_name_and_description() {
    let rule = layered();
    assert_eq!(rule.name(), "Linear");
    assert_eq!(rule.describe(), "folder=app order=api -> service -> repo");
    let bare = LinearOrderInFolder::new(ModulePath::new(vec![]), vec![]);
    assert_eq!(bare.describe(), "folder=<unknown> order=<unspecified>");
    let repeated =
        LinearOrderInFolder::new(ModulePath::from_dotted("p.q"), names(&["a", "b", "a"]));
    assert_eq!(repeated.describe(), "folder=p.q order=b -> a");
}

#[test]
fn concern_holds_along_one_line_of_the_tree() {
    let rule = LinearOrderInFolder::new(ModulePath::from_dotted("app.core"), names(&["a"]));
    assert!(rule.concern(&ModulePath::new(vec![])));
    assert!(rule.concern(&ModulePath::from_dotted("app")));
    assert!(rule.concern(&ModulePath::from_dotted("app.core")));
    assert!(rule.concern(&ModulePath::from_dotted("app.core.a.m")));
    assert!(!rule.concern(&ModulePath::from_dotted("app.other")));
    assert!(!rule.concern(&ModulePath::from_dotted("lib")));
}

#[test]
fn what_is_of_no_concern_passes() {
    let rule = LinearOrderInFolder::new(ModulePath::from_dotted("app.core"), names(&["a", "b"]));
    let path = ModulePath::from_dotted("app.other");
    assert!(!rule.concern(&path));
    for target in ["app.core.b.x", "app.core.a.x", "app.other.y", "zzz"] {
        assert!(rule.check_line("f.py", &edge("app.other.a.m", target)).pass);
    }
}

#[test]
fn rules_are_built_in_configured_order() {
    let project = ProjectConfig {
        source_modules: vec![ModulePath::from_dotted("main"), ModulePath::from_dotted("side")],
        rules: ProjectRulesConfig {
            linear: vec![
                LinearRuleDef { order: names(&["a", "b"]), source_module: ModulePath::default() },
                LinearRuleDef {
                    order: names(&["x"]),
                    source_module: ModulePath::from_dotted("side.inner"),
                },
            ],
        },
        exclude: vec![],
    };
    let rules = build_rules(&project, &RunConfig::default());
    assert_eq!(rules.len(), 2);
    assert_eq!(rules[0].describe(), "folder=main order=a -> b");
    assert_eq!(rules[1].describe(), "folder=side.inner order=x");
}

#[test]
fn a_rule_without_scope_in_a_project_without_sources() {
    let project = ProjectConfig {
        source_modules: vec![],
        rules: ProjectRulesConfig {
            linear: vec![LinearRuleDef {
                order: names(&["a"]),
                source_module: ModulePath::default(),
            }],
        },
        exclude: vec![],
    };
    let rules = build_rules(&project, &RunConfig::default());
    assert_eq!(rules.len(), 1);
    assert_eq!(rules[0].describe(), "folder=<unknown> order=a");
    assert_eq!(build_rules(&ProjectConfig::default(), &RunConfig::default()).len(), 0);
}

#[test]
fn the_scope_of_a_configured_rule() {
    let sources = vec![ModulePath::from_dotted("main"), ModulePath::from_dotted("side")];
    assert_eq!(scope_of(&ModulePath::from_dotted("own.scope"), &sources).to_dotted(), "own.scope");
    assert_eq!(scope_of(&ModulePath::default(), &sources).to_dotted(), "main");
    assert_eq!(scope_of(&ModulePath::default(), &[]), ModulePath::default());
    assert_eq!(scope_of(&ModulePath::from_dotted("own"), &[]).to_dotted(), "own");
}
