//! Project-scoped configuration.

use crate::modpath::ModulePath;
use vstd::prelude::*;

verus! {

/// One layered-order rule as configured: the names in their order, and the
/// module below which the rule applies. An empty `source_module` stands for
/// the project's first source module.
#[derive(Debug, Clone, Default)]
pub struct LinearRuleDef {
    pub order: Vec<String>,
    pub source_module: ModulePath,
}

/// The rules of a project.
#[derive(Debug, Clone, Default)]
pub struct ProjectRulesConfig {
    pub linear: Vec<LinearRuleDef>,
}

/// What a project says of itself: the modules to scan, its rules, and the
/// glob patterns to leave out.
#[derive(Debug, Clone, Default)]
pub struct ProjectConfig {
    pub source_modules: Vec<ModulePath>,
    pub rules: ProjectRulesConfig,
    pub exclude: Vec<String>,
}

} // verus!
