//! Line-oriented scanner for performance anti-patterns in source text.
//!
//! A file is read line by line, once. The scanner follows brace nesting,
//! lexical scopes and loop bodies, classifies declared variables by the text
//! of their initialisers, and runs a fixed set of detectors on each line.
//! What they find is reported under the rules of a catalog.

use vstd::prelude::*;

pub mod classify;
pub mod cli;
pub mod defaults;
pub mod laws;
pub mod linter;
pub mod model;
pub mod patterns;
pub mod rules;
pub mod scope;
pub mod text;
pub mod violations;
pub mod walk;

pub use linter::lint_source;
pub use walk::lint_path;
pub use linter::Diagnostic;
pub use rules::Rule;
pub use rules::RuleRegistry;

verus! {

/// The default catalog. It has a rule for every detector.
#[must_use]
pub fn registry() -> (r: RuleRegistry)
    ensures
        r@ == rules::sort_rules(defaults::default_rows()),
        defaults::covers_detectors(r@),
        forall|i: int| 0 <= i < r@.len() ==> rules::valid_rule(#[trigger] r@[i]),
{
    RuleRegistry::global()
}

} // verus!
