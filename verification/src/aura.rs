//! Built-in registration of the aura extension set.
//!
//! The aura extensions add annotation statements for capability guards,
//! flow costs and journal facts to the choreographic language. This
//! module builds a registry with those extensions already in place, so
//! an embedding gets the full extension set with one call.

use vstd::prelude::*;
use crate::extensions::ExtensionRegistry;
use crate::extensions::GrammarExtension;
use crate::extensions::StatementParser;
use vstd::string::StringExecFns;

verus! {

/// A registry holding the aura grammar extension and its statement
/// parser.
pub fn init_aura_extensions() -> (r: ExtensionRegistry)
    ensures
        r@.exts.len() == 1,
        r@.parsers.len() == 1,
        r@.bindings.len() == 1,
{
    let mut registry = ExtensionRegistry::new();
    let mut rules: Vec<String> = Vec::new();
    rules.push(String::from_str("aura_stmt"));
    let ext = GrammarExtension::new(
        String::from_str("aura"),
        String::from_str(
            "aura_stmt = { (\"guard_capability\" | \"flow_cost\" | \"journal_facts\") ~ \"=\" ~ literal ~ \";\" }",
        ),
        rules,
    );
    registry.register_grammar(ext);
    let mut parser_rules: Vec<String> = Vec::new();
    parser_rules.push(String::from_str("aura_stmt"));
    registry.register_parser(StatementParser::new(parser_rules), String::from_str("aura"));
    registry
}

} // verus!
