//! Grammar composition and extension registry behaviour.

use choreography::extensions::ExtensionRegistry;
use choreography::extensions::GrammarExtension;
use choreography::extensions::StatementParser;
use choreography::grammar::GrammarComposer;
use choreography::grammar::GrammarComposerBuilder;
use choreography::grammar::GrammarCompositionError;

fn test_extension() -> GrammarExtension {
    GrammarExtension::new(
        "test_timeout".to_string(),
        "timeout_stmt = { \"timeout\" ~ integer ~ \"{\" ~ protocol_body ~ \"}\" }".to_string(),
        vec!["timeout_stmt".to_string()],
    )
}

fn mock_extension() -> GrammarExtension {
    GrammarExtension::new(
        "mock_timeout".to_string(),
        "timeout_stmt = { \"timeout\" ~ integer ~ protocol_block }".to_string(),
        vec!["timeout_stmt".to_string()],
    )
}

#[test]
fn test_grammar_composer_creation() {
    let composer = GrammarComposer::new();
    assert_eq!(composer.extension_count(), 0);
    assert!(composer.base_grammar().contains("choreography"));
    assert!(composer.base_grammar().contains("annotated_stmt"));
}

#[test]
fn test_extension_registration() {
    let mut composer = GrammarComposer::new();
    composer.register_extension(test_extension());
    assert_eq!(composer.extension_count(), 1);
    assert!(composer.has_extension_rule("timeout_stmt"));
}

#[test]
fn test_grammar_composition() {
    let mut composer = GrammarComposer::new();
    composer.register_extension(test_extension());

    let result = composer.compose();
    assert!(result.is_ok(), "Grammar composition should succeed");

    let composed = result.unwrap();
    assert!(composed.contains("timeout_stmt"));
    assert!(composed.contains("choreography"));
    assert!(composed.contains("// Extension Rules"));
}

#[test]
fn test_builder_pattern() {
    let composer = GrammarComposerBuilder::new().with_extension(test_extension()).build();

    assert_eq!(composer.extension_count(), 1);
    assert!(composer.has_extension_rule("timeout_stmt"));
}

#[test]
fn test_validation() {
    let composer = GrammarComposer::new();

    let valid_result = composer.validate_base_grammar(composer.base_grammar().as_str());
    assert!(valid_result.is_ok(), "Base grammar should be valid");

    let composed = composer.compose().unwrap();
    let validation_result = composer.validate_composed_grammar(&composed);
    assert!(validation_result.is_ok(), "Composed grammar should be valid");
}

#[test]
fn test_extension_registry() {
    let mut registry = ExtensionRegistry::new();

    registry.register_grammar(mock_extension());

    assert!(registry.can_handle("timeout_stmt"));
    assert!(!registry.can_handle("unknown_rule"));

    let base = "basic_rule = { \"test\" }";
    let composed = registry.compose_grammar(base);
    assert!(composed.contains("basic_rule"));
    assert!(composed.contains("timeout_stmt"));
}

#[test]
fn test_extension_registry_initialization() {
    let registry = choreography::aura::init_aura_extensions();
    assert!(registry.grammar_extensions().len() > 0);
}

#[test]
fn composition_is_deterministic() {
    let mut composer = GrammarComposer::new();
    composer.register_extension(test_extension());
    composer.register_extension(GrammarExtension::with_priority(
        "aura".to_string(),
        "aura_stmt = { \"guard\" }".to_string(),
        vec!["aura_stmt".to_string()],
        200,
    ));
    let first = composer.compose().unwrap();
    let second = composer.compose().unwrap();
    assert_eq!(first, second);
}

#[test]
fn duplicate_claims_fail_either_order() {
    let a = GrammarExtension::new(
        "alpha".to_string(),
        "x_stmt = { \"a\" }".to_string(),
        vec!["x_stmt".to_string()],
    );
    let b = GrammarExtension::new(
        "beta".to_string(),
        "x_stmt_b = { \"b\" }".to_string(),
        vec!["x_stmt".to_string()],
    );

    let mut c1 = GrammarComposer::new();
    c1.register_extension(a.clone());
    c1.register_extension(b.clone());
    assert!(matches!(c1.compose(), Err(GrammarCompositionError::DuplicateRule(_))));

    let mut c2 = GrammarComposer::new();
    c2.register_extension(b);
    c2.register_extension(a);
    assert!(matches!(c2.compose(), Err(GrammarCompositionError::DuplicateRule(_))));
}

#[test]
fn priority_orders_rule_text() {
    let low = GrammarExtension::with_priority(
        "low_ext".to_string(),
        "low_stmt = { \"low\" }".to_string(),
        vec!["low_stmt".to_string()],
        50,
    );
    let high = GrammarExtension::with_priority(
        "high_ext".to_string(),
        "high_stmt = { \"high\" }".to_string(),
        vec!["high_stmt".to_string()],
        200,
    );
    let mut composer = GrammarComposer::new();
    composer.register_extension(low);
    composer.register_extension(high);
    let composed = composer.compose().unwrap();
    let hi = composed.find("high_stmt = {").unwrap();
    let lo = composed.find("low_stmt = {").unwrap();
    assert!(hi < lo, "the higher-priority rule text must come first");
}

#[test]
fn single_extension_splices_once() {
    let ext = GrammarExtension::new(
        "timer".to_string(),
        "timeout_stmt = { \"timeout\" ~ integer ~ protocol_body }".to_string(),
        vec!["timeout_stmt".to_string()],
    );
    let mut composer = GrammarComposer::new();
    composer.register_extension(ext);
    let composed = composer.compose().unwrap();
    // spliced into the statement alternation
    assert!(composed.contains("| timeout_stmt)"));
    // the full rule body appears exactly once
    let body = "timeout_stmt = { \"timeout\" ~ integer ~ protocol_body }";
    assert_eq!(composed.matches(body).count(), 1);
}

#[test]
fn missing_marker_is_reported() {
    let composer = GrammarComposer::new();
    let r = composer.validate_base_grammar("no markers at all");
    match r {
        Err(GrammarCompositionError::InvalidBaseGrammar(msg)) => {
            assert_eq!(msg, "Missing required rule: annotated_stmt = {");
        },
        _ => panic!("expected an invalid-base-grammar error"),
    }
}

#[test]
fn composed_validation_finds_duplicates_and_braces() {
    let composer = GrammarComposer::new();
    let dup = "foo = { \"a\" }\nfoo = { \"b\" }\n";
    match composer.validate_composed_grammar(dup) {
        Err(GrammarCompositionError::DuplicateRule(name)) => assert_eq!(name, "foo"),
        _ => panic!("expected a duplicate-rule error"),
    }
    let unbalanced = "foo = { \"a\" }\nbar = { \"b\" \n";
    assert!(matches!(
        composer.validate_composed_grammar(unbalanced),
        Err(GrammarCompositionError::SyntaxError(_))
    ));
}

#[test]
fn parser_registration_resolves_rules() {
    let mut registry = ExtensionRegistry::new();
    registry.register_grammar(mock_extension());
    registry.register_parser(
        StatementParser::new(vec!["timeout_stmt".to_string()]),
        "mock_timeout".to_string(),
    );
    let parser = registry.find_parser("timeout_stmt").expect("rule should resolve");
    assert!(parser.can_parse("timeout_stmt"));
    assert!(!parser.can_parse("other_rule"));
    assert!(registry.find_parser("unknown_rule").is_none());
}

#[test]
fn registering_from_reference_works() {
    let ext = test_extension();
    let mut composer = GrammarComposer::new();
    assert!(composer.register_extension_from_trait(&ext).is_ok());
    assert_eq!(composer.extension_count(), 1);
    assert!(composer.has_extension_rule("timeout_stmt"));
}
