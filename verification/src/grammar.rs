//! Grammar composition.
//!
//! The composer merges the fixed base grammar with the rule text of every
//! registered extension. Statement-rule names are spliced into the base
//! grammar's designated statement alternation, full rule bodies are
//! appended after the base text, and the composed result is re-validated:
//! no duplicate rule names, balanced braces. Composition is deterministic:
//! the result is a function of the base text and the registry alone.

use vstd::prelude::*;
use crate::extensions::claims_of;
use crate::extensions::ext_rules_concat;
use crate::extensions::sort_exts;
use crate::extensions::string_views;
use crate::extensions::ExtensionRegistry;
use crate::extensions::GrammarExtension;
use crate::extensions::GrammarExtensionView;
use crate::text;
use crate::text::before_first_spec;
use crate::text::contains_sub;
use crate::text::count_char_spec;
use crate::text::find_from;
use crate::text::is_blank;
use crate::text::join_spec;
use crate::text::split_char_spec;
use crate::text::starts_with_spec;
use crate::text::trim_spec;
use crate::text::views_of;
use vstd::string::StringExecFns;

verus! {

/// The built-in base grammar of the choreographic language. Every
/// statement form reachable from `annotated_stmt`'s alternation; the
/// composer splices extension statements into that alternation.
pub const BASE_GRAMMAR: &'static str = "// Choreography base grammar\nchoreography = { annotation* ~ protocol_decl }\nprotocol_decl = { protocol_kw ~ identifier ~ \"{\" ~ roles_decl ~ protocol_body ~ \"}\" }\nprotocol_kw = { \"protocol\" | \"choreography\" }\nroles_decl = { \"roles:\" ~ role_decl ~ (\",\" ~ role_decl)* ~ \";\" }\nrole_decl = { identifier ~ role_range? }\nrole_range = { \"[\" ~ (integer | \"*\") ~ \"]\" }\nprotocol_body = { annotated_stmt* }\nannotated_stmt = { annotation* ~ (send_stmt | broadcast_stmt | choice_stmt | loop_stmt) }\nsend_stmt = { role_ref ~ \"->\" ~ role_ref ~ \":\" ~ identifier ~ \";\" }\nbroadcast_stmt = { role_ref ~ \"->\" ~ identifier ~ \"[*]\" ~ \":\" ~ identifier ~ \";\" }\nchoice_stmt = { \"choice\" ~ \"at\" ~ role_ref ~ \"{\" ~ branch+ ~ \"}\" }\nbranch = { identifier ~ \":\" ~ \"{\" ~ protocol_body ~ \"}\" }\nloop_stmt = { \"loop\" ~ \"{\" ~ protocol_body ~ \"}\" }\nannotation = { \"[\" ~ identifier ~ (\"=\" ~ literal)? ~ \"]\" }\nrole_ref = { identifier ~ (\"[\" ~ (integer | \"*\") ~ \"]\")? }\nidentifier = { ASCII_ALPHA ~ (ASCII_ALPHANUMERIC | \"_\")* }\ninteger = { ASCII_DIGIT+ }\nliteral = { integer | identifier }\n";

/// Errors of grammar composition.
#[derive(Debug)]
pub enum GrammarCompositionError {
    /// The base grammar misses a required extension point: a defect in
    /// the core or its embedding, not in user input.
    InvalidBaseGrammar(String),
    /// One rule name is defined or claimed twice.
    DuplicateRule(String),
    /// The composed text fails the well-formedness sanity check.
    SyntaxError(String),
    /// Two extensions conflict.
    ExtensionConflict(String),
    /// Persisting the composed grammar failed.
    IoError(String),
}

/// Mathematical model of a [`GrammarCompositionError`].
pub enum GrammarErrorView {
    InvalidBaseGrammar(Seq<char>),
    DuplicateRule(Seq<char>),
    SyntaxError(Seq<char>),
    ExtensionConflict(Seq<char>),
    IoError(Seq<char>),
}

impl View for GrammarCompositionError {
    type V = GrammarErrorView;

    open spec fn view(&self) -> GrammarErrorView {
        match self {
            GrammarCompositionError::InvalidBaseGrammar(m) => GrammarErrorView::InvalidBaseGrammar(
                m@,
            ),
            GrammarCompositionError::DuplicateRule(m) => GrammarErrorView::DuplicateRule(m@),
            GrammarCompositionError::SyntaxError(m) => GrammarErrorView::SyntaxError(m@),
            GrammarCompositionError::ExtensionConflict(m) => GrammarErrorView::ExtensionConflict(
                m@,
            ),
            GrammarCompositionError::IoError(m) => GrammarErrorView::IoError(m@),
        }
    }
}

/// The markers every base grammar must contain so that extension rules
/// can be spliced in.
pub open spec fn required_markers() -> Seq<Seq<char>> {
    seq!["annotated_stmt = {"@, "annotation* ~"@, "send_stmt"@, "broadcast_stmt"@]
}

/// The first required marker missing from `base`, scanning from `i`.
pub open spec fn first_missing_marker(base: Seq<char>, i: int) -> Option<Seq<char>>
    decreases required_markers().len() - i,
{
    if i < 0 || i >= required_markers().len() {
        None
    } else if !contains_sub(base, required_markers()[i]) {
        Some(required_markers()[i])
    } else {
        first_missing_marker(base, i + 1)
    }
}

/// The base grammar holds every required marker.
pub open spec fn base_grammar_valid(base: Seq<char>) -> bool {
    first_missing_marker(base, 0) is None
}

/// The first element of `s` at or after `i` that already occurred
/// earlier in `s`.
pub open spec fn first_dup_from(s: Seq<Seq<char>>, i: int) -> Option<Seq<char>>
    decreases s.len() - i,
{
    if i < 0 || i >= s.len() {
        None
    } else if exists|j: int| 0 <= j < i && s[j] == s[i] {
        Some(s[i])
    } else {
        first_dup_from(s, i + 1)
    }
}

pub proof fn lemma_first_dup_from_none(s: Seq<Seq<char>>, i: int)
    requires
        0 <= i,
        first_dup_from(s, i) is None,
    ensures
        forall|p: int, q: int| 0 <= p < q < s.len() && i <= q ==> s[p] != s[q],
    decreases s.len() - i,
{
    if i < s.len() {
        lemma_first_dup_from_none(s, i + 1);
    }
}

/// A sequence with two equal elements at distinct positions has a
/// detected duplicate.
pub proof fn lemma_first_dup_exists(s: Seq<Seq<char>>, p: int, q: int)
    requires
        0 <= p < q < s.len(),
        s[p] == s[q],
    ensures
        first_dup_from(s, 0) is Some,
{
    if first_dup_from(s, 0) is None {
        lemma_first_dup_from_none(s, 0);
        assert(false);
    }
}

/// The rule name a grammar line defines: the trimmed text before
/// `" = {"`, unless the line is a comment or defines no rule.
pub open spec fn rule_name_of_line(line: Seq<char>) -> Option<Seq<char>> {
    let t = trim_spec(line);
    if contains_sub(t, " = {"@) && !starts_with_spec(t, "//"@) {
        Some(trim_spec(before_first_spec(t, " = {"@)))
    } else {
        None
    }
}

/// The rule names defined by a sequence of lines, in order.
pub open spec fn line_names(lines: Seq<Seq<char>>) -> Seq<Seq<char>>
    decreases lines.len(),
{
    if lines.len() == 0 {
        Seq::empty()
    } else {
        match rule_name_of_line(lines[0]) {
            Some(n) => seq![n] + line_names(lines.drop_first()),
            None => line_names(lines.drop_first()),
        }
    }
}

pub proof fn lemma_line_names_concat(a: Seq<Seq<char>>, b: Seq<Seq<char>>)
    ensures
        line_names(a + b) == line_names(a) + line_names(b),
    decreases a.len(),
{
    if a.len() == 0 {
        assert(a + b =~= b);
        assert(line_names(a) + line_names(b) =~= line_names(b));
    } else {
        assert((a + b).drop_first() =~= a.drop_first() + b);
        assert((a + b)[0] == a[0]);
        lemma_line_names_concat(a.drop_first(), b);
        match rule_name_of_line(a[0]) {
            Some(n) => {
                assert(line_names(a + b) =~= line_names(a) + line_names(b));
            },
            None => {
                assert(line_names(a + b) =~= line_names(a) + line_names(b));
            },
        }
    }
}

/// What re-validating a composed grammar returns: the first duplicated
/// rule name, else a brace balance check.
pub open spec fn validate_composed_spec(g: Seq<char>) -> Result<(), GrammarErrorView> {
    match first_dup_from(line_names(split_char_spec(g, '\n')), 0) {
        Some(n) => Err(GrammarErrorView::DuplicateRule(n)),
        None => if count_char_spec(g, '{') != count_char_spec(g, '}') {
            Err(GrammarErrorView::SyntaxError("Unbalanced braces in composed grammar"@))
        } else {
            Ok(())
        },
    }
}

/// What splicing the extension rules into the base grammar yields:
/// statement names joined into the statement alternation, rule bodies
/// appended after the base text.
pub open spec fn inject_spec(
    base: Seq<char>,
    ext_rules: Seq<char>,
    stmts: Seq<Seq<char>>,
) -> Result<Seq<char>, GrammarErrorView> {
    if find_from(base, "annotated_stmt = {"@, 0) is None {
        Err(GrammarErrorView::InvalidBaseGrammar("Could not find annotated_stmt rule"@))
    } else {
        match find_from(base, "annotation* ~ (send_stmt | broadcast_stmt"@, 0) {
            None => Err(
                GrammarErrorView::InvalidBaseGrammar("Could not find statement alternatives"@),
            ),
            Some(astart) => match find_from(base, ")"@, astart) {
                None => Err(
                    GrammarErrorView::InvalidBaseGrammar(
                        "Could not find end of statement alternatives"@,
                    ),
                ),
                Some(aend) => {
                    let spliced = if stmts.len() == 0 {
                        base
                    } else {
                        base.subrange(0, aend) + " | "@ + join_spec(stmts, " | "@)
                            + base.subrange(aend, base.len() as int)
                    };
                    Ok(spliced + "\n// Extension Rules\n"@ + ext_rules)
                },
            },
        }
    }
}

/// What composing the base grammar with the registered extensions
/// returns: a defective base is rejected; a statement-rule name claimed
/// twice is a duplicate-rule error; otherwise the extension rules are
/// spliced in (when any rule text is present) and the result re-validated.
pub open spec fn compose_spec(
    base: Seq<char>,
    exts: Seq<GrammarExtensionView>,
) -> Result<Seq<char>, GrammarErrorView> {
    if first_missing_marker(base, 0) is Some {
        Err(
            GrammarErrorView::InvalidBaseGrammar(
                "Missing required rule: "@ + first_missing_marker(base, 0)->0,
            ),
        )
    } else if first_dup_from(claims_of(exts), 0) is Some {
        Err(GrammarErrorView::DuplicateRule(first_dup_from(claims_of(exts), 0)->0))
    } else {
        let ext_rules = ext_rules_concat(sort_exts(exts));
        if is_blank(ext_rules) {
            match validate_composed_spec(base) {
                Err(e) => Err(e),
                Ok(()) => Ok(base),
            }
        } else {
            match inject_spec(base, ext_rules, claims_of(sort_exts(exts))) {
                Err(e) => Err(e),
                Ok(g) => match validate_composed_spec(g) {
                    Err(e) => Err(e),
                    Ok(()) => Ok(g),
                },
            }
        }
    }
}

/// Composition is deterministic: its result is a function of the base
/// text and the registered extensions alone, so composing the same
/// registry twice yields byte-identical grammar text.
pub proof fn lemma_compose_deterministic(
    base: Seq<char>,
    exts: Seq<GrammarExtensionView>,
    r1: Result<Seq<char>, GrammarErrorView>,
    r2: Result<Seq<char>, GrammarErrorView>,
)
    requires
        r1 == compose_spec(base, exts),
        r2 == compose_spec(base, exts),
    ensures
        r1 == r2,
{
}

pub proof fn lemma_claims_index(exts: Seq<GrammarExtensionView>, k: int, idx: int, n: int)
    requires
        0 <= k < n <= exts.len(),
        0 <= idx < exts[k].statement_rules.len(),
    ensures
        crate::extensions::claims_of_prefix(exts, n).len() >= crate::extensions::claims_of_prefix(
            exts,
            k,
        ).len() + exts[k].statement_rules.len(),
        crate::extensions::claims_of_prefix(exts, n)[crate::extensions::claims_of_prefix(
            exts,
            k,
        ).len() + idx] == exts[k].statement_rules[idx],
    decreases n,
{
    if n == k + 1 {
    } else {
        lemma_claims_index(exts, k, idx, n - 1);
    }
}

/// Registering two extensions that both claim one statement-rule name
/// makes composition fail with a duplicate-rule error, whatever their
/// registration order.
pub proof fn lemma_duplicate_claim_rejected(
    base: Seq<char>,
    exts: Seq<GrammarExtensionView>,
    k1: int,
    i1: int,
    k2: int,
    i2: int,
)
    requires
        base_grammar_valid(base),
        0 <= k1 < exts.len(),
        0 <= k2 < exts.len(),
        k1 != k2,
        0 <= i1 < exts[k1].statement_rules.len(),
        0 <= i2 < exts[k2].statement_rules.len(),
        exts[k1].statement_rules[i1] == exts[k2].statement_rules[i2],
    ensures
        compose_spec(base, exts) is Err,
        compose_spec(base, exts)->Err_0 is DuplicateRule,
{
    let a = if k1 < k2 {
        k1
    } else {
        k2
    };
    let ia = if k1 < k2 {
        i1
    } else {
        i2
    };
    let b = if k1 < k2 {
        k2
    } else {
        k1
    };
    let ib = if k1 < k2 {
        i2
    } else {
        i1
    };
    let len = exts.len() as int;
    lemma_claims_index(exts, a, ia, len);
    lemma_claims_index(exts, b, ib, len);
    lemma_claims_index(exts, a, 0, b);
    let p = crate::extensions::claims_of_prefix(exts, a).len() + ia;
    let q = crate::extensions::claims_of_prefix(exts, b).len() + ib;
    assert(crate::extensions::claims_of_prefix(exts, b).len()
        >= crate::extensions::claims_of_prefix(exts, a).len() + exts[a].statement_rules.len());
    assert(p < q);
    assert(claims_of(exts)[p] == claims_of(exts)[q]);
    lemma_first_dup_exists(claims_of(exts), p as int, q as int);
}


/// The text of each string as a character vector.
fn to_char_vecs(v: &Vec<String>) -> (r: Vec<Vec<char>>)
    ensures
        views_of(r@) == string_views(v@),
{
    let mut r: Vec<Vec<char>> = Vec::new();
    let mut i: usize = 0;
    while i < v.len()
        invariant
            i <= v.len(),
            r@.len() == i,
            forall|j: int| 0 <= j < i ==> #[trigger] r@[j]@ == v@[j]@,
        decreases v.len() - i,
    {
        r.push(text::chars_of(v[i].as_str()));
        i = i + 1;
    }
    proof {
        assert(views_of(r@) =~= string_views(v@));
    }
    r
}

/// Whether `x`'s text already occurs among `names`.
fn contains_vec_el(names: &Vec<Vec<char>>, x: &Vec<char>) -> (r: bool)
    ensures
        r == exists|j: int| 0 <= j < names@.len() && views_of(names@)[j] == x@,
{
    let mut i: usize = 0;
    while i < names.len()
        invariant
            i <= names.len(),
            forall|j: int| 0 <= j < i ==> views_of(names@)[j] != x@,
        decreases names.len() - i,
    {
        if text::eq_chars(&names[i], x) {
            proof {
                assert(views_of(names@)[i as int] == x@);
            }
            return true;
        }
        proof {
            assert(views_of(names@)[i as int] == names@[i as int]@);
        }
        i = i + 1;
    }
    false
}

/// The first claim that repeats an earlier one, if any.
fn find_dup_claim(v: &Vec<String>) -> (r: Option<String>)
    ensures
        r matches Some(n) ==> first_dup_from(string_views(v@), 0) == Some(n@),
        r is None ==> first_dup_from(string_views(v@), 0) is None,
{
    let ghost sv = string_views(v@);
    let mut i: usize = 0;
    while i < v.len()
        invariant
            i <= v.len(),
            sv == string_views(v@),
            first_dup_from(sv, 0) == first_dup_from(sv, i as int),
        decreases v.len() - i,
    {
        let mut j: usize = 0;
        let mut dup: bool = false;
        while j < i
            invariant
                j <= i < v.len(),
                sv == string_views(v@),
                dup <==> exists|k: int| 0 <= k < j && sv[k] == sv[i as int],
            decreases i - j,
        {
            let same = text::str_eq(v[j].as_str(), v[i].as_str());
            proof {
                assert(sv[j as int] == v@[j as int]@);
                assert(sv[i as int] == v@[i as int]@);
            }
            if same {
                dup = true;
            }
            j = j + 1;
        }
        if dup {
            return Some(v[i].clone());
        }
        i = i + 1;
    }
    None
}

/// Builds the message naming a missing required rule.
fn missing_rule_msg(rule: &str) -> (r: String)
    ensures
        r@ == "Missing required rule: "@ + rule@,
{
    let mut m = text::chars_of("Missing required rule: ");
    let rv = text::chars_of(rule);
    text::append_chars(&mut m, &rv);
    text::string_of(&m)
}

/// Mathematical model of a [`GrammarComposer`].
pub struct GrammarComposerView {
    pub base: Seq<char>,
    pub registry: crate::extensions::RegistryView,
}

/// Composes the base grammar with registered extension grammar rules.
pub struct GrammarComposer {
    base_grammar: String,
    extension_registry: ExtensionRegistry,
}

impl View for GrammarComposer {
    type V = GrammarComposerView;

    closed spec fn view(&self) -> GrammarComposerView {
        GrammarComposerView { base: self.base_grammar@, registry: self.extension_registry@ }
    }
}

impl GrammarComposer {
    /// A composer over the built-in base grammar, with no extensions.
    pub fn new() -> (r: GrammarComposer)
        ensures
            r@.base == BASE_GRAMMAR@,
            r@.registry.exts.len() == 0,
            r@.registry.parsers.len() == 0,
            r@.registry.bindings.len() == 0,
    {
        GrammarComposer {
            base_grammar: BASE_GRAMMAR.to_owned(),
            extension_registry: ExtensionRegistry::new(),
        }
    }

    /// The base grammar text the composer starts from.
    pub fn base_grammar(&self) -> (r: &String)
        ensures
            r@ == self@.base,
    {
        &self.base_grammar
    }

    /// Registers a grammar extension with the composer.
    pub fn register_extension(&mut self, extension: GrammarExtension)
        ensures
            final(self)@.base == old(self)@.base,
            final(self)@.registry.exts == crate::extensions::upsert_ext(
                old(self)@.registry.exts,
                extension@,
            ),
            final(self)@.registry.bindings == crate::extensions::add_bindings(
                old(self)@.registry.bindings,
                extension@.statement_rules,
                extension@.id,
            ),
            final(self)@.registry.parsers == old(self)@.registry.parsers,
    {
        self.extension_registry.register_grammar(extension);
    }

    /// Registers a copy of an extension given by reference.
    pub fn register_extension_from_trait(&mut self, extension: &GrammarExtension) -> (r: Result<
        (),
        GrammarCompositionError,
    >)
        ensures
            r is Ok,
            final(self)@.base == old(self)@.base,
            final(self)@.registry.exts == crate::extensions::upsert_ext(
                old(self)@.registry.exts,
                extension@,
            ),
            final(self)@.registry.bindings == crate::extensions::add_bindings(
                old(self)@.registry.bindings,
                extension@.statement_rules,
                extension@.id,
            ),
            final(self)@.registry.parsers == old(self)@.registry.parsers,
    {
        self.extension_registry.register_grammar(extension.clone());
        Ok(())
    }

    /// Whether some registered extension claims the rule name.
    pub fn has_extension_rule(&self, rule_name: &str) -> (r: bool)
        ensures
            r == (crate::extensions::lookup_binding(self@.registry.bindings, rule_name@)
                is Some),
    {
        self.extension_registry.can_handle(rule_name)
    }

    /// How many grammar extensions are registered.
    pub fn extension_count(&self) -> (r: usize)
        ensures
            r == self@.registry.exts.len(),
    {
        self.extension_registry.grammar_extensions().len()
    }

    /// The statement-rule names to splice, in emission order: the claims
    /// of all registered extensions, sorted by descending priority.
    pub fn extract_extension_statements(&self) -> (r: Vec<String>)
        ensures
            string_views(r@) == claims_of(sort_exts(self@.registry.exts)),
    {
        let sorted = self.extension_registry.sorted_extensions();
        crate::extensions::claims_vec(&sorted)
    }

    /// Checks that the base grammar holds every required marker; a
    /// missing marker is a defect of the embedding, reported by name.
    pub fn validate_base_grammar(&self, grammar: &str) -> (r: Result<(), GrammarCompositionError>)
        ensures
            r is Ok <==> base_grammar_valid(grammar@),
            r matches Err(e) ==> e@ == GrammarErrorView::InvalidBaseGrammar(
                "Missing required rule: "@ + first_missing_marker(grammar@, 0)->0,
            ),
    {
        let g = text::chars_of(grammar);
        proof {
            assert(required_markers()[0] == "annotated_stmt = {"@);
            assert(required_markers()[1] == "annotation* ~"@);
            assert(required_markers()[2] == "send_stmt"@);
            assert(required_markers()[3] == "broadcast_stmt"@);
        }
        let m0 = text::chars_of("annotated_stmt = {");
        if !text::contains_chars(&g, &m0) {
            proof {
                assert(first_missing_marker(grammar@, 0) == Some("annotated_stmt = {"@));
            }
            return Err(GrammarCompositionError::InvalidBaseGrammar(missing_rule_msg(
                "annotated_stmt = {",
            )));
        }
        proof {
            assert(first_missing_marker(grammar@, 0) == first_missing_marker(grammar@, 1));
        }
        let m1 = text::chars_of("annotation* ~");
        if !text::contains_chars(&g, &m1) {
            proof {
                assert(first_missing_marker(grammar@, 1) == Some("annotation* ~"@));
            }
            return Err(GrammarCompositionError::InvalidBaseGrammar(missing_rule_msg(
                "annotation* ~",
            )));
        }
        proof {
            assert(first_missing_marker(grammar@, 1) == first_missing_marker(grammar@, 2));
        }
        let m2 = text::chars_of("send_stmt");
        if !text::contains_chars(&g, &m2) {
            proof {
                assert(first_missing_marker(grammar@, 2) == Some("send_stmt"@));
            }
            return Err(GrammarCompositionError::InvalidBaseGrammar(missing_rule_msg(
                "send_stmt",
            )));
        }
        proof {
            assert(first_missing_marker(grammar@, 2) == first_missing_marker(grammar@, 3));
        }
        let m3 = text::chars_of("broadcast_stmt");
        if !text::contains_chars(&g, &m3) {
            proof {
                assert(first_missing_marker(grammar@, 3) == Some("broadcast_stmt"@));
            }
            return Err(GrammarCompositionError::InvalidBaseGrammar(missing_rule_msg(
                "broadcast_stmt",
            )));
        }
        proof {
            assert(first_missing_marker(grammar@, 3) == first_missing_marker(grammar@, 4));
        }
        Ok(())
    }

    /// Re-validates a composed grammar: every rule name defined once,
    /// braces balanced.
    pub fn validate_composed_grammar(&self, grammar: &str) -> (r: Result<
        (),
        GrammarCompositionError,
    >)
        ensures
            r is Ok <==> validate_composed_spec(grammar@) is Ok,
            r matches Err(e) ==> validate_composed_spec(grammar@) == Err::<(), GrammarErrorView>(
                e@,
            ),
    {
        let g = text::chars_of(grammar);
        let lines = text::split_char(&g, '\n');
        let ghost lv = views_of(lines@);
        let ghost ln = line_names(lv);
        let pat_eq = text::chars_of(" = {");
        let pat_comment = text::chars_of("//");
        let mut names: Vec<Vec<char>> = Vec::new();
        let mut i: usize = 0;
        proof {
            assert(lv.subrange(0, 0) =~= Seq::<Seq<char>>::empty());
            assert(views_of(names@) =~= line_names(lv.subrange(0, 0)));
        }
        while i < lines.len()
            invariant
                i <= lines.len(),
                g@ == grammar@,
                lv == views_of(lines@),
                ln == line_names(lv),
                lv == split_char_spec(g@, '\n'),
                pat_eq@ == " = {"@,
                pat_comment@ == "//"@,
                views_of(names@) == line_names(lv.subrange(0, i as int)),
                views_of(names@).len() <= ln.len(),
                forall|j: int|
                    0 <= j < views_of(names@).len() ==> views_of(names@)[j] == ln[j],
                first_dup_from(ln, 0) == first_dup_from(ln, views_of(names@).len() as int),
            decreases lines.len() - i,
        {
            proof {
                assert(lv.subrange(0, (i + 1) as int) =~= lv.subrange(0, i as int) + seq![
                    lv[i as int],
                ]);
                lemma_line_names_concat(lv.subrange(0, i as int), seq![lv[i as int]]);
                assert(seq![lv[i as int]].drop_first() =~= Seq::<Seq<char>>::empty());
                assert(lv =~= lv.subrange(0, (i + 1) as int) + lv.subrange(
                    (i + 1) as int,
                    lv.len() as int,
                ));
                lemma_line_names_concat(
                    lv.subrange(0, (i + 1) as int),
                    lv.subrange((i + 1) as int, lv.len() as int),
                );
            }
            let t = text::trim_chars(&lines[i]);
            proof {
                assert(lines@[i as int]@ == lv[i as int]);
            }
            let has_rule = text::contains_chars(&t, &pat_eq);
            let comment = text::starts_with(&t, &pat_comment);
            if has_rule && !comment {
                let name = text::trim_chars(&text::before_first(&t, &pat_eq));
                let ghost c = views_of(names@).len() as int;
                proof {
                    assert(rule_name_of_line(lv[i as int]) == Some(name@));
                    assert(seq![lv[i as int]][0] == lv[i as int]);
                    assert(line_names(Seq::<Seq<char>>::empty()) =~= Seq::<Seq<char>>::empty());
                    assert(line_names(seq![lv[i as int]]) =~= seq![name@]);
                    assert(line_names(lv.subrange(0, (i + 1) as int)) =~= views_of(names@)
                        + seq![name@]);
                    assert(c < ln.len());
                    assert(ln[c] == name@);
                }
                if contains_vec_el(&names, &name) {
                    proof {
                        let j0 = choose|j: int|
                            0 <= j < names@.len() && views_of(names@)[j] == name@;
                        assert(ln[j0] == ln[c]);
                        assert(first_dup_from(ln, c) == Some(ln[c]));
                    }
                    return Err(GrammarCompositionError::DuplicateRule(text::string_of(&name)));
                }
                names.push(name);
                proof {
                    assert(forall|j: int| 0 <= j < c ==> ln[j] != ln[c]);
                    assert(first_dup_from(ln, c) == first_dup_from(ln, c + 1));
                    assert(views_of(names@) =~= line_names(lv.subrange(0, (i + 1) as int)));
                }
            } else {
                proof {
                    assert(rule_name_of_line(lv[i as int]) is None);
                    assert(seq![lv[i as int]][0] == lv[i as int]);
                    assert(line_names(Seq::<Seq<char>>::empty()) =~= Seq::<Seq<char>>::empty());
                    assert(line_names(seq![lv[i as int]]).len() == 0);
                    assert(views_of(names@) =~= line_names(lv.subrange(0, (i + 1) as int)));
                }
            }
            i = i + 1;
        }
        proof {
            assert(lv.subrange(0, lines@.len() as int) =~= lv);
            assert(views_of(names@).len() == ln.len());
            assert(first_dup_from(ln, ln.len() as int) is None);
        }
        let opens = text::count_char(&g, '{');
        let closes = text::count_char(&g, '}');
        if opens != closes {
            return Err(GrammarCompositionError::SyntaxError(String::from_str(
                "Unbalanced braces in composed grammar",
            )));
        }
        Ok(())
    }

    /// Splices the statement names into the base grammar's alternation
    /// and appends the extension rule bodies.
    fn inject_extension_rules(
        &self,
        base: &Vec<char>,
        extension_rules: &Vec<char>,
        stmts: &Vec<String>,
    ) -> (r: Result<Vec<char>, GrammarCompositionError>)
        ensures
            r matches Ok(g) ==> inject_spec(base@, extension_rules@, string_views(stmts@))
                == Ok::<Seq<char>, GrammarErrorView>(g@),
            r matches Err(e) ==> inject_spec(base@, extension_rules@, string_views(stmts@))
                == Err::<Seq<char>, GrammarErrorView>(e@),
    {
        let pat_stmt = text::chars_of("annotated_stmt = {");
        if text::find_sub(base, &pat_stmt).is_none() {
            return Err(GrammarCompositionError::InvalidBaseGrammar(String::from_str(
                "Could not find annotated_stmt rule",
            )));
        }
        let pat_alt = text::chars_of("annotation* ~ (send_stmt | broadcast_stmt");
        let astart = match text::find_sub(base, &pat_alt) {
            Some(a) => a,
            None => {
                return Err(GrammarCompositionError::InvalidBaseGrammar(String::from_str(
                    "Could not find statement alternatives",
                )));
            },
        };
        let pat_close = text::chars_of(")");
        let aend = match text::find_sub_from(base, &pat_close, astart) {
            Some(a) => a,
            None => {
                return Err(GrammarCompositionError::InvalidBaseGrammar(String::from_str(
                    "Could not find end of statement alternatives",
                )));
            },
        };
        proof {
            text::lemma_find_from_some(base@, pat_close@, astart as int);
            assert(aend <= base@.len());
        }
        let mut out: Vec<char>;
        if stmts.len() == 0 {
            out = text::copy_range(base, 0, base.len());
            proof {
                assert(out@ =~= base@);
            }
        } else {
            out = text::copy_range(base, 0, aend);
            let sep = text::chars_of(" | ");
            text::append_chars(&mut out, &sep);
            let stmt_chars = to_char_vecs(stmts);
            let joined = text::join_chars(&stmt_chars, &sep);
            text::append_chars(&mut out, &joined);
            let tail = text::copy_range(base, aend, base.len());
            text::append_chars(&mut out, &tail);
            proof {
                assert(out@ =~= base@.subrange(0, aend as int) + " | "@ + join_spec(
                    string_views(stmts@),
                    " | "@,
                ) + base@.subrange(aend as int, base@.len() as int));
            }
        }
        let hdr = text::chars_of("\n// Extension Rules\n");
        text::append_chars(&mut out, &hdr);
        text::append_chars(&mut out, extension_rules);
        Ok(out)
    }

    /// Composes the final grammar: checks the base, rejects duplicate
    /// statement-rule claims, splices and appends the extension rules in
    /// priority order, and re-validates the result.
    pub fn compose(&self) -> (r: Result<String, GrammarCompositionError>)
        ensures
            r matches Ok(s) ==> compose_spec(self@.base, self@.registry.exts) == Ok::<
                Seq<char>,
                GrammarErrorView,
            >(s@),
            r matches Err(e) ==> compose_spec(self@.base, self@.registry.exts) == Err::<
                Seq<char>,
                GrammarErrorView,
            >(e@),
    {
        match self.validate_base_grammar(self.base_grammar.as_str()) {
            Err(e) => {
                return Err(e);
            },
            Ok(()) => {},
        }
        let claims = self.extension_registry.claimed_rules();
        match find_dup_claim(&claims) {
            Some(n) => {
                return Err(GrammarCompositionError::DuplicateRule(n));
            },
            None => {},
        }
        let ext_rules_s = self.extension_registry.compose_grammar("");
        proof {
            reveal_strlit("");
            assert(""@ =~= Seq::<char>::empty());
            assert(ext_rules_s@ =~= ext_rules_concat(sort_exts(self@.registry.exts)));
        }
        let ext_rules = text::chars_of(ext_rules_s.as_str());
        if text::blank(&ext_rules) {
            match self.validate_composed_grammar(self.base_grammar.as_str()) {
                Err(e) => {
                    return Err(e);
                },
                Ok(()) => {},
            }
            return Ok(self.base_grammar.clone());
        }
        let base = text::chars_of(self.base_grammar.as_str());
        let sorted = self.extension_registry.sorted_extensions();
        let stmts = crate::extensions::claims_vec(&sorted);
        let injected = match self.inject_extension_rules(&base, &ext_rules, &stmts) {
            Err(e) => {
                return Err(e);
            },
            Ok(g) => g,
        };
        let injected_s = text::string_of(&injected);
        match self.validate_composed_grammar(injected_s.as_str()) {
            Err(e) => {
                return Err(e);
            },
            Ok(()) => {},
        }
        Ok(injected_s)
    }
}

impl Default for GrammarComposer {
    /// Same as [`GrammarComposer::new`].
    fn default() -> (r: Self)
        ensures
            r@.base == BASE_GRAMMAR@,
            r@.registry.exts.len() == 0,
            r@.registry.parsers.len() == 0,
            r@.registry.bindings.len() == 0,
    {
        GrammarComposer::new()
    }
}

/// Builds a composer and registers extensions fluently.
pub struct GrammarComposerBuilder {
    composer: GrammarComposer,
}

impl View for GrammarComposerBuilder {
    type V = GrammarComposerView;

    closed spec fn view(&self) -> GrammarComposerView {
        self.composer@
    }
}

impl GrammarComposerBuilder {
    pub fn new() -> (r: GrammarComposerBuilder)
        ensures
            r@.base == BASE_GRAMMAR@,
            r@.registry.exts.len() == 0,
            r@.registry.parsers.len() == 0,
            r@.registry.bindings.len() == 0,
    {
        GrammarComposerBuilder { composer: GrammarComposer::new() }
    }

    pub fn with_extension(self, extension: GrammarExtension) -> (r: GrammarComposerBuilder)
        ensures
            r@.base == self@.base,
            r@.registry.exts == crate::extensions::upsert_ext(self@.registry.exts, extension@),
            r@.registry.bindings == crate::extensions::add_bindings(
                self@.registry.bindings,
                extension@.statement_rules,
                extension@.id,
            ),
            r@.registry.parsers == self@.registry.parsers,
    {
        let mut b = self;
        b.composer.register_extension(extension);
        b
    }

    pub fn build(self) -> (r: GrammarComposer)
        ensures
            r@ == self@,
    {
        self.composer
    }
}

impl Default for GrammarComposerBuilder {
    /// Same as [`GrammarComposerBuilder::new`].
    fn default() -> (r: Self)
        ensures
            r@.base == BASE_GRAMMAR@,
            r@.registry.exts.len() == 0,
            r@.registry.parsers.len() == 0,
            r@.registry.bindings.len() == 0,
    {
        GrammarComposerBuilder::new()
    }
}

} // verus!
