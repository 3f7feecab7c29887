//! Extension system for the choreographic language.
//!
//! Extensions add new grammar rules, custom statement parsers and protocol
//! behaviours without modifying the core. The registry keeps three
//! mappings: extension id to grammar extension, parser id to statement
//! parser, and statement-rule name to the owning extension id. It is
//! populated once and read-only afterwards; grammar composition sorts the
//! registered extensions by descending priority, ties broken by
//! registration order.

use vstd::prelude::*;
use crate::role::Role;
use crate::role::RoleView;
use crate::role::role_views;
use crate::role::role_matches;
use crate::role::use_site_ok;
use crate::local_type::LocalType;
use crate::local_type::LocalTypeView;
use crate::local_type::lt_view;
use crate::text::str_eq;
use vstd::string::StringExecFns;

verus! {

/// A bundle of grammar rules contributed by one extension: the rule text,
/// the names of the statement rules it introduces, a priority (higher
/// priorities are emitted first; the default is 100) and a stable id.
#[derive(Debug)]
pub struct GrammarExtension {
    pub id: String,
    pub rules: String,
    pub statement_rules: Vec<String>,
    pub priority: u32,
}

/// Mathematical model of a [`GrammarExtension`].
#[verifier::ext_equal]
pub struct GrammarExtensionView {
    pub id: Seq<char>,
    pub rules: Seq<char>,
    pub statement_rules: Seq<Seq<char>>,
    pub priority: u32,
}

/// The character sequences held by a sequence of strings.
pub open spec fn string_views(v: Seq<String>) -> Seq<Seq<char>> {
    Seq::new(v.len(), |i: int| v[i]@)
}

impl View for GrammarExtension {
    type V = GrammarExtensionView;

    open spec fn view(&self) -> GrammarExtensionView {
        GrammarExtensionView {
            id: self.id@,
            rules: self.rules@,
            statement_rules: string_views(self.statement_rules@),
            priority: self.priority,
        }
    }
}

/// Copies a vector of strings.
pub fn clone_strings(v: &Vec<String>) -> (r: Vec<String>)
    ensures
        string_views(r@) == string_views(v@),
{
    let mut r: Vec<String> = Vec::new();
    let mut i: usize = 0;
    while i < v.len()
        invariant
            i <= v.len(),
            r@.len() == i,
            forall|j: int| 0 <= j < i ==> r@[j]@ == v@[j]@,
        decreases v.len() - i,
    {
        r.push(v[i].clone());
        i = i + 1;
    }
    proof {
        assert(string_views(r@) =~~= string_views(v@));
    }
    r
}

impl Clone for GrammarExtension {
    fn clone(&self) -> (r: Self)
        ensures
            r@ == self@,
    {
        let r = GrammarExtension {
            id: self.id.clone(),
            rules: self.rules.clone(),
            statement_rules: clone_strings(&self.statement_rules),
            priority: self.priority,
        };
        proof {
            assert(r@.statement_rules == self@.statement_rules);
        }
        r
    }
}

impl GrammarExtension {
    /// A grammar extension with the default priority.
    pub fn new(id: String, rules: String, statement_rules: Vec<String>) -> (r: GrammarExtension)
        ensures
            r@.id == id@,
            r@.rules == rules@,
            r@.statement_rules == string_views(statement_rules@),
            r@.priority == 100u32,
    {
        GrammarExtension { id, rules, statement_rules, priority: 100 }
    }

    /// A grammar extension with an explicit priority.
    pub fn with_priority(id: String, rules: String, statement_rules: Vec<String>, priority: u32) -> (r:
        GrammarExtension)
        ensures
            r@.id == id@,
            r@.rules == rules@,
            r@.statement_rules == string_views(statement_rules@),
            r@.priority == priority,
    {
        GrammarExtension { id, rules, statement_rules, priority }
    }

    /// The rule text this extension contributes.
    pub fn grammar_rules(&self) -> (r: &String)
        ensures
            r@ == self@.rules,
    {
        &self.rules
    }

    /// The id under which the extension registers.
    pub fn extension_id(&self) -> (r: &String)
        ensures
            r@ == self@.id,
    {
        &self.id
    }
}

/// A parser for custom protocol statements, described by the rule names
/// it can handle. The parsing itself is the external text parser's work;
/// the core only routes rule names to parsers.
#[derive(Debug)]
pub struct StatementParser {
    pub rules: Vec<String>,
}

/// Mathematical model of a [`StatementParser`].
#[verifier::ext_equal]
pub struct StatementParserView {
    pub rules: Seq<Seq<char>>,
}

impl View for StatementParser {
    type V = StatementParserView;

    open spec fn view(&self) -> StatementParserView {
        StatementParserView { rules: string_views(self.rules@) }
    }
}

impl StatementParser {
    pub fn new(rules: Vec<String>) -> (r: StatementParser)
        ensures
            r@.rules == string_views(rules@),
    {
        StatementParser { rules }
    }

    /// Whether this parser handles the given rule name.
    pub fn can_parse(&self, rule_name: &str) -> (r: bool)
        ensures
            r == self@.rules.contains(rule_name@),
    {
        let mut i: usize = 0;
        while i < self.rules.len()
            invariant
                i <= self.rules.len(),
                forall|j: int| 0 <= j < i ==> self@.rules[j] != rule_name@,
        decreases self.rules.len() - i,
        {
            if str_eq(self.rules[i].as_str(), rule_name) {
                proof {
                    assert(self@.rules[i as int] == rule_name@);
                }
                return true;
            }
            i = i + 1;
        }
        proof {
            if self@.rules.contains(rule_name@) {
                let j = choose|j: int| 0 <= j < self@.rules.len() && self@.rules[j] == rule_name@;
                assert(false);
            }
        }
        false
    }
}

/// One statement-rule name mapped to the id of the extension that owns it.
#[derive(Debug)]
pub struct RuleBinding {
    pub rule: String,
    pub ext_id: String,
}

/// Mathematical model of a [`RuleBinding`].
#[verifier::ext_equal]
pub struct RuleBindingView {
    pub rule: Seq<char>,
    pub ext_id: Seq<char>,
}

impl View for RuleBinding {
    type V = RuleBindingView;

    open spec fn view(&self) -> RuleBindingView {
        RuleBindingView { rule: self.rule@, ext_id: self.ext_id@ }
    }
}

/// A statement parser registered under a parser id.
#[derive(Debug)]
pub struct ParserEntry {
    pub id: String,
    pub parser: StatementParser,
}

/// Mathematical model of a [`ParserEntry`].
#[verifier::ext_equal]
pub struct ParserEntryView {
    pub id: Seq<char>,
    pub parser: StatementParserView,
}

impl View for ParserEntry {
    type V = ParserEntryView;

    open spec fn view(&self) -> ParserEntryView {
        ParserEntryView { id: self.id@, parser: self.parser@ }
    }
}

/// The models of a sequence of grammar extensions.
pub open spec fn ext_views(v: Seq<GrammarExtension>) -> Seq<GrammarExtensionView> {
    Seq::new(v.len(), |i: int| v[i]@)
}

/// The models of a sequence of rule bindings.
pub open spec fn binding_views(v: Seq<RuleBinding>) -> Seq<RuleBindingView> {
    Seq::new(v.len(), |i: int| v[i]@)
}

/// The models of a sequence of parser entries.
pub open spec fn parser_views(v: Seq<ParserEntry>) -> Seq<ParserEntryView> {
    Seq::new(v.len(), |i: int| v[i]@)
}

/// Mathematical model of an [`ExtensionRegistry`].
#[verifier::ext_equal]
pub struct RegistryView {
    pub exts: Seq<GrammarExtensionView>,
    pub parsers: Seq<ParserEntryView>,
    pub bindings: Seq<RuleBindingView>,
}

/// Registry of grammar extensions, statement parsers and rule bindings.
#[derive(Debug)]
pub struct ExtensionRegistry {
    grammar_extensions: Vec<GrammarExtension>,
    statement_parsers: Vec<ParserEntry>,
    rule_to_parser: Vec<RuleBinding>,
}

impl View for ExtensionRegistry {
    type V = RegistryView;

    closed spec fn view(&self) -> RegistryView {
        RegistryView {
            exts: ext_views(self.grammar_extensions@),
            parsers: parser_views(self.statement_parsers@),
            bindings: binding_views(self.rule_to_parser@),
        }
    }
}

/// Position of the extension with the given id, if one is registered.
pub open spec fn find_ext_from(exts: Seq<GrammarExtensionView>, id: Seq<char>, i: int) -> Option<
    int,
>
    decreases exts.len() - i,
{
    if i < 0 || i >= exts.len() {
        None
    } else if exts[i].id == id {
        Some(i)
    } else {
        find_ext_from(exts, id, i + 1)
    }
}

/// Registering an extension replaces a previous registration under the
/// same id in place and appends otherwise.
pub open spec fn upsert_ext(exts: Seq<GrammarExtensionView>, x: GrammarExtensionView) -> Seq<
    GrammarExtensionView,
> {
    match find_ext_from(exts, x.id, 0) {
        Some(i) => exts.update(i, x),
        None => exts.push(x),
    }
}

/// The bindings after mapping every rule name of `rules` to `id`.
pub open spec fn add_bindings(
    bs: Seq<RuleBindingView>,
    rules: Seq<Seq<char>>,
    id: Seq<char>,
) -> Seq<RuleBindingView> {
    bs + Seq::new(rules.len(), |i: int| RuleBindingView { rule: rules[i], ext_id: id })
}

/// The id that the latest binding of `rule` names, if any; a later
/// registration shadows an earlier one.
pub open spec fn lookup_binding(bs: Seq<RuleBindingView>, rule: Seq<char>) -> Option<Seq<char>>
    decreases bs.len(),
{
    if bs.len() == 0 {
        None
    } else if bs.last().rule == rule {
        Some(bs.last().ext_id)
    } else {
        lookup_binding(bs.drop_last(), rule)
    }
}

/// The parser that the latest entry with the given id holds, if any.
pub open spec fn lookup_parser(ps: Seq<ParserEntryView>, id: Seq<char>) -> Option<
    StatementParserView,
>
    decreases ps.len(),
{
    if ps.len() == 0 {
        None
    } else if ps.last().id == id {
        Some(ps.last().parser)
    } else {
        lookup_parser(ps.drop_last(), id)
    }
}

/// What a rule name resolves to through the registry: the parser owned
/// by the extension that claimed the rule, if both are registered.
pub open spec fn resolve_parser(r: RegistryView, rule: Seq<char>) -> Option<StatementParserView> {
    match lookup_binding(r.bindings, rule) {
        Some(id) => lookup_parser(r.parsers, id),
        None => None,
    }
}

impl ExtensionRegistry {
    /// An empty registry.
    pub fn new() -> (r: ExtensionRegistry)
        ensures
            r@.exts.len() == 0,
            r@.parsers.len() == 0,
            r@.bindings.len() == 0,
    {
        let r = ExtensionRegistry {
            grammar_extensions: Vec::new(),
            statement_parsers: Vec::new(),
            rule_to_parser: Vec::new(),
        };
        proof {
            assert(r@.exts =~= Seq::<GrammarExtensionView>::empty());
        }
        r
    }

    /// Registers a grammar extension: maps each of its statement-rule
    /// names to its id and stores the extension under its id, replacing
    /// a previous registration of the same id. A rule name claimed by
    /// two registered extensions is reported at composition time, not
    /// overwritten silently.
    pub fn register_grammar(&mut self, extension: GrammarExtension)
        ensures
            final(self)@.exts == upsert_ext(old(self)@.exts, extension@),
            final(self)@.bindings == add_bindings(
                old(self)@.bindings,
                extension@.statement_rules,
                extension@.id,
            ),
            final(self)@.parsers == old(self)@.parsers,
    {
        let ghost oldn = self.rule_to_parser@.len();
        let mut k: usize = 0;
        while k < extension.statement_rules.len()
            invariant
                k <= extension.statement_rules.len(),
                self.statement_parsers@ == old(self).statement_parsers@,
                self.grammar_extensions@ == old(self).grammar_extensions@,
                self.rule_to_parser@.len() == oldn + k,
                forall|j: int|
                    0 <= j < oldn ==> self.rule_to_parser@[j] == old(self).rule_to_parser@[j],
                forall|j: int|
                    oldn <= j < oldn + k ==> #[trigger] self.rule_to_parser@[j]@.rule
                        == extension.statement_rules@[j - oldn]@
                        && self.rule_to_parser@[j]@.ext_id == extension@.id,
            decreases extension.statement_rules.len() - k,
        {
            let b = RuleBinding {
                rule: extension.statement_rules[k].clone(),
                ext_id: extension.id.clone(),
            };
            self.rule_to_parser.push(b);
            k = k + 1;
        }
        proof {
            assert(binding_views(self.rule_to_parser@) =~~= add_bindings(
                old(self)@.bindings,
                extension@.statement_rules,
                extension@.id,
            ));
        }
        // Store the extension under its id.
        let ghost oldexts = ext_views(self.grammar_extensions@);
        let mut i: usize = 0;
        let mut found: Option<usize> = None;
        while i < self.grammar_extensions.len()
            invariant
                i <= self.grammar_extensions.len(),
                oldexts == ext_views(self.grammar_extensions@),
                found matches Some(p) ==> p < self.grammar_extensions.len()
                    && find_ext_from(oldexts, extension@.id, 0) == Some(p as int),
                found is None ==> find_ext_from(oldexts, extension@.id, 0) == find_ext_from(
                    oldexts,
                    extension@.id,
                    i as int,
                ),
            decreases self.grammar_extensions.len() - i,
        {
            if found.is_none() && self.grammar_extensions[i].id.eq(&extension.id) {
                proof {
                    assert(oldexts[i as int].id == extension@.id);
                }
                found = Some(i);
            }
            i = i + 1;
        }
        match found {
            Some(p) => {
                self.grammar_extensions.remove(p);
                self.grammar_extensions.insert(p, extension);
                proof {
                    assert(ext_views(self.grammar_extensions@) =~~= upsert_ext(
                        oldexts,
                        extension@,
                    ));
                }
            },
            None => {
                self.grammar_extensions.push(extension);
                proof {
                    assert(ext_views(self.grammar_extensions@) =~~= upsert_ext(
                        oldexts,
                        extension@,
                    ));
                }
            },
        }
    }

    /// Registers a statement parser under a parser id; a later
    /// registration of the same id shadows the earlier one.
    pub fn register_parser(&mut self, parser: StatementParser, parser_id: String)
        ensures
            final(self)@.parsers == old(self)@.parsers.push(
                ParserEntryView { id: parser_id@, parser: parser@ },
            ),
            final(self)@.exts == old(self)@.exts,
            final(self)@.bindings == old(self)@.bindings,
    {
        self.statement_parsers.push(ParserEntry { id: parser_id, parser });
        proof {
            assert(parser_views(self.statement_parsers@) =~~= parser_views(
                old(self).statement_parsers@,
            ).push(self.statement_parsers@.last()@));
        }
    }

    /// The registered grammar extensions, in registration order.
    pub fn grammar_extensions(&self) -> (r: &Vec<GrammarExtension>)
        ensures
            ext_views(r@) == self@.exts,
    {
        &self.grammar_extensions
    }

    /// Whether some extension has claimed the rule name.
    pub fn can_handle(&self, rule_name: &str) -> (r: bool)
        ensures
            r == (lookup_binding(self@.bindings, rule_name@) is Some),
    {
        let mut i: usize = self.rule_to_parser.len();
        proof {
            assert(self@.bindings.subrange(0, i as int) =~= self@.bindings);
        }
        while i > 0
            invariant
                i <= self.rule_to_parser.len(),
                lookup_binding(self@.bindings, rule_name@) == lookup_binding(
                    self@.bindings.subrange(0, i as int),
                    rule_name@,
                ),
            decreases i,
        {
            i = i - 1;
            if str_eq(self.rule_to_parser[i].rule.as_str(), rule_name) {
                proof {
                    assert(self@.bindings.subrange(0, i + 1).last() == self@.bindings[i as int]);
                    assert(self@.bindings[i as int].rule == rule_name@);
                }
                return true;
            }
            proof {
                assert(self@.bindings.subrange(0, i + 1).last() == self@.bindings[i as int]);
                assert(self@.bindings.subrange(0, i + 1).drop_last() =~= self@.bindings.subrange(
                    0,
                    i as int,
                ));
            }
        }
        proof {
            assert(self@.bindings.subrange(0, 0) =~= Seq::<RuleBindingView>::empty());
        }
        false
    }

    /// The parser that handles the given rule name: the rule's latest
    /// binding names an extension id, and the latest parser registered
    /// under that id is returned.
    pub fn find_parser(&self, rule_name: &str) -> (r: Option<&StatementParser>)
        ensures
            r matches Some(p) ==> resolve_parser(self@, rule_name@) == Some(p@),
            r is None ==> resolve_parser(self@, rule_name@) is None,
    {
        let mut i: usize = self.rule_to_parser.len();
        let mut owner: Option<usize> = None;
        proof {
            assert(self@.bindings.subrange(0, i as int) =~= self@.bindings);
        }
        while i > 0
            invariant
                i <= self.rule_to_parser.len(),
                owner matches Some(q) ==> q < self.rule_to_parser.len() && lookup_binding(
                    self@.bindings,
                    rule_name@,
                ) == Some(self@.bindings[q as int].ext_id),
                owner is None ==> lookup_binding(self@.bindings, rule_name@) == lookup_binding(
                    self@.bindings.subrange(0, i as int),
                    rule_name@,
                ),
            decreases i,
        {
            if owner.is_none() {
                i = i - 1;
                if str_eq(self.rule_to_parser[i].rule.as_str(), rule_name) {
                    proof {
                        assert(self@.bindings.subrange(0, i + 1).last() == self@.bindings[
                            i as int]);
                        assert(self@.bindings[i as int].rule == rule_name@);
                    }
                    owner = Some(i);
                } else {
                    proof {
                        assert(self@.bindings.subrange(0, i + 1).last() == self@.bindings[
                            i as int]);
                        assert(self@.bindings.subrange(0, i + 1).drop_last()
                            =~= self@.bindings.subrange(0, i as int));
                    }
                }
            } else {
                i = 0;
            }
        }
        let bidx = match owner {
            Some(b) => b,
            None => {
                proof {
                    assert(self@.bindings.subrange(0, 0) =~= Seq::<RuleBindingView>::empty());
                }
                return None;
            },
        };
        let mut j: usize = self.statement_parsers.len();
        proof {
            assert(self@.parsers.subrange(0, j as int) =~= self@.parsers);
        }
        while j > 0
            invariant
                j <= self.statement_parsers.len(),
                bidx < self.rule_to_parser.len(),
                lookup_binding(self@.bindings, rule_name@) == Some(
                    self@.bindings[bidx as int].ext_id,
                ),
                lookup_parser(self@.parsers, self@.bindings[bidx as int].ext_id) == lookup_parser(
                    self@.parsers.subrange(0, j as int),
                    self@.bindings[bidx as int].ext_id,
                ),
            decreases j,
        {
            j = j - 1;
            if self.statement_parsers[j].id.eq(&self.rule_to_parser[bidx].ext_id) {
                proof {
                    assert(self@.parsers.subrange(0, j + 1).last() == self@.parsers[j as int]);
                    assert(self@.parsers[j as int].id == self.statement_parsers@[j as int].id@);
                    assert(self@.bindings[bidx as int].ext_id == self.rule_to_parser@[
                        bidx as int].ext_id@);
                    assert(lookup_parser(
                        self@.parsers.subrange(0, j + 1),
                        self@.bindings[bidx as int].ext_id,
                    ) == Some(self@.parsers[j as int].parser));
                    assert(self@.parsers[j as int].parser == self.statement_parsers@[
                        j as int].parser@);
                    assert(lookup_binding(self@.bindings, rule_name@) == Some(
                        self@.bindings[bidx as int].ext_id,
                    ));
                    assert(lookup_parser(self@.parsers, self@.bindings[bidx as int].ext_id)
                        == Some(self@.parsers[j as int].parser));
                    assert(resolve_parser(self@, rule_name@) == Some(
                        self@.parsers[j as int].parser,
                    ));
                }
                return Some(&self.statement_parsers[j].parser);
            }
            proof {
                assert(self@.parsers.subrange(0, j + 1).last() == self@.parsers[j as int]);
                assert(self@.parsers.subrange(0, j + 1).drop_last() =~= self@.parsers.subrange(
                    0,
                    j as int,
                ));
            }
        }
        proof {
            assert(self@.parsers.subrange(0, 0) =~= Seq::<ParserEntryView>::empty());
        }
        None
    }
}

/// Context handed to a statement parser: the declared roles and the
/// original input for error reporting.
#[derive(Debug)]
pub struct ParseContext<'a> {
    pub declared_roles: &'a Vec<Role>,
    pub input: &'a str,
}

/// Context handed to an extension during projection: all declared roles
/// and the role being projected.
#[derive(Debug)]
pub struct ProjectionContext<'a> {
    pub all_roles: &'a Vec<Role>,
    pub current_role: &'a Role,
}

/// Context handed to an extension during code generation.
#[derive(Debug)]
pub struct CodegenContext {
    pub choreography_name: String,
    pub roles: Vec<Role>,
    pub namespace: Option<String>,
}

impl Default for CodegenContext {
    /// The default context: a placeholder name, no roles, no namespace.
    fn default() -> (r: Self)
        ensures
            r.choreography_name@ == "Default"@,
            r.roles@.len() == 0,
            r.namespace is None,
    {
        CodegenContext {
            choreography_name: String::from_str("Default"),
            roles: Vec::new(),
            namespace: None,
        }
    }
}

/// Errors raised while parsing an extension statement.
#[derive(Debug)]
pub enum ParseError {
    Syntax { message: String },
    UnknownRole { role: String },
    InvalidSyntax { details: String },
    Conflict { message: String },
}

/// Errors raised by an extension's own validation.
#[derive(Debug)]
pub enum ExtensionValidationError {
    UndeclaredRole { role: String },
    InvalidStructure { reason: String },
    ExtensionFailed { message: String },
}

/// Mathematical model of an [`ExtensionValidationError`].
pub enum ExtensionErrorView {
    UndeclaredRole { role: Seq<char> },
    InvalidStructure { reason: Seq<char> },
    ExtensionFailed { message: Seq<char> },
}

impl View for ExtensionValidationError {
    type V = ExtensionErrorView;

    open spec fn view(&self) -> ExtensionErrorView {
        match self {
            ExtensionValidationError::UndeclaredRole { role } => ExtensionErrorView::UndeclaredRole {
                role: role@,
            },
            ExtensionValidationError::InvalidStructure { reason } => (
            ExtensionErrorView::InvalidStructure { reason: reason@ }),
            ExtensionValidationError::ExtensionFailed { message } => (
            ExtensionErrorView::ExtensionFailed { message: message@ }),
        }
    }
}


/// `x` inserted into `s` after every extension of priority at least
/// `x.priority`: descending priority order, ties kept in insertion order.
pub open spec fn insert_desc(s: Seq<GrammarExtensionView>, x: GrammarExtensionView) -> Seq<
    GrammarExtensionView,
>
    decreases s.len(),
{
    if s.len() > 0 && s[0].priority >= x.priority {
        seq![s[0]] + insert_desc(s.drop_first(), x)
    } else {
        seq![x] + s
    }
}

/// The extensions sorted by descending priority, ties broken by
/// registration order (a stable insertion sort).
pub open spec fn sort_exts(s: Seq<GrammarExtensionView>) -> Seq<GrammarExtensionView>
    decreases s.len(),
{
    if s.len() == 0 {
        Seq::empty()
    } else {
        insert_desc(sort_exts(s.drop_last()), s.last())
    }
}

/// Positions in descending priority order.
pub open spec fn sorted_desc(s: Seq<GrammarExtensionView>) -> bool {
    forall|a: int, b: int| 0 <= a <= b < s.len() ==> s[a].priority >= s[b].priority
}

pub proof fn lemma_insert_desc_len(s: Seq<GrammarExtensionView>, x: GrammarExtensionView)
    ensures
        insert_desc(s, x).len() == s.len() + 1,
    decreases s.len(),
{
    if s.len() > 0 && s[0].priority >= x.priority {
        lemma_insert_desc_len(s.drop_first(), x);
    }
}

pub proof fn lemma_insert_desc_sorted(s: Seq<GrammarExtensionView>, x: GrammarExtensionView)
    requires
        sorted_desc(s),
    ensures
        sorted_desc(insert_desc(s, x)),
    decreases s.len(),
{
    if s.len() > 0 && s[0].priority >= x.priority {
        assert(sorted_desc(s.drop_first()));
        lemma_insert_desc_sorted(s.drop_first(), x);
        lemma_insert_desc_len(s.drop_first(), x);
        let r = seq![s[0]] + insert_desc(s.drop_first(), x);
        let t = insert_desc(s.drop_first(), x);
        assert forall|a: int, b: int| 0 <= a <= b < r.len() implies r[a].priority
            >= r[b].priority by {
            if a == 0 && b > 0 {
                // the head outweighs everything inserted behind it
                assert(r[b] == t[b - 1]);
                lemma_insert_desc_head(s.drop_first(), x);
                if t.len() > 0 {
                    assert(t[0].priority <= s[0].priority);
                    assert(t[0].priority >= t[b - 1].priority);
                }
            } else if a > 0 {
                assert(r[a] == t[a - 1]);
                assert(r[b] == t[b - 1]);
            }
        }
    }
}

/// The head of an insertion result is the old head or the new element,
/// and never outweighs max(head, x).
pub proof fn lemma_insert_desc_head(s: Seq<GrammarExtensionView>, x: GrammarExtensionView)
    ensures
        insert_desc(s, x).len() > 0,
        s.len() == 0 ==> insert_desc(s, x)[0] == x,
        s.len() > 0 ==> (insert_desc(s, x)[0] == s[0] || insert_desc(s, x)[0] == x),
        s.len() > 0 ==> insert_desc(s, x)[0].priority <= (if s[0].priority >= x.priority {
            s[0].priority
        } else {
            x.priority
        }),
{
}

pub proof fn lemma_sort_exts_sorted(s: Seq<GrammarExtensionView>)
    ensures
        sorted_desc(sort_exts(s)),
        sort_exts(s).len() == s.len(),
    decreases s.len(),
{
    if s.len() > 0 {
        lemma_sort_exts_sorted(s.drop_last());
        lemma_insert_desc_sorted(sort_exts(s.drop_last()), s.last());
        lemma_insert_desc_len(sort_exts(s.drop_last()), s.last());
    }
}

pub proof fn lemma_insert_desc_multiset(s: Seq<GrammarExtensionView>, x: GrammarExtensionView)
    ensures
        insert_desc(s, x).to_multiset() == s.to_multiset().insert(x),
    decreases s.len(),
{
    broadcast use vstd::seq_lib::group_to_multiset_ensures;

    if s.len() > 0 && s[0].priority >= x.priority {
        lemma_insert_desc_multiset(s.drop_first(), x);
        assert(s =~= seq![s[0]] + s.drop_first());
        vstd::seq_lib::lemma_multiset_commutative(seq![s[0]], s.drop_first());
        vstd::seq_lib::lemma_multiset_commutative(seq![s[0]], insert_desc(s.drop_first(), x));
        assert(insert_desc(s, x).to_multiset() =~= s.to_multiset().insert(x));
    } else {
        assert(insert_desc(s, x) =~= seq![x] + s);
        vstd::seq_lib::lemma_multiset_commutative(seq![x], s);
        assert(insert_desc(s, x).to_multiset() =~= s.to_multiset().insert(x));
    }
}

/// Sorting permutes the registered extensions: nothing is lost or added.
pub proof fn lemma_sort_exts_multiset(s: Seq<GrammarExtensionView>)
    ensures
        sort_exts(s).to_multiset() == s.to_multiset(),
    decreases s.len(),
{
    broadcast use vstd::seq_lib::group_to_multiset_ensures;

    if s.len() > 0 {
        lemma_sort_exts_multiset(s.drop_last());
        lemma_insert_desc_multiset(sort_exts(s.drop_last()), s.last());
        assert(s =~= s.drop_last().push(s.last()));
        assert(s.drop_last().push(s.last()).to_multiset() == s.drop_last().to_multiset().insert(
            s.last(),
        ));
    }
}

/// Priority precedence: a higher-priority extension's rule text is
/// emitted before a lower-priority one's, whatever the registration
/// order. Stated over the emission order that grammar composition uses.
pub proof fn lemma_priority_precedence(
    exts: Seq<GrammarExtensionView>,
    a: int,
    b: int,
)
    requires
        0 <= a < exts.len(),
        0 <= b < exts.len(),
        exts[b].priority > exts[a].priority,
    ensures
        exists|i: int, j: int|
            0 <= i < j < sort_exts(exts).len() && sort_exts(exts)[i] == exts[b]
                && sort_exts(exts)[j] == exts[a],
{
    broadcast use vstd::seq_lib::group_to_multiset_ensures;

    lemma_sort_exts_sorted(exts);
    lemma_sort_exts_multiset(exts);
    let sorted = sort_exts(exts);
    assert(exts.to_multiset().contains(exts[a]));
    assert(exts.to_multiset().contains(exts[b]));
    assert(sorted.to_multiset().contains(exts[a]));
    assert(sorted.to_multiset().contains(exts[b]));
    assert(sorted.contains(exts[a]));
    assert(sorted.contains(exts[b]));
    let j = choose|j: int| 0 <= j < sorted.len() && sorted[j] == exts[a];
    let i = choose|i: int| 0 <= i < sorted.len() && sorted[i] == exts[b];
    if i >= j {
        assert(sorted[j].priority >= sorted[i].priority);
        assert(false);
    }
    assert(0 <= i < j < sorted.len() && sorted[i] == exts[b] && sorted[j] == exts[a]);
}


/// Where the rule text of the extension at position `i` of the emission
/// order starts inside the concatenated rule block: after one newline
/// per earlier extension and their rule texts.
pub open spec fn rules_prefix_len(exts: Seq<GrammarExtensionView>, i: int) -> int
    decreases i,
{
    if i <= 0 {
        0
    } else {
        rules_prefix_len(exts, i - 1) + 1 + exts[i - 1].rules.len()
    }
}

pub proof fn lemma_rules_prefix_drop(exts: Seq<GrammarExtensionView>, i: int)
    requires
        exts.len() > 0,
        1 <= i <= exts.len(),
    ensures
        rules_prefix_len(exts, i) == 1 + exts[0].rules.len() + rules_prefix_len(
            exts.drop_first(),
            i - 1,
        ),
    decreases i,
{
    if i == 1 {
        assert(rules_prefix_len(exts.drop_first(), 0) == 0);
        assert(rules_prefix_len(exts, 0) == 0);
    } else {
        lemma_rules_prefix_drop(exts, i - 1);
        assert(exts.drop_first()[i - 2] == exts[i - 1]);
        assert(rules_prefix_len(exts.drop_first(), i - 1) == rules_prefix_len(
            exts.drop_first(),
            i - 2,
        ) + 1 + exts.drop_first()[i - 2].rules.len());
    }
}

/// The emitted rule block carves out each extension's rule text at its
/// prefix offset, one newline before it.
pub proof fn lemma_ext_rules_slice(exts: Seq<GrammarExtensionView>, i: int)
    requires
        0 <= i < exts.len(),
    ensures
        0 <= rules_prefix_len(exts, i),
        rules_prefix_len(exts, i) + 1 + exts[i].rules.len() <= ext_rules_concat(exts).len(),
        ext_rules_concat(exts).subrange(
            rules_prefix_len(exts, i) + 1,
            rules_prefix_len(exts, i) + 1 + exts[i].rules.len(),
        ) == exts[i].rules,
        rules_prefix_len(exts, i) + 1 + exts[i].rules.len() == rules_prefix_len(exts, i + 1),
    decreases exts.len(),
{
    let whole = ext_rules_concat(exts);
    if i == 0 {
        lemma_ext_rules_nonneg(exts.drop_first());
        assert(whole =~= seq!['\n'] + exts[0].rules + ext_rules_concat(exts.drop_first()));
        assert(whole.subrange(1, 1 + exts[0].rules.len() as int) =~= exts[0].rules);
    } else {
        lemma_ext_rules_slice(exts.drop_first(), i - 1);
        lemma_rules_prefix_drop(exts, i);
        lemma_rules_prefix_drop(exts, i + 1);
        assert(exts.drop_first()[i - 1] == exts[i]);
        let head: int = 1 + exts[0].rules.len() as int;
        let rest = ext_rules_concat(exts.drop_first());
        assert(whole =~= seq!['\n'] + exts[0].rules + rest);
        let o = rules_prefix_len(exts.drop_first(), i - 1);
        assert(whole.subrange(head + o + 1, head + o + 1 + exts[i].rules.len() as int)
            =~= rest.subrange(o + 1, o + 1 + exts[i].rules.len() as int));
    }
}

pub proof fn lemma_ext_rules_nonneg(exts: Seq<GrammarExtensionView>)
    ensures
        ext_rules_concat(exts).len() >= 0,
{
}

/// Prefix offsets grow with the position.
pub proof fn lemma_rules_prefix_mono(exts: Seq<GrammarExtensionView>, i: int, j: int)
    requires
        0 <= i <= j,
    ensures
        rules_prefix_len(exts, i) <= rules_prefix_len(exts, j),
    decreases j - i,
{
    if i < j {
        lemma_rules_prefix_mono(exts, i, j - 1);
    }
}

/// Priority ordering, textually: when one registered extension carries a
/// strictly higher priority than another, its rule text occupies an
/// earlier slice of the emitted rule block, whatever the registration
/// order.
pub proof fn lemma_priority_text_precedence(
    exts: Seq<GrammarExtensionView>,
    a: int,
    b: int,
)
    requires
        0 <= a < exts.len(),
        0 <= b < exts.len(),
        exts[b].priority > exts[a].priority,
    ensures
        exists|oi: int, oj: int|
            {
                &&& 0 <= oi < oj
                &&& oj + exts[a].rules.len() <= ext_rules_concat(sort_exts(exts)).len()
                &&& (#[trigger] ext_rules_concat(sort_exts(exts)).subrange(
                    oi,
                    oi + exts[b].rules.len() as int,
                )) == exts[b].rules
                &&& (#[trigger] ext_rules_concat(sort_exts(exts)).subrange(
                    oj,
                    oj + exts[a].rules.len() as int,
                )) == exts[a].rules
            },
{
    lemma_priority_precedence(exts, a, b);
    let sorted = sort_exts(exts);
    let (i, j): (int, int) = choose|i: int, j: int|
        0 <= i < j < sorted.len() && sorted[i] == exts[b] && sorted[j] == exts[a];
    lemma_ext_rules_slice(sorted, i);
    lemma_ext_rules_slice(sorted, j);
    lemma_rules_prefix_mono(sorted, i + 1, j);
    let oi = rules_prefix_len(sorted, i) + 1;
    let oj = rules_prefix_len(sorted, j) + 1;
    let block = ext_rules_concat(sorted);
    assert(0 <= oi < oj);
    assert(block.subrange(oi, oi + exts[b].rules.len() as int) == exts[b].rules);
    assert(block.subrange(oj, oj + exts[a].rules.len() as int) == exts[a].rules);
}

/// Inserts `x` before the first strictly lower-priority extension.
fn insert_by_priority(sorted: &mut Vec<GrammarExtension>, x: GrammarExtension)
    ensures
        ext_views(final(sorted)@) == insert_desc(ext_views(old(sorted)@), x@),
{
    let ghost sv = ext_views(sorted@);
    let mut pos: usize = 0;
    while pos < sorted.len() && sorted[pos].priority >= x.priority
        invariant
            pos <= sorted.len(),
            sv == ext_views(sorted@),
            forall|k: int| 0 <= k < pos ==> sv[k].priority >= x@.priority,
        decreases sorted.len() - pos,
    {
        pos = pos + 1;
    }
    sorted.insert(pos, x);
    proof {
        lemma_insert_desc_split(sv, x@, pos as int);
        assert(ext_views(sorted@) =~~= sv.subrange(0, pos as int) + seq![x@] + sv.subrange(
            pos as int,
            sv.len() as int,
        ));
    }
}

pub proof fn lemma_insert_desc_split(
    s: Seq<GrammarExtensionView>,
    x: GrammarExtensionView,
    pos: int,
)
    requires
        0 <= pos <= s.len(),
        forall|k: int| 0 <= k < pos ==> s[k].priority >= x.priority,
        pos < s.len() ==> s[pos].priority < x.priority,
    ensures
        insert_desc(s, x) == s.subrange(0, pos) + seq![x] + s.subrange(pos, s.len() as int),
    decreases pos,
{
    if pos == 0 {
        assert(insert_desc(s, x) =~= s.subrange(0, 0) + seq![x] + s.subrange(0, s.len() as int));
    } else {
        assert(s[0].priority >= x.priority);
        let t = s.drop_first();
        assert(forall|k: int| 0 <= k < pos - 1 ==> #[trigger] t[k].priority >= x.priority);
        lemma_insert_desc_split(t, x, pos - 1);
        assert(insert_desc(s, x) =~= s.subrange(0, pos) + seq![x] + s.subrange(
            pos,
            s.len() as int,
        ));
    }
}

/// The registered extensions in the order grammar composition emits
/// them: descending priority, ties by registration order.
pub fn sort_extensions(exts: &Vec<GrammarExtension>) -> (r: Vec<GrammarExtension>)
    ensures
        ext_views(r@) == sort_exts(ext_views(exts@)),
{
    let mut r: Vec<GrammarExtension> = Vec::new();
    proof {
        assert(ext_views(r@) =~= sort_exts(ext_views(exts@).subrange(0, 0)));
    }
    let mut i: usize = 0;
    while i < exts.len()
        invariant
            i <= exts.len(),
            ext_views(r@) == sort_exts(ext_views(exts@).subrange(0, i as int)),
        decreases exts.len() - i,
    {
        insert_by_priority(&mut r, exts[i].clone());
        i = i + 1;
        proof {
            let ev = ext_views(exts@);
            assert(ev.subrange(0, i as int).drop_last() =~= ev.subrange(0, i - 1));
            assert(ev.subrange(0, i as int).last() == ev[i - 1]);
        }
    }
    proof {
        assert(ext_views(exts@).subrange(0, exts.len() as int) =~= ext_views(exts@));
    }
    r
}

/// The rule text that the sorted extensions contribute: a newline before
/// each extension's rules.
pub open spec fn ext_rules_concat(exts: Seq<GrammarExtensionView>) -> Seq<char>
    decreases exts.len(),
{
    if exts.len() == 0 {
        Seq::empty()
    } else {
        seq!['\n'] + exts[0].rules + ext_rules_concat(exts.drop_first())
    }
}

pub proof fn lemma_ext_rules_concat_snoc(exts: Seq<GrammarExtensionView>, x: GrammarExtensionView)
    ensures
        ext_rules_concat(exts.push(x)) == ext_rules_concat(exts) + seq!['\n'] + x.rules,
    decreases exts.len(),
{
    if exts.len() == 0 {
        let pushed = exts.push(x);
        assert(pushed.drop_first() =~= Seq::<GrammarExtensionView>::empty());
        assert(ext_rules_concat(pushed.drop_first()).len() == 0);
        assert(pushed[0] == x);
        assert(ext_rules_concat(pushed) =~= ext_rules_concat(exts) + seq!['\n'] + x.rules);
    } else {
        assert(exts.push(x).drop_first() =~= exts.drop_first().push(x));
        lemma_ext_rules_concat_snoc(exts.drop_first(), x);
        assert(ext_rules_concat(exts.push(x)) =~= ext_rules_concat(exts) + seq!['\n'] + x.rules);
    }
}

/// What composing the registered grammar fragments onto a base text
/// yields: the base followed by each extension's rules in priority order.
pub open spec fn compose_grammar_spec(exts: Seq<GrammarExtensionView>, base: Seq<char>) -> Seq<
    char,
> {
    base + ext_rules_concat(sort_exts(exts))
}

impl ExtensionRegistry {
    /// Appends all registered grammar rules to the base text, highest
    /// priority first, ties in registration order.
    pub fn compose_grammar(&self, base_grammar: &str) -> (r: String)
        ensures
            r@ == compose_grammar_spec(self@.exts, base_grammar@),
    {
        let sorted = sort_extensions(&self.grammar_extensions);
        let mut out = crate::text::chars_of(base_grammar);
        let ghost sv = ext_views(sorted@);
        let mut k: usize = 0;
        proof {
            assert(sv.subrange(0, 0) =~= Seq::<GrammarExtensionView>::empty());
        }
        while k < sorted.len()
            invariant
                k <= sorted.len(),
                sv == ext_views(sorted@),
                out@ == base_grammar@ + ext_rules_concat(sv.subrange(0, k as int)),
            decreases sorted.len() - k,
        {
            out.push('\n');
            let rules = crate::text::chars_of(sorted[k].rules.as_str());
            crate::text::append_chars(&mut out, &rules);
            k = k + 1;
            proof {
                assert(sv.subrange(0, k - 1).push(sv[k - 1]) =~= sv.subrange(0, k as int));
                lemma_ext_rules_concat_snoc(sv.subrange(0, k - 1), sv[k - 1]);
                assert(out@ =~= base_grammar@ + ext_rules_concat(sv.subrange(0, k as int)));
            }
        }
        proof {
            assert(sv.subrange(0, sorted.len() as int) =~= sv);
        }
        crate::text::string_of(&out)
    }

    /// The statement-rule names every registered extension claims, in
    /// registration order.
    pub fn claimed_rules(&self) -> (r: Vec<String>)
        ensures
            string_views(r@) == claims_of(self@.exts),
    {
        claims_vec(&self.grammar_extensions)
    }

    /// The registered extensions sorted as composition emits them:
    /// descending priority, ties by registration order.
    pub fn sorted_extensions(&self) -> (r: Vec<GrammarExtension>)
        ensures
            ext_views(r@) == sort_exts(self@.exts),
    {
        sort_extensions(&self.grammar_extensions)
    }
}

/// The statement-rule names the given extensions claim, in order.
pub fn claims_vec(exts: &Vec<GrammarExtension>) -> (r: Vec<String>)
    ensures
        string_views(r@) == claims_of(ext_views(exts@)),
{
    let mut r: Vec<String> = Vec::new();
    let ghost ev = ext_views(exts@);
    let mut i: usize = 0;
    proof {
        assert(claims_of_prefix(ev, 0) =~= Seq::<Seq<char>>::empty());
        assert(string_views(r@) =~= claims_of_prefix(ev, 0));
    }
    while i < exts.len()
        invariant
            i <= exts.len(),
            ev == ext_views(exts@),
            string_views(r@) == claims_of_prefix(ev, i as int),
        decreases exts.len() - i,
    {
        let ghost rpre = r@;
        let ghost before = string_views(r@);
        let ext = &exts[i];
        let mut k: usize = 0;
        while k < ext.statement_rules.len()
            invariant
                k <= ext.statement_rules.len(),
                ev == ext_views(exts@),
                i < exts.len(),
                ext == &exts[i as int],
                r@.len() == rpre.len() + k,
                forall|j: int| 0 <= j < rpre.len() ==> r@[j] == rpre[j],
                forall|j: int|
                    rpre.len() <= j < r@.len() ==> #[trigger] r@[j]@ == ev[
                        i as int].statement_rules[j - rpre.len()],
            decreases ext.statement_rules.len() - k,
        {
            r.push(ext.statement_rules[k].clone());
            k = k + 1;
        }
        i = i + 1;
        proof {
            assert(before == string_views(rpre));
            assert(string_views(r@) =~= before + ev[i - 1].statement_rules);
            lemma_claims_of_prefix_snoc(ev, i as int);
            assert(string_views(r@) =~= claims_of_prefix(ev, i as int));
        }
    }
    proof {
        lemma_claims_of_prefix_full(ev, exts@.len() as int);
    }
    r
}

/// The statement-rule names claimed by the extensions before position
/// `n`, flattened in registration order.
pub open spec fn claims_of_prefix(exts: Seq<GrammarExtensionView>, n: int) -> Seq<Seq<char>>
    decreases n,
{
    if n <= 0 || n > exts.len() {
        Seq::empty()
    } else {
        claims_of_prefix(exts, n - 1) + exts[n - 1].statement_rules
    }
}

/// All claimed statement-rule names, flattened in registration order.
pub open spec fn claims_of(exts: Seq<GrammarExtensionView>) -> Seq<Seq<char>> {
    claims_of_prefix(exts, exts.len() as int)
}

pub proof fn lemma_claims_of_prefix_snoc(exts: Seq<GrammarExtensionView>, n: int)
    requires
        0 < n <= exts.len(),
    ensures
        claims_of_prefix(exts, n) == claims_of_prefix(exts, n - 1) + exts[n - 1].statement_rules,
{
}

pub proof fn lemma_claims_of_prefix_full(exts: Seq<GrammarExtensionView>, n: int)
    requires
        n == exts.len(),
    ensures
        claims_of_prefix(exts, n) == claims_of(exts),
{
}


/// One entry of an extension's projection table: the local behaviour of
/// one concrete role.
#[derive(Debug)]
pub struct ExtProjection {
    pub role: Role,
    pub local: LocalType,
}

/// Mathematical model of an [`ExtProjection`].
pub struct ExtProjectionView {
    pub role: RoleView,
    pub local: LocalTypeView,
}

impl View for ExtProjection {
    type V = ExtProjectionView;

    open spec fn view(&self) -> ExtProjectionView {
        ExtProjectionView { role: self.role@, local: lt_view(self.local) }
    }
}

/// The models of a projection table.
pub open spec fn ep_views(ps: Seq<ExtProjection>) -> Seq<ExtProjectionView> {
    Seq::new(ps.len(), |i: int| ps[i]@)
}

/// An externally-defined protocol construct, described by data: the
/// roles it mentions, its per-role projection table and the code it
/// emits. The four operations the core calls — role-mention query,
/// validation, projection, code generation — are all answered from this
/// data.
#[derive(Debug)]
pub struct ProtocolExtension {
    pub name: String,
    pub mentioned: Vec<Role>,
    pub projections: Vec<ExtProjection>,
    pub code_text: String,
}

/// Mathematical model of a [`ProtocolExtension`].
pub struct ProtocolExtensionView {
    pub name: Seq<char>,
    pub mentioned: Seq<RoleView>,
    pub projections: Seq<ExtProjectionView>,
    pub code_text: Seq<char>,
}

impl View for ProtocolExtension {
    type V = ProtocolExtensionView;

    open spec fn view(&self) -> ProtocolExtensionView {
        ProtocolExtensionView {
            name: self.name@,
            mentioned: role_views(self.mentioned@),
            projections: ep_views(self.projections@),
            code_text: self.code_text@,
        }
    }
}

/// The extension mentions the concrete role `t`.
pub open spec fn ext_mentions(e: ProtocolExtensionView, t: RoleView) -> bool {
    exists|i: int| 0 <= i < e.mentioned.len() && role_matches(t, #[trigger] e.mentioned[i])
}

/// The extension's mentioned roles are all declared.
pub open spec fn ext_valid(e: ProtocolExtensionView, decls: Seq<RoleView>) -> bool {
    forall|i: int| 0 <= i < e.mentioned.len() ==> use_site_ok(#[trigger] e.mentioned[i], decls)
}

/// The local behaviour the table assigns to `t`: the first entry whose
/// role equals `t`.
pub open spec fn ext_lookup(ps: Seq<ExtProjectionView>, t: RoleView) -> Option<LocalTypeView>
    decreases ps.len(),
{
    if ps.len() == 0 {
        None
    } else if ps[0].role == t {
        Some(ps[0].local)
    } else {
        ext_lookup(ps.drop_first(), t)
    }
}

impl ProtocolExtension {
    /// Whether this construct mentions the concrete role.
    pub fn mentions_role(&self, role: &Role) -> (r: bool)
        ensures
            r == ext_mentions(self@, role@),
    {
        let mut i: usize = 0;
        while i < self.mentioned.len()
            invariant
                i <= self.mentioned.len(),
                forall|j: int| 0 <= j < i ==> !role_matches(role@, #[trigger] self@.mentioned[j]),
            decreases self.mentioned.len() - i,
        {
            if crate::role::matches_role(role, &self.mentioned[i]) {
                proof {
                    assert(role_matches(role@, self@.mentioned[i as int]));
                }
                return true;
            }
            proof {
                assert(self@.mentioned[i as int] == self.mentioned@[i as int]@);
            }
            i = i + 1;
        }
        false
    }

    /// Checks that every mentioned role is declared.
    pub fn validate(&self, roles: &Vec<Role>) -> (r: Result<(), ExtensionValidationError>)
        ensures
            r is Ok <==> ext_valid(self@, role_views(roles@)),
            r matches Err(e) ==> !ext_valid(self@, role_views(roles@)),
    {
        let mut i: usize = 0;
        while i < self.mentioned.len()
            invariant
                i <= self.mentioned.len(),
                forall|j: int|
                    0 <= j < i ==> use_site_ok(#[trigger] self@.mentioned[j], role_views(roles@)),
            decreases self.mentioned.len() - i,
        {
            if !crate::role::check_use_site(&self.mentioned[i], roles) {
                proof {
                    assert(self@.mentioned[i as int] == self.mentioned@[i as int]@);
                    assert(!use_site_ok(self@.mentioned[i as int], role_views(roles@)));
                }
                return Err(
                    ExtensionValidationError::UndeclaredRole {
                        role: self.mentioned[i].name.clone(),
                    },
                );
            }
            proof {
                assert(self@.mentioned[i as int] == self.mentioned@[i as int]@);
            }
            i = i + 1;
        }
        Ok(())
    }

    /// The local behaviour of `role`: the table entry for it, or `End`
    /// when the construct does not involve the role.
    pub fn lookup_projection(&self, role: &Role) -> (r: Option<LocalType>)
        ensures
            r matches Some(l) ==> ext_lookup(self@.projections, role@) == Some(lt_view(l)),
            r is None ==> ext_lookup(self@.projections, role@) is None,
    {
        let mut i: usize = 0;
        proof {
            assert(self@.projections.subrange(0, self@.projections.len() as int)
                =~= self@.projections);
        }
        while i < self.projections.len()
            invariant
                i <= self.projections.len(),
                ext_lookup(self@.projections, role@) == ext_lookup(
                    self@.projections.subrange(i as int, self@.projections.len() as int),
                    role@,
                ),
            decreases self.projections.len() - i,
        {
            let ghost tail = self@.projections.subrange(
                i as int,
                self@.projections.len() as int,
            );
            proof {
                assert(tail[0] == self@.projections[i as int]);
                assert(self@.projections[i as int] == self.projections@[i as int]@);
                assert(tail.drop_first() =~= self@.projections.subrange(
                    i + 1,
                    self@.projections.len() as int,
                ));
            }
            if self.projections[i].role.same_as(role) {
                return Some(self.projections[i].local.clone());
            }
            i = i + 1;
        }
        proof {
            assert(self@.projections.subrange(
                self@.projections.len() as int,
                self@.projections.len() as int,
            ) =~= Seq::<ExtProjectionView>::empty());
        }
        None
    }

    /// Projects this construct onto one concrete role. The context
    /// carries the full role set and the current target. The result is
    /// the construct's own table entry for the role, an idle wrapper
    /// when the construct does not involve it, and a failure when the
    /// construct mentions the role but cannot project it.
    pub fn project(&self, role: &Role, _context: &ProjectionContext) -> (r: Result<
        LocalType,
        crate::projection::ProjectionError,
    >)
        ensures
            r matches Ok(l) ==> crate::projection::ext_project(self@, role@) == Ok::<
                LocalTypeView,
                crate::projection::ProjectionErrorView,
            >(lt_view(l)),
            r matches Err(e) ==> crate::projection::ext_project(self@, role@) == Err::<
                LocalTypeView,
                crate::projection::ProjectionErrorView,
            >(e@),
    {
        if self.mentions_role(role) {
            match self.lookup_projection(role) {
                Some(l) => Ok(LocalType::Ext { ext_id: self.name.clone(), body: Box::new(l) }),
                None => Err(
                    crate::projection::ProjectionError::ExtensionFailed {
                        id: self.name.clone(),
                    },
                ),
            }
        } else {
            proof {
                assert(lt_view(LocalType::End) == LocalTypeView::End);
            }
            Ok(LocalType::Ext { ext_id: self.name.clone(), body: Box::new(LocalType::End) })
        }
    }

    /// The code this construct emits for the given generation context.
    pub fn generate_code(&self, _context: &CodegenContext) -> (r: String)
        ensures
            r@ == self@.code_text,
    {
        self.code_text.clone()
    }
}

/// A unit that knows how to put its own extensions into a registry.
pub trait RegisterExtension {
    fn register_all(registry: &mut ExtensionRegistry);
}

} // verus!
