//! The global protocol AST and its structural validation.
//!
//! A protocol is the single global description of a multi-party exchange:
//! point-to-point or multicast sends, guarded choices, named loops with
//! back-edges, termination, and externally-defined extension constructs.
//! Validation checks that every referenced role is declared, that no step
//! sends to its own sender, that choices are non-empty with unique
//! labels, and that every back-edge names an enclosing loop; extension
//! nodes validate their own role mentions with the same severity.

use vstd::prelude::*;
use crate::extensions::ext_valid;
use crate::extensions::ProtocolExtension;
use crate::extensions::ProtocolExtensionView;
use crate::message::MessageType;
use crate::role::role_views;
use crate::role::use_site_ok;
use crate::role::Role;
use crate::role::RoleView;

verus! {

/// One labeled branch of a global choice.
#[derive(Debug)]
pub struct Branch {
    pub label: String,
    pub body: Protocol,
}

/// The global protocol.
#[derive(Debug)]
pub enum Protocol {
    /// `from` sends `message` to `to` (a role, a member, or a family),
    /// then the protocol continues.
    Send { from: Role, to: Role, message: MessageType, cont: Box<Protocol> },
    /// `decider` picks one labeled branch; exactly one is taken.
    Choice { decider: Role, branches: Vec<Branch> },
    /// A repeatable sub-protocol with a named back-edge target.
    Loop { label: String, body: Box<Protocol> },
    /// Jump back to the enclosing loop of that label.
    Continue { label: String },
    /// No further communication.
    End,
    /// An externally-defined construct.
    Ext(ProtocolExtension),
}

/// Mathematical model of a [`Branch`].
pub struct BranchView {
    pub label: Seq<char>,
    pub body: ProtocolView,
}

/// Mathematical model of a [`Protocol`].
pub enum ProtocolView {
    Send { from: RoleView, to: RoleView, message: Seq<char>, cont: Box<ProtocolView> },
    Choice { decider: RoleView, branches: Seq<BranchView> },
    Loop { label: Seq<char>, body: Box<ProtocolView> },
    Continue { label: Seq<char> },
    End,
    Ext(ProtocolExtensionView),
}

/// The model of a protocol.
pub open spec fn pv(p: Protocol) -> ProtocolView
    decreases p,
{
    match p {
        Protocol::Send { from, to, message, cont } => ProtocolView::Send {
            from: from@,
            to: to@,
            message: message@,
            cont: Box::new(pv(*cont)),
        },
        Protocol::Choice { decider, branches } => ProtocolView::Choice {
            decider: decider@,
            branches: b_views(branches@),
        },
        Protocol::Loop { label, body } => ProtocolView::Loop {
            label: label@,
            body: Box::new(pv(*body)),
        },
        Protocol::Continue { label } => ProtocolView::Continue { label: label@ },
        Protocol::End => ProtocolView::End,
        Protocol::Ext(e) => ProtocolView::Ext(e@),
    }
}

/// The models of a sequence of branches.
pub open spec fn b_views(bs: Seq<Branch>) -> Seq<BranchView>
    decreases bs,
{
    if bs.len() == 0 {
        Seq::empty()
    } else {
        seq![BranchView { label: bs[0].label@, body: pv(bs[0].body) }] + b_views(bs.drop_first())
    }
}

pub proof fn lemma_b_views_len(bs: Seq<Branch>)
    ensures
        b_views(bs).len() == bs.len(),
    decreases bs.len(),
{
    if bs.len() > 0 {
        lemma_b_views_len(bs.drop_first());
    }
}

pub proof fn lemma_b_views_index(bs: Seq<Branch>, i: int)
    requires
        0 <= i < bs.len(),
    ensures
        b_views(bs).len() == bs.len(),
        b_views(bs)[i] == (BranchView { label: bs[i].label@, body: pv(bs[i].body) }),
    decreases bs.len(),
{
    lemma_b_views_len(bs);
    if i > 0 {
        lemma_b_views_index(bs.drop_first(), i - 1);
    }
}

/// The concrete role `t` takes part in some step of `p`.
pub open spec fn mentions_view(p: ProtocolView, t: RoleView) -> bool
    decreases p,
{
    match p {
        ProtocolView::Send { from, to, message, cont } => crate::role::role_matches(t, from)
            || crate::role::role_matches(t, to) || mentions_view(*cont, t),
        ProtocolView::Choice { decider, branches } => crate::role::role_matches(t, decider)
            || exists|i: int|
            0 <= i < branches.len() && mentions_view(#[trigger] branches[i].body, t),
        ProtocolView::Loop { label, body } => mentions_view(*body, t),
        ProtocolView::Continue { label } => false,
        ProtocolView::End => false,
        ProtocolView::Ext(e) => crate::extensions::ext_mentions(e, t),
    }
}

/// Executable form of [`mentions_view`].
pub fn mentions(p: &Protocol, t: &Role) -> (r: bool)
    ensures
        r == mentions_view(pv(*p), t@),
    decreases *p,
{
    match p {
        Protocol::Send { from, to, message, cont } => {
            crate::role::matches_role(t, from) || crate::role::matches_role(t, to) || mentions(
                &**cont,
                t,
            )
        },
        Protocol::Choice { decider, branches } => {
            if crate::role::matches_role(t, decider) {
                return true;
            }
            mentions_in_branches(branches, t)
        },
        Protocol::Loop { label, body } => mentions(&**body, t),
        Protocol::Continue { label } => false,
        Protocol::End => false,
        Protocol::Ext(e) => e.mentions_role(t),
    }
}

/// Whether the role takes part in some branch body.
fn mentions_in_branches(branches: &Vec<Branch>, t: &Role) -> (r: bool)
    ensures
        r == exists|i: int|
            0 <= i < b_views(branches@).len() && mentions_view(
                #[trigger] b_views(branches@)[i].body,
                t@,
            ),
    decreases branches@,
{
    let ghost bv = b_views(branches@);
    let mut i: usize = 0;
    proof {
        lemma_b_views_len(branches@);
    }
    while i < branches.len()
        invariant
            i <= branches.len(),
            bv == b_views(branches@),
            bv.len() == branches.len(),
            forall|j: int| 0 <= j < i ==> !mentions_view(#[trigger] bv[j].body, t@),
        decreases branches.len() - i,
    {
        proof {
            lemma_b_views_index(branches@, i as int);
        }
        if mentions(&branches[i].body, t) {
            proof {
                assert(mentions_view(bv[i as int].body, t@));
            }
            return true;
        }
        i = i + 1;
    }
    false
}

/// Errors of structural protocol validation.
#[derive(Debug)]
pub enum ValidationError {
    /// A step references a role that no declaration covers.
    UndeclaredRole { role: String },
    /// A send names the same concrete endpoint as sender and receiver.
    SelfCommunication { role: String },
    /// A choice has no branches.
    EmptyChoice { decider: String },
    /// Two branches of one choice carry the same label.
    DuplicateLabel { label: String },
    /// A back-edge names no enclosing loop.
    UnboundContinue { label: String },
    /// An extension rejected its own role mentions.
    ExtensionInvalid { id: String },
}

/// Mathematical model of a [`ValidationError`].
pub enum ValidationErrorView {
    UndeclaredRole { role: Seq<char> },
    SelfCommunication { role: Seq<char> },
    EmptyChoice { decider: Seq<char> },
    DuplicateLabel { label: Seq<char> },
    UnboundContinue { label: Seq<char> },
    ExtensionInvalid { id: Seq<char> },
}

impl View for ValidationError {
    type V = ValidationErrorView;

    open spec fn view(&self) -> ValidationErrorView {
        match self {
            ValidationError::UndeclaredRole { role } => ValidationErrorView::UndeclaredRole {
                role: role@,
            },
            ValidationError::SelfCommunication { role } => (
            ValidationErrorView::SelfCommunication { role: role@ }),
            ValidationError::EmptyChoice { decider } => ValidationErrorView::EmptyChoice {
                decider: decider@,
            },
            ValidationError::DuplicateLabel { label } => ValidationErrorView::DuplicateLabel {
                label: label@,
            },
            ValidationError::UnboundContinue { label } => ValidationErrorView::UnboundContinue {
                label: label@,
            },
            ValidationError::ExtensionInvalid { id } => ValidationErrorView::ExtensionInvalid {
                id: id@,
            },
        }
    }
}

/// The protocol is structurally well-formed against the declared roles,
/// with `loops` the labels of the enclosing loops: every referenced role
/// is declared, no send's receiver equals its sender, every choice is
/// non-empty with unique labels, every back-edge names an enclosing
/// loop, and every extension accepts its own role mentions.
pub open spec fn protocol_valid(p: ProtocolView, decls: Seq<RoleView>, loops: Seq<Seq<char>>) -> bool
    decreases p,
{
    match p {
        ProtocolView::Send { from, to, message, cont } => {
            &&& use_site_ok(from, decls)
            &&& use_site_ok(to, decls)
            &&& from != to
            &&& protocol_valid(*cont, decls, loops)
        },
        ProtocolView::Choice { decider, branches } => {
            &&& use_site_ok(decider, decls)
            &&& branches.len() > 0
            &&& forall|i: int, j: int|
                0 <= i < j < branches.len() ==> branches[i].label != branches[j].label
            &&& forall|i: int|
                0 <= i < branches.len() ==> protocol_valid(
                    #[trigger] branches[i].body,
                    decls,
                    loops,
                )
        },
        ProtocolView::Loop { label, body } => protocol_valid(*body, decls, loops.push(label)),
        ProtocolView::Continue { label } => loops.contains(label),
        ProtocolView::End => true,
        ProtocolView::Ext(e) => ext_valid(e, decls),
    }
}

/// A label that two branches share, if any.
fn find_duplicate_label(branches: &Vec<Branch>) -> (r: Option<String>)
    ensures
        r is None <==> forall|a: int, b: int|
            0 <= a < b < b_views(branches@).len() ==> b_views(branches@)[a].label != b_views(
                branches@,
            )[b].label,
{
    let ghost bv = b_views(branches@);
    proof {
        lemma_b_views_len(branches@);
    }
    let mut i: usize = 0;
    while i < branches.len()
        invariant
            i <= branches.len(),
            bv == b_views(branches@),
            bv.len() == branches.len(),
            forall|a: int, b: int| 0 <= a < b < i ==> bv[a].label != bv[b].label,
        decreases branches.len() - i,
    {
        proof {
            lemma_b_views_index(branches@, i as int);
        }
        let mut j: usize = 0;
        while j < i
            invariant
                j <= i < branches.len(),
                bv == b_views(branches@),
                bv.len() == branches.len(),
                bv[i as int].label == branches@[i as int].label@,
                forall|a: int| 0 <= a < j ==> bv[a].label != bv[i as int].label,
            decreases i - j,
        {
            proof {
                lemma_b_views_index(branches@, j as int);
            }
            if crate::text::str_eq(branches[j].label.as_str(), branches[i].label.as_str()) {
                proof {
                    assert(bv[j as int].label == bv[i as int].label);
                }
                return Some(branches[i].label.clone());
            }
            j = j + 1;
        }
        i = i + 1;
    }
    None
}

/// Validates every branch body.
fn validate_branches(branches: &Vec<Branch>, decls: &Vec<Role>, stack: &Vec<String>) -> (r: Result<
    (),
    ValidationError,
>)
    ensures
        r is Ok <==> forall|a: int|
            0 <= a < b_views(branches@).len() ==> protocol_valid(
                #[trigger] b_views(branches@)[a].body,
                role_views(decls@),
                crate::extensions::string_views(stack@),
            ),
    decreases branches@,
{
    let ghost bv = b_views(branches@);
    proof {
        lemma_b_views_len(branches@);
    }
    let mut k: usize = 0;
    while k < branches.len()
        invariant
            k <= branches.len(),
            bv == b_views(branches@),
            bv.len() == branches.len(),
            forall|a: int|
                0 <= a < k ==> protocol_valid(
                    #[trigger] bv[a].body,
                    role_views(decls@),
                    crate::extensions::string_views(stack@),
                ),
        decreases branches.len() - k,
    {
        proof {
            lemma_b_views_index(branches@, k as int);
        }
        match validate_node(&branches[k].body, decls, stack) {
            Ok(()) => {},
            Err(e) => {
                proof {
                    assert(!protocol_valid(
                        bv[k as int].body,
                        role_views(decls@),
                        crate::extensions::string_views(stack@),
                    ));
                }
                return Err(e);
            },
        }
        k = k + 1;
    }
    Ok(())
}

/// Validates one node against the declarations and the stack of
/// enclosing loop labels.
fn validate_node(p: &Protocol, decls: &Vec<Role>, stack: &Vec<String>) -> (r: Result<
    (),
    ValidationError,
>)
    ensures
        r is Ok <==> protocol_valid(
            pv(*p),
            role_views(decls@),
            crate::extensions::string_views(stack@),
        ),
    decreases *p,
{
    match p {
        Protocol::End => Ok(()),
        Protocol::Continue { label } => {
            let mut i: usize = 0;
            while i < stack.len()
                invariant
                    i <= stack.len(),
                    pv(*p) == (ProtocolView::Continue { label: label@ }),
                    forall|j: int|
                        0 <= j < i ==> crate::extensions::string_views(stack@)[j] != label@,
                decreases stack.len() - i,
            {
                if crate::text::str_eq(stack[i].as_str(), label.as_str()) {
                    proof {
                        assert(crate::extensions::string_views(stack@)[i as int] == label@);
                    }
                    return Ok(());
                }
                proof {
                    assert(crate::extensions::string_views(stack@)[i as int] == stack@[
                        i as int]@);
                }
                i = i + 1;
            }
            proof {
                let sv = crate::extensions::string_views(stack@);
                if sv.contains(label@) {
                    let j = choose|j: int| 0 <= j < sv.len() && sv[j] == label@;
                    assert(false);
                }
            }
            Err(ValidationError::UnboundContinue { label: label.clone() })
        },
        Protocol::Send { from, to, message, cont } => {
            if !crate::role::check_use_site(from, decls) {
                return Err(ValidationError::UndeclaredRole { role: from.name.clone() });
            }
            if !crate::role::check_use_site(to, decls) {
                return Err(ValidationError::UndeclaredRole { role: to.name.clone() });
            }
            if from.same_as(to) {
                return Err(ValidationError::SelfCommunication { role: from.name.clone() });
            }
            validate_node(&**cont, decls, stack)
        },
        Protocol::Loop { label, body } => {
            let mut inner: Vec<String> = Vec::new();
            let mut i: usize = 0;
            while i < stack.len()
                invariant
                    i <= stack.len(),
                    inner@.len() == i,
                    forall|j: int| 0 <= j < i ==> #[trigger] inner@[j]@ == stack@[j]@,
                decreases stack.len() - i,
            {
                inner.push(stack[i].clone());
                i = i + 1;
            }
            inner.push(label.clone());
            proof {
                assert(crate::extensions::string_views(inner@)
                    =~= crate::extensions::string_views(stack@).push(label@));
            }
            validate_node(&**body, decls, &inner)
        },
        Protocol::Ext(e) => {
            match e.validate(decls) {
                Ok(()) => Ok(()),
                Err(_) => Err(ValidationError::ExtensionInvalid { id: e.name.clone() }),
            }
        },
        Protocol::Choice { decider, branches } => {
            if !crate::role::check_use_site(decider, decls) {
                return Err(ValidationError::UndeclaredRole { role: decider.name.clone() });
            }
            if branches.len() == 0 {
                proof {
                    lemma_b_views_len(branches@);
                }
                return Err(ValidationError::EmptyChoice { decider: decider.name.clone() });
            }
            proof {
                lemma_b_views_len(branches@);
            }
            match find_duplicate_label(branches) {
                Some(l) => {
                    return Err(ValidationError::DuplicateLabel { label: l });
                },
                None => {},
            }
            validate_branches(branches, decls, stack)
        },
    }
}

/// Validates a protocol against the declared roles: accepts exactly the
/// structurally well-formed protocols.
pub fn validate(protocol: &Protocol, declared_roles: &Vec<Role>) -> (r: Result<
    (),
    ValidationError,
>)
    ensures
        r is Ok <==> protocol_valid(
            pv(*protocol),
            role_views(declared_roles@),
            Seq::<Seq<char>>::empty(),
        ),
{
    let stack: Vec<String> = Vec::new();
    proof {
        assert(crate::extensions::string_views(stack@) =~= Seq::<Seq<char>>::empty());
    }
    validate_node(protocol, declared_roles, &stack)
}

} // verus!
