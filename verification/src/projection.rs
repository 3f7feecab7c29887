//! Endpoint projection: from a global protocol to one role's local type.
//!
//! Projection walks the global protocol with a concrete target role. A
//! send emits a local send for its sender, a receive for its receiver,
//! and disappears for everyone else. A choice becomes an internal choice
//! for the decider and an external choice for a role that takes part in
//! every branch; a role absent from every branch must observe the same
//! continuation whichever branch runs, else the choice is not locally
//! implementable (the classical merge failure). A role silent in some
//! branches but not all cannot tell which branch ran, so such a choice
//! is rejected too. Loops are kept even for silent roles, because loop
//! entry and exit are observable synchronization points. Projection is a
//! pure function of the protocol and the role: repeatable, and
//! independent of the order in which roles are projected.

use vstd::prelude::*;
use crate::extensions::ext_lookup;
use crate::extensions::ext_mentions;
use crate::local_type::lt_view;
use crate::local_type::LocalBranch;
use crate::local_type::LocalBranchView;
use crate::local_type::LocalType;
use crate::local_type::LocalTypeView;
use crate::protocol::b_views;
use crate::protocol::lemma_b_views_index;
use crate::protocol::lemma_b_views_len;
use crate::protocol::mentions_view;
use crate::protocol::pv;
use crate::protocol::Branch;
use crate::protocol::BranchView;
use crate::protocol::Protocol;
use crate::protocol::ProtocolView;
use crate::role::concrete_target;
use crate::role::role_matches;
use crate::role::role_views;
use crate::role::use_site_ok;
use crate::role::roles_wf;
use crate::role::RoleBoundsChecker;
use crate::protocol::protocol_valid;
use crate::protocol::ValidationError;
use crate::role::Role;
use crate::role::RoleView;

verus! {

/// Errors of projection.
#[derive(Debug)]
pub enum ProjectionError {
    /// A choice is not locally implementable for the target role; `at`
    /// names the decider of the offending choice.
    NotProjectable { at: String },
    /// The target role is not declared in the choreography.
    UnknownRole { role: String },
    /// An extension could not project the target role; `id` names it.
    ExtensionFailed { id: String },
}

/// Mathematical model of a [`ProjectionError`].
pub enum ProjectionErrorView {
    NotProjectable { at: Seq<char> },
    UnknownRole { role: Seq<char> },
    ExtensionFailed { id: Seq<char> },
}

impl View for ProjectionError {
    type V = ProjectionErrorView;

    open spec fn view(&self) -> ProjectionErrorView {
        match self {
            ProjectionError::NotProjectable { at } => ProjectionErrorView::NotProjectable {
                at: at@,
            },
            ProjectionError::UnknownRole { role } => ProjectionErrorView::UnknownRole {
                role: role@,
            },
            ProjectionError::ExtensionFailed { id } => ProjectionErrorView::ExtensionFailed {
                id: id@,
            },
        }
    }
}

/// What projecting one extension node onto `t` yields: the node's own
/// table entry wrapped as an extension local type, `End` under the
/// wrapper when the node does not involve `t`, and a failure when the
/// node mentions `t` but its table does not cover it.
pub open spec fn ext_project(
    e: crate::extensions::ProtocolExtensionView,
    t: RoleView,
) -> Result<LocalTypeView, ProjectionErrorView> {
    if ext_mentions(e, t) {
        match ext_lookup(e.projections, t) {
            Some(l) => Ok(LocalTypeView::Ext { ext_id: e.name, body: Box::new(l) }),
            None => Err(ProjectionErrorView::ExtensionFailed { id: e.name }),
        }
    } else {
        Ok(LocalTypeView::Ext { ext_id: e.name, body: Box::new(LocalTypeView::End) })
    }
}

/// What projecting every branch body onto `t` yields: the first failure,
/// or all the labeled local continuations.
pub open spec fn project_branches(bs: Seq<BranchView>, t: RoleView) -> Result<
    Seq<LocalBranchView>,
    ProjectionErrorView,
>
    decreases bs,
{
    if bs.len() == 0 {
        Ok(Seq::empty())
    } else {
        match project_view(bs[0].body, t) {
            Err(e) => Err(e),
            Ok(l) => match project_branches(bs.drop_first(), t) {
                Err(e) => Err(e),
                Ok(rest) => Ok(seq![LocalBranchView { label: bs[0].label, body: l }] + rest),
            },
        }
    }
}

/// What projecting the global protocol onto the concrete role `t`
/// yields.
pub open spec fn project_view(p: ProtocolView, t: RoleView) -> Result<
    LocalTypeView,
    ProjectionErrorView,
>
    decreases p,
{
    match p {
        ProtocolView::End => Ok(LocalTypeView::End),
        ProtocolView::Continue { label } => Ok(LocalTypeView::Continue { label }),
        ProtocolView::Send { from, to, message, cont } => match project_view(*cont, t) {
            Err(e) => Err(e),
            Ok(c) => if role_matches(t, from) {
                Ok(LocalTypeView::Send { to, message, cont: Box::new(c) })
            } else if role_matches(t, to) {
                Ok(LocalTypeView::Receive { from, message, cont: Box::new(c) })
            } else {
                Ok(c)
            },
        },
        ProtocolView::Loop { label, body } => match project_view(*body, t) {
            Err(e) => Err(e),
            Ok(b) => Ok(LocalTypeView::Loop { label, body: Box::new(b) }),
        },
        ProtocolView::Ext(e) => ext_project(e, t),
        ProtocolView::Choice { decider, branches } => match project_branches(branches, t) {
            Err(e) => Err(e),
            Ok(lbs) => if role_matches(t, decider) {
                Ok(LocalTypeView::InternalChoice { branches: lbs })
            } else if branches.len() == 0 {
                Err(ProjectionErrorView::NotProjectable { at: decider.name })
            } else if forall|i: int|
                0 <= i < branches.len() ==> mentions_view(#[trigger] branches[i].body, t) {
                Ok(LocalTypeView::ExternalChoice { branches: lbs })
            } else if !(exists|i: int|
                0 <= i < branches.len() && mentions_view(#[trigger] branches[i].body, t)) {
                if forall|i: int| 0 <= i < lbs.len() ==> (#[trigger] lbs[i].body) == lbs[0].body {
                    Ok(lbs[0].body)
                } else {
                    Err(ProjectionErrorView::NotProjectable { at: decider.name })
                }
            } else {
                Err(ProjectionErrorView::NotProjectable { at: decider.name })
            },
        },
    }
}

pub proof fn lemma_project_branches_index(bs: Seq<BranchView>, t: RoleView)
    requires
        project_branches(bs, t) is Ok,
    ensures
        project_branches(bs, t)->Ok_0.len() == bs.len(),
        forall|i: int|
            0 <= i < bs.len() ==> project_view(#[trigger] bs[i].body, t) == Ok::<
                LocalTypeView,
                ProjectionErrorView,
            >(project_branches(bs, t)->Ok_0[i].body),
        forall|i: int|
            0 <= i < bs.len() ==> project_branches(bs, t)->Ok_0[i].label == bs[i].label,
    decreases bs,
{
    if bs.len() > 0 {
        lemma_project_branches_index(bs.drop_first(), t);
        assert forall|i: int| 0 <= i < bs.len() implies project_view(#[trigger] bs[i].body, t)
            == Ok::<LocalTypeView, ProjectionErrorView>(project_branches(bs, t)->Ok_0[i].body) by {
            if i > 0 {
                assert(bs.drop_first()[i - 1] == bs[i]);
            }
        }
        assert forall|i: int| 0 <= i < bs.len() implies project_branches(bs, t)->Ok_0[i].label
            == bs[i].label by {
            if i > 0 {
                assert(bs.drop_first()[i - 1] == bs[i]);
            }
        }
    }
}

/// Merge law, positive direction: when a choice projects successfully
/// for a role that is not its decider and that is silent in two
/// branches, those two branches project to structurally identical local
/// types: the role's behaviour does not depend on which silent branch
/// ran.
pub proof fn lemma_merge_agreement(
    decider: RoleView,
    branches: Seq<BranchView>,
    t: RoleView,
    b1: int,
    b2: int,
)
    requires
        !role_matches(t, decider),
        0 <= b1 < branches.len(),
        0 <= b2 < branches.len(),
        !mentions_view(branches[b1].body, t),
        !mentions_view(branches[b2].body, t),
        project_view(ProtocolView::Choice { decider, branches }, t) is Ok,
    ensures
        project_view(branches[b1].body, t) == project_view(branches[b2].body, t),
{
    let ok = project_branches(branches, t);
    lemma_project_branches_index(branches, t);
    let lbs = ok->Ok_0;
    assert(!(forall|i: int|
        0 <= i < branches.len() ==> mentions_view(#[trigger] branches[i].body, t)));
    assert(!(exists|i: int|
        0 <= i < branches.len() && mentions_view(#[trigger] branches[i].body, t)));
    assert(lbs[b1].body == lbs[0].body);
    assert(lbs[b2].body == lbs[0].body);
}

/// Merge law, negative direction: when a role is silent in two branches
/// of a choice it does not decide and the two branches project to
/// different local types, projecting the choice fails; the engine never
/// silently picks one branch.
pub proof fn lemma_merge_mismatch_fails(
    decider: RoleView,
    branches: Seq<BranchView>,
    t: RoleView,
    b1: int,
    b2: int,
)
    requires
        !role_matches(t, decider),
        0 <= b1 < branches.len(),
        0 <= b2 < branches.len(),
        !mentions_view(branches[b1].body, t),
        !mentions_view(branches[b2].body, t),
        project_view(branches[b1].body, t) != project_view(branches[b2].body, t),
    ensures
        project_view(ProtocolView::Choice { decider, branches }, t) is Err,
{
    if project_view(ProtocolView::Choice { decider, branches }, t) is Ok {
        lemma_merge_agreement(decider, branches, t, b1, b2);
    }
}

/// The roles a local type refers to.
pub open spec fn lt_roles(l: LocalTypeView) -> Set<RoleView>
    decreases l,
{
    match l {
        LocalTypeView::Send { to, message, cont } => lt_roles(*cont).insert(to),
        LocalTypeView::Receive { from, message, cont } => lt_roles(*cont).insert(from),
        LocalTypeView::InternalChoice { branches } => lbs_roles(branches),
        LocalTypeView::ExternalChoice { branches } => lbs_roles(branches),
        LocalTypeView::Loop { label, body } => lt_roles(*body),
        LocalTypeView::Continue { label } => Set::empty(),
        LocalTypeView::End => Set::empty(),
        LocalTypeView::Ext { ext_id, body } => lt_roles(*body),
    }
}

/// The roles a list of local branches refers to.
pub open spec fn lbs_roles(bs: Seq<LocalBranchView>) -> Set<RoleView>
    decreases bs,
{
    if bs.len() == 0 {
        Set::empty()
    } else {
        lt_roles(bs[0].body).union(lbs_roles(bs.drop_first()))
    }
}

/// The roles a global protocol refers to at its use sites, together
/// with every role its extension nodes carry.
pub open spec fn proto_roles(p: ProtocolView) -> Set<RoleView>
    decreases p,
{
    match p {
        ProtocolView::Send { from, to, message, cont } => proto_roles(*cont).insert(from).insert(
            to,
        ),
        ProtocolView::Choice { decider, branches } => bs_roles(branches).insert(decider),
        ProtocolView::Loop { label, body } => proto_roles(*body),
        ProtocolView::Continue { label } => Set::empty(),
        ProtocolView::End => Set::empty(),
        ProtocolView::Ext(e) => ext_roles(e),
    }
}

/// The roles a list of global branches refers to.
pub open spec fn bs_roles(bs: Seq<BranchView>) -> Set<RoleView>
    decreases bs,
{
    if bs.len() == 0 {
        Set::empty()
    } else {
        proto_roles(bs[0].body).union(bs_roles(bs.drop_first()))
    }
}

/// The roles an extension node carries: its mentioned roles and every
/// role inside its projection table.
pub open spec fn ext_roles(e: crate::extensions::ProtocolExtensionView) -> Set<RoleView> {
    e.mentioned.to_set().union(ext_table_roles(e.projections))
}

/// The roles inside a projection table.
pub open spec fn ext_table_roles(ps: Seq<crate::extensions::ExtProjectionView>) -> Set<RoleView>
    decreases ps,
{
    if ps.len() == 0 {
        Set::empty()
    } else {
        lt_roles(ps[0].local).insert(ps[0].role).union(ext_table_roles(ps.drop_first()))
    }
}

pub proof fn lemma_ext_lookup_roles(
    ps: Seq<crate::extensions::ExtProjectionView>,
    t: RoleView,
    l: LocalTypeView,
)
    requires
        ext_lookup(ps, t) == Some(l),
    ensures
        lt_roles(l).subset_of(ext_table_roles(ps)),
    decreases ps,
{
    if ps.len() > 0 {
        if ps[0].role == t {
        } else {
            lemma_ext_lookup_roles(ps.drop_first(), t, l);
        }
    }
}

/// Reference boundedness: a successful projection refers only to roles
/// that the global protocol mentions, or to the target itself.
pub proof fn lemma_projection_roles_bounded(p: ProtocolView, t: RoleView, l: LocalTypeView)
    requires
        project_view(p, t) == Ok::<LocalTypeView, ProjectionErrorView>(l),
    ensures
        lt_roles(l).subset_of(proto_roles(p).insert(t)),
    decreases p,
{
    match p {
        ProtocolView::End => {},
        ProtocolView::Continue { label } => {},
        ProtocolView::Send { from, to, message, cont } => {
            let c = project_view(*cont, t)->Ok_0;
            lemma_projection_roles_bounded(*cont, t, c);
            assert forall|r: RoleView| lt_roles(l).contains(r) implies proto_roles(p).insert(
                t,
            ).contains(r) by {
                if r != to && r != from && lt_roles(c).contains(r) {
                    assert(proto_roles(*cont).insert(t).contains(r));
                }
            }
        },
        ProtocolView::Loop { label, body } => {
            let b = project_view(*body, t)->Ok_0;
            lemma_projection_roles_bounded(*body, t, b);
        },
        ProtocolView::Ext(e) => {
            if ext_mentions(e, t) {
                let found = ext_lookup(e.projections, t)->0;
                lemma_ext_lookup_roles(e.projections, t, found);
                assert forall|r: RoleView| lt_roles(l).contains(r) implies proto_roles(
                    p,
                ).insert(t).contains(r) by {
                    assert(lt_roles(found).contains(r));
                    assert(ext_table_roles(e.projections).contains(r));
                }
            } else {
                assert(l == (LocalTypeView::Ext {
                    ext_id: e.name,
                    body: Box::new(LocalTypeView::End),
                }));
                assert(lt_roles(LocalTypeView::End) =~= Set::<RoleView>::empty());
                assert(lt_roles(l) =~= Set::<RoleView>::empty());
            }
        },
        ProtocolView::Choice { decider, branches } => {
            let lbs = project_branches(branches, t)->Ok_0;
            lemma_project_branches_index(branches, t);
            if role_matches(t, decider) || (branches.len() > 0 && forall|i: int|
                0 <= i < branches.len() ==> mentions_view(#[trigger] branches[i].body, t)) {
                lemma_branches_roles_bounded(branches, t, lbs);
                assert forall|r: RoleView| lt_roles(l).contains(r) implies proto_roles(
                    p,
                ).insert(t).contains(r) by {
                    assert(lbs_roles(lbs).contains(r));
                    assert(bs_roles(branches).insert(t).contains(r));
                }
            } else {
                // merged silent branches: the result is branch 0's projection
                assert(branches.len() > 0);
                assert(l == lbs[0].body);
                lemma_projection_roles_bounded(branches[0].body, t, lbs[0].body);
                lemma_bs_roles_member(branches, 0);
                assert forall|r: RoleView| lt_roles(l).contains(r) implies proto_roles(
                    p,
                ).insert(t).contains(r) by {
                    if r != t {
                        assert(proto_roles(branches[0].body).contains(r));
                        assert(bs_roles(branches).contains(r));
                    }
                }
            }
        },
    }
}

/// Branch-wise boundedness for choices that keep all their branches.
pub proof fn lemma_branches_roles_bounded(
    bs: Seq<BranchView>,
    t: RoleView,
    lbs: Seq<LocalBranchView>,
)
    requires
        project_branches(bs, t) == Ok::<Seq<LocalBranchView>, ProjectionErrorView>(lbs),
    ensures
        lbs_roles(lbs).subset_of(bs_roles(bs).insert(t)),
    decreases bs,
{
    if bs.len() > 0 {
        let l0 = project_view(bs[0].body, t)->Ok_0;
        let rest = project_branches(bs.drop_first(), t)->Ok_0;
        lemma_projection_roles_bounded(bs[0].body, t, l0);
        lemma_branches_roles_bounded(bs.drop_first(), t, rest);
        assert(lbs =~= seq![LocalBranchView { label: bs[0].label, body: l0 }] + rest);
        assert(lbs[0].body == l0);
        assert(lbs.drop_first() =~= rest);
        lemma_bs_roles_member(bs, 0);
        assert forall|r: RoleView| lbs_roles(lbs).contains(r) implies bs_roles(bs).insert(
            t,
        ).contains(r) by {
            if lt_roles(l0).contains(r) {
            } else {
                assert(lbs_roles(rest).contains(r));
            }
        }
    }
}

/// Every branch's roles are among the choice's roles.
pub proof fn lemma_bs_roles_member(bs: Seq<BranchView>, i: int)
    requires
        0 <= i < bs.len(),
    ensures
        proto_roles(bs[i].body).subset_of(bs_roles(bs)),
    decreases bs,
{
    if i > 0 {
        lemma_bs_roles_member(bs.drop_first(), i - 1);
        assert(bs.drop_first()[i - 1] == bs[i]);
    }
}


/// The message names a local type refers to.
pub open spec fn lt_msgs(l: LocalTypeView) -> Set<Seq<char>>
    decreases l,
{
    match l {
        LocalTypeView::Send { to, message, cont } => lt_msgs(*cont).insert(message),
        LocalTypeView::Receive { from, message, cont } => lt_msgs(*cont).insert(message),
        LocalTypeView::InternalChoice { branches } => lbs_msgs(branches),
        LocalTypeView::ExternalChoice { branches } => lbs_msgs(branches),
        LocalTypeView::Loop { label, body } => lt_msgs(*body),
        LocalTypeView::Continue { label } => Set::empty(),
        LocalTypeView::End => Set::empty(),
        LocalTypeView::Ext { ext_id, body } => lt_msgs(*body),
    }
}

/// The message names a list of local branches refers to.
pub open spec fn lbs_msgs(bs: Seq<LocalBranchView>) -> Set<Seq<char>>
    decreases bs,
{
    if bs.len() == 0 {
        Set::empty()
    } else {
        lt_msgs(bs[0].body).union(lbs_msgs(bs.drop_first()))
    }
}

/// The message names a global protocol carries, together with every
/// message inside its extension nodes' projection tables.
pub open spec fn proto_msgs(p: ProtocolView) -> Set<Seq<char>>
    decreases p,
{
    match p {
        ProtocolView::Send { from, to, message, cont } => proto_msgs(*cont).insert(message),
        ProtocolView::Choice { decider, branches } => bs_msgs(branches),
        ProtocolView::Loop { label, body } => proto_msgs(*body),
        ProtocolView::Continue { label } => Set::empty(),
        ProtocolView::End => Set::empty(),
        ProtocolView::Ext(e) => ext_table_msgs(e.projections),
    }
}

/// The message names a list of global branches carries.
pub open spec fn bs_msgs(bs: Seq<BranchView>) -> Set<Seq<char>>
    decreases bs,
{
    if bs.len() == 0 {
        Set::empty()
    } else {
        proto_msgs(bs[0].body).union(bs_msgs(bs.drop_first()))
    }
}

/// The message names inside a projection table.
pub open spec fn ext_table_msgs(ps: Seq<crate::extensions::ExtProjectionView>) -> Set<Seq<char>>
    decreases ps,
{
    if ps.len() == 0 {
        Set::empty()
    } else {
        lt_msgs(ps[0].local).union(ext_table_msgs(ps.drop_first()))
    }
}

pub proof fn lemma_ext_lookup_msgs(
    ps: Seq<crate::extensions::ExtProjectionView>,
    t: RoleView,
    l: LocalTypeView,
)
    requires
        ext_lookup(ps, t) == Some(l),
    ensures
        lt_msgs(l).subset_of(ext_table_msgs(ps)),
    decreases ps,
{
    if ps.len() > 0 {
        if ps[0].role == t {
        } else {
            lemma_ext_lookup_msgs(ps.drop_first(), t, l);
        }
    }
}

/// Reference boundedness for messages: a successful projection labels
/// its steps only with message names the global protocol carries.
pub proof fn lemma_projection_msgs_bounded(p: ProtocolView, t: RoleView, l: LocalTypeView)
    requires
        project_view(p, t) == Ok::<LocalTypeView, ProjectionErrorView>(l),
    ensures
        lt_msgs(l).subset_of(proto_msgs(p)),
    decreases p,
{
    match p {
        ProtocolView::End => {},
        ProtocolView::Continue { label } => {},
        ProtocolView::Send { from, to, message, cont } => {
            let c = project_view(*cont, t)->Ok_0;
            lemma_projection_msgs_bounded(*cont, t, c);
            assert forall|m: Seq<char>| lt_msgs(l).contains(m) implies proto_msgs(p).contains(
                m,
            ) by {
                if m != message && lt_msgs(c).contains(m) {
                    assert(proto_msgs(*cont).contains(m));
                }
            }
        },
        ProtocolView::Loop { label, body } => {
            let b = project_view(*body, t)->Ok_0;
            lemma_projection_msgs_bounded(*body, t, b);
        },
        ProtocolView::Ext(e) => {
            if ext_mentions(e, t) {
                let found = ext_lookup(e.projections, t)->0;
                lemma_ext_lookup_msgs(e.projections, t, found);
            } else {
                assert(lt_msgs(LocalTypeView::End) =~= Set::<Seq<char>>::empty());
                assert(lt_msgs(l) =~= Set::<Seq<char>>::empty());
            }
        },
        ProtocolView::Choice { decider, branches } => {
            let lbs = project_branches(branches, t)->Ok_0;
            lemma_project_branches_index(branches, t);
            if role_matches(t, decider) || (branches.len() > 0 && forall|i: int|
                0 <= i < branches.len() ==> mentions_view(#[trigger] branches[i].body, t)) {
                lemma_branches_msgs_bounded(branches, t, lbs);
            } else {
                assert(branches.len() > 0);
                assert(l == lbs[0].body);
                lemma_projection_msgs_bounded(branches[0].body, t, lbs[0].body);
                lemma_bs_msgs_member(branches, 0);
            }
        },
    }
}

/// Branch-wise message boundedness.
pub proof fn lemma_branches_msgs_bounded(
    bs: Seq<BranchView>,
    t: RoleView,
    lbs: Seq<LocalBranchView>,
)
    requires
        project_branches(bs, t) == Ok::<Seq<LocalBranchView>, ProjectionErrorView>(lbs),
    ensures
        lbs_msgs(lbs).subset_of(bs_msgs(bs)),
    decreases bs,
{
    if bs.len() > 0 {
        let l0 = project_view(bs[0].body, t)->Ok_0;
        let rest = project_branches(bs.drop_first(), t)->Ok_0;
        lemma_projection_msgs_bounded(bs[0].body, t, l0);
        lemma_branches_msgs_bounded(bs.drop_first(), t, rest);
        assert(lbs =~= seq![LocalBranchView { label: bs[0].label, body: l0 }] + rest);
        assert(lbs[0].body == l0);
        assert(lbs.drop_first() =~= rest);
        assert forall|m: Seq<char>| lbs_msgs(lbs).contains(m) implies bs_msgs(bs).contains(
            m,
        ) by {
            if lt_msgs(l0).contains(m) {
            } else {
                assert(lbs_msgs(rest).contains(m));
            }
        }
    }
}

/// Every branch's messages are among the choice's messages.
pub proof fn lemma_bs_msgs_member(bs: Seq<BranchView>, i: int)
    requires
        0 <= i < bs.len(),
    ensures
        proto_msgs(bs[i].body).subset_of(bs_msgs(bs)),
    decreases bs,
{
    if i > 0 {
        lemma_bs_msgs_member(bs.drop_first(), i - 1);
        assert(bs.drop_first()[i - 1] == bs[i]);
    }
}

/// Totality on the choice-free, extension-free fragment: a protocol
/// built from sends, loops, back-edges and `End` projects successfully
/// for every role; merge failures can only arise from choices, and
/// extension failures only from extension nodes.
pub open spec fn merge_free(p: ProtocolView) -> bool
    decreases p,
{
    match p {
        ProtocolView::Send { from, to, message, cont } => merge_free(*cont),
        ProtocolView::Choice { decider, branches } => false,
        ProtocolView::Loop { label, body } => merge_free(*body),
        ProtocolView::Continue { label } => true,
        ProtocolView::End => true,
        ProtocolView::Ext(e) => false,
    }
}

pub proof fn lemma_merge_free_projects(p: ProtocolView, t: RoleView)
    requires
        merge_free(p),
    ensures
        project_view(p, t) is Ok,
    decreases p,
{
    match p {
        ProtocolView::Send { from, to, message, cont } => {
            lemma_merge_free_projects(*cont, t);
        },
        ProtocolView::Loop { label, body } => {
            lemma_merge_free_projects(*body, t);
        },
        _ => {},
    }
}

/// Projects every branch body, keeping the labels.
fn project_branch_vec(branches: &Vec<Branch>, t: &Role) -> (r: Result<
    Vec<LocalBranch>,
    ProjectionError,
>)
    ensures
        r matches Ok(ls) ==> project_branches(b_views(branches@), t@) == Ok::<
            Seq<LocalBranchView>,
            ProjectionErrorView,
        >(crate::local_type::lb_views(ls@)),
        r matches Err(e) ==> project_branches(b_views(branches@), t@) == Err::<
            Seq<LocalBranchView>,
            ProjectionErrorView,
        >(e@),
    decreases branches@,
{
    let ghost bv = b_views(branches@);
    proof {
        lemma_b_views_len(branches@);
    }
    let mut out: Vec<LocalBranch> = Vec::new();
    let mut i: usize = 0;
    proof {
        assert(bv.subrange(0, 0) =~= Seq::<BranchView>::empty());
        assert(crate::local_type::lb_views(out@) =~= Seq::<LocalBranchView>::empty());
    }
    while i < branches.len()
        invariant
            i <= branches.len(),
            bv == b_views(branches@),
            bv.len() == branches.len(),
            project_branches(bv.subrange(0, i as int), t@) == Ok::<
                Seq<LocalBranchView>,
                ProjectionErrorView,
            >(crate::local_type::lb_views(out@)),
        decreases branches.len() - i,
    {
        proof {
            lemma_b_views_index(branches@, i as int);
        }
        match project_node(&branches[i].body, t) {
            Err(e) => {
                proof {
                    lemma_project_branches_concat(bv.subrange(0, i as int), bv.subrange(
                        i as int,
                        bv.len() as int,
                    ), t@);
                    assert(bv.subrange(0, i as int) + bv.subrange(i as int, bv.len() as int)
                        =~= bv);
                    assert(bv.subrange(i as int, bv.len() as int)[0] == bv[i as int]);
                    assert(project_branches(bv.subrange(i as int, bv.len() as int), t@)
                        == Err::<Seq<LocalBranchView>, ProjectionErrorView>(e@));
                }
                return Err(e);
            },
            Ok(l) => {
                let ghost opre = out@;
                out.push(LocalBranch { label: branches[i].label.clone(), body: l });
                i = i + 1;
                proof {
                    crate::local_type::lemma_lb_views_push(opre, out@.last());
                    lemma_project_branches_concat(bv.subrange(0, i - 1), seq![bv[i - 1]], t@);
                    assert(bv.subrange(0, i - 1) + seq![bv[i - 1]] =~= bv.subrange(0, i as int));
                    assert(seq![bv[i - 1]].drop_first() =~= Seq::<BranchView>::empty());
                    assert(project_branches(Seq::<BranchView>::empty(), t@) == Ok::<
                        Seq<LocalBranchView>,
                        ProjectionErrorView,
                    >(Seq::empty()));
                    assert(seq![LocalBranchView { label: bv[i - 1].label, body: lt_view(l) }]
                        + Seq::<LocalBranchView>::empty() =~= seq![
                        LocalBranchView { label: bv[i - 1].label, body: lt_view(l) },
                    ]);
                    assert(crate::local_type::lb_views(out@) =~= crate::local_type::lb_views(
                        opre,
                    ).push(LocalBranchView { label: bv[i - 1].label, body: lt_view(l) }));
                    assert(crate::local_type::lb_views(opre).push(
                        LocalBranchView { label: bv[i - 1].label, body: lt_view(l) },
                    ) =~= crate::local_type::lb_views(opre) + seq![
                        LocalBranchView { label: bv[i - 1].label, body: lt_view(l) },
                    ]);
                }
            },
        }
    }
    proof {
        assert(bv.subrange(0, branches@.len() as int) =~= bv);
    }
    Ok(out)
}

/// Branch projection distributes over concatenation.
pub proof fn lemma_project_branches_concat(a: Seq<BranchView>, b: Seq<BranchView>, t: RoleView)
    ensures
        match project_branches(a, t) {
            Err(e) => project_branches(a + b, t) == Err::<Seq<LocalBranchView>,
                ProjectionErrorView>(e),
            Ok(la) => project_branches(a + b, t) == (match project_branches(b, t) {
                Err(e) => Err::<Seq<LocalBranchView>, ProjectionErrorView>(e),
                Ok(lb) => Ok::<Seq<LocalBranchView>, ProjectionErrorView>(la + lb),
            }),
        },
    decreases a,
{
    if a.len() == 0 {
        assert(a + b =~= b);
        assert(project_branches(a, t) == Ok::<Seq<LocalBranchView>, ProjectionErrorView>(
            Seq::empty(),
        ));
        match project_branches(b, t) {
            Err(e) => {},
            Ok(lb) => {
                assert(Seq::<LocalBranchView>::empty() + lb =~= lb);
            },
        }
    } else {
        assert((a + b)[0] == a[0]);
        assert((a + b).drop_first() =~= a.drop_first() + b);
        lemma_project_branches_concat(a.drop_first(), b, t);
        match project_view(a[0].body, t) {
            Err(e) => {},
            Ok(l) => {
                match project_branches(a.drop_first(), t) {
                    Err(e) => {},
                    Ok(la1) => {
                        match project_branches(b, t) {
                            Err(e) => {},
                            Ok(lb) => {
                                assert(seq![
                                    LocalBranchView { label: a[0].label, body: l },
                                ] + (la1 + lb) =~= (seq![
                                    LocalBranchView { label: a[0].label, body: l },
                                ] + la1) + lb);
                            },
                        }
                    },
                }
            },
        }
    }
}

/// Projects one node for the concrete role `t`.
fn project_node(p: &Protocol, t: &Role) -> (r: Result<LocalType, ProjectionError>)
    ensures
        r matches Ok(l) ==> project_view(pv(*p), t@) == Ok::<LocalTypeView, ProjectionErrorView>(
            lt_view(l),
        ),
        r matches Err(e) ==> project_view(pv(*p), t@) == Err::<LocalTypeView,
            ProjectionErrorView>(e@),
    decreases *p,
{
    match p {
        Protocol::End => Ok(LocalType::End),
        Protocol::Continue { label } => Ok(LocalType::Continue { label: label.clone() }),
        Protocol::Send { from, to, message, cont } => {
            let c = match project_node(&**cont, t) {
                Err(e) => {
                    return Err(e);
                },
                Ok(c) => c,
            };
            if crate::role::matches_role(t, from) {
                Ok(
                    LocalType::Send {
                        to: to.clone(),
                        message: message.clone(),
                        cont: Box::new(c),
                    },
                )
            } else if crate::role::matches_role(t, to) {
                Ok(
                    LocalType::Receive {
                        from: from.clone(),
                        message: message.clone(),
                        cont: Box::new(c),
                    },
                )
            } else {
                Ok(c)
            }
        },
        Protocol::Loop { label, body } => {
            match project_node(&**body, t) {
                Err(e) => Err(e),
                Ok(b) => Ok(LocalType::Loop { label: label.clone(), body: Box::new(b) }),
            }
        },
        Protocol::Ext(e) => {
            if e.mentions_role(t) {
                match e.lookup_projection(t) {
                    Some(l) => Ok(
                        LocalType::Ext { ext_id: e.name.clone(), body: Box::new(l) },
                    ),
                    None => Err(ProjectionError::ExtensionFailed { id: e.name.clone() }),
                }
            } else {
                proof {
                    assert(lt_view(LocalType::End) == LocalTypeView::End);
                }
                Ok(
                    LocalType::Ext {
                        ext_id: e.name.clone(),
                        body: Box::new(LocalType::End),
                    },
                )
            }
        },
        Protocol::Choice { decider, branches } => {
            let ghost bv = b_views(branches@);
            proof {
                lemma_b_views_len(branches@);
            }
            let locals = match project_branch_vec(branches, t) {
                Err(e) => {
                    return Err(e);
                },
                Ok(ls) => ls,
            };
            proof {
                crate::local_type::lemma_lb_views_len(locals@);
                lemma_project_branches_index(bv, t@);
            }
            if crate::role::matches_role(t, decider) {
                return Ok(LocalType::InternalChoice { branches: locals });
            }
            if branches.len() == 0 {
                return Err(
                    ProjectionError::NotProjectable { at: decider.name.clone() },
                );
            }
            // which branches mention the target
            let mut any_m: bool = false;
            let mut all_m: bool = true;
            let mut i: usize = 0;
            while i < branches.len()
                invariant
                    i <= branches.len(),
                    bv == b_views(branches@),
                    bv.len() == branches.len(),
                    any_m <==> exists|j: int|
                        0 <= j < i && mentions_view(#[trigger] bv[j].body, t@),
                    all_m <==> forall|j: int|
                        0 <= j < i ==> mentions_view(#[trigger] bv[j].body, t@),
                decreases branches.len() - i,
            {
                proof {
                    lemma_b_views_index(branches@, i as int);
                }
                let m = crate::protocol::mentions(&branches[i].body, t);
                proof {
                    assert(bv[i as int].body == pv(branches@[i as int].body));
                    assert(m == mentions_view(bv[i as int].body, t@));
                }
                if m {
                    any_m = true;
                } else {
                    all_m = false;
                }
                i = i + 1;
                proof {
                    assert(any_m <==> exists|j: int|
                        0 <= j < i && mentions_view(#[trigger] bv[j].body, t@));
                    assert(all_m <==> forall|j: int|
                        0 <= j < i ==> mentions_view(#[trigger] bv[j].body, t@));
                }
            }
            if all_m {
                return Ok(LocalType::ExternalChoice { branches: locals });
            }
            if !any_m {
                // the target is silent in every branch: all projections
                // must agree, and the common continuation is the result
                let mut k: usize = 1;
                let mut agree: bool = true;
                proof {
                    crate::local_type::lemma_lb_views_index(locals@, 0);
                }
                while k < locals.len()
                    invariant
                        1 <= k <= locals.len(),
                        locals@.len() == bv.len(),
                        bv == b_views(branches@),
                        project_branches(bv, t@) == Ok::<
                            Seq<LocalBranchView>,
                            ProjectionErrorView,
                        >(crate::local_type::lb_views(locals@)),
                        agree <==> forall|j: int|
                            0 <= j < k ==> (#[trigger] crate::local_type::lb_views(
                                locals@,
                            )[j].body) == crate::local_type::lb_views(locals@)[0].body,
                    decreases locals.len() - k,
                {
                    proof {
                        crate::local_type::lemma_lb_views_index(locals@, k as int);
                        crate::local_type::lemma_lb_views_index(locals@, 0);
                    }
                    let same = crate::local_type::lt_eq(&locals[k].body, &locals[0].body);
                    proof {
                        assert(crate::local_type::lb_views(locals@)[k as int].body == lt_view(
                            locals@[k as int].body,
                        ));
                        assert(crate::local_type::lb_views(locals@)[0].body == lt_view(
                            locals@[0].body,
                        ));
                    }
                    if !same {
                        agree = false;
                    }
                    k = k + 1;
                    proof {
                        assert(agree <==> forall|j: int|
                            0 <= j < k ==> (#[trigger] crate::local_type::lb_views(
                                locals@,
                            )[j].body) == crate::local_type::lb_views(locals@)[0].body);
                    }
                }
                if agree {
                    let first = locals[0].body.clone();
                    proof {
                        crate::local_type::lemma_lb_views_index(locals@, 0);
                    }
                    return Ok(first);
                } else {
                    return Err(
                        ProjectionError::NotProjectable { at: decider.name.clone() },
                    );
                }
            }
            Err(ProjectionError::NotProjectable { at: decider.name.clone() })
        },
    }
}

/// The concrete target role is covered by some declaration.
pub open spec fn declared_target(t: RoleView, decls: Seq<RoleView>) -> bool {
    concrete_target(t) && use_site_ok(t, decls)
}

/// Projects the global protocol onto one declared concrete role. An
/// undeclared or non-concrete target is an unknown-role error; for a
/// declared target the result is exactly what [`project_view`] yields.
pub fn project(protocol: &Protocol, target: &Role, all_roles: &Vec<Role>) -> (r: Result<
    LocalType,
    ProjectionError,
>)
    ensures
        declared_target(target@, role_views(all_roles@)) ==> match r {
            Ok(l) => project_view(pv(*protocol), target@) == Ok::<
                LocalTypeView,
                ProjectionErrorView,
            >(lt_view(l)),
            Err(e) => project_view(pv(*protocol), target@) == Err::<
                LocalTypeView,
                ProjectionErrorView,
            >(e@),
        },
        !declared_target(target@, role_views(all_roles@)) ==> (r matches Err(e) && e@ == (
        ProjectionErrorView::UnknownRole { role: target@.name })),
{
    let concrete = match target.param {
        crate::role::RoleParam::Single => true,
        crate::role::RoleParam::At { .. } => true,
        _ => false,
    };
    if !concrete || !crate::role::check_use_site(target, all_roles) {
        return Err(ProjectionError::UnknownRole { role: target.name.clone() });
    }
    project_node(protocol, target)
}



/// A named global protocol together with its declared roles and
/// optional namespace metadata. Built once from parsed source and
/// immutable afterwards.
#[derive(Debug)]
pub struct Choreography {
    pub name: String,
    pub roles: Vec<Role>,
    pub namespace: Option<String>,
    pub protocol: Protocol,
}

/// A choreography is well-formed when its role declarations pass the
/// bounds checker and its protocol passes structural validation.
pub open spec fn choreography_wf(c: &Choreography) -> bool {
    &&& roles_wf(role_views(c.roles@))
    &&& protocol_valid(pv(c.protocol), role_views(c.roles@), Seq::<Seq<char>>::empty())
}

impl Choreography {
    /// A choreography without namespace metadata.
    pub fn new(name: String, roles: Vec<Role>, protocol: Protocol) -> (r: Choreography)
        ensures
            r.name@ == name@,
            r.roles@ == roles@,
            r.namespace is None,
            r.protocol == protocol,
    {
        Choreography { name, roles, namespace: None, protocol }
    }

    /// Checks the role declarations, then the protocol structure;
    /// accepts exactly the well-formed choreographies. A role error is
    /// reported before the protocol is looked at.
    pub fn validate(&self) -> (r: Result<(), ChoreographyError>)
        ensures
            r is Ok <==> choreography_wf(self),
            r matches Err(ChoreographyError::Roles(_)) <==> !roles_wf(role_views(self.roles@)),
            r matches Err(ChoreographyError::Structure(_)) <==> roles_wf(role_views(self.roles@))
                && !protocol_valid(
                pv(self.protocol),
                role_views(self.roles@),
                Seq::<Seq<char>>::empty(),
            ),
    {
        match RoleBoundsChecker::validate(&self.roles) {
            Err(e) => Err(ChoreographyError::Roles(e)),
            Ok(()) => {
                match crate::protocol::validate(&self.protocol, &self.roles) {
                    Err(e) => Err(ChoreographyError::Structure(e)),
                    Ok(()) => Ok(()),
                }
            },
        }
    }

    /// Projects the protocol onto one declared concrete role.
    pub fn project(&self, target: &Role) -> (r: Result<LocalType, ProjectionError>)
        ensures
            declared_target(target@, role_views(self.roles@)) ==> match r {
                Ok(l) => project_view(pv(self.protocol), target@) == Ok::<
                    LocalTypeView,
                    ProjectionErrorView,
                >(lt_view(l)),
                Err(e) => project_view(pv(self.protocol), target@) == Err::<
                    LocalTypeView,
                    ProjectionErrorView,
                >(e@),
            },
            !declared_target(target@, role_views(self.roles@)) ==> (r matches Err(e) && e@ == (
            ProjectionErrorView::UnknownRole { role: target@.name })),
    {
        crate::projection::project(&self.protocol, target, &self.roles)
    }
}

/// Why a choreography was rejected: its role declarations or its
/// protocol structure.
#[derive(Debug)]
pub enum ChoreographyError {
    Roles(crate::role::RoleValidationError),
    Structure(ValidationError),
}

} // verus!
