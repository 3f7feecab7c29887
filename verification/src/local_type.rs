//! Local types: the per-role projection of a global protocol.
//!
//! A local type mirrors the global protocol but is role-specific: sends
//! and receives against a peer, internal and external choices, loops with
//! named back-edges, termination, and projected extension nodes. A local
//! type is produced once per (choreography, role) pair and never mutated
//! afterwards.

use vstd::prelude::*;
use crate::role::Role;
use crate::role::RoleView;
use crate::message::MessageType;

verus! {

/// One labeled continuation of a local choice.
#[derive(Debug)]
pub struct LocalBranch {
    pub label: String,
    pub body: LocalType,
}

/// The per-role projected protocol.
#[derive(Debug)]
pub enum LocalType {
    /// Send `message` to `to`, then continue.
    Send { to: Role, message: MessageType, cont: Box<LocalType> },
    /// Receive `message` from `from`, then continue.
    Receive { from: Role, message: MessageType, cont: Box<LocalType> },
    /// This role picks one labeled branch.
    InternalChoice { branches: Vec<LocalBranch> },
    /// Another role picks; this role follows the chosen label.
    ExternalChoice { branches: Vec<LocalBranch> },
    /// A repeatable sub-protocol with a named back-edge target.
    Loop { label: String, body: Box<LocalType> },
    /// Jump back to the enclosing loop of that label.
    Continue { label: String },
    /// No further communication.
    End,
    /// The projection of an externally-defined construct.
    Ext { ext_id: String, body: Box<LocalType> },
}

/// Mathematical model of a [`LocalBranch`].
pub struct LocalBranchView {
    pub label: Seq<char>,
    pub body: LocalTypeView,
}

/// Mathematical model of a [`LocalType`].
pub enum LocalTypeView {
    Send { to: RoleView, message: Seq<char>, cont: Box<LocalTypeView> },
    Receive { from: RoleView, message: Seq<char>, cont: Box<LocalTypeView> },
    InternalChoice { branches: Seq<LocalBranchView> },
    ExternalChoice { branches: Seq<LocalBranchView> },
    Loop { label: Seq<char>, body: Box<LocalTypeView> },
    Continue { label: Seq<char> },
    End,
    Ext { ext_id: Seq<char>, body: Box<LocalTypeView> },
}

/// The model of a local type.
pub open spec fn lt_view(l: LocalType) -> LocalTypeView
    decreases l,
{
    match l {
        LocalType::Send { to, message, cont } => LocalTypeView::Send {
            to: to@,
            message: message@,
            cont: Box::new(lt_view(*cont)),
        },
        LocalType::Receive { from, message, cont } => LocalTypeView::Receive {
            from: from@,
            message: message@,
            cont: Box::new(lt_view(*cont)),
        },
        LocalType::InternalChoice { branches } => LocalTypeView::InternalChoice {
            branches: lb_views(branches@),
        },
        LocalType::ExternalChoice { branches } => LocalTypeView::ExternalChoice {
            branches: lb_views(branches@),
        },
        LocalType::Loop { label, body } => LocalTypeView::Loop {
            label: label@,
            body: Box::new(lt_view(*body)),
        },
        LocalType::Continue { label } => LocalTypeView::Continue { label: label@ },
        LocalType::End => LocalTypeView::End,
        LocalType::Ext { ext_id, body } => LocalTypeView::Ext {
            ext_id: ext_id@,
            body: Box::new(lt_view(*body)),
        },
    }
}

/// The models of a sequence of local branches.
pub open spec fn lb_views(bs: Seq<LocalBranch>) -> Seq<LocalBranchView>
    decreases bs,
{
    if bs.len() == 0 {
        Seq::empty()
    } else {
        seq![LocalBranchView { label: bs[0].label@, body: lt_view(bs[0].body) }] + lb_views(
            bs.drop_first(),
        )
    }
}

pub proof fn lemma_lb_views_index(bs: Seq<LocalBranch>, i: int)
    requires
        0 <= i < bs.len(),
    ensures
        lb_views(bs).len() == bs.len(),
        lb_views(bs)[i] == (LocalBranchView { label: bs[i].label@, body: lt_view(bs[i].body) }),
    decreases bs.len(),
{
    lemma_lb_views_len(bs);
    if i > 0 {
        lemma_lb_views_index(bs.drop_first(), i - 1);
    }
}

pub proof fn lemma_lb_views_len(bs: Seq<LocalBranch>)
    ensures
        lb_views(bs).len() == bs.len(),
    decreases bs.len(),
{
    if bs.len() > 0 {
        lemma_lb_views_len(bs.drop_first());
    }
}

pub proof fn lemma_lb_views_push(bs: Seq<LocalBranch>, b: LocalBranch)
    ensures
        lb_views(bs.push(b)) == lb_views(bs).push(
            LocalBranchView { label: b.label@, body: lt_view(b.body) },
        ),
    decreases bs.len(),
{
    if bs.len() == 0 {
        assert(bs.push(b).drop_first() =~= Seq::<LocalBranch>::empty());
        assert(bs.push(b)[0] == b);
        assert(lb_views(Seq::<LocalBranch>::empty()).len() == 0);
        assert(lb_views(bs.push(b)) =~= lb_views(bs).push(
            LocalBranchView { label: b.label@, body: lt_view(b.body) },
        ));
    } else {
        assert(bs.push(b).drop_first() =~= bs.drop_first().push(b));
        assert(bs.push(b)[0] == bs[0]);
        lemma_lb_views_push(bs.drop_first(), b);
        assert(lb_views(bs.push(b)) =~= lb_views(bs).push(
            LocalBranchView { label: b.label@, body: lt_view(b.body) },
        ));
    }
}

impl Clone for LocalBranch {
    fn clone(&self) -> (r: Self)
        ensures
            r.label@ == self.label@,
            lt_view(r.body) == lt_view(self.body),
        decreases *self,
    {
        LocalBranch { label: self.label.clone(), body: self.body.clone() }
    }
}

impl Clone for LocalType {
    fn clone(&self) -> (r: Self)
        ensures
            lt_view(r) == lt_view(*self),
        decreases *self,
    {
        match self {
            LocalType::Send { to, message, cont } => LocalType::Send {
                to: to.clone(),
                message: message.clone(),
                cont: Box::new((**cont).clone()),
            },
            LocalType::Receive { from, message, cont } => LocalType::Receive {
                from: from.clone(),
                message: message.clone(),
                cont: Box::new((**cont).clone()),
            },
            LocalType::InternalChoice { branches } => {
                let r = LocalType::InternalChoice { branches: clone_branches(branches) };
                r
            },
            LocalType::ExternalChoice { branches } => {
                let r = LocalType::ExternalChoice { branches: clone_branches(branches) };
                r
            },
            LocalType::Loop { label, body } => LocalType::Loop {
                label: label.clone(),
                body: Box::new((**body).clone()),
            },
            LocalType::Continue { label } => LocalType::Continue { label: label.clone() },
            LocalType::End => LocalType::End,
            LocalType::Ext { ext_id, body } => LocalType::Ext {
                ext_id: ext_id.clone(),
                body: Box::new((**body).clone()),
            },
        }
    }
}

/// Copies a branch list, preserving its model.
fn clone_branches(bs: &Vec<LocalBranch>) -> (r: Vec<LocalBranch>)
    ensures
        lb_views(r@) == lb_views(bs@),
    decreases bs@,
{
    let mut r: Vec<LocalBranch> = Vec::new();
    let mut i: usize = 0;
    proof {
        assert(lb_views(r@) =~= lb_views(bs@.subrange(0, 0)));
    }
    while i < bs.len()
        invariant
            i <= bs.len(),
            lb_views(r@) == lb_views(bs@.subrange(0, i as int)),
        decreases bs.len() - i,
    {
        let ghost rpre = r@;
        let b = bs[i].clone();
        r.push(b);
        i = i + 1;
        proof {
            lemma_lb_views_push(rpre, r@.last());
            lemma_lb_views_push(bs@.subrange(0, i - 1), bs@[i - 1]);
            assert(bs@.subrange(0, i - 1).push(bs@[i - 1]) =~= bs@.subrange(0, i as int));
            assert(lb_views(r@) =~= lb_views(bs@.subrange(0, i as int)));
        }
    }
    proof {
        assert(bs@.subrange(0, bs@.len() as int) =~= bs@);
    }
    r
}

/// Structural equality of local types, decided at the level of models.
pub fn lt_eq(a: &LocalType, b: &LocalType) -> (r: bool)
    ensures
        r == (lt_view(*a) == lt_view(*b)),
    decreases *a,
{
    match (a, b) {
        (
            LocalType::Send { to: t1, message: m1, cont: c1 },
            LocalType::Send { to: t2, message: m2, cont: c2 },
        ) => t1.same_as(t2) && m1.same_as(m2) && lt_eq(&**c1, &**c2),
        (
            LocalType::Receive { from: f1, message: m1, cont: c1 },
            LocalType::Receive { from: f2, message: m2, cont: c2 },
        ) => f1.same_as(f2) && m1.same_as(m2) && lt_eq(&**c1, &**c2),
        (
            LocalType::InternalChoice { branches: b1 },
            LocalType::InternalChoice { branches: b2 },
        ) => branches_eq(b1, b2),
        (
            LocalType::ExternalChoice { branches: b1 },
            LocalType::ExternalChoice { branches: b2 },
        ) => branches_eq(b1, b2),
        (LocalType::Loop { label: l1, body: d1 }, LocalType::Loop { label: l2, body: d2 }) => {
            crate::text::str_eq(l1.as_str(), l2.as_str()) && lt_eq(&**d1, &**d2)
        },
        (LocalType::Continue { label: l1 }, LocalType::Continue { label: l2 }) => {
            crate::text::str_eq(l1.as_str(), l2.as_str())
        },
        (LocalType::End, LocalType::End) => true,
        (LocalType::Ext { ext_id: e1, body: d1 }, LocalType::Ext { ext_id: e2, body: d2 }) => {
            crate::text::str_eq(e1.as_str(), e2.as_str()) && lt_eq(&**d1, &**d2)
        },
        _ => {
            proof {
                assert(lt_view(*a) != lt_view(*b));
            }
            false
        },
    }
}

/// Structural equality of branch lists.
fn branches_eq(a: &Vec<LocalBranch>, b: &Vec<LocalBranch>) -> (r: bool)
    ensures
        r == (lb_views(a@) == lb_views(b@)),
    decreases a@,
{
    proof {
        lemma_lb_views_len(a@);
        lemma_lb_views_len(b@);
    }
    if a.len() != b.len() {
        proof {
            assert(lb_views(a@) != lb_views(b@));
        }
        return false;
    }
    let mut i: usize = 0;
    while i < a.len()
        invariant
            i <= a.len(),
            a@.len() == b@.len(),
            lb_views(a@).len() == a@.len(),
            lb_views(b@).len() == b@.len(),
            forall|j: int| 0 <= j < i ==> lb_views(a@)[j] == lb_views(b@)[j],
        decreases a.len() - i,
    {
        proof {
            lemma_lb_views_index(a@, i as int);
            lemma_lb_views_index(b@, i as int);
        }
        let la = crate::text::str_eq(a[i].label.as_str(), b[i].label.as_str());
        if !la {
            proof {
                assert(lb_views(a@)[i as int] != lb_views(b@)[i as int]);
            }
            return false;
        }
        if !lt_eq(&a[i].body, &b[i].body) {
            proof {
                assert(lb_views(a@)[i as int] != lb_views(b@)[i as int]);
            }
            return false;
        }
        proof {
            assert(lb_views(a@)[i as int] == lb_views(b@)[i as int]);
        }
        i = i + 1;
    }
    proof {
        assert(lb_views(a@) =~= lb_views(b@));
    }
    true
}

} // verus!
