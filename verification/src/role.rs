//! Role model: participants, parameterized role families, bounds checking.
//!
//! A role is a named participant. A parameterized role denotes an indexed
//! family of participants, either over a fixed range `[0, size)` or over an
//! unbounded wildcard family ("all current members"). Fixed limits keep
//! projection and code generation bounded; exceeding a limit is a
//! validation error, never a panic.

use vstd::prelude::*;
use crate::MAX_RANGE_SIZE;
use crate::MAX_ROLE_COUNT;
use crate::MAX_ROLE_INDEX;

verus! {

/// Index domain of a parameterized role: a fixed range `[0, size)` or an
/// unbounded wildcard family.
#[derive(Clone, Copy, PartialEq, Eq, Structural, Debug)]
pub enum RangeExpr {
    Bounded { size: u64 },
    Unbounded,
}

/// How a role is parameterized, both at its declaration and at a use site.
#[derive(Clone, Copy, PartialEq, Eq, Structural, Debug)]
pub enum RoleParam {
    /// A plain, unparameterized role.
    Single,
    /// Declaration of an indexed family with the given index domain.
    Family(RangeExpr),
    /// Use of one concrete member of a family.
    At { index: u64 },
    /// Use of a whole family at once (multicast).
    All,
}

/// A named participant of a choreography.
#[derive(Debug)]
pub struct Role {
    pub name: String,
    pub param: RoleParam,
}

/// Mathematical model of a [`Role`].
pub struct RoleView {
    pub name: Seq<char>,
    pub param: RoleParam,
}

impl View for Role {
    type V = RoleView;

    open spec fn view(&self) -> RoleView {
        RoleView { name: self.name@, param: self.param }
    }
}

impl Clone for Role {
    fn clone(&self) -> (r: Self)
        ensures
            r@ == self@,
    {
        Role { name: self.name.clone(), param: self.param }
    }
}

impl Role {
    /// A plain role with the given name.
    pub fn new(name: String) -> (r: Role)
        ensures
            r@.name == name@,
            r@.param == RoleParam::Single,
    {
        Role { name, param: RoleParam::Single }
    }

    /// Declaration of a role family over `[0, size)`.
    pub fn family(name: String, size: u64) -> (r: Role)
        ensures
            r@.name == name@,
            r@.param == RoleParam::Family(RangeExpr::Bounded { size }),
    {
        Role { name, param: RoleParam::Family(RangeExpr::Bounded { size }) }
    }

    /// Declaration of a role family over an unbounded wildcard domain.
    pub fn family_all(name: String) -> (r: Role)
        ensures
            r@.name == name@,
            r@.param == RoleParam::Family(RangeExpr::Unbounded),
    {
        Role { name, param: RoleParam::Family(RangeExpr::Unbounded) }
    }

    /// Use of the concrete member `name[index]` of a family.
    pub fn at(name: String, index: u64) -> (r: Role)
        ensures
            r@.name == name@,
            r@.param == (RoleParam::At { index }),
    {
        Role { name, param: RoleParam::At { index } }
    }

    /// Use of the whole family `name[*]`.
    pub fn all(name: String) -> (r: Role)
        ensures
            r@.name == name@,
            r@.param == RoleParam::All,
    {
        Role { name, param: RoleParam::All }
    }

    /// Whether the two roles are the same name with the same parameter.
    pub fn same_as(&self, other: &Role) -> (r: bool)
        ensures
            r == (self@ == other@),
    {
        if !self.name.eq(&other.name) {
            proof {
                assert(self@ != other@);
            }
            return false;
        }
        let r = role_param_eq(self.param, other.param);
        proof {
            if self@.name == other@.name && self@.param == other@.param {
                assert(self@ == other@);
            }
        }
        r
    }
}

/// Whether the two parameters are equal.
pub fn role_param_eq(a: RoleParam, b: RoleParam) -> (r: bool)
    ensures
        r == (a == b),
{
    match (a, b) {
        (RoleParam::Single, RoleParam::Single) => true,
        (RoleParam::Family(RangeExpr::Bounded { size: x }), RoleParam::Family(
            RangeExpr::Bounded { size: y },
        )) => x == y,
        (RoleParam::Family(RangeExpr::Unbounded), RoleParam::Family(RangeExpr::Unbounded)) => true,
        (RoleParam::At { index: x }, RoleParam::At { index: y }) => x == y,
        (RoleParam::All, RoleParam::All) => true,
        _ => false,
    }
}

/// A projection target addresses one concrete endpoint: a plain role or
/// one member of a family.
pub open spec fn concrete_target(t: RoleView) -> bool {
    t.param is Single || t.param is At
}

/// Whether the concrete target `t` is addressed by the use-site role
/// `site`: the names agree and `site`'s parameter covers `t`'s. A
/// wildcard use site covers every member of the family.
pub open spec fn role_matches(t: RoleView, site: RoleView) -> bool {
    &&& t.name == site.name
    &&& match site.param {
        RoleParam::Single => t.param is Single,
        RoleParam::At { index } => t.param == (RoleParam::At { index }),
        RoleParam::All => t.param is At,
        RoleParam::Family(_) => false,
    }
}

/// Executable form of [`role_matches`].
pub fn matches_role(t: &Role, site: &Role) -> (r: bool)
    ensures
        r == role_matches(t@, site@),
{
    if !t.name.eq(&site.name) {
        return false;
    }
    match (site.param, t.param) {
        (RoleParam::Single, RoleParam::Single) => true,
        (RoleParam::At { index: i }, RoleParam::At { index: j }) => i == j,
        (RoleParam::All, RoleParam::At { .. }) => true,
        _ => false,
    }
}

/// Errors of role declaration and index bounds checking. Every error
/// names the offending role so diagnostics can point at the declaration.
#[derive(Debug)]
pub enum RoleValidationError {
    /// Two declared roles share one name.
    DuplicateRole { role: String },
    /// A declared range `[0, size)` exceeds `MAX_RANGE_SIZE`.
    RangeTooLarge { role: String, size: u64 },
    /// More than `MAX_ROLE_COUNT` roles are declared.
    TooManyRoles { count: u64 },
    /// A declaration carries a use-site parameter (an index or `[*]`).
    MalformedDeclaration { role: String },
    /// A concrete index reaches `MAX_ROLE_INDEX`.
    IndexTooLarge { role: String, index: u64 },
    /// A concrete index falls outside the role's declared range.
    IndexOutOfRange { role: String, index: u64, size: u64 },
    /// An index is applied to a role that is not a family.
    NotParameterized { role: String },
}

/// Mathematical model of a [`RoleValidationError`].
pub enum RoleErrorView {
    DuplicateRole { role: Seq<char> },
    RangeTooLarge { role: Seq<char>, size: u64 },
    TooManyRoles { count: u64 },
    MalformedDeclaration { role: Seq<char> },
    IndexTooLarge { role: Seq<char>, index: u64 },
    IndexOutOfRange { role: Seq<char>, index: u64, size: u64 },
    NotParameterized { role: Seq<char> },
}

impl View for RoleValidationError {
    type V = RoleErrorView;

    open spec fn view(&self) -> RoleErrorView {
        match self {
            RoleValidationError::DuplicateRole { role } => RoleErrorView::DuplicateRole {
                role: role@,
            },
            RoleValidationError::RangeTooLarge { role, size } => RoleErrorView::RangeTooLarge {
                role: role@,
                size: *size,
            },
            RoleValidationError::TooManyRoles { count } => RoleErrorView::TooManyRoles {
                count: *count,
            },
            RoleValidationError::MalformedDeclaration { role } => (
            RoleErrorView::MalformedDeclaration { role: role@ }),
            RoleValidationError::IndexTooLarge { role, index } => RoleErrorView::IndexTooLarge {
                role: role@,
                index: *index,
            },
            RoleValidationError::IndexOutOfRange { role, index, size } => (
            RoleErrorView::IndexOutOfRange { role: role@, index: *index, size: *size }),
            RoleValidationError::NotParameterized { role } => RoleErrorView::NotParameterized {
                role: role@,
            },
        }
    }
}

/// Result of checking a set of role declarations.
pub type RoleValidationResult = Result<(), RoleValidationError>;

/// The declaration at position `i` is well-formed on its own: it carries
/// a declaration parameter and any bounded range fits the limit.
pub open spec fn decl_wf(r: RoleView) -> bool {
    match r.param {
        RoleParam::Single => true,
        RoleParam::Family(RangeExpr::Bounded { size }) => size <= MAX_RANGE_SIZE,
        RoleParam::Family(RangeExpr::Unbounded) => true,
        RoleParam::At { .. } => false,
        RoleParam::All => false,
    }
}

/// The whole declaration list is well-formed: few enough roles, unique
/// names, each declaration well-formed.
pub open spec fn roles_wf(roles: Seq<RoleView>) -> bool {
    &&& roles.len() <= MAX_ROLE_COUNT
    &&& forall|i: int, j: int|
        0 <= i < j < roles.len() ==> roles[i].name != roles[j].name
    &&& forall|i: int| 0 <= i < roles.len() ==> decl_wf(#[trigger] roles[i])
}

/// The first error among the declarations at positions `i` and later:
/// a duplicate of an earlier name, a use-site parameter, or an oversized
/// range, whichever a left-to-right scan meets first.
pub open spec fn first_decl_error(roles: Seq<RoleView>, i: int) -> Option<RoleErrorView>
    decreases roles.len() - i,
{
    if i < 0 || i >= roles.len() {
        None
    } else {
        let r = roles[i];
        if exists|j: int| 0 <= j < i && roles[j].name == r.name {
            Some(RoleErrorView::DuplicateRole { role: r.name })
        } else if r.param is At || r.param is All {
            Some(RoleErrorView::MalformedDeclaration { role: r.name })
        } else {
            match r.param {
                RoleParam::Family(RangeExpr::Bounded { size }) => if size > MAX_RANGE_SIZE {
                    Some(RoleErrorView::RangeTooLarge { role: r.name, size })
                } else {
                    first_decl_error(roles, i + 1)
                },
                _ => first_decl_error(roles, i + 1),
            }
        }
    }
}

/// What validating a declaration list returns.
pub open spec fn validate_roles_spec(roles: Seq<RoleView>) -> Result<(), RoleErrorView> {
    if roles.len() > MAX_ROLE_COUNT {
        Err(RoleErrorView::TooManyRoles { count: roles.len() as u64 })
    } else {
        match first_decl_error(roles, 0) {
            Some(e) => Err(e),
            None => Ok(()),
        }
    }
}

pub proof fn lemma_first_decl_error_none(roles: Seq<RoleView>, i: int)
    requires
        0 <= i <= roles.len(),
        first_decl_error(roles, i) is None,
        forall|p: int, q: int| 0 <= p < q < i ==> roles[p].name != roles[q].name,
        forall|p: int| 0 <= p < i ==> decl_wf(#[trigger] roles[p]),
    ensures
        forall|p: int, q: int| 0 <= p < q < roles.len() ==> roles[p].name != roles[q].name,
        forall|p: int| 0 <= p < roles.len() ==> decl_wf(#[trigger] roles[p]),
    decreases roles.len() - i,
{
    if i < roles.len() {
        lemma_first_decl_error_none(roles, i + 1);
    }
}

pub proof fn lemma_first_decl_error_some(roles: Seq<RoleView>, i: int)
    requires
        0 <= i,
        first_decl_error(roles, i) is Some,
    ensures
        !(forall|p: int, q: int| 0 <= p < q < roles.len() ==> roles[p].name != roles[q].name)
            || !(forall|p: int| 0 <= p < roles.len() ==> decl_wf(#[trigger] roles[p])),
    decreases roles.len() - i,
{
    if i >= roles.len() {
    } else {
        let r = roles[i];
        if exists|j: int| 0 <= j < i && roles[j].name == r.name {
            let j = choose|j: int| 0 <= j < i && roles[j].name == r.name;
            assert(0 <= j < i < roles.len() && roles[j].name == roles[i].name);
        } else if r.param is At || r.param is All {
            assert(!decl_wf(roles[i]));
        } else if r.param matches RoleParam::Family(RangeExpr::Bounded { size }) && size
            > MAX_RANGE_SIZE {
            assert(!decl_wf(roles[i]));
        } else {
            lemma_first_decl_error_some(roles, i + 1);
        }
    }
}

/// Validating succeeds exactly on well-formed declaration lists.
pub proof fn lemma_validate_roles_iff_wf(roles: Seq<RoleView>)
    ensures
        validate_roles_spec(roles) is Ok <==> roles_wf(roles),
{
    if roles.len() <= MAX_ROLE_COUNT {
        match first_decl_error(roles, 0) {
            None => {
                lemma_first_decl_error_none(roles, 0);
            },
            Some(_) => {
                lemma_first_decl_error_some(roles, 0);
            },
        }
    }
}

/// The sequence of role models named by a vector of roles.
pub open spec fn role_views(roles: Seq<Role>) -> Seq<RoleView> {
    Seq::new(roles.len(), |i: int| roles[i]@)
}

/// Checks declarations against the documented limits.
pub struct RoleBoundsChecker {}

impl RoleBoundsChecker {
    /// Rejects duplicate names, use-site parameters in declarations,
    /// oversized ranges and oversized declaration lists; accepts exactly
    /// the well-formed lists.
    pub fn validate(roles: &Vec<Role>) -> (r: RoleValidationResult)
        ensures
            r matches Ok(()) ==> validate_roles_spec(role_views(roles@)) is Ok,
            r matches Err(e) ==> validate_roles_spec(role_views(roles@)) == Err::<(),
                RoleErrorView,
            >(e@),
            r is Ok <==> roles_wf(role_views(roles@)),
    {
        proof {
            lemma_validate_roles_iff_wf(role_views(roles@));
        }
        let ghost rv = role_views(roles@);
        if roles.len() > MAX_ROLE_COUNT as usize {
            return Err(RoleValidationError::TooManyRoles { count: roles.len() as u64 });
        }
        let mut i: usize = 0;
        while i < roles.len()
            invariant
                i <= roles.len(),
                rv == role_views(roles@),
                rv.len() <= MAX_ROLE_COUNT,
                first_decl_error(rv, 0) == first_decl_error(rv, i as int),
            decreases roles.len() - i,
        {
            let mut j: usize = 0;
            let mut dup: bool = false;
            while j < i
                invariant
                    j <= i < roles.len(),
                    rv == role_views(roles@),
                    dup <==> exists|k: int| 0 <= k < j && rv[k].name == rv[i as int].name,
                decreases i - j,
            {
                let same = roles[j].name.eq(&roles[i].name);
                proof {
                    assert(rv[j as int].name == roles@[j as int].name@);
                    assert(rv[i as int].name == roles@[i as int].name@);
                }
                if same {
                    dup = true;
                }
                j = j + 1;
            }
            if dup {
                return Err(
                    RoleValidationError::DuplicateRole { role: roles[i].name.clone() },
                );
            }
            match roles[i].param {
                RoleParam::At { .. } => {
                    return Err(
                        RoleValidationError::MalformedDeclaration {
                            role: roles[i].name.clone(),
                        },
                    );
                },
                RoleParam::All => {
                    return Err(
                        RoleValidationError::MalformedDeclaration {
                            role: roles[i].name.clone(),
                        },
                    );
                },
                RoleParam::Family(RangeExpr::Bounded { size }) => {
                    if size > MAX_RANGE_SIZE {
                        return Err(
                            RoleValidationError::RangeTooLarge {
                                role: roles[i].name.clone(),
                                size,
                            },
                        );
                    }
                },
                _ => {},
            }
            i = i + 1;
        }
        Ok(())
    }

    /// Checks one concrete index against a declaration: the declaration
    /// must be a family, the index must fall below `MAX_ROLE_INDEX` and,
    /// for a bounded range, below the declared size (exclusive bound).
    pub fn check_index(decl: &Role, index: u64) -> (r: RoleValidationResult)
        ensures
            r matches Err(e) ==> first_index_error(decl@, index) == Some(e@),
            r is Ok <==> index_ok(decl@, index),
    {
        match decl.param {
            RoleParam::Family(RangeExpr::Bounded { size }) => {
                if index >= MAX_ROLE_INDEX {
                    Err(RoleValidationError::IndexTooLarge { role: decl.name.clone(), index })
                } else if index >= size {
                    Err(
                        RoleValidationError::IndexOutOfRange {
                            role: decl.name.clone(),
                            index,
                            size,
                        },
                    )
                } else {
                    Ok(())
                }
            },
            RoleParam::Family(RangeExpr::Unbounded) => {
                if index >= MAX_ROLE_INDEX {
                    Err(RoleValidationError::IndexTooLarge { role: decl.name.clone(), index })
                } else {
                    Ok(())
                }
            },
            _ => Err(RoleValidationError::NotParameterized { role: decl.name.clone() }),
        }
    }
}

/// The concrete index `index` addresses a member that the declaration
/// admits.
pub open spec fn index_ok(decl: RoleView, index: u64) -> bool {
    match decl.param {
        RoleParam::Family(RangeExpr::Bounded { size }) => index < MAX_ROLE_INDEX && index < size,
        RoleParam::Family(RangeExpr::Unbounded) => index < MAX_ROLE_INDEX,
        _ => false,
    }
}

/// The error that checking `index` against `decl` reports, if any.
pub open spec fn first_index_error(decl: RoleView, index: u64) -> Option<RoleErrorView> {
    match decl.param {
        RoleParam::Family(RangeExpr::Bounded { size }) => if index >= MAX_ROLE_INDEX {
            Some(RoleErrorView::IndexTooLarge { role: decl.name, index })
        } else if index >= size {
            Some(RoleErrorView::IndexOutOfRange { role: decl.name, index, size })
        } else {
            None
        },
        RoleParam::Family(RangeExpr::Unbounded) => if index >= MAX_ROLE_INDEX {
            Some(RoleErrorView::IndexTooLarge { role: decl.name, index })
        } else {
            None
        },
        _ => Some(RoleErrorView::NotParameterized { role: decl.name }),
    }
}


/// The declaration `decl` covers the use-site role `site`: same name,
/// and the declaration's domain admits the site's parameter.
pub open spec fn decl_covers(decl: RoleView, site: RoleView) -> bool {
    &&& decl.name == site.name
    &&& match site.param {
        RoleParam::Single => decl.param is Single,
        RoleParam::At { index } => index_ok(decl, index),
        RoleParam::All => decl.param is Family,
        RoleParam::Family(_) => false,
    }
}

/// Some declaration covers the use-site role.
pub open spec fn use_site_ok(site: RoleView, decls: Seq<RoleView>) -> bool {
    exists|i: int| 0 <= i < decls.len() && decl_covers(#[trigger] decls[i], site)
}

/// Executable form of [`decl_covers`].
pub fn covers(decl: &Role, site: &Role) -> (r: bool)
    ensures
        r == decl_covers(decl@, site@),
{
    if !decl.name.eq(&site.name) {
        return false;
    }
    match site.param {
        RoleParam::Single => matches!(decl.param, RoleParam::Single),
        RoleParam::At { index } => match decl.param {
            RoleParam::Family(RangeExpr::Bounded { size }) => index < MAX_ROLE_INDEX && index
                < size,
            RoleParam::Family(RangeExpr::Unbounded) => index < MAX_ROLE_INDEX,
            _ => false,
        },
        RoleParam::All => matches!(decl.param, RoleParam::Family(_)),
        RoleParam::Family(_) => false,
    }
}

/// Executable form of [`use_site_ok`].
pub fn check_use_site(site: &Role, decls: &Vec<Role>) -> (r: bool)
    ensures
        r == use_site_ok(site@, role_views(decls@)),
{
    let ghost dv = role_views(decls@);
    let mut i: usize = 0;
    while i < decls.len()
        invariant
            i <= decls.len(),
            dv == role_views(decls@),
            forall|j: int| 0 <= j < i ==> !decl_covers(#[trigger] dv[j], site@),
        decreases decls.len() - i,
    {
        if covers(&decls[i], site) {
            proof {
                assert(decl_covers(dv[i as int], site@));
            }
            return true;
        }
        proof {
            assert(dv[i as int] == decls@[i as int]@);
        }
        i = i + 1;
    }
    false
}

} // verus!
