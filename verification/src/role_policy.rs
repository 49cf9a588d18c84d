//! A named, deduplicated, ordered collection of roles granted by a group.

use vstd::prelude::*;

use crate::api_policy::{ApiRole, RoleView};
use crate::text::{
    text_lt, str_eq, str_lt, lemma_text_lt_irreflexive, lemma_text_lt_trichotomy,
    lemma_text_lt_transitive,
};

verus! {

/// The decoded payload of a role token: subject, granted role strings,
/// granted audiences, and expiry (epoch seconds; not checked here).
pub struct RoleClaims {
    pub sub: String,
    pub roles: Vec<String>,
    pub audiences: Vec<String>,
    pub exp: u64,
}

impl Default for RoleClaims {
    /// Empty claims: no subject, no roles, no audiences, expiry zero.
    fn default() -> (r: RoleClaims)
        ensures
            r.sub@ == Seq::<char>::empty(),
            r.roles@.len() == 0,
            r.audiences@.len() == 0,
            r.exp == 0,
    {
        RoleClaims { sub: String::new(), roles: Vec::new(), audiences: Vec::new(), exp: 0 }
    }
}

/// Total order on roles: by action, then by path.
pub open spec fn role_lt(a: RoleView, b: RoleView) -> bool {
    text_lt(a.action, b.action) || (a.action == b.action && text_lt(a.path, b.path))
}

pub proof fn lemma_role_lt_irreflexive(a: RoleView)
    ensures
        !role_lt(a, a),
{
    lemma_text_lt_irreflexive(a.action);
    lemma_text_lt_irreflexive(a.path);
}

pub proof fn lemma_role_lt_trichotomy(a: RoleView, b: RoleView)
    ensures
        role_lt(a, b) || role_lt(b, a) || a == b,
{
    lemma_text_lt_trichotomy(a.action, b.action);
    lemma_text_lt_trichotomy(a.path, b.path);
    if !role_lt(a, b) && !role_lt(b, a) {
        assert(a =~= b);
    }
}

pub proof fn lemma_role_lt_transitive(a: RoleView, b: RoleView, c: RoleView)
    requires
        role_lt(a, b),
        role_lt(b, c),
    ensures
        role_lt(a, c),
{
    if text_lt(a.action, b.action) && text_lt(b.action, c.action) {
        lemma_text_lt_transitive(a.action, b.action, c.action);
    } else if a.action == b.action && b.action == c.action {
        lemma_text_lt_transitive(a.path, b.path, c.path);
    }
}

/// Strictly ascending: sorted, with no duplicate role.
pub open spec fn sorted_strict(s: Seq<RoleView>) -> bool {
    forall|i: int, j: int| 0 <= i < j < s.len() ==> role_lt(s[i], s[j])
}

/// Where a role lands when inserted into an ascending sequence; inserting a
/// role already present leaves the sequence unchanged.
pub open spec fn insert_role(s: Seq<RoleView>, r: RoleView) -> Seq<RoleView>
    decreases s.len(),
{
    if s.len() == 0 {
        seq![r]
    } else if role_lt(s[0], r) {
        seq![s[0]] + insert_role(s.drop_first(), r)
    } else if s[0] == r {
        s
    } else {
        seq![r] + s
    }
}

/// `insert_role` splits at the first position whose role does not order
/// before `r`.
proof fn lemma_insert_role_at(s: Seq<RoleView>, r: RoleView, k: int)
    requires
        0 <= k <= s.len(),
        forall|i: int| 0 <= i < k ==> role_lt(s[i], r),
        k < s.len() ==> !role_lt(s[k], r),
    ensures
        insert_role(s, r) == (if k < s.len() && s[k] == r {
            s
        } else {
            s.subrange(0, k) + seq![r] + s.subrange(k, s.len() as int)
        }),
    decreases s.len(),
{
    if s.len() == 0 {
        assert(s.subrange(0, 0) + seq![r] + s.subrange(0, 0) =~= seq![r]);
    } else if k == 0 {
        if s[0] == r {
        } else {
            assert(s.subrange(0, 0) + seq![r] + s.subrange(0, s.len() as int) =~= seq![r] + s);
        }
    } else {
        let d = s.drop_first();
        assert(forall|i: int| 0 <= i < k - 1 ==> d[i] == s[i + 1]);
        lemma_insert_role_at(d, r, k - 1);
        if k < s.len() && s[k] == r {
            assert(d[k - 1] == r);
            assert(seq![s[0]] + d =~= s);
        } else {
            assert(seq![s[0]] + (d.subrange(0, k - 1) + seq![r] + d.subrange(k - 1, d.len() as int))
                =~= s.subrange(0, k) + seq![r] + s.subrange(k, s.len() as int));
        }
    }
}

/// Law: inserting the same role into an ascending role set twice leaves
/// exactly what one insertion leaves, in size and in content.
pub proof fn lemma_insert_role_idempotent(s: Seq<RoleView>, r: RoleView)
    requires
        sorted_strict(s),
    ensures
        insert_role(insert_role(s, r), r) == insert_role(s, r),
    decreases s.len(),
{
    lemma_role_lt_irreflexive(r);
    if s.len() == 0 {
        assert(insert_role(s, r) == seq![r]);
        assert(seq![r][0] == r);
        assert(insert_role(seq![r], r) == seq![r]);
    } else if role_lt(s[0], r) {
        let d = s.drop_first();
        assert(sorted_strict(d)) by {
            assert(forall|i: int, j: int|
                0 <= i < j < d.len() ==> d[i] == s[i + 1] && d[j] == s[j + 1]);
        }
        lemma_insert_role_idempotent(d, r);
        let t = insert_role(d, r);
        let u = seq![s[0]] + t;
        assert(insert_role(s, r) == u);
        assert(u[0] == s[0]);
        assert(u.len() > 0);
        assert(u.drop_first() =~= t);
        assert(insert_role(u, r) == seq![u[0]] + insert_role(u.drop_first(), r));
        assert(insert_role(u.drop_first(), r) == t);
    } else if s[0] == r {
        assert(insert_role(s, r) == s);
    } else {
        let u = seq![r] + s;
        assert(insert_role(s, r) == u);
        assert(u[0] == r);
        assert(insert_role(u, r) == u);
    }
}

/// Whether `a` orders strictly before `b`.
fn role_lt_exec(a: &ApiRole, b: &ApiRole) -> (r: bool)
    ensures
        r == role_lt(a@, b@),
{
    if str_eq(a.action.as_str(), b.action.as_str()) {
        proof {
            lemma_text_lt_irreflexive(a.action@);
        }
        str_lt(a.path.as_str(), b.path.as_str())
    } else {
        str_lt(a.action.as_str(), b.action.as_str())
    }
}

/// Whether `a` and `b` are the same role.
fn role_eq_exec(a: &ApiRole, b: &ApiRole) -> (r: bool)
    ensures
        r == (a@ == b@),
{
    let r = str_eq(a.action.as_str(), b.action.as_str()) && str_eq(
        a.path.as_str(),
        b.path.as_str(),
    );
    proof {
        if r {
            assert(a@ =~= b@);
        }
    }
    r
}

/// The first position in `roles` whose role does not order before `r`.
fn lower_pos(roles: &Vec<ApiRole>, r: &ApiRole) -> (k: usize)
    ensures
        k <= roles@.len(),
        forall|i: int| 0 <= i < k ==> role_lt(roles.deep_view()[i], r@),
        k < roles@.len() ==> !role_lt(roles.deep_view()[k as int], r@),
{
    let n = roles.len();
    let mut k: usize = 0;
    while k < n
        invariant
            n == roles@.len(),
            k <= n,
            forall|i: int| 0 <= i < k ==> role_lt(roles.deep_view()[i], r@),
        decreases n - k,
    {
        proof {
            assert(roles.deep_view()[k as int] == roles@[k as int]@);
        }
        if !role_lt_exec(&roles[k], r) {
            return k;
        }
        k = k + 1;
    }
    k
}

/// The subsequence of `s` whose roles carry the action `a`, in order.
pub open spec fn roles_with_action(s: Seq<RoleView>, a: Seq<char>) -> Seq<RoleView>
    decreases s.len(),
{
    if s.len() == 0 {
        Seq::empty()
    } else {
        let init = roles_with_action(s.drop_last(), a);
        if s.last().action == a {
            init.push(s.last())
        } else {
            init
        }
    }
}

/// Law: filtering an ascending role sequence by action keeps it ascending,
/// and keeps only roles of the sequence; so `find_roles` hands back exactly
/// the map's matching roles, in ascending order.
pub proof fn lemma_roles_with_action_sorted(s: Seq<RoleView>, a: Seq<char>)
    requires
        sorted_strict(s),
    ensures
        sorted_strict(roles_with_action(s, a)),
        forall|x: RoleView| #[trigger] roles_with_action(s, a).contains(x) ==> s.contains(x),
    decreases s.len(),
{
    if s.len() > 0 {
        let d = s.drop_last();
        assert(sorted_strict(d)) by {
            assert(forall|i: int, j: int| 0 <= i < j < d.len() ==> d[i] == s[i] && d[j] == s[j]);
        }
        lemma_roles_with_action_sorted(d, a);
        let init = roles_with_action(d, a);
        assert forall|x: RoleView| d.contains(x) implies s.contains(x) by {
            let k = choose|k: int| 0 <= k < d.len() && d[k] == x;
            assert(s[k] == x);
        }
        let res = roles_with_action(s, a);
        if s.last().action == a {
            assert(res == init.push(s.last()));
            assert forall|i: int, j: int| 0 <= i < j < res.len() implies role_lt(res[i], res[j]) by {
                if j < res.len() - 1 {
                    assert(res[i] == init[i] && res[j] == init[j]);
                } else {
                    assert(res[i] == init[i]);
                    assert(init.contains(init[i]));
                    assert(d.contains(init[i]));
                    let k = choose|k: int| 0 <= k < d.len() && d[k] == init[i];
                    assert(s[k] == init[i]);
                    assert(role_lt(s[k], s[s.len() - 1]));
                    assert(res[j] == s.last());
                }
            }
            assert forall|x: RoleView| #[trigger] res.contains(x) implies s.contains(x) by {
                let k = choose|k: int| 0 <= k < res.len() && res[k] == x;
                if k < res.len() - 1 {
                    assert(init.contains(x));
                } else {
                    assert(x == s.last());
                    assert(s[s.len() - 1] == x);
                }
            }
        } else {
            assert(res == init);
        }
    }
}

/// Maps a collection of `ApiRole`s to a group.  `machine_name` is the name
/// of the role-map; keep it short, as it is meant to travel inside issued
/// tokens.  The roles form an ordered set: ascending, with no duplicate.
pub struct RoleMap {
    pub machine_name: String,
    pub group: String,
    api_roles: Vec<ApiRole>,
}

impl Default for RoleMap {
    /// An unnamed, empty role map.
    fn default() -> (r: RoleMap)
        ensures
            r.wf(),
            r.roles_view() == Seq::<RoleView>::empty(),
            r.machine_name_view() == Seq::<char>::empty(),
            r.group_view() == Seq::<char>::empty(),
    {
        let r = RoleMap { machine_name: String::new(), group: String::new(), api_roles: Vec::new() };
        proof {
            assert(r.roles_view() =~= Seq::<RoleView>::empty());
        }
        r
    }
}

impl RoleMap {
    /// The roles as a sequence of role values, in storage order.
    pub closed spec fn roles_view(&self) -> Seq<RoleView> {
        self.api_roles.deep_view()
    }

    /// The stored sequence is strictly ascending: an ordered set.
    pub open spec fn wf(&self) -> bool {
        sorted_strict(self.roles_view())
    }

    /// The map's stable identifier, as characters.
    pub closed spec fn machine_name_view(&self) -> Seq<char> {
        self.machine_name@
    }

    /// The granting group's name, as characters.
    pub closed spec fn group_view(&self) -> Seq<char> {
        self.group@
    }

    /// A new, empty role map for `group`, named `machine_name`.
    pub fn new(machine_name: String, group: String) -> (r: RoleMap)
        ensures
            r.wf(),
            r.roles_view() == Seq::<RoleView>::empty(),
            r.machine_name_view() == machine_name@,
            r.group_view() == group@,
    {
        let r = RoleMap { machine_name, group, api_roles: Vec::new() };
        proof {
            assert(r.roles_view() =~= Seq::<RoleView>::empty());
        }
        r
    }

    /// Add an `ApiRole`, keeping the set ascending; adding a role that is
    /// already present leaves the set unchanged.
    pub fn add_api_role(&mut self, api_role: ApiRole)
        requires
            old(self).wf(),
        ensures
            final(self).wf(),
            final(self).roles_view() == insert_role(old(self).roles_view(), api_role@),
            final(self).machine_name_view() == old(self).machine_name_view(),
            final(self).group_view() == old(self).group_view(),
    {
        let ghost s = self.api_roles.deep_view();
        let ghost rv = api_role@;
        let k = lower_pos(&self.api_roles, &api_role);
        let present: bool = if k < self.api_roles.len() {
            proof {
                assert(self.api_roles.deep_view()[k as int] == self.api_roles@[k as int]@);
            }
            role_eq_exec(&self.api_roles[k], &api_role)
        } else {
            false
        };
        proof {
            lemma_insert_role_at(s, rv, k as int);
        }
        if present {
        } else {
            self.api_roles.insert(k, api_role);
            proof {
                let t = s.subrange(0, k as int) + seq![rv] + s.subrange(k as int, s.len() as int);
                assert(self.api_roles.deep_view() =~= t);
                if k < s.len() {
                    lemma_role_lt_trichotomy(s[k as int], rv);
                }
                assert forall|i: int, j: int| 0 <= i < j < t.len() implies role_lt(t[i], t[j]) by {
                    if i < k && j < k {
                    } else if i < k && j == k {
                    } else if i < k && j > k {
                    } else if i == k && j > k {
                        if j - 1 > k {
                            lemma_role_lt_transitive(rv, s[k as int], s[j - 1]);
                        }
                    }
                }
            }
        }
    }

    /// All roles, ascending; a read-only view of the internal set.
    pub fn all_roles(&self) -> (r: &Vec<ApiRole>)
        ensures
            r.deep_view() == self.roles_view(),
    {
        &self.api_roles
    }

    /// The roles whose action equals `action` exactly, in the set's
    /// ascending order; no match yields an empty vector, never an error.
    pub fn find_roles(&self, action: &str) -> (r: Vec<ApiRole>)
        ensures
            r.deep_view() == roles_with_action(self.roles_view(), action@),
    {
        let mut out: Vec<ApiRole> = Vec::new();
        let n = self.api_roles.len();
        let mut k: usize = 0;
        proof {
            assert(out.deep_view() =~= roles_with_action(
                self.api_roles.deep_view().subrange(0, 0),
                action@,
            ));
        }
        while k < n
            invariant
                n == self.api_roles@.len(),
                k <= n,
                out.deep_view() == roles_with_action(
                    self.api_roles.deep_view().subrange(0, k as int),
                    action@,
                ),
            decreases n - k,
        {
            let ghost prefix = self.api_roles.deep_view().subrange(0, k as int);
            let ghost prev = out.deep_view();
            proof {
                assert(self.api_roles.deep_view()[k as int] == self.api_roles@[k as int]@);
            }
            if str_eq(self.api_roles[k].action.as_str(), action) {
                out.push(self.api_roles[k].clone());
            }
            proof {
                let dv = self.api_roles.deep_view();
                assert(dv.subrange(0, k + 1).drop_last() =~= prefix);
                assert(dv.subrange(0, k + 1).last() == dv[k as int]);
                if dv[k as int].action == action@ {
                    assert(out.deep_view() =~= prev.push(dv[k as int]));
                }
                assert(out.deep_view() =~= roles_with_action(dv.subrange(0, k + 1), action@));
            }
            k = k + 1;
        }
        proof {
            assert(self.api_roles.deep_view().subrange(0, n as int) =~= self.api_roles.deep_view());
        }
        out
    }
}

} // verus!
