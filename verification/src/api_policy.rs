//! The role grammar (`action:path`) and the authorization decision engine.
//!
//! A role key splits at its first ':' into an action (which must not hold a
//! '/') and a path.  `ApiClaims::is_authorized` matches a requested key
//! against the claims' granted role strings, directly and once per audience
//! with the audience substituted into the path; malformed input never grants.

pub mod ops;

use vstd::prelude::*;
use vstd::string::StrSliceExecFns;
use vstd::string::StringExecFns;

use crate::text::{
    contains_char, first_occurrence, first_index, lemma_first_occurrence_unique,
    lemma_first_index, find_char, contains_before, str_eq,
};

verus! {

/// The mathematical value of a role: an action and a path, as character
/// sequences.
#[verifier::ext_equal]
pub ghost struct RoleView {
    pub action: Seq<char>,
    pub path: Seq<char>,
}

/// Everything before the first ':' of `s`; the whole of `s` when it has none.
pub open spec fn pre_colon(s: Seq<char>) -> Seq<char> {
    if contains_char(s, ':') {
        s.subrange(0, first_index(s, ':'))
    } else {
        s
    }
}

/// Everything after the first ':' of `s`; meaningful only when `s` has one.
pub open spec fn post_colon(s: Seq<char>) -> Seq<char> {
    s.subrange(first_index(s, ':') + 1, s.len() as int)
}

/// `s` is a well-formed role key: it has a ':', and no '/' stands before the
/// first ':'.
pub open spec fn parse_ok(s: Seq<char>) -> bool {
    contains_char(s, ':') && !contains_char(pre_colon(s), '/')
}

/// The role a well-formed key denotes.
pub open spec fn parsed_role(s: Seq<char>) -> RoleView {
    RoleView { action: pre_colon(s), path: post_colon(s) }
}

/// The canonical string form of a role: action, ':', path.
pub open spec fn format_role(r: RoleView) -> Seq<char> {
    r.action + seq![':'] + r.path
}

/// A syntactically valid role: its action holds neither ':' nor '/'.  Every
/// role produced by parsing satisfies this.
pub open spec fn role_wf(r: RoleView) -> bool {
    !contains_char(r.action, ':') && !contains_char(r.action, '/')
}

/// Law: formatting a syntactically valid role and parsing the result gives
/// the role back unchanged.
pub proof fn lemma_role_round_trip(r: RoleView)
    requires
        role_wf(r),
    ensures
        parse_ok(format_role(r)),
        parsed_role(format_role(r)) == r,
{
    let s = format_role(r);
    let k = r.action.len() as int;
    assert(s.len() == r.action.len() + 1 + r.path.len());
    assert(s[k] == ':');
    assert forall|j: int| 0 <= j < k implies s[j] != ':' by {
        assert(s[j] == r.action[j]);
        if s[j] == ':' {
            assert(contains_char(r.action, ':'));
        }
    }
    assert(first_occurrence(s, ':', k));
    assert(contains_char(s, ':'));
    assert(first_occurrence(s, ':', first_index(s, ':')));
    lemma_first_occurrence_unique(s, ':', k, first_index(s, ':'));
    assert(pre_colon(s) =~= r.action);
    assert(post_colon(s) =~= r.path) by {
        assert forall|j: int| 0 <= j < r.path.len() implies s[k + 1 + j] == r.path[j] by {}
    }
    assert(parsed_role(s) =~= r);
}

/// Law: a well-formed key is exactly the canonical form of the role it
/// denotes, and that role is syntactically valid.
pub proof fn lemma_format_parsed(s: Seq<char>)
    requires
        parse_ok(s),
    ensures
        format_role(parsed_role(s)) == s,
        role_wf(parsed_role(s)),
{
    lemma_first_index(s, ':');
    let k = first_index(s, ':');
    assert(format_role(parsed_role(s)) =~= s);
    assert(!contains_char(pre_colon(s), ':')) by {
        if contains_char(pre_colon(s), ':') {
            let w = choose|i: int|
                0 <= i < pre_colon(s).len() && pre_colon(s)[i] == ':';
            assert(s[w] == ':');
        }
    }
}

/// An action on an api path; works as an allow-list entry.
#[derive(Debug)]
pub struct ApiRole {
    pub action: String,
    pub path: String,
}

impl View for ApiRole {
    type V = RoleView;

    open spec fn view(&self) -> RoleView {
        RoleView { action: self.action@, path: self.path@ }
    }
}

impl DeepView for ApiRole {
    type V = RoleView;

    open spec fn deep_view(&self) -> RoleView {
        self@
    }
}

impl Clone for ApiRole {
    fn clone(&self) -> (r: ApiRole)
        ensures
            r == *self,
    {
        ApiRole { action: self.action.clone(), path: self.path.clone() }
    }
}

impl PartialEq for ApiRole {
    fn eq(&self, other: &ApiRole) -> (r: bool) {
        str_eq(self.action.as_str(), other.action.as_str()) && str_eq(
            self.path.as_str(),
            other.path.as_str(),
        )
    }
}

impl vstd::std_specs::cmp::PartialEqSpecImpl for ApiRole {
    open spec fn obeys_eq_spec() -> bool {
        true
    }

    open spec fn eq_spec(&self, other: &ApiRole) -> bool {
        self.action@ == other.action@ && self.path@ == other.path@
    }
}

impl Default for ApiRole {
    /// The empty role: empty action, empty path.
    fn default() -> (r: ApiRole)
        ensures
            r@.action == Seq::<char>::empty(),
            r@.path == Seq::<char>::empty(),
    {
        ApiRole { action: String::new(), path: String::new() }
    }
}

/// Why a string failed to parse as a role key.
#[derive(Debug)]
pub enum RoleError {
    /// The segment before the first ':' (or the whole string, when it has no
    /// ':') holds a '/'.
    InvalidAction { action: String },
    /// No ':' separates an action from a path.
    MissingPath,
}

impl RoleError {
    /// What the message of this error says.
    pub open spec fn message_view(&self) -> Seq<char> {
        match self {
            RoleError::InvalidAction { action } => "Invalid action component:"@ + action@ + "."@,
            RoleError::MissingPath => "Missing path component."@,
        }
    }

    /// The human-readable description of the failure.
    pub fn message(&self) -> (r: String)
        ensures
            r@ == self.message_view(),
    {
        match self {
            RoleError::InvalidAction { action } => {
                let mut m = String::from_str("Invalid action component:");
                m.append(action.as_str());
                m.append(".");
                m
            },
            RoleError::MissingPath => String::from_str("Missing path component."),
        }
    }
}

impl ApiRole {
    /// Split `s` at its first ':' into an action and a path.  Fails when the
    /// pre-colon segment holds a '/', or when `s` has no ':' at all.
    pub fn from_str(s: &str) -> (r: Result<ApiRole, RoleError>)
        ensures
            ({
                let pre = pre_colon(s@);
                if contains_char(pre, '/') {
                    r matches Err(RoleError::InvalidAction { action }) && action@ == pre
                } else if !contains_char(s@, ':') {
                    r matches Err(RoleError::MissingPath)
                } else {
                    r matches Ok(role) && role@ == parsed_role(s@)
                }
            }),
    {
        let n = s.unicode_len();
        match find_char(s, ':') {
            Some(ci) => {
                proof {
                    assert(first_occurrence(s@, ':', first_index(s@, ':')));
                    lemma_first_occurrence_unique(s@, ':', ci as int, first_index(s@, ':'));
                    assert(pre_colon(s@) == s@.subrange(0, ci as int));
                }
                if contains_before(s, ci, '/') {
                    let action = String::from_str(s.substring_char(0, ci));
                    Err(RoleError::InvalidAction { action })
                } else {
                    let action = String::from_str(s.substring_char(0, ci));
                    let path = String::from_str(s.substring_char(ci + 1, n));
                    proof {
                        assert(parsed_role(s@) =~= RoleView {
                            action: s@.subrange(0, ci as int),
                            path: s@.subrange(ci as int + 1, s@.len() as int),
                        });
                    }
                    Ok(ApiRole { action, path })
                }
            },
            None => {
                proof {
                    assert(pre_colon(s@) == s@);
                    assert(s@.subrange(0, n as int) =~= s@);
                }
                if contains_before(s, n, '/') {
                    Err(RoleError::InvalidAction { action: String::from_str(s) })
                } else {
                    Err(RoleError::MissingPath)
                }
            },
        }
    }

    /// The canonical `action:path` form of this role.
    pub fn to_role_string(&self) -> (r: String)
        ensures
            r@ == format_role(self@),
    {
        let mut r = self.action.clone();
        r.append(":");
        r.append(self.path.as_str());
        proof {
            reveal_strlit(":");
            assert(r@ =~= format_role(self@));
        }
        r
    }
}

/// The outcome of one authorization check: the audiences consulted and the
/// role strings that granted access.
pub struct List {
    pub audiences: Vec<String>,
    pub roles: Vec<String>,
}

impl Default for List {
    /// The empty decision: nothing consulted, nothing granted.
    fn default() -> (r: List)
        ensures
            r.audiences@.len() == 0,
            r.roles@.len() == 0,
    {
        List { audiences: Vec::new(), roles: Vec::new() }
    }
}

/// The decoded payload of an api token: subject, granted role strings,
/// granted audiences, and expiry (epoch seconds; not checked here).
pub struct ApiClaims {
    pub sub: String,
    pub roles: Vec<String>,
    pub audiences: Vec<String>,
    pub exp: u64,
}

impl Default for ApiClaims {
    /// Empty claims: no subject, no roles, no audiences, expiry zero.
    fn default() -> (r: ApiClaims)
        ensures
            r.sub@ == Seq::<char>::empty(),
            r.roles@.len() == 0,
            r.audiences@.len() == 0,
            r.exp == 0,
    {
        ApiClaims { sub: String::new(), roles: Vec::new(), audiences: Vec::new(), exp: 0 }
    }
}

/// The claimed role string `claimed` parses and denotes exactly
/// `(action, path)`.
pub open spec fn claimed_matches(claimed: Seq<char>, action: Seq<char>, path: Seq<char>) -> bool {
    parse_ok(claimed) && parsed_role(claimed).action == action && parsed_role(claimed).path == path
}

/// Some entry of `roles` grants `(action, path)`; malformed entries never do.
pub open spec fn grants(roles: Seq<Seq<char>>, action: Seq<char>, path: Seq<char>) -> bool {
    exists|i: int| 0 <= i < roles.len() && claimed_matches(roles[i], action, path)
}

/// The path a claimed role must hold for `(action, path)` to be granted
/// under audience `aud`.
pub open spec fn audience_path(aud: Seq<char>, path: Seq<char>) -> Seq<char> {
    if path.len() == 0 {
        aud
    } else {
        aud + seq!['/'] + path
    }
}

/// The granted role strings accumulated over `auds`, in audience order.
pub open spec fn audience_grants(
    roles: Seq<Seq<char>>,
    action: Seq<char>,
    path: Seq<char>,
    auds: Seq<Seq<char>>,
) -> Seq<Seq<char>>
    decreases auds.len(),
{
    if auds.len() == 0 {
        Seq::empty()
    } else {
        let init = audience_grants(roles, action, path, auds.drop_last());
        let cand = audience_path(auds.last(), path);
        if grants(roles, action, cand) {
            init.push(format_role(RoleView { action, path: cand }))
        } else {
            init
        }
    }
}

/// Every granted role string of one check: the direct match first when it
/// exists, then the audience-substituted matches in audience order.
pub open spec fn decision_roles(
    roles: Seq<Seq<char>>,
    action: Seq<char>,
    path: Seq<char>,
    auds: Seq<Seq<char>>,
) -> Seq<Seq<char>> {
    (if grants(roles, action, path) {
        seq![format_role(RoleView { action, path })]
    } else {
        Seq::<Seq<char>>::empty()
    }) + audience_grants(roles, action, path, auds)
}

impl ApiClaims {
    /// Some claimed role string grants exactly `(action, path)`; an entry
    /// that does not parse is skipped, never an error.
    fn roles_match(&self, action: &str, path: &str) -> (r: bool)
        ensures
            r == grants(self.roles.deep_view(), action@, path@),
    {
        let n = self.roles.len();
        let mut k: usize = 0;
        while k < n
            invariant
                n == self.roles@.len(),
                k <= n,
                forall|i: int|
                    0 <= i < k ==> !claimed_matches(self.roles.deep_view()[i], action@, path@),
            decreases n - k,
        {
            proof {
                assert(self.roles.deep_view()[k as int] == self.roles@[k as int]@);
            }
            match ApiRole::from_str(self.roles[k].as_str()) {
                Ok(role) => {
                    if str_eq(role.action.as_str(), action) && str_eq(role.path.as_str(), path) {
                        proof {
                            assert(claimed_matches(self.roles.deep_view()[k as int], action@, path@));
                        }
                        return true;
                    }
                },
                Err(_) => {},
            }
            k = k + 1;
        }
        false
    }

    /// Decide which claimed roles permit `resource_key`.
    ///
    /// A key that does not parse yields an entirely empty decision: malformed
    /// input is never authorized.  Otherwise every audience of the claims is
    /// recorded as consulted, whether or not it granted anything, and the
    /// granted role strings are the direct match (first, when present)
    /// followed by one audience-substituted match per granting audience, in
    /// audience order.
    pub fn is_authorized(&self, resource_key: &str) -> (res: List)
        ensures
            !parse_ok(resource_key@) ==> res.audiences@.len() == 0 && res.roles@.len() == 0,
            parse_ok(resource_key@) ==> ({
                let req = parsed_role(resource_key@);
                &&& res.audiences.deep_view() == self.audiences.deep_view()
                &&& res.roles.deep_view() == decision_roles(
                    self.roles.deep_view(),
                    req.action,
                    req.path,
                    self.audiences.deep_view(),
                )
            }),
    {
        let mut res = List { audiences: Vec::new(), roles: Vec::new() };
        let req = match ApiRole::from_str(resource_key) {
            Ok(role) => role,
            Err(_) => {
                return res;
            },
        };
        if self.roles_match(req.action.as_str(), req.path.as_str()) {
            let key = String::from_str(resource_key);
            res.roles.push(key);
            proof {
                lemma_format_parsed(resource_key@);
            }
        }
        proof {
            assert(res.roles.deep_view() =~= decision_roles(
                self.roles.deep_view(),
                req@.action,
                req@.path,
                self.audiences.deep_view().subrange(0, 0),
            ));
            assert(res.audiences.deep_view() =~= self.audiences.deep_view().subrange(0, 0));
        }
        let n = self.audiences.len();
        let mut k: usize = 0;
        while k < n
            invariant
                n == self.audiences@.len(),
                k <= n,
                parse_ok(resource_key@),
                req@ == parsed_role(resource_key@),
                res.audiences.deep_view() == self.audiences.deep_view().subrange(0, k as int),
                res.roles.deep_view() == decision_roles(
                    self.roles.deep_view(),
                    req@.action,
                    req@.path,
                    self.audiences.deep_view().subrange(0, k as int),
                ),
            decreases n - k,
        {
            let ghost prev_auds = self.audiences.deep_view().subrange(0, k as int);
            let ghost prev_roles = res.roles.deep_view();
            let aud = &self.audiences[k];
            proof {
                assert(self.audiences.deep_view()[k as int] == self.audiences@[k as int]@);
            }
            res.audiences.push(aud.clone());
            // The candidate key `action:aud/path` (or `action:aud` for an
            // empty path) always parses back to exactly that action and
            // path: the action of a parsed key holds neither ':' nor '/'.
            let cand_path: String = if req.path.as_str().is_empty() {
                aud.clone()
            } else {
                let mut t = aud.clone();
                t.append("/");
                t.append(req.path.as_str());
                t
            };
            proof {
                reveal_strlit("/");
                assert(cand_path@ =~= audience_path(self.audiences.deep_view()[k as int], req@.path));
            }
            if self.roles_match(req.action.as_str(), cand_path.as_str()) {
                let mut full = req.action.clone();
                full.append(":");
                full.append(cand_path.as_str());
                proof {
                    reveal_strlit(":");
                    assert(full@ =~= format_role(
                        RoleView {
                            action: req@.action,
                            path: audience_path(self.audiences.deep_view()[k as int], req@.path),
                        },
                    ));
                }
                res.roles.push(full);
            }
            proof {
                let auds = self.audiences.deep_view();
                assert(auds.subrange(0, k + 1).drop_last() =~= prev_auds);
                assert(auds.subrange(0, k + 1).last() == auds[k as int]);
                assert(res.audiences.deep_view() =~= auds.subrange(0, k + 1));
                let cand = audience_path(auds[k as int], req@.path);
                if grants(self.roles.deep_view(), req@.action, cand) {
                    assert(res.roles.deep_view() =~= prev_roles.push(
                        format_role(RoleView { action: req@.action, path: cand }),
                    ));
                    assert(res.roles.deep_view() =~= decision_roles(
                        self.roles.deep_view(),
                        req@.action,
                        req@.path,
                        auds.subrange(0, k + 1),
                    ));
                } else {
                    assert(res.roles.deep_view() =~= decision_roles(
                        self.roles.deep_view(),
                        req@.action,
                        req@.path,
                        auds.subrange(0, k + 1),
                    ));
                }
            }
            k = k + 1;
        }
        proof {
            assert(self.audiences.deep_view().subrange(0, n as int) =~= self.audiences.deep_view());
        }
        res
    }
}

} // verus!
