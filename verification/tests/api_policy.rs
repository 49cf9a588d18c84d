use claims_auth::api_policy::{ApiClaims, ApiRole};

#[test]
fn test_api_role_to_string() {
    let r0 = "list:users".to_owned();
    let r1 = "fetch:users/3".to_owned();
    let r2 = "list:organizers/2/events".to_owned();
    let r3 = "fetch:organizers/2/events/3".to_owned();

    let ar0 = ApiRole { action: "list".to_owned(), path: "users".to_owned() };
    assert_eq!(r0, ar0.to_role_string());

    let ar1 = ApiRole { action: "fetch".to_owned(), path: "users/3".to_owned() };
    assert_eq!(r1, ar1.to_role_string());

    let ar2 = ApiRole { action: "list".to_owned(), path: "organizers/2/events".to_owned() };
    assert_eq!(r2, ar2.to_role_string());

    let ar3 = ApiRole { action: "fetch".to_owned(), path: "organizers/2/events/3".to_owned() };
    assert_eq!(r3, ar3.to_role_string());
}

#[test]
fn test_api_role_from_str() {
    let r0 = "list:users";
    let r1 = "fetch:users/3";
    let r2 = "list:organizers/2/events";
    let r3 = "fetch:organizers/2/events/3";

    let ar0 = ApiRole { action: "list".to_owned(), path: "users".to_owned() };
    assert_eq!(ar0, ApiRole::from_str(r0).unwrap());

    let ar1 = ApiRole { action: "fetch".to_owned(), path: "users/3".to_owned() };
    assert_eq!(ar1, ApiRole::from_str(r1).unwrap());

    let ar2 = ApiRole { action: "list".to_owned(), path: "organizers/2/events".to_owned() };
    assert_eq!(ar2, ApiRole::from_str(r2).unwrap());

    let ar3 = ApiRole { action: "fetch".to_owned(), path: "organizers/2/events/3".to_owned() };
    assert_eq!(ar3, ApiRole::from_str(r3).unwrap());

    let no_action = "organizers/2/events";
    let err = ApiRole::from_str(no_action);
    assert!(err.is_err());
    assert_eq!(
        "Invalid action component:organizers/2/events.".to_owned(),
        err.unwrap_err().message()
    );
}

#[test]
fn test_is_authorized() {
    let r0 = "list:users".to_owned();
    let r1 = "fetch:users/3".to_owned();
    let r2 = "list:organizers/2/events".to_owned();
    let r3 = "fetch:organizers/2/events/3".to_owned();

    let c0 = ApiClaims {
        sub: "user@domain.com".to_owned(),
        roles: vec![r0.clone(), r1.clone(), r2.clone(), r3.clone()],
        audiences: vec!["organizers/2".to_owned()],
        exp: 1000,
    };

    let auth = ApiClaims::is_authorized(&c0, &r0);
    assert!(!auth.roles.is_empty());

    let auth = ApiClaims::is_authorized(&c0, &r1);
    assert!(!auth.roles.is_empty());

    // user lacks global permission
    let c1 = ApiClaims {
        sub: "user@domain.com".to_owned(),
        roles: vec![r2.clone(), r3],
        audiences: vec!["organizers/2".to_owned()],
        exp: 1000,
    };

    // access denied
    let auth = ApiClaims::is_authorized(&c1, &r0);
    assert!(auth.roles.is_empty());

    // access denied
    let auth = ApiClaims::is_authorized(&c1, &r1);
    assert!(auth.roles.is_empty());

    // a role that exactly matches the resource key is granted directly,
    // with no audience substitution needed
    let auth = ApiClaims::is_authorized(&c1, &r2);
    assert!(!auth.roles.is_empty());

    // user can list events of organizer 2: it has the audience and the role
    let r4 = "list:events";
    let auth = ApiClaims::is_authorized(&c1, r4);
    assert!(!auth.audiences.is_empty());
    assert!(!auth.roles.is_empty());

    // access denied: user can't fetch events
    let r5 = "fetch:events";
    let auth = ApiClaims::is_authorized(&c1, r5);
    assert!(auth.roles.is_empty());

    // user can fetch events/3
    let r6 = "fetch:events/3";
    let auth = ApiClaims::is_authorized(&c1, r6);
    assert!(!auth.audiences.is_empty());
    assert!(!auth.roles.is_empty());
    assert_eq!("organizers/2", auth.audiences.first().unwrap());
    assert_eq!("fetch:organizers/2/events/3", auth.roles.first().unwrap());
}

#[test]
fn role_round_trip_scenarios() {
    let keys = vec!["list:users", "fetch:users/3", "list:organizers/2/events", "list:", ":users"];
    for key in keys {
        let role = ApiRole::from_str(key).unwrap();
        assert_eq!(key, role.to_role_string());
    }
}

#[test]
fn parse_rejects_slash_in_action() {
    let err = ApiRole::from_str("a/b:c");
    assert!(err.is_err());
    assert_eq!("Invalid action component:a/b.".to_owned(), err.unwrap_err().message());
}

#[test]
fn parse_rejects_missing_colon() {
    let err = ApiRole::from_str("listusers");
    assert!(err.is_err());
    assert_eq!("Missing path component.".to_owned(), err.unwrap_err().message());
}

#[test]
fn global_grant_lists_exactly_the_key() {
    let claims = ApiClaims {
        sub: "s".to_owned(),
        roles: vec!["list:users".to_owned()],
        audiences: vec![],
        exp: 0,
    };
    let auth = claims.is_authorized("list:users");
    assert_eq!(vec!["list:users".to_owned()], auth.roles);
    assert!(auth.audiences.is_empty());
}

#[test]
fn global_deny_on_differing_role() {
    let claims = ApiClaims {
        sub: "s".to_owned(),
        roles: vec!["fetch:users/3".to_owned()],
        audiences: vec![],
        exp: 0,
    };
    let auth = claims.is_authorized("list:users");
    assert!(auth.roles.is_empty());
}

#[test]
fn audience_substitution_grant() {
    let claims = ApiClaims {
        sub: "s".to_owned(),
        roles: vec!["list:organizers/2/events".to_owned()],
        audiences: vec!["organizers/2".to_owned()],
        exp: 0,
    };
    let auth = claims.is_authorized("list:events");
    assert_eq!(vec!["list:organizers/2/events".to_owned()], auth.roles);
    assert_eq!(vec!["organizers/2".to_owned()], auth.audiences);
}

#[test]
fn audience_substitution_deny_differing_action() {
    let claims = ApiClaims {
        sub: "s".to_owned(),
        roles: vec!["list:organizers/2/events".to_owned()],
        audiences: vec!["organizers/2".to_owned()],
        exp: 0,
    };
    let auth = claims.is_authorized("fetch:events");
    assert!(auth.roles.is_empty());
    // the audience was still consulted, and is still recorded
    assert_eq!(vec!["organizers/2".to_owned()], auth.audiences);
}

#[test]
fn malformed_key_fails_closed() {
    let claims = ApiClaims {
        sub: "s".to_owned(),
        roles: vec!["list:users".to_owned()],
        audiences: vec!["organizers/2".to_owned()],
        exp: 0,
    };
    let auth = claims.is_authorized("not a valid key");
    assert!(auth.roles.is_empty());
    assert!(auth.audiences.is_empty());
}

#[test]
fn malformed_claimed_role_is_skipped() {
    let claims = ApiClaims {
        sub: "s".to_owned(),
        roles: vec!["no-colon-here".to_owned(), "list:users".to_owned()],
        audiences: vec![],
        exp: 0,
    };
    let auth = claims.is_authorized("list:users");
    assert_eq!(vec!["list:users".to_owned()], auth.roles);
}

#[test]
fn empty_path_substitutes_audience_alone() {
    let claims = ApiClaims {
        sub: "s".to_owned(),
        roles: vec!["list:organizers/2".to_owned()],
        audiences: vec!["organizers/2".to_owned()],
        exp: 0,
    };
    let auth = claims.is_authorized("list:");
    assert_eq!(vec!["list:organizers/2".to_owned()], auth.roles);
}

#[test]
fn global_match_comes_before_audience_matches() {
    let claims = ApiClaims {
        sub: "s".to_owned(),
        roles: vec!["list:events".to_owned(), "list:organizers/2/events".to_owned()],
        audiences: vec!["organizers/2".to_owned()],
        exp: 0,
    };
    let auth = claims.is_authorized("list:events");
    assert_eq!(
        vec!["list:events".to_owned(), "list:organizers/2/events".to_owned()],
        auth.roles
    );
}

#[test]
fn duplicate_grants_are_not_deduplicated() {
    let claims = ApiClaims {
        sub: "s".to_owned(),
        roles: vec!["list:".to_owned()],
        audiences: vec!["".to_owned()],
        exp: 0,
    };
    // the empty audience substituted into the empty path gives the
    // direct match a second time; both are listed
    let auth = claims.is_authorized("list:");
    assert_eq!(vec!["list:".to_owned(), "list:".to_owned()], auth.roles);
}

#[test]
fn audience_matches_follow_claim_order() {
    let claims = ApiClaims {
        sub: "s".to_owned(),
        roles: vec![
            "list:venues/9/events".to_owned(),
            "list:organizers/2/events".to_owned(),
        ],
        audiences: vec!["organizers/2".to_owned(), "venues/9".to_owned()],
        exp: 0,
    };
    let auth = claims.is_authorized("list:events");
    assert_eq!(
        vec!["list:organizers/2/events".to_owned(), "list:venues/9/events".to_owned()],
        auth.roles
    );
    assert_eq!(vec!["organizers/2".to_owned(), "venues/9".to_owned()], auth.audiences);
}

#[test]
fn role_default_is_empty() {
    let role = ApiRole::default();
    assert_eq!("", role.action);
    assert_eq!("", role.path);
    assert_eq!(":", role.to_role_string());
}
