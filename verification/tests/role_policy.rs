use claims_auth::api_policy::ApiRole;
use claims_auth::role_policy::RoleMap;

fn role(action: &str, path: &str) -> ApiRole {
    ApiRole { action: action.to_owned(), path: path.to_owned() }
}

#[test]
fn new_map_is_empty() {
    let m = RoleMap::new("events_manager".to_owned(), "organizers".to_owned());
    assert_eq!("events_manager", m.machine_name);
    assert_eq!("organizers", m.group);
    assert!(m.all_roles().is_empty());
}

#[test]
fn find_roles_filters_by_action_in_ascending_order() {
    let mut m = RoleMap::new("events_manager".to_owned(), "organizers".to_owned());
    m.add_api_role(role("list", "events"));
    m.add_api_role(role("fetch", "events/3"));
    m.add_api_role(role("list", "attendees"));

    let found = m.find_roles("list");
    assert_eq!(2, found.len());
    assert_eq!(role("list", "attendees"), found[0]);
    assert_eq!(role("list", "events"), found[1]);

    assert!(m.find_roles("delete").is_empty());
    assert!(m.find_roles("").is_empty());
}

#[test]
fn insertion_is_idempotent() {
    let mut m = RoleMap::new("events_manager".to_owned(), "organizers".to_owned());
    m.add_api_role(role("list", "events"));
    m.add_api_role(role("fetch", "events/3"));
    let before = m.all_roles().clone();

    m.add_api_role(role("list", "events"));
    assert_eq!(before.len(), m.all_roles().len());
    assert_eq!(&before, m.all_roles());
}

#[test]
fn all_roles_are_kept_ascending() {
    let mut m = RoleMap::new("events_manager".to_owned(), "organizers".to_owned());
    m.add_api_role(role("list", "events"));
    m.add_api_role(role("delete", "events/3"));
    m.add_api_role(role("create", "events"));
    m.add_api_role(role("list", "attendees"));

    let all = m.all_roles();
    assert_eq!(4, all.len());
    assert_eq!(role("create", "events"), all[0]);
    assert_eq!(role("delete", "events/3"), all[1]);
    assert_eq!(role("list", "attendees"), all[2]);
    assert_eq!(role("list", "events"), all[3]);
}

#[test]
fn map_default_is_empty() {
    let m = RoleMap::default();
    assert_eq!("", m.machine_name);
    assert_eq!("", m.group);
    assert!(m.all_roles().is_empty());
}
