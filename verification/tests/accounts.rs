use pds_client::accounts::{account_options, dropdown_class, initial_selection, session_dids, sorted_dids, Direction};
use pds_client::identifiers::UserDid;
use pds_client::pds_store::PdsStore;

fn dids(xs: &[&str]) -> Vec<UserDid> {
    xs.iter().map(|x| UserDid(x.to_string())).collect()
}

fn texts(v: &[UserDid]) -> Vec<&str> {
    v.iter().map(|d| d.as_str()).collect()
}

#[test]
fn session_keys_that_are_not_dids_are_passed_over() {
    let keys = vec!["did:plc:b".to_string(), "junk".to_string(), "did:plc:a".to_string(), "".to_string()];
    assert_eq!(session_dids(&keys), vec!["did:plc:b".to_string(), "did:plc:a".to_string()]);
}

#[test]
fn dids_are_sorted_without_repeats() {
    let v = dids(&["did:plc:c", "did:plc:a", "did:plc:c", "did:plc:b"]);
    assert_eq!(texts(&sorted_dids(&v)), vec!["did:plc:a", "did:plc:b", "did:plc:c"]);
}

#[test]
fn options_are_all_sessions_when_unrestricted() {
    let sessions = dids(&["did:plc:z", "did:plc:m", "did:plc:a"]);
    assert_eq!(texts(&account_options(&sessions, None)), vec!["did:plc:a", "did:plc:m", "did:plc:z"]);
}

#[test]
fn options_are_narrowed_to_the_allowed() {
    let sessions = dids(&["did:plc:z", "did:plc:m", "did:plc:a"]);
    let allowed = dids(&["did:plc:m", "did:plc:q", "did:plc:z", "did:plc:m"]);
    assert_eq!(texts(&account_options(&sessions, Some(&allowed))), vec!["did:plc:m", "did:plc:z"]);
    assert!(account_options(&Vec::new(), Some(&allowed)).is_empty());
}

#[test]
fn first_option_is_selected_by_default() {
    let options = dids(&["did:plc:a", "did:plc:b"]);
    assert_eq!(initial_selection(None, &options).map(|d| d.0), Some("did:plc:a".to_string()));
    assert_eq!(initial_selection(Some(UserDid("did:plc:b".to_string())), &options).map(|d| d.0), Some("did:plc:b".to_string()));
    assert!(initial_selection(None, &Vec::new()).is_none());
}

#[test]
fn pds_store_saves_and_reads_passwords() {
    let mut store = PdsStore::new();
    store.add_domain("pds.b.test");
    store.add_domain("pds.a.test");
    assert_eq!(store.password_of("pds.a.test"), "");
    store.save_password("pds.a.test", "hunter2");
    assert_eq!(store.password_of("pds.a.test"), "hunter2");
    store.add_domain("pds.a.test");
    assert_eq!(store.password_of("pds.a.test"), "hunter2");
    assert_eq!(store.domains(), vec!["pds.a.test".to_string(), "pds.b.test".to_string()]);
    assert_eq!(store.password_of("pds.unknown.test"), "");
}

#[test]
fn pds_store_removes_domains() {
    let mut store = PdsStore::new();
    store.save_password("c.test", "3");
    store.save_password("a.test", "1");
    store.save_password("b.test", "2");
    store.remove("b.test");
    store.remove("zzz.test");
    assert_eq!(store.domains(), vec!["a.test".to_string(), "c.test".to_string()]);
    assert_eq!(store.password_of("b.test"), "");
    assert_eq!(store.password_of("c.test"), "3");
}

#[test]
fn account_list_placement() {
    assert_eq!(dropdown_class(Direction::Down), "");
    assert_eq!(dropdown_class(Direction::Up), "top-0 -translate-y-full");
}
