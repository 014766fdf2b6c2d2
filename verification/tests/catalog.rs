use rssh_win::config::AuthModes;
use rssh_win::config::Configuration;
use rssh_win::config::DirCreateOutcome;
use rssh_win::config::InitError;
use rssh_win::config::Session;
use rssh_win::config::delete_selected;
use rssh_win::config::init_dir_decision;
use rssh_win::config::nonempty_or_none;
use rssh_win::config::reset_selection;
use rssh_win::config::select_only;
use rssh_win::config::selected_index;
use rssh_win::config::updated_port;
use rssh_win::connect::connect_address;
use rssh_win::connect::decimal_string;
use rssh_win::connect::resolve_username;

#[test]
fn default_auth_mode_is_password() {
    assert_eq!(AuthModes::default(), AuthModes::PasswordAuth);
    assert_eq!(AuthModes::PasswordAuth.as_str(), "Password");
    assert_eq!(AuthModes::KeyFileAuth.as_str(), "Private key");
}

#[test]
fn blank_session_descriptor() {
    let s = Session::new();
    assert_eq!(s.name, "");
    assert_eq!(s.ip, "");
    assert_eq!(s.port, 22);
    assert!(s.username.is_none());
    assert_eq!(s.auth_method, AuthModes::PasswordAuth);
    assert!(s.key_path.is_none());
    assert!(s.password.is_none());
}

#[test]
fn missing_username_resolves_to_root() {
    assert_eq!(resolve_username(None), "root");
}

#[test]
fn given_username_resolves_to_itself() {
    assert_eq!(resolve_username(Some(String::from("alice"))), "alice");
}

#[test]
fn port_edit_keeps_digits_only() {
    assert_eq!(updated_port("8x0", 22), 80);
    assert_eq!(updated_port("2a2b", 7), 22);
}

#[test]
fn port_edit_rejects_out_of_range() {
    assert_eq!(updated_port("65536", 7), 7);
    assert_eq!(updated_port("99999999999999999999", 7), 7);
    assert_eq!(updated_port("65535", 7), 65535);
    assert_eq!(updated_port("0", 7), 0);
}

#[test]
fn port_edit_without_digits_keeps_current() {
    assert_eq!(updated_port("", 22), 22);
    assert_eq!(updated_port("abc", 5), 5);
}

#[test]
fn port_edit_leading_zeros() {
    assert_eq!(updated_port("007", 22), 7);
}

#[test]
fn empty_field_normalises_to_none() {
    assert!(nonempty_or_none(String::new()).is_none());
    assert_eq!(nonempty_or_none(String::from("bob")), Some(String::from("bob")));
}

#[test]
fn selection_is_exclusive() {
    let mut sel = reset_selection(4);
    assert_eq!(sel.len(), 4);
    assert!(sel.iter().all(|b| !b));
    select_only(&mut sel, 2);
    assert_eq!(sel, vec![false, false, true, false]);
    select_only(&mut sel, 0);
    assert_eq!(sel, vec![true, false, false, false]);
    assert_eq!(selected_index(&sel), Some(0));
}

#[test]
fn selected_index_empty_selection() {
    let sel = reset_selection(3);
    assert_eq!(selected_index(&sel), None);
}

#[test]
fn delete_selected_removes_that_entry() {
    let mut cfg = Configuration::new();
    for name in ["one", "two", "three"] {
        let mut s = Session::new();
        s.name = String::from(name);
        cfg.add_session(s);
    }
    let mut sel = reset_selection(3);
    select_only(&mut sel, 1);
    delete_selected(&mut cfg, &mut sel);
    assert_eq!(cfg.sessions.len(), 2);
    assert_eq!(cfg.sessions[0].name, "one");
    assert_eq!(cfg.sessions[1].name, "three");
    assert_eq!(sel, vec![false, false]);
}

#[test]
fn delete_with_no_selection_keeps_catalog() {
    let mut cfg = Configuration::new();
    cfg.add_session(Session::new());
    let mut sel = reset_selection(1);
    delete_selected(&mut cfg, &mut sel);
    assert_eq!(cfg.sessions.len(), 1);
    assert_eq!(sel, vec![false]);
}

#[test]
fn decimal_rendering() {
    assert_eq!(decimal_string(0), "0");
    assert_eq!(decimal_string(7), "7");
    assert_eq!(decimal_string(22), "22");
    assert_eq!(decimal_string(65535), "65535");
}

#[test]
fn endpoint_string() {
    assert_eq!(connect_address("203.0.113.9", 22), "203.0.113.9:22");
    assert_eq!(connect_address("example.org", 2222), "example.org:2222");
    assert_eq!(connect_address("h", 0), "h:0");
}

#[test]
fn directory_outcomes_classified() {
    assert_eq!(init_dir_decision(DirCreateOutcome::Created), Ok(false));
    assert_eq!(init_dir_decision(DirCreateOutcome::AlreadyExists), Ok(true));
    assert_eq!(
        init_dir_decision(DirCreateOutcome::PermissionDenied),
        Err(InitError::PermissionDenied)
    );
    assert_eq!(
        init_dir_decision(DirCreateOutcome::OtherFailure),
        Err(InitError::OtherFailure)
    );
}
