use locale_manager::error::LocaleError;
use locale_manager::session::{default_directory, PathKind, Session};

#[test]
fn set_existing_directory_is_kept_verbatim() {
    let mut s = Session::new("locales".to_string());
    let r = s.set_directory("some/dir/", PathKind::Directory);
    assert_eq!(r, Ok("some/dir/".to_string()));
    assert_eq!(s.get_directory(), "some/dir/");
}

#[test]
fn set_file_makes_parent_active() {
    let mut s = Session::new("locales".to_string());
    let r = s.set_directory("shop/locales/en.default.json", PathKind::File);
    assert_eq!(r, Ok("shop/locales".to_string()));
    assert_eq!(s.get_directory(), "shop/locales");
}

#[test]
fn set_bare_file_name_makes_current_directory_active() {
    let mut s = Session::new("locales".to_string());
    assert_eq!(s.set_directory("en.json", PathKind::File), Ok(".".to_string()));
    assert_eq!(s.get_directory(), ".");
}

#[test]
fn set_missing_path_fails_and_keeps_directory() {
    let mut s = Session::new("start".to_string());
    let r = s.set_directory("no/such/path", PathKind::Missing);
    assert_eq!(r, Err(LocaleError::NotFound("no/such/path".to_string())));
    assert_eq!(s.get_directory(), "start");
}

#[test]
fn set_root_file_without_parent_is_invalid() {
    let mut s = Session::new("start".to_string());
    let r = s.set_directory("/", PathKind::File);
    assert_eq!(r, Err(LocaleError::InvalidPath("/".to_string())));
    assert_eq!(s.get_directory(), "start");
}

#[test]
fn last_write_wins() {
    let mut s = Session::new("start".to_string());
    s.set_directory("a", PathKind::Directory).unwrap();
    s.set_directory("b/c.json", PathKind::File).unwrap();
    assert_eq!(s.get_directory(), "b");
}

#[test]
fn initial_directory_from_configuration() {
    assert_eq!(default_directory(None), "locales");
    assert_eq!(default_directory(Some("custom".to_string())), "custom");
}
