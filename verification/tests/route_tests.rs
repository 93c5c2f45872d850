use userstore::route::{classify, same_bytes, starts_with, Route};

#[test]
fn index_paths() {
    assert_eq!(classify(b"/"), Route::Index);
    assert_eq!(classify(b"/index.html"), Route::Index);
}

#[test]
fn list_paths() {
    assert_eq!(classify(b"/users"), Route::ListUsers);
    assert_eq!(classify(b"/users/"), Route::ListUsers);
}

#[test]
fn user_paths_with_a_handle() {
    assert_eq!(classify(b"/user/0"), Route::UserById(Some(0)));
    assert_eq!(classify(b"/user/42"), Route::UserById(Some(42)));
    assert_eq!(classify(b"/user/42/"), Route::UserById(Some(42)));
    assert_eq!(classify(b"/user/007"), Route::UserById(Some(7)));
    assert_eq!(classify(b"/user/18446744073709551615"), Route::UserById(Some(u64::MAX)));
}

#[test]
fn user_paths_without_a_handle() {
    assert_eq!(classify(b"/user/"), Route::UserById(None));
    assert_eq!(classify(b"/user/18446744073709551616"), Route::UserById(None));
    assert_eq!(classify(b"/user/18446744073709551616/"), Route::UserById(None));
}

#[test]
fn unmatched_paths() {
    assert_eq!(classify(b""), Route::Unmatched);
    assert_eq!(classify(b"/user"), Route::Unmatched);
    assert_eq!(classify(b"/user//"), Route::Unmatched);
    assert_eq!(classify(b"/user/1//"), Route::Unmatched);
    assert_eq!(classify(b"/user/abc"), Route::Unmatched);
    assert_eq!(classify(b"/user/1a"), Route::Unmatched);
    assert_eq!(classify(b"/user/-1"), Route::Unmatched);
    assert_eq!(classify(b"/users/1"), Route::Unmatched);
    assert_eq!(classify(b"/users//"), Route::Unmatched);
    assert_eq!(classify(b"/index.html/"), Route::Unmatched);
    assert_eq!(classify(b"/unknown/path"), Route::Unmatched);
    assert_eq!(classify(b"//"), Route::Unmatched);
}

#[test]
fn compares_bytes() {
    assert!(same_bytes(b"", b""));
    assert!(same_bytes(b"/users", b"/users"));
    assert!(!same_bytes(b"/users", b"/user/"));
    assert!(!same_bytes(b"/users", b"/users/"));
    assert!(starts_with(b"/user/1", b"/user/"));
    assert!(starts_with(b"/user/", b"/user/"));
    assert!(!starts_with(b"/user", b"/user/"));
    assert!(!starts_with(b"/users/", b"/user/"));
}
