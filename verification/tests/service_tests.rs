use userstore::route::Route;
use userstore::service::{dispatch, response_with_code, Method, MicroService, Status, INDEX};
use userstore::store::Store;

fn service() -> MicroService {
    MicroService::new(Store::new())
}

#[test]
fn status_codes() {
    assert_eq!(Status::Success.code(), 200);
    assert_eq!(Status::BadRequest.code(), 400);
    assert_eq!(Status::NotFound.code(), 404);
    assert_eq!(Status::MethodNotAllowed.code(), 405);
}

#[test]
fn bare_response_has_no_body() {
    let r = response_with_code(Status::NotFound);
    assert_eq!(r.status, Status::NotFound);
    assert!(r.body.is_empty());
}

#[test]
fn user_life_cycle_reuses_the_slot() {
    let mut s = service();
    let r = s.call(Method::Post, b"/user/");
    assert_eq!((r.status.code(), r.body), (200, b"0".to_vec()));
    let r = s.call(Method::Get, b"/user/0");
    assert_eq!((r.status.code(), r.body), (200, b"{}".to_vec()));
    let r = s.call(Method::Delete, b"/user/0");
    assert_eq!((r.status.code(), r.body), (200, Vec::new()));
    let r = s.call(Method::Get, b"/user/0");
    assert_eq!((r.status.code(), r.body), (404, Vec::new()));
    let r = s.call(Method::Post, b"/user/");
    assert_eq!((r.status.code(), r.body), (200, b"0".to_vec()));
}

#[test]
fn listing_users() {
    let mut s = service();
    let r = s.call(Method::Get, b"/users");
    assert_eq!((r.status.code(), r.body), (200, Vec::new()));
    assert_eq!(s.call(Method::Post, b"/user/").body, b"0".to_vec());
    assert_eq!(s.call(Method::Post, b"/user/").body, b"1".to_vec());
    let r = s.call(Method::Get, b"/users");
    assert_eq!((r.status.code(), r.body), (200, b"0,1".to_vec()));
    let r = s.call(Method::Get, b"/users/");
    assert_eq!((r.status.code(), r.body), (200, b"0,1".to_vec()));
}

#[test]
fn error_replies() {
    let mut s = service();
    assert_eq!(s.call(Method::Post, b"/user/5").status.code(), 400);
    assert_eq!(s.call(Method::Put, b"/user/99").status.code(), 404);
    assert_eq!(s.call(Method::Post, b"/user/").body, b"0".to_vec());
    assert_eq!(s.call(Method::Other, b"/user/0").status.code(), 405);
    assert_eq!(s.call(Method::Get, b"/unknown/path").status.code(), 404);
    assert_eq!(s.call(Method::Get, b"/users").body, b"0".to_vec());
}

#[test]
fn index_page() {
    let mut s = service();
    let r = s.call(Method::Get, b"/");
    assert_eq!((r.status, r.body), (Status::Success, INDEX.as_bytes().to_vec()));
    let r = s.call(Method::Get, b"/index.html");
    assert_eq!((r.status, r.body), (Status::Success, INDEX.as_bytes().to_vec()));
    for m in [Method::Post, Method::Put, Method::Delete, Method::Other] {
        let r = s.call(m, b"/");
        assert_eq!((r.status, r.body), (Status::MethodNotAllowed, Vec::new()));
    }
}

#[test]
fn list_takes_get_only() {
    let mut s = service();
    for m in [Method::Post, Method::Put, Method::Delete, Method::Other] {
        let r = s.call(m, b"/users");
        assert_eq!((r.status, r.body), (Status::MethodNotAllowed, Vec::new()));
    }
}

#[test]
fn user_path_without_handle_takes_post_only() {
    let mut s = service();
    for m in [Method::Get, Method::Put, Method::Delete, Method::Other] {
        let r = s.call(m, b"/user/");
        assert_eq!((r.status, r.body), (Status::MethodNotAllowed, Vec::new()));
    }
    assert_eq!(s.call(Method::Get, b"/users").body, Vec::<u8>::new());
}

#[test]
fn handle_too_large_counts_as_absent() {
    let mut s = service();
    let path = b"/user/18446744073709551616";
    assert_eq!(s.call(Method::Get, path).status, Status::MethodNotAllowed);
    assert_eq!(s.call(Method::Put, path).status, Status::MethodNotAllowed);
    assert_eq!(s.call(Method::Delete, path).status, Status::MethodNotAllowed);
    let r = s.call(Method::Post, path);
    assert_eq!((r.status, r.body), (Status::Success, b"0".to_vec()));
}

#[test]
fn put_and_delete_on_a_live_user() {
    let mut s = service();
    s.call(Method::Post, b"/user/");
    s.call(Method::Post, b"/user/");
    let r = s.call(Method::Put, b"/user/1/");
    assert_eq!((r.status, r.body), (Status::Success, Vec::new()));
    assert_eq!(s.call(Method::Get, b"/users").body, b"0,1".to_vec());
    let r = s.call(Method::Delete, b"/user/0");
    assert_eq!((r.status, r.body), (Status::Success, Vec::new()));
    assert_eq!(s.call(Method::Delete, b"/user/0").status, Status::NotFound);
    assert_eq!(s.call(Method::Put, b"/user/0").status, Status::NotFound);
    assert_eq!(s.call(Method::Get, b"/users").body, b"1".to_vec());
    assert_eq!(s.call(Method::Get, b"/user/1").body, b"{}".to_vec());
}

#[test]
fn dispatch_on_a_route() {
    let mut store = Store::new();
    let r = dispatch(&mut store, Method::Post, Route::UserById(None));
    assert_eq!((r.status, r.body), (Status::Success, b"0".to_vec()));
    let r = dispatch(&mut store, Method::Get, Route::UserById(Some(0)));
    assert_eq!((r.status, r.body), (Status::Success, b"{}".to_vec()));
    let r = dispatch(&mut store, Method::Get, Route::Unmatched);
    assert_eq!((r.status, r.body), (Status::NotFound, Vec::new()));
    assert_eq!(store.list(), vec![0]);
}

#[test]
fn index_page_text() {
    assert!(INDEX.starts_with("\n<!doctype html>\n<html>\n"));
    assert!(INDEX.contains("<title>Rust Microservice</title>"));
    assert!(INDEX.contains("<h3>Rust Microservice</h3>"));
    assert!(INDEX.ends_with("</html>\n"));
}

#[test]
fn index_variants_are_not_the_index() {
    let mut s = service();
    assert_eq!(s.call(Method::Get, b"/index").status, Status::NotFound);
    assert_eq!(s.call(Method::Get, b"/index.htm").status, Status::NotFound);
    assert_eq!(s.call(Method::Get, b"/index.html/").status, Status::NotFound);
    assert_eq!(s.call(Method::Post, b"/nowhere").status, Status::NotFound);
}

#[test]
fn creation_takes_the_lowest_free_handle() {
    let mut s = service();
    assert_eq!(s.call(Method::Post, b"/user/").body, b"0".to_vec());
    assert_eq!(s.call(Method::Post, b"/user/").body, b"1".to_vec());
    assert_eq!(s.call(Method::Post, b"/user/").body, b"2".to_vec());
    assert_eq!(s.call(Method::Delete, b"/user/0").status.code(), 200);
    assert_eq!(s.call(Method::Delete, b"/user/1").status.code(), 200);
    let r = s.call(Method::Post, b"/user/");
    assert_eq!((r.status.code(), r.body), (200, b"0".to_vec()));
    let r = s.call(Method::Post, b"/user/");
    assert_eq!((r.status.code(), r.body), (200, b"1".to_vec()));
    let r = s.call(Method::Get, b"/users");
    assert_eq!((r.status.code(), r.body), (200, b"0,1,2".to_vec()));
}

#[test]
fn created_user_is_found_under_the_returned_text() {
    let mut s = service();
    for _ in 0..12 {
        let created = s.call(Method::Post, b"/user/");
        assert_eq!(created.status.code(), 200);
        let mut path = b"/user/".to_vec();
        path.extend_from_slice(&created.body);
        let found = s.call(Method::Get, &path);
        assert_eq!((found.status.code(), found.body), (200, b"{}".to_vec()));
    }
    assert_eq!(s.call(Method::Get, b"/users").body, b"0,1,2,3,4,5,6,7,8,9,10,11".to_vec());
}
