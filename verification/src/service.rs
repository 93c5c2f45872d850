use vstd::prelude::*;
use vstd::slice::slice_to_vec;
use vstd::string::StringSliceAdditionalSpecFns;
use crate::record::{record_text, UserData, UserId};
use crate::route::{
    classify, id_segment, index_path, is_user_path, root_path, route_of, user_prefix, users_path,
    Route, SLASH,
};
use crate::store::{lemma_next_id_within_count, Store, StoreModel};
use crate::text::{
    decimal, is_digit, join_ids, joined, lemma_decimal_reads_back, render_decimal,
};

verus! {

/// The page served at the root of the service.
pub const INDEX: &'static str = r#"
<!doctype html>
<html>
    <head>
        <title>Rust Microservice</title>
    </head>
    <body>
        <h3>Rust Microservice</h3>
    </body>
</html>
"#;

/// The request methods that the service tells apart.
#[derive(Debug, Clone, Copy, PartialEq, Eq, Structural)]
pub enum Method {
    Get,
    Post,
    Put,
    Delete,
    /// Any other method.
    Other,
}

/// The status of a reply.
#[derive(Debug, Clone, Copy, PartialEq, Eq, Structural)]
pub enum Status {
    Success,
    BadRequest,
    NotFound,
    MethodNotAllowed,
}

impl Status {
    /// The status code as a number.
    pub open spec fn spec_code(self) -> u16 {
        match self {
            Status::Success => 200,
            Status::BadRequest => 400,
            Status::NotFound => 404,
            Status::MethodNotAllowed => 405,
        }
    }

    /// The status code as a number.
    pub fn code(&self) -> (code: u16)
        ensures
            code == self.spec_code(),
    {
        match self {
            Status::Success => 200,
            Status::BadRequest => 400,
            Status::NotFound => 404,
            Status::MethodNotAllowed => 405,
        }
    }
}

/// A reply as a value: its status and the bytes of its body.
pub struct Reply {
    pub status: Status,
    pub body: Seq<u8>,
}

impl Reply {
    /// The reply with status 200 and the given body.
    pub open spec fn ok(body: Seq<u8>) -> Reply {
        Reply { status: Status::Success, body }
    }

    /// The reply with the given status and an empty body.
    pub open spec fn bare(status: Status) -> Reply {
        Reply { status, body: Seq::empty() }
    }
}

/// What the service answers to one request.
#[derive(Debug, PartialEq, Eq)]
pub struct Response {
    pub status: Status,
    pub body: Vec<u8>,
}

impl Response {
    /// The reply as a value.
    pub open spec fn view(&self) -> Reply {
        Reply { status: self.status, body: self.body@ }
    }
}

/// The reply that carries a status and no body.
pub fn response_with_code(status: Status) -> (response: Response)
    ensures
        response@ == Reply::bare(status),
{
    Response { status, body: Vec::new() }
}

/// Whether `id` names a live record of `store`.
pub open spec fn is_live(store: StoreModel, id: UserId) -> bool {
    id <= usize::MAX && store.live.contains_key(id as usize)
}

/// The reply to a request on a user path, whose handle is `id`.
pub open spec fn user_reply(store: StoreModel, method: Method, id: Option<UserId>) -> Reply {
    match (method, id) {
        (Method::Post, None) => Reply::ok(decimal(store.next_id() as nat)),
        (Method::Post, Some(_)) => Reply::bare(Status::BadRequest),
        (Method::Get, Some(id)) => if is_live(store, id) {
            Reply::ok(record_text())
        } else {
            Reply::bare(Status::NotFound)
        },
        (Method::Put, Some(id)) | (Method::Delete, Some(id)) => if is_live(store, id) {
            Reply::bare(Status::Success)
        } else {
            Reply::bare(Status::NotFound)
        },
        _ => Reply::bare(Status::MethodNotAllowed),
    }
}

/// The reply to `method` on `route` while the records are those of `store`.
pub open spec fn reply_of(store: StoreModel, method: Method, route: Route) -> Reply {
    match route {
        Route::Index => if method == Method::Get {
            Reply::ok(INDEX.spec_bytes())
        } else {
            Reply::bare(Status::MethodNotAllowed)
        },
        Route::ListUsers => if method == Method::Get {
            Reply::ok(joined(store.listing()))
        } else {
            Reply::bare(Status::MethodNotAllowed)
        },
        Route::UserById(id) => user_reply(store, method, id),
        Route::Unmatched => Reply::bare(Status::NotFound),
    }
}

/// The records after `method` on `route`: a POST without a handle adds an
/// empty record, a PUT replaces and a DELETE releases a live record, and
/// every other request leaves the records as they are.
pub open spec fn store_after(store: StoreModel, method: Method, route: Route) -> StoreModel {
    match (route, method) {
        (Route::UserById(None), Method::Post) => store.insert(store.next_id(), UserData),
        (Route::UserById(Some(id)), Method::Put) => if is_live(store, id) {
            store.update(id as usize, UserData)
        } else {
            store
        },
        (Route::UserById(Some(id)), Method::Delete) => if is_live(store, id) {
            store.remove(id as usize)
        } else {
            store
        },
        _ => store,
    }
}

/// Carries out `method` on `route` against `store` and returns the reply.
pub fn dispatch(store: &mut Store, method: Method, route: Route) -> (response: Response)
    ensures
        response@ == reply_of(old(store)@, method, route),
        final(store)@ == store_after(old(store)@, method, route),
        method == Method::Post && route == Route::UserById(None) ==> old(store)@.can_insert(),
{
    match route {
        Route::Index => match method {
            Method::Get => Response { status: Status::Success, body: slice_to_vec(INDEX.as_bytes()) },
            _ => response_with_code(Status::MethodNotAllowed),
        },
        Route::ListUsers => match method {
            Method::Get => {
                let ids = store.list();
                Response { status: Status::Success, body: join_ids(&ids) }
            },
            _ => response_with_code(Status::MethodNotAllowed),
        },
        Route::UserById(id) => dispatch_user(store, method, id),
        Route::Unmatched => response_with_code(Status::NotFound),
    }
}

/// Carries out `method` on a user path whose handle is `id`.
pub fn dispatch_user(store: &mut Store, method: Method, id: Option<UserId>) -> (response: Response)
    ensures
        response@ == user_reply(old(store)@, method, id),
        final(store)@ == store_after(old(store)@, method, Route::UserById(id)),
        method == Method::Post && id.is_none() ==> old(store)@.can_insert(),
{
    match (method, id) {
        (Method::Post, None) => {
            let id = store.insert(UserData);
            Response { status: Status::Success, body: render_decimal(id as u64) }
        },
        (Method::Post, Some(_)) => response_with_code(Status::BadRequest),
        (Method::Get, Some(id)) => {
            if id > usize::MAX as u64 {
                return response_with_code(Status::NotFound);
            }
            match store.get(id as usize) {
                Some(data) => Response { status: Status::Success, body: data.to_text() },
                None => response_with_code(Status::NotFound),
            }
        },
        (Method::Put, Some(id)) => {
            if id > usize::MAX as u64 {
                return response_with_code(Status::NotFound);
            }
            match store.update(id as usize, UserData) {
                Ok(_) => response_with_code(Status::Success),
                Err(_) => response_with_code(Status::NotFound),
            }
        },
        (Method::Delete, Some(id)) => {
            if id > usize::MAX as u64 {
                return response_with_code(Status::NotFound);
            }
            match store.remove(id as usize) {
                Ok(_) => response_with_code(Status::Success),
                Err(_) => response_with_code(Status::NotFound),
            }
        },
        _ => response_with_code(Status::MethodNotAllowed),
    }
}

/// The service: the registry of users and the dispatcher in front of it.
pub struct MicroService {
    user_db: Store,
}

impl MicroService {
    /// The records of the service.
    pub closed spec fn view(&self) -> StoreModel {
        self.user_db@
    }

    /// A service over the given store.
    pub fn new(user_db: Store) -> (service: MicroService)
        ensures
            service@ == user_db@,
    {
        MicroService { user_db }
    }

    /// Answers one request: classifies the path and carries out the method
    /// on the route found.
    pub fn call(&mut self, method: Method, path: &[u8]) -> (response: Response)
        ensures
            response@ == reply_of(old(self)@, method, route_of(path@)),
            final(self)@ == store_after(old(self)@, method, route_of(path@)),
            method == Method::Post && route_of(path@) == Route::UserById(None) ==> old(
                self,
            )@.can_insert(),
    {
        let route = classify(path);
        dispatch(&mut self.user_db, method, route)
    }
}

/// The path `/user/` is the user path without a handle.
pub proof fn lemma_bare_user_path()
    ensures
        route_of(user_prefix()) == Route::UserById(None),
{
    let path = user_prefix();
    assert(path.take(6) =~= user_prefix());
    assert(id_segment(path) =~= Seq::<u8>::empty());
}

/// The path `/user/` followed by the decimal text of a handle is the user
/// path with that handle.
pub proof fn lemma_user_path_of(id: UserId)
    ensures
        route_of(user_prefix() + decimal(id as nat)) == Route::UserById(Some(id)),
{
    let digits = decimal(id as nat);
    let path = user_prefix() + digits;
    lemma_decimal_reads_back(id as nat);
    assert(path.take(6) =~= user_prefix());
    assert(path.skip(6) =~= digits);
    assert(is_digit(digits[digits.len() - 1]));
    assert(digits.last() != SLASH);
    assert(id_segment(path) =~= digits);
    assert(path.len() > 6);
    assert(path[1] == 0x75u8);
    assert(path[5] == SLASH);
    assert(path != root_path());
    assert(path != index_path()) by {
        assert(index_path()[1] == 0x69u8);
    }
    assert(path != users_path());
    assert(path != users_path().push(SLASH)) by {
        assert(users_path().push(SLASH)[5] == 0x73u8);
    }
    assert(is_user_path(path));
}

/// A user that was just created is found: after a POST on `/user/`, which
/// answers with the decimal text of the new handle, a GET on `/user/`
/// followed by that text answers with the record and changes nothing.
pub proof fn lemma_created_user_is_found(store: StoreModel)
    ensures
        ({
            let created = reply_of(store, Method::Post, route_of(user_prefix()));
            let after = store_after(store, Method::Post, route_of(user_prefix()));
            let path = user_prefix() + created.body;
            &&& created == Reply::ok(decimal(store.next_id() as nat))
            &&& reply_of(after, Method::Get, route_of(path)) == Reply::ok(record_text())
            &&& store_after(after, Method::Get, route_of(path)) == after
        }),
{
    lemma_bare_user_path();
    lemma_user_path_of(store.next_id() as UserId);
}

/// A creation takes the lowest handle that is not live, which is at most
/// the number of live records. The live handles grow by it, and every
/// user that was live is found as before.
pub proof fn lemma_creation_takes_lowest_free(store: StoreModel)
    requires
        store.can_insert(),
    ensures
        ({
            let id = store.next_id();
            let after = store_after(store, Method::Post, Route::UserById(None));
            &&& reply_of(store, Method::Post, Route::UserById(None)) == Reply::ok(
                decimal(id as nat),
            )
            &&& !store.live.contains_key(id)
            &&& forall|lower: usize| lower < id ==> store.live.contains_key(lower)
            &&& id <= store.live.dom().len()
            &&& after.live.dom() == store.live.dom().insert(id)
            &&& forall|other: UserId|
                is_live(store, other) ==> reply_of(after, Method::Get, Route::UserById(Some(other)))
                    == reply_of(store, Method::Get, Route::UserById(Some(other)))
        }),
{
    let id = store.next_id();
    let after = store_after(store, Method::Post, Route::UserById(None));
    lemma_next_id_within_count(store, id);
    assert(after.live.dom() =~= store.live.dom().insert(id));
}

} // verus!
