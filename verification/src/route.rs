use vstd::prelude::*;
use vstd::slice::slice_subrange;
use crate::record::UserId;
use crate::text::{all_digits, is_digits, parse_id, parsed_id};

verus! {

/// The byte `/`.
pub const SLASH: u8 = 0x2f;

/// What a request path asks for.
#[derive(Debug, Clone, Copy, PartialEq, Eq, Structural)]
pub enum Route {
    /// The informational page.
    Index,
    /// The list of live handles.
    ListUsers,
    /// One user, or a new one where the path carries no handle.
    UserById(Option<UserId>),
    /// No resource of this service.
    Unmatched,
}

/// The path `/`.
pub open spec fn root_path() -> Seq<u8> {
    seq![SLASH]
}

/// The path `/index.html`.
pub open spec fn index_path() -> Seq<u8> {
    seq![SLASH, 0x69u8, 0x6eu8, 0x64u8, 0x65u8, 0x78u8, 0x2eu8, 0x68u8, 0x74u8, 0x6du8, 0x6cu8]
}

/// The path `/users`.
pub open spec fn users_path() -> Seq<u8> {
    seq![SLASH, 0x75u8, 0x73u8, 0x65u8, 0x72u8, 0x73u8]
}

/// The prefix `/user/` of the paths that name one user.
pub open spec fn user_prefix() -> Seq<u8> {
    seq![SLASH, 0x75u8, 0x73u8, 0x65u8, 0x72u8, SLASH]
}

/// Whether `path` begins with `prefix`.
pub open spec fn has_prefix(path: Seq<u8>, prefix: Seq<u8>) -> bool {
    prefix.len() <= path.len() && path.take(prefix.len() as int) == prefix
}

/// What follows the prefix `/user/`, without one trailing slash.
pub open spec fn id_segment(path: Seq<u8>) -> Seq<u8> {
    let rest = path.skip(user_prefix().len() as int);
    if rest.len() > 0 && rest.last() == SLASH {
        rest.drop_last()
    } else {
        rest
    }
}

/// Whether `path` names one user: `/user/` alone, or `/user/` followed by one
/// or more decimal digits and at most one trailing slash.
pub open spec fn is_user_path(path: Seq<u8>) -> bool {
    &&& has_prefix(path, user_prefix())
    &&& path.len() == user_prefix().len() || (id_segment(path).len() > 0 && all_digits(
        id_segment(path),
    ))
}

/// The route of a path. The index page, the list and the user paths are
/// tried in this order; a user path carries the handle that its digits
/// denote, or none where they denote none.
pub open spec fn route_of(path: Seq<u8>) -> Route {
    if path == root_path() || path == index_path() {
        Route::Index
    } else if path == users_path() || path == users_path().push(SLASH) {
        Route::ListUsers
    } else if is_user_path(path) {
        Route::UserById(parsed_id(id_segment(path)))
    } else {
        Route::Unmatched
    }
}

/// Tells whether two byte strings are equal.
pub fn same_bytes(a: &[u8], b: &[u8]) -> (same: bool)
    ensures
        same == (a@ == b@),
{
    if a.len() != b.len() {
        return false;
    }
    let mut i: usize = 0;
    while i < a.len()
        invariant
            i <= a.len(),
            a.len() == b.len(),
            a@.take(i as int) == b@.take(i as int),
        decreases a.len() - i,
    {
        if a[i] != b[i] {
            return false;
        }
        assert(a@.take(i + 1) =~= a@.take(i as int).push(a@[i as int]));
        assert(b@.take(i + 1) =~= b@.take(i as int).push(b@[i as int]));
        i += 1;
    }
    assert(a@.take(i as int) =~= a@);
    assert(b@.take(i as int) =~= b@);
    true
}

/// Tells whether `path` begins with `prefix`.
pub fn starts_with(path: &[u8], prefix: &[u8]) -> (yes: bool)
    ensures
        yes == has_prefix(path@, prefix@),
{
    if path.len() < prefix.len() {
        return false;
    }
    let head = slice_subrange(path, 0, prefix.len());
    same_bytes(head, prefix)
}

/// Classifies a request path.
pub fn classify(path: &[u8]) -> (route: Route)
    ensures
        route == route_of(path@),
{
    let root: [u8; 1] = [SLASH];
    let index: [u8; 11] = [SLASH, 0x69u8, 0x6eu8, 0x64u8, 0x65u8, 0x78u8, 0x2eu8, 0x68u8, 0x74u8, 0x6du8, 0x6cu8];
    let users: [u8; 6] = [SLASH, 0x75u8, 0x73u8, 0x65u8, 0x72u8, 0x73u8];
    let users_slash: [u8; 7] = [SLASH, 0x75u8, 0x73u8, 0x65u8, 0x72u8, 0x73u8, SLASH];
    let prefix: [u8; 6] = [SLASH, 0x75u8, 0x73u8, 0x65u8, 0x72u8, SLASH];
    proof {
        assert(root@ =~= root_path());
        assert(index@ =~= index_path());
        assert(users@ =~= users_path());
        assert(users_slash@ =~= users_path().push(SLASH));
        assert(prefix@ =~= user_prefix());
    }
    if same_bytes(path, root.as_slice()) || same_bytes(path, index.as_slice()) {
        return Route::Index;
    }
    if same_bytes(path, users.as_slice()) || same_bytes(path, users_slash.as_slice()) {
        return Route::ListUsers;
    }
    if !starts_with(path, prefix.as_slice()) {
        return Route::Unmatched;
    }
    if path.len() == 6 {
        assert(id_segment(path@) =~= Seq::<u8>::empty());
        return Route::UserById(None);
    }
    let mut end: usize = path.len();
    if path[end - 1] == SLASH {
        end = end - 1;
    }
    let segment = slice_subrange(path, 6, end);
    assert(segment@ =~= id_segment(path@));
    if segment.len() > 0 && is_digits(segment) {
        Route::UserById(parse_id(segment))
    } else {
        Route::Unmatched
    }
}

} // verus!
