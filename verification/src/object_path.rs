//! D-Bus object paths.

use vstd::prelude::*;
use zbus::zvariant::OwnedObjectPath;

use crate::error::CaptureError;

verus! {

/// Whether `c` may stand in an element of an object path.
pub open spec fn is_path_char(c: char) -> bool {
    'A' <= c <= 'Z' || 'a' <= c <= 'z' || '0' <= c <= '9' || c == '_'
}

/// Whether `path` is an object path: it starts with a slash, no slash follows
/// a slash, only the root path ends in one, and all else is made of letters,
/// digits and underscores of ASCII.
pub open spec fn is_object_path(path: Seq<char>) -> bool {
    &&& path.len() >= 1
    &&& path[0] == '/'
    &&& path.len() > 1 ==> path[path.len() - 1] != '/'
    &&& forall|i: int| 0 <= i < path.len() ==> #[trigger] path[i] == '/' || is_path_char(path[i])
    &&& forall|i: int|
        0 < i < path.len() && #[trigger] path[i] == '/' ==> path[i - 1] != '/'
}

/// The error type of zvariant.
#[verifier::external_type_specification]
#[verifier::external_body]
pub struct ExZvariantError(zbus::zvariant::Error);

/// `OwnedObjectPath::try_from(String)` of zvariant, and the path read back
/// with `as_str`. It accepts object paths and nothing else, and keeps the text
/// as it is.
#[verifier::external_body]
fn parse_object_path(path: String) -> (r: Result<String, zbus::zvariant::Error>)
    ensures
        r is Ok <==> is_object_path(path@),
        r matches Ok(text) ==> text@ == path@,
{
    OwnedObjectPath::try_from(path).map(|p| p.as_str().to_owned())
}

/// Checks that `path` is an object path.
pub fn object_path(path: String) -> (r: Result<String, CaptureError>)
    ensures
        r is Ok <==> is_object_path(path@),
        r matches Ok(text) ==> text@ == path@,
        r matches Err(e) ==> e == CaptureError::InvalidObjectPath,
{
    match parse_object_path(path) {
        Ok(text) => Ok(text),
        Err(_) => Err(CaptureError::InvalidObjectPath),
    }
}

/// The concatenation of an object path other than the root, a slash and a
/// non-empty name is an object path.
pub proof fn lemma_child_path(parent: Seq<char>, name: Seq<char>)
    requires
        is_object_path(parent),
        parent.len() > 1,
        name.len() >= 1,
        forall|i: int| 0 <= i < name.len() ==> is_path_char(#[trigger] name[i]),
    ensures
        is_object_path(parent + seq!['/'] + name),
{
    let path = parent + seq!['/'] + name;
    let p = parent.len() as int;
    assert forall|i: int| 0 <= i < path.len() implies #[trigger] path[i] == '/' || is_path_char(
        path[i],
    ) by {
        if i < p {
            assert(path[i] == parent[i]);
        } else if i > p {
            assert(path[i] == name[i - p - 1]);
        }
    }
    assert forall|i: int| 0 < i < path.len() && #[trigger] path[i] == '/' implies path[i - 1]
        != '/' by {
        if i < p {
            assert(path[i] == parent[i] && path[i - 1] == parent[i - 1]);
        } else if i == p {
            assert(path[i - 1] == parent[p - 1]);
        } else {
            assert(path[i] == name[i - p - 1]);
        }
    }
    assert(path[path.len() - 1] == name[name.len() - 1]);
}

} // verus!
