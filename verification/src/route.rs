//! The routing table: the handler that a verb and a path lead to.
//!
//! | verb     | path         | request      |
//! |----------|--------------|--------------|
//! | `GET`    | `/heroes`    | list         |
//! | `POST`   | `/hero`      | create       |
//! | `PUT`    | `/hero/{id}` | update       |
//! | `DELETE` | `/hero/{id}` | delete       |
//!
//! Paths are matched byte for byte. `{id}` stands for one segment that is
//! not empty; whether it writes an id is for the handler to decode.

use vstd::prelude::*;
use vstd::slice::slice_to_vec;
use crate::hero::{Hero, HeroView};
use crate::request::{body_view, Request, RequestView};

verus! {

/// The verbs that the service answers.
#[derive(Debug, Clone, Copy, PartialEq, Eq, Structural)]
pub enum Verb {
    Get,
    Post,
    Put,
    Delete,
}

/// The byte `/`, which parts the segments of a path.
pub const SLASH: u8 = 47;

/// The path of all heroes, `/heroes`, in ASCII.
pub const HEROES: [u8; 7] = [47, 104, 101, 114, 111, 101, 115];

/// The path under which a hero is created, `/hero`, in ASCII.
pub const HERO: [u8; 5] = [47, 104, 101, 114, 111];

/// The segment behind `/hero/`, where the path is `/hero/` and one segment
/// that is not empty.
pub open spec fn hero_segment(path: Seq<u8>) -> Option<Seq<u8>> {
    let prefix = HERO@.push(SLASH);
    let segment = path.subrange(prefix.len() as int, path.len() as int);
    if path.len() > prefix.len() && path.subrange(0, prefix.len() as int) == prefix
        && !segment.contains(SLASH) {
        Some(segment)
    } else {
        None
    }
}

/// The request that a verb, a path and a body make, if the table has a row
/// for verb and path.
pub open spec fn routed(verb: Verb, path: Seq<u8>, body: Option<HeroView>) -> Option<RequestView> {
    match verb {
        Verb::Get => if path == HEROES@ {
            Some(RequestView::List)
        } else {
            None
        },
        Verb::Post => if path == HERO@ {
            Some(RequestView::Create { body })
        } else {
            None
        },
        Verb::Put => match hero_segment(path) {
            Some(id) => Some(RequestView::Update { id, body }),
            None => None,
        },
        Verb::Delete => match hero_segment(path) {
            Some(id) => Some(RequestView::Delete { id }),
            None => None,
        },
    }
}

/// Whether the path begins with these bytes.
fn begins_with(path: &[u8], prefix: &[u8]) -> (begins: bool)
    ensures
        begins == (path@.len() >= prefix@.len() && path@.subrange(0, prefix@.len() as int)
            == prefix@),
{
    if path.len() < prefix.len() {
        return false;
    }
    let mut i: usize = 0;
    while i < prefix.len()
        invariant
            i <= prefix.len() <= path.len(),
            forall|k: int| 0 <= k < i ==> path@[k] == prefix@[k],
        decreases prefix.len() - i,
    {
        if path[i] != prefix[i] {
            assert(path@.subrange(0, prefix@.len() as int)[i as int] != prefix@[i as int]);
            return false;
        }
        i += 1;
    }
    assert(path@.subrange(0, prefix@.len() as int) =~= prefix@);
    true
}

/// Whether the path is exactly these bytes.
fn is_path(path: &[u8], whole: &[u8]) -> (same: bool)
    ensures
        same == (path@ == whole@),
{
    let same = path.len() == whole.len() && begins_with(path, whole);
    proof {
        if path@.len() == whole@.len() {
            assert(path@.subrange(0, whole@.len() as int) =~= path@);
        }
    }
    same
}

/// Reads the segment behind `/hero/`.
fn segment_of(path: &[u8]) -> (segment: Option<Vec<u8>>)
    ensures
        match segment {
            Some(bytes) => hero_segment(path@) == Some(bytes@),
            None => hero_segment(path@) is None,
        },
{
    let ghost prefix = HERO@.push(SLASH);
    if !begins_with(path, HERO.as_slice()) || path.len() <= 6 || path[5] != SLASH {
        proof {
            if path@.len() > 6 {
                let front = path@.subrange(0, 6);
                assert(front[5] == path@[5]);
                assert(front.subrange(0, 5) =~= path@.subrange(0, 5));
                assert(prefix.subrange(0, 5) =~= HERO@);
            }
        }
        return None;
    }
    assert(path@.subrange(0, 6) =~= prefix) by {
        assert(path@.subrange(0, 6) =~= path@.subrange(0, 5).push(path@[5]));
    }
    let ghost rest = path@.subrange(6, path@.len() as int);
    let mut i: usize = 6;
    while i < path.len()
        invariant
            6 <= i <= path.len(),
            rest == path@.subrange(6, path@.len() as int),
            forall|k: int| 0 <= k < i - 6 ==> rest[k] != SLASH,
        decreases path.len() - i,
    {
        if path[i] == SLASH {
            assert(rest[i - 6] == SLASH);
            return None;
        }
        i += 1;
    }
    let segment = slice_to_vec(&path[6..path.len()]);
    assert(segment@ =~= rest);
    Some(segment)
}

/// Looks a request up in the routing table. `None` says that the table has
/// no row for this verb and path; the body is then dropped.
pub fn route(verb: Verb, path: &[u8], body: Option<Hero>) -> (request: Option<Request>)
    ensures
        match request {
            Some(found) => routed(verb, path@, body_view(body)) == Some(found@),
            None => routed(verb, path@, body_view(body)) is None,
        },
{
    match verb {
        Verb::Get => if is_path(path, HEROES.as_slice()) {
            Some(Request::List)
        } else {
            None
        },
        Verb::Post => if is_path(path, HERO.as_slice()) {
            Some(Request::Create { body })
        } else {
            None
        },
        Verb::Put => match segment_of(path) {
            Some(id) => Some(Request::Update { id, body }),
            None => None,
        },
        Verb::Delete => match segment_of(path) {
            Some(id) => Some(Request::Delete { id }),
            None => None,
        },
    }
}

} // verus!
