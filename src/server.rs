use vstd::prelude::*;
use vstd::string::StringSliceAdditionalSpecFns;

use crate::bytes::push_str;
use crate::path::{is_confined, join_path, resolve, resolved_path};
use crate::request::{lemma_target_shorter, parse_request, request_target};
use crate::response::{
    build_listing, build_response, file_response, listing_response, names_view, BAD_REQUEST,
    NOT_FOUND, OK_STATUS,
};

verus! {

/// What serving a request needs next.
pub enum Step {
    /// The response is ready: send it.
    Respond(Vec<u8>),
    /// Look the absolute `path` up (the root-relative `target`), then finish
    /// with [`complete`].
    Lookup { path: Vec<u8>, target: Vec<u8> },
}

/// What looking a resolved path up found.
pub enum Found {
    /// Nothing, or neither a regular file nor a directory.
    Missing,
    /// A regular file, with its contents, or None where reading it failed.
    /// An image (see [`crate::response::reads_as_image`]) is read as raw bytes,
    /// any other file as UTF-8 text.
    File(Option<Vec<u8>>),
    /// A directory, with the names of its children in the order the
    /// filesystem gave them, or None where enumerating them failed.
    Directory(Option<Vec<Vec<u8>>>),
}

/// The model of [`Found`].
pub enum Lookup {
    Missing,
    File(Option<Seq<u8>>),
    Directory(Option<Seq<Seq<u8>>>),
}

impl View for Found {
    type V = Lookup;

    open spec fn view(&self) -> Lookup {
        match self {
            Found::Missing => Lookup::Missing,
            Found::File(c) => Lookup::File(
                match c {
                    Some(c) => Some(c@),
                    None => None,
                },
            ),
            Found::Directory(n) => Lookup::Directory(
                match n {
                    Some(n) => Some(names_view(n@)),
                    None => None,
                },
            ),
        }
    }
}

/// The response for the path `path`, that the root-relative `target`
/// resolved to, where looking it up found `found`.
pub open spec fn found_response(path: Seq<u8>, target: Seq<u8>, found: Lookup) -> Seq<u8> {
    match found {
        Lookup::Missing => NOT_FOUND.spec_bytes(),
        Lookup::File(c) => file_response(OK_STATUS.spec_bytes(), path, c),
        Lookup::Directory(n) => listing_response(OK_STATUS.spec_bytes(), target, n),
    }
}

/// The response to the raw `request` under `root`, where looking up the path
/// that it resolves to (if it does) found `found`.
pub open spec fn response_to(root: Seq<u8>, request: Seq<u8>, found: Lookup) -> Seq<u8> {
    match request_target(request) {
        None => BAD_REQUEST.spec_bytes(),
        Some(t) => match resolved_path(root, t) {
            None => NOT_FOUND.spec_bytes(),
            Some(p) => found_response(p, t, found),
        },
    }
}

fn owned(s: &str) -> (r: Vec<u8>)
    ensures
        r@ == s.spec_bytes(),
{
    let mut out: Vec<u8> = Vec::new();
    push_str(&mut out, s);
    assert(out@ =~= s.spec_bytes());
    out
}

/// First step of serving `request` under `root`: answers a malformed request
/// and a target that leaves the root at once, and otherwise asks for the
/// resolved path to be looked up.
pub fn route(root: &[u8], request: &[u8]) -> (r: Step)
    requires
        root@.len() + request@.len() + 1 <= usize::MAX,
    ensures
        match request_target(request@) {
            None => r matches Step::Respond(b) && b@ == BAD_REQUEST.spec_bytes(),
            Some(t) => match resolved_path(root@, t) {
                None => r matches Step::Respond(b) && b@ == NOT_FOUND.spec_bytes(),
                Some(p) => r matches Step::Lookup { path, target } && path@ == p && target@ == t,
            },
        },
{
    let target = match parse_request(request) {
        Some(t) => t,
        None => return Step::Respond(owned(BAD_REQUEST)),
    };
    proof {
        lemma_target_shorter(request@);
    }
    match resolve(root, target.as_slice()) {
        Some(path) => Step::Lookup { path, target },
        None => Step::Respond(owned(NOT_FOUND)),
    }
}


/// Whether `found` is small enough to be answered: an image's base64 text and
/// each listed root-relative path must fit in memory.
pub open spec fn fits(target: Seq<u8>, found: &Found) -> bool {
    match found {
        Found::File(Some(c)) => c@.len() <= usize::MAX / 2,
        Found::Directory(Some(n)) => forall|i: int|
            0 <= i < n@.len() ==> target.len() + (#[trigger] n@[i])@.len() + 1 <= usize::MAX,
        _ => true,
    }
}

/// Last step of serving a request: the response for the resolved `path` (of
/// the root-relative `target`), given what looking it up found.
pub fn complete(path: &[u8], target: &[u8], found: &Found) -> (r: Vec<u8>)
    requires
        fits(target@, found),
    ensures
        r@ == found_response(path@, target@, found@),
{
    match found {
        Found::Missing => owned(NOT_FOUND),
        Found::File(c) => {
            let contents = match c {
                Some(c) => Some(c.as_slice()),
                None => None,
            };
            build_response(OK_STATUS, path, contents)
        },
        Found::Directory(n) => {
            let names = match n {
                Some(n) => Some(n),
                None => None,
            };
            build_listing(OK_STATUS, target, names)
        },
    }
}

/// A target that would leave the root is answered as not found, whatever the
/// filesystem holds at the path it names.
pub proof fn lemma_escape_is_not_found(root: Seq<u8>, request: Seq<u8>, found: Lookup)
    requires
        request_target(request) matches Some(t) && !is_confined(t),
    ensures
        response_to(root, request, found) == NOT_FOUND.spec_bytes(),
{
}

/// The same request against the same filesystem gets the same response.
pub proof fn lemma_same_request_same_response(
    root: Seq<u8>,
    request: Seq<u8>,
    found1: Lookup,
    found2: Lookup,
)
    requires
        found1 == found2,
    ensures
        response_to(root, request, found1) == response_to(root, request, found2),
{
}

/// The empty target names the root itself, and its listing links each child
/// by its bare name.
pub proof fn lemma_root_listing(root: Seq<u8>, request: Seq<u8>, names: Seq<Seq<u8>>)
    requires
        request_target(request) == Some(Seq::<u8>::empty()),
    ensures
        resolved_path(root, Seq::empty()) == Some(root),
        response_to(root, request, Lookup::Directory(Some(names))) == listing_response(
            OK_STATUS.spec_bytes(),
            Seq::empty(),
            Some(names),
        ),
        forall|i: int|
            0 <= i < names.len() ==> join_path(Seq::empty(), #[trigger] names[i]) == names[i],
{
    assert(is_confined(Seq::<u8>::empty()));
    assert(join_path(root, Seq::empty()) == root);
}

} // verus!
