//! The serving front: the bearer check, the bundle endpoint with its
//! conditional answer, and the answer to every other path.

use crate::bundle::{digest, lemma_revision_text};
use crate::condition::{
    holds_current, holds_current_tag, lemma_list_header, lemma_one_tag_header, list_header,
    names, parse_condition, ConditionView,
};
use crate::etag::{is_opaque, strong_eq, tag_text, EntityTag, EntityTagView};
use crate::store::{consistent, BundleFile, BundleFileView};
use crate::text::ascii_bytes;
use vstd::pervasive::unreached;
use vstd::prelude::*;
use vstd::slice::slice_to_vec;
use vstd::string::*;
use vstd::utf8::encode_utf8_decode_utf8;

verus! {

/// The status of a response.
#[derive(Clone, Copy, Debug, PartialEq, Eq, Structural)]
pub enum Status {
    Success,
    NotModified,
    Unauthorized,
    NotFound,
    MethodNotAllowed,
}

/// The number of a status on the wire.
pub open spec fn status_code(status: Status) -> u16 {
    match status {
        Status::Success => 200,
        Status::NotModified => 304,
        Status::Unauthorized => 401,
        Status::NotFound => 404,
        Status::MethodNotAllowed => 405,
    }
}

impl Status {
    /// The number of the status on the wire.
    pub fn code(&self) -> (code: u16)
        ensures
            code == status_code(*self),
    {
        match self {
            Status::Success => 200,
            Status::NotModified => 304,
            Status::Unauthorized => 401,
            Status::NotFound => 404,
            Status::MethodNotAllowed => 405,
        }
    }
}

/// Where a request is routed.
#[derive(Clone, Copy, Debug, PartialEq, Eq, Structural)]
pub enum Route {
    /// A request to get the bundle.
    Bundle,
    /// A request to the path of the bundle with a method other than get.
    OtherMethod,
    /// A request to any other path.
    Other,
}

/// A response: its status, the entity tag it carries if any, and its body if
/// it has one, borrowed from the pair it was made for.
pub struct Response<'a> {
    pub status: Status,
    pub etag: Option<EntityTag>,
    pub body: Option<&'a [u8]>,
}

/// What a response is, for contracts.
pub struct ResponseView {
    pub status: Status,
    pub etag: Option<EntityTagView>,
    pub body: Seq<u8>,
}

impl<'a> View for Response<'a> {
    type V = ResponseView;

    open spec fn view(&self) -> ResponseView {
        ResponseView {
            status: self.status,
            etag: match self.etag {
                Some(tag) => Some(tag@),
                None => None,
            },
            body: match self.body {
                Some(bytes) => bytes@,
                None => Seq::empty(),
            },
        }
    }
}

/// The entity tag of a revision: the strong tag with the revision between
/// its quotes.
pub open spec fn current_tag(revision: Seq<char>) -> EntityTagView {
    EntityTagView { weak: false, opaque: ascii_bytes(revision) }
}

/// The answer of the bundle endpoint for the current pair and the
/// `If-None-Match` header of the request: not modified, with an empty body,
/// when the header names the current tag; the whole archive otherwise. Both
/// carry the current tag.
pub open spec fn bundle_response(current: BundleFileView, header: Option<Seq<u8>>) -> ResponseView {
    let tag = current_tag(current.bundle.revision);
    if holds_current(header, tag) {
        ResponseView { status: Status::NotModified, etag: Some(tag), body: Seq::empty() }
    } else {
        ResponseView { status: Status::Success, etag: Some(tag), body: current.file }
    }
}

/// The answer to a path that is not routed: not found, without tag or body.
pub open spec fn not_found() -> ResponseView {
    ResponseView { status: Status::NotFound, etag: None, body: Seq::empty() }
}

/// The answer to another method on the path of the bundle: method not
/// allowed, without tag or body.
pub open spec fn method_not_allowed() -> ResponseView {
    ResponseView { status: Status::MethodNotAllowed, etag: None, body: Seq::empty() }
}

/// The answer to a request that fails the bearer check: unauthorized, without tag
/// or body.
pub open spec fn unauthorized() -> ResponseView {
    ResponseView { status: Status::Unauthorized, etag: None, body: Seq::empty() }
}

/// The bearer check: without a configured secret every request passes; with one,
/// only a request that presents exactly that secret.
pub open spec fn allowed(secret: Option<Seq<char>>, presented: Option<Seq<char>>) -> bool {
    match secret {
        None => true,
        Some(wanted) => presented == Some(wanted),
    }
}

/// The answer of the serving front: the bearer check first, then the route.
pub open spec fn front_response(
    secret: Option<Seq<char>>,
    presented: Option<Seq<char>>,
    route: Route,
    current: BundleFileView,
    header: Option<Seq<u8>>,
) -> ResponseView {
    if !allowed(secret, presented) {
        unauthorized()
    } else {
        match route {
            Route::Bundle => bundle_response(current, header),
            Route::OtherMethod => method_not_allowed(),
            Route::Other => not_found(),
        }
    }
}

/// The view of an optional text.
pub open spec fn text_view(text: Option<&str>) -> Option<Seq<char>> {
    match text {
        Some(t) => Some(t@),
        None => None,
    }
}

/// The view of an optional header value.
pub open spec fn value_view(value: Option<&[u8]>) -> Option<Seq<u8>> {
    match value {
        Some(v) => Some(v@),
        None => None,
    }
}

/// Whether two texts are the same. Texts of one length are compared to
/// their end, wherever they first differ.
fn same_text(a: &str, b: &str) -> (same: bool)
    ensures
        same == (a@ == b@),
{
    proof {
        encode_utf8_decode_utf8(a@);
        encode_utf8_decode_utf8(b@);
    }
    let a = a.as_bytes();
    let b = b.as_bytes();
    if a.len() != b.len() {
        return false;
    }
    let mut same = true;
    let mut i: usize = 0;
    while i < a.len()
        invariant
            i <= a@.len() == b@.len(),
            same == (forall|k: int| 0 <= k < i ==> a@[k] == b@[k]),
        decreases a.len() - i,
    {
        if a[i] != b[i] {
            same = false;
        }
        i += 1;
    }
    assert(same == (a@ =~= b@));
    same
}

/// The bearer check: whether a request that presents `presented` passes when
/// `secret` is configured.
pub fn authorize(secret: Option<&str>, presented: Option<&str>) -> (pass: bool)
    ensures
        pass == allowed(text_view(secret), text_view(presented)),
{
    match secret {
        None => true,
        Some(wanted) => match presented {
            None => false,
            Some(given) => same_text(given, wanted),
        },
    }
}

/// The entity tag of the current pair: its revision in quotes.
pub fn etag(current: &BundleFile) -> (tag: EntityTag)
    ensures
        tag@ == current_tag(current@.bundle.revision),
        is_opaque(tag@.opaque),
{
    let revision = current.bundle().revision();
    proof {
        let bundle = current@.bundle;
        lemma_revision_text(
            digest(bundle.metadata, bundle.proposals, bundle.sessions, bundle.permissions),
        );
        is_ascii_spec_bytes(revision);
    }
    let opaque = slice_to_vec(revision.as_bytes());
    assert(opaque@ =~= ascii_bytes(revision@));
    match EntityTag::strong(opaque) {
        Some(tag) => tag,
        None => unreached(),
    }
}

/// Answers a request for the bundle.
pub fn bundle_endpoint<'a>(
    current: &'a BundleFile,
    if_none_match: Option<&[u8]>,
) -> (response: Response<'a>)
    ensures
        response@ == bundle_response(current@, value_view(if_none_match)),
{
    let tag = etag(current);
    let file = current.file();
    if holds_current_tag(if_none_match, &tag) {
        Response { status: Status::NotModified, etag: Some(tag), body: None }
    } else {
        Response { status: Status::Success, etag: Some(tag), body: Some(file) }
    }
}

/// Answers a request for any other path.
pub fn fallback_endpoint() -> (response: Response<'static>)
    ensures
        response@ == not_found(),
{
    Response { status: Status::NotFound, etag: None, body: None }
}

/// Answers a request to the path of the bundle with another method than get.
pub fn method_endpoint() -> (response: Response<'static>)
    ensures
        response@ == method_not_allowed(),
{
    Response { status: Status::MethodNotAllowed, etag: None, body: None }
}

/// Answers a request: rejects it when the bearer check does, and otherwise routes
/// it.
pub fn serve<'a>(
    secret: Option<&str>,
    presented: Option<&str>,
    route: Route,
    current: &'a BundleFile,
    if_none_match: Option<&[u8]>,
) -> (response: Response<'a>)
    ensures
        response@ == front_response(
            text_view(secret),
            text_view(presented),
            route,
            current@,
            value_view(if_none_match),
        ),
{
    if !authorize(secret, presented) {
        return Response { status: Status::Unauthorized, etag: None, body: None };
    }
    match route {
        Route::Bundle => bundle_endpoint(current, if_none_match),
        Route::OtherMethod => method_endpoint(),
        Route::Other => fallback_endpoint(),
    }
}

/// The conditional request, for every consistent pair: a request that sends
/// the current tag is answered "not modified" with an empty body; a request
/// that sends no header, or one other tag that is not the current tag by the
/// strong comparison, is answered with the whole archive. Every one of these
/// answers carries the current tag.
pub proof fn lemma_conditional_get(current: BundleFileView, other: EntityTagView)
    requires
        consistent(current),
        is_opaque(other.opaque),
    ensures
        bundle_response(current, Some(tag_text(current_tag(current.bundle.revision))))
            == (ResponseView {
            status: Status::NotModified,
            etag: Some(current_tag(current.bundle.revision)),
            body: Seq::empty(),
        }),
        bundle_response(current, None) == (ResponseView {
            status: Status::Success,
            etag: Some(current_tag(current.bundle.revision)),
            body: current.file,
        }),
        !strong_eq(other, current_tag(current.bundle.revision)) ==> bundle_response(
            current,
            Some(tag_text(other)),
        ) == (ResponseView {
            status: Status::Success,
            etag: Some(current_tag(current.bundle.revision)),
            body: current.file,
        }),
{
    let bundle = current.bundle;
    let tag = current_tag(bundle.revision);
    lemma_revision_text(
        digest(bundle.metadata, bundle.proposals, bundle.sessions, bundle.permissions),
    );
    lemma_one_tag_header(tag, tag);
    lemma_one_tag_header(other, tag);
}

/// The conditional request with a list of tags, for every pair: when one of the listed tags is the current tag by the strong comparison,
/// the answer is "not modified" with an empty body; when none is, the answer
/// is the whole archive.
pub proof fn lemma_conditional_list(current: BundleFileView, tags: Seq<EntityTagView>)
    requires
        tags.len() > 0,
        forall|i: int| 0 <= i < tags.len() ==> is_opaque((#[trigger] tags[i]).opaque),
    ensures
        (exists|i: int|
            0 <= i < tags.len() && strong_eq(
                #[trigger] tags[i],
                current_tag(current.bundle.revision),
            )) ==> bundle_response(current, Some(list_header(tags))) == (ResponseView {
            status: Status::NotModified,
            etag: Some(current_tag(current.bundle.revision)),
            body: Seq::empty(),
        }),
        (forall|i: int|
            0 <= i < tags.len() ==> !strong_eq(
                #[trigger] tags[i],
                current_tag(current.bundle.revision),
            )) ==> bundle_response(current, Some(list_header(tags))) == (ResponseView {
            status: Status::Success,
            etag: Some(current_tag(current.bundle.revision)),
            body: current.file,
        }),
{
    let tag = current_tag(current.bundle.revision);
    lemma_list_header(tags, tag);
    let condition = ConditionView::Tags(tags);
    assert(condition->Tags_0 == tags);
    if exists|i: int| 0 <= i < tags.len() && strong_eq(#[trigger] tags[i], tag) {
        let i = choose|i: int| 0 <= i < tags.len() && strong_eq(#[trigger] tags[i], tag);
        assert(strong_eq(condition->Tags_0[i], tag));
        assert(names(condition, tag));
    }
}

/// A header that is malformed is treated as no header at all.
pub proof fn lemma_malformed_header(current: BundleFileView, value: Seq<u8>)
    requires
        parse_condition(value) is None,
    ensures
        bundle_response(current, Some(value)) == bundle_response(current, None),
{
}

/// The bearer check, for every request: with a secret configured, a request
/// that presents no secret or another one is answered "unauthorized",
/// without a tag and without a byte of the archive; without a secret
/// configured, every request is answered by its route.
pub proof fn lemma_bearer_check(
    secret: Option<Seq<char>>,
    presented: Option<Seq<char>>,
    route: Route,
    current: BundleFileView,
    header: Option<Seq<u8>>,
)
    ensures
        secret is Some && presented != secret ==> front_response(
            secret,
            presented,
            route,
            current,
            header,
        ) == (ResponseView { status: Status::Unauthorized, etag: None, body: Seq::empty() }),
        secret is None ==> front_response(secret, presented, route, current, header) == (match route {
            Route::Bundle => bundle_response(current, header),
            Route::OtherMethod => method_not_allowed(),
            Route::Other => not_found(),
        }),
{
}

} // verus!
