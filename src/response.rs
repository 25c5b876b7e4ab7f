use vstd::prelude::*;
use vstd::string::StringSliceAdditionalSpecFns;

use crate::bytes::{push_bytes, push_str};
use crate::codec::{base64_of, encode_base64};
use crate::mime::{extension_of, mime_of, mime_type};
use crate::path::{join, join_path};

verus! {

/// The status line of every successful response.
pub const OK_STATUS: &'static str = "HTTP/1.1 200 OK\r\n";

/// The whole response for a target that does not resolve to a file or a directory.
pub const NOT_FOUND: &'static str = "HTTP/1.1 404 Not Found\r\n\r\n";

/// The whole response for a request whose first line names no target.
pub const BAD_REQUEST: &'static str = "HTTP/1.1 400 Bad Request\r\n\r\n";

/// The whole response where a text file or a directory could not be read.
pub const SERVER_ERROR: &'static str = "HTTP/1.1 500 Internal Server Error\r\n\r\n";

/// The listing page up to its entries.
pub const LISTING_HEAD: &'static str = "
        <!DOCTYPE html>
        <html>
            <head>
                <meta http-equiv='content-type' content='text/html; charset=utf-8' />
                <meta name='viewport' content='width=device-width, initial-scale=1'>
                <title>Directory Listing</title>
                <style type='text/css' media='all'>
                    *{
                        margin: 0;
                        padding: 0;
                    }
                    body {
                      background-color: #595260;
                      color: #ffffff;
                    }
                    header{
                        background: #2C2E43;
                        padding: 10px;
                        font-size: 1em;
                        font-weight: 600;
                        color: #FFD523;
                        box-shadow: 0 3px 10px rgba(0,0,0,0.2);
                        position: sticky;
                        top: 0;
                        text-align: center;
                    }
                    .list{
                        list-style: none;
                        height: 100%;
                        overflow-y: auto;
                        scroll-behavior: smooth;
                        display: flex;
                        flex-direction: column;
                    }
                    .listItem{
                        height: 40px;
                        background: #595260;
                        border: none;
                        border-bottom: 1px solid #B2B1B9;
                        padding: 10px;
                        display: flex;
                        align-items: center;
                        transition: all 0.3s ease-in-out;
                        cursor: pointer;
                        text-decoration: none;
                        color: #ffffff;
                    }
                    .listItem:hover{
                        background: #FFD523;
                    }
                </style>
            </head>
            <body>
                <header>
                    <h1>Directory Listing</h1>
                </header>
                <div class='list'>
                ";

/// The listing page after its entries.
pub const LISTING_TAIL: &'static str = "
                </div>
            </body>
        </html>
        ";

/// A response with a status line, a `Content-Type` header and a body.
pub open spec fn framed(status: Seq<u8>, mime: Seq<u8>, body: Seq<u8>) -> Seq<u8> {
    status + "Content-Type: ".spec_bytes() + mime + "\r\n\r\n".spec_bytes() + body
}

/// Frames `body` under `status_line` with content type `mime`.
pub fn frame(status_line: &str, mime: &str, body: &[u8]) -> (r: Vec<u8>)
    ensures
        r@ == framed(status_line.spec_bytes(), mime.spec_bytes(), body@),
{
    let mut out: Vec<u8> = Vec::new();
    push_str(&mut out, status_line);
    push_str(&mut out, "Content-Type: ");
    push_str(&mut out, mime);
    push_str(&mut out, "\r\n\r\n");
    push_bytes(&mut out, body);
    assert(out@ =~= framed(status_line.spec_bytes(), mime.spec_bytes(), body@));
    out
}


/// The page that embeds an image of type `mime` whose base64 text is `data`.
pub open spec fn image_body(mime: Seq<u8>, data: Seq<u8>) -> Seq<u8> {
    "<img src='data:".spec_bytes() + mime + ";base64,".spec_bytes() + data + "' />".spec_bytes()
}

/// Whether `mime` names an image type.
pub open spec fn is_image_mime(mime: Seq<u8>) -> bool {
    let p = "image/".spec_bytes();
    mime.len() >= p.len() && mime.subrange(0, p.len() as int) == p
}

/// Whether `mime` names an image type (see [`is_image_mime`]).
pub fn is_image(mime: &str) -> (r: bool)
    ensures
        r == is_image_mime(mime.spec_bytes()),
{
    let m = mime.as_bytes();
    let p = "image/".as_bytes();
    if m.len() < p.len() {
        return false;
    }
    let mut i: usize = 0;
    while i < p.len()
        invariant
            i <= p@.len(),
            p@.len() <= m@.len(),
            p@ == "image/".spec_bytes(),
            m@ == mime.spec_bytes(),
            forall|j: int| 0 <= j < i ==> m@[j] == p@[j],
        decreases p@.len() - i,
    {
        if m[i] != p[i] {
            assert(m@.subrange(0, p@.len() as int)[i as int] != p@[i as int]);
            return false;
        }
        i += 1;
    }
    assert(m@.subrange(0, p@.len() as int) =~= p@);
    true
}

/// Whether the file at `path` is served as an embedded image, and so is read
/// as raw bytes rather than as text.
pub open spec fn is_image_path(path: Seq<u8>) -> bool {
    is_image_mime(mime_of(extension_of(path)))
}

/// Whether the file at `path` is served as an embedded image.
pub fn reads_as_image(path: &[u8]) -> (r: bool)
    ensures
        r == is_image_path(path@),
{
    is_image(mime_type(path))
}

/// The response that embeds an image of type `mime`, given its base64 text.
pub fn image_response(status_line: &str, mime: &str, encoded: &[u8]) -> (r: Vec<u8>)
    ensures
        r@ == framed(
            status_line.spec_bytes(),
            "text/html".spec_bytes(),
            image_body(mime.spec_bytes(), encoded@),
        ),
{
    let mut body: Vec<u8> = Vec::new();
    push_str(&mut body, "<img src='data:");
    push_str(&mut body, mime);
    push_str(&mut body, ";base64,");
    push_bytes(&mut body, encoded);
    push_str(&mut body, "' />");
    assert(body@ =~= image_body(mime.spec_bytes(), encoded@));
    frame(status_line, "text/html", body.as_slice())
}

/// The response for the regular file at `path`, given what reading it gave:
/// its bytes, or None where the read failed. An image is embedded as base64
/// in an HTML page and an unreadable one gives an empty page; any other file
/// is sent as it is, under its own MIME type, and an unreadable one gives a
/// server error.
pub open spec fn file_response(status: Seq<u8>, path: Seq<u8>, contents: Option<Seq<u8>>) -> Seq<
    u8,
> {
    let mime = mime_of(extension_of(path));
    if is_image_mime(mime) {
        match contents {
            Some(c) => framed(status, "text/html".spec_bytes(), image_body(mime, base64_of(c))),
            None => framed(status, "text/html".spec_bytes(), Seq::empty()),
        }
    } else {
        match contents {
            Some(c) => framed(status, mime, c),
            None => SERVER_ERROR.spec_bytes(),
        }
    }
}

/// Builds the response for the regular file at `path` (see [`file_response`]).
pub fn build_response(status_line: &str, path: &[u8], contents: Option<&[u8]>) -> (r: Vec<u8>)
    requires
        contents matches Some(c) ==> c@.len() <= usize::MAX / 2,
    ensures
        r@ == file_response(
            status_line.spec_bytes(),
            path@,
            match contents {
                Some(c) => Some(c@),
                None => None,
            },
        ),
{
    let mime = mime_type(path);
    if is_image(mime) {
        match contents {
            Some(c) => {
                let encoded = encode_base64(c);
                image_response(status_line, mime, encoded.as_slice())
            },
            None => frame(status_line, "text/html", &[]),
        }
    } else {
        match contents {
            Some(c) => frame(status_line, mime, c),
            None => {
                let mut out: Vec<u8> = Vec::new();
                push_str(&mut out, SERVER_ERROR);
                assert(out@ =~= SERVER_ERROR.spec_bytes());
                out
            },
        }
    }
}

/// One entry of a listing: a link to `/rel` whose text is `rel`.
pub open spec fn anchor(rel: Seq<u8>) -> Seq<u8> {
    "<a class='listItem' href='/".spec_bytes() + rel + "'>".spec_bytes() + rel + "</a>".spec_bytes()
}

/// The entries of the listing of directory `target` whose children are
/// `names`, in that order, each linked by its root-relative path.
pub open spec fn anchors(target: Seq<u8>, names: Seq<Seq<u8>>) -> Seq<u8>
    decreases names.len(),
{
    if names.len() == 0 {
        Seq::empty()
    } else {
        anchors(target, names.drop_last()) + anchor(join_path(target, names.last()))
    }
}

/// The listing page around `entries`.
pub open spec fn listing_page(entries: Seq<u8>) -> Seq<u8> {
    LISTING_HEAD.spec_bytes() + entries + LISTING_TAIL.spec_bytes()
}

/// The views of a list of names.
pub open spec fn names_view(names: Seq<Vec<u8>>) -> Seq<Seq<u8>> {
    names.map_values(|n: Vec<u8>| n@)
}

/// The response for the directory `target`, given the names of its children
/// in the order the filesystem gave them, or None where they could not be
/// read.
pub open spec fn listing_response(status: Seq<u8>, target: Seq<u8>, names: Option<Seq<Seq<u8>>>) -> Seq<u8> {
    match names {
        Some(n) => framed(status, "text/html".spec_bytes(), listing_page(anchors(target, n))),
        None => SERVER_ERROR.spec_bytes(),
    }
}

/// Builds the listing response for the directory `target` (see [`listing_response`]).
pub fn build_listing(status_line: &str, target: &[u8], names: Option<&Vec<Vec<u8>>>) -> (r: Vec<u8>)
    requires
        names matches Some(n) ==> forall|i: int|
            0 <= i < n@.len() ==> target@.len() + (#[trigger] n@[i])@.len() + 1 <= usize::MAX,
    ensures
        r@ == listing_response(
            status_line.spec_bytes(),
            target@,
            match names {
                Some(n) => Some(names_view(n@)),
                None => None,
            },
        ),
{
    let names = match names {
        Some(n) => n,
        None => {
            let mut out: Vec<u8> = Vec::new();
            push_str(&mut out, SERVER_ERROR);
            assert(out@ =~= SERVER_ERROR.spec_bytes());
            return out;
        },
    };
    let mut body: Vec<u8> = Vec::new();
    push_str(&mut body, LISTING_HEAD);
    let ghost head = body@;
    let mut i: usize = 0;
    while i < names.len()
        invariant
            i <= names@.len(),
            head == LISTING_HEAD.spec_bytes(),
            forall|j: int|
                0 <= j < names@.len() ==> target@.len() + (#[trigger] names@[j])@.len() + 1
                    <= usize::MAX,
            body@ == head + anchors(target@, names_view(names@).subrange(0, i as int)),
        decreases names@.len() - i,
    {
        let rel = join(target, names[i].as_slice());
        let ghost before = body@;
        push_str(&mut body, "<a class='listItem' href='/");
        push_bytes(&mut body, rel.as_slice());
        push_str(&mut body, "'>");
        push_bytes(&mut body, rel.as_slice());
        push_str(&mut body, "</a>");
        proof {
            let nv = names_view(names@);
            let s = nv.subrange(0, i + 1);
            assert(s.drop_last() =~= nv.subrange(0, i as int));
            assert(s.last() == names@[i as int]@);
            assert(body@ =~= before + anchor(rel@));
        }
        i += 1;
    }
    push_str(&mut body, LISTING_TAIL);
    assert(names_view(names@).subrange(0, i as int) =~= names_view(names@));
    assert(body@ =~= listing_page(anchors(target@, names_view(names@))));
    frame(status_line, "text/html", body.as_slice())
}


proof fn lemma_anchors_concat(target: Seq<u8>, a: Seq<Seq<u8>>, b: Seq<Seq<u8>>)
    ensures
        anchors(target, a + b) == anchors(target, a) + anchors(target, b),
    decreases b.len(),
{
    if b.len() == 0 {
        assert(a + b =~= a);
        assert(anchors(target, a) + anchors(target, b) =~= anchors(target, a));
    } else {
        assert((a + b).drop_last() =~= a + b.drop_last());
        lemma_anchors_concat(target, a, b.drop_last());
        assert(anchors(target, a + b) =~= anchors(target, a) + anchors(target, b));
    }
}

/// A listing holds one entry per child, in the order given: the entries
/// before child `i`, then a link to `/` followed by child `i`'s root-relative
/// path with that same path as its text, then the entries after it.
pub proof fn lemma_one_anchor_per_child(target: Seq<u8>, names: Seq<Seq<u8>>, i: int)
    requires
        0 <= i < names.len(),
    ensures
        anchors(target, names) == anchors(target, names.subrange(0, i)) + anchor(
            join_path(target, names[i]),
        ) + anchors(target, names.subrange(i + 1, names.len() as int)),
{
    let pre = names.subrange(0, i);
    let post = names.subrange(i + 1, names.len() as int);
    let one = seq![names[i]];
    assert(names =~= pre + one + post);
    lemma_anchors_concat(target, pre + one, post);
    lemma_anchors_concat(target, pre, one);
    assert(one.drop_last() =~= Seq::<Seq<u8>>::empty());
    assert(one.last() == names[i]);
    assert(anchors(target, one.drop_last()) =~= Seq::<u8>::empty());
    assert(anchors(target, one) =~= anchor(join_path(target, names[i])));
}


/// An image file's response embeds exactly the base64 encoding of the bytes
/// read from it, under the image's own MIME type, in an HTML page.
pub proof fn lemma_image_embeds_encoding(status: Seq<u8>, path: Seq<u8>, contents: Seq<u8>)
    requires
        is_image_path(path),
    ensures
        file_response(status, path, Some(contents)) == framed(
            status,
            "text/html".spec_bytes(),
            image_body(mime_of(extension_of(path)), base64_of(contents)),
        ),
{
}

} // verus!
