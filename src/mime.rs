use vstd::prelude::*;
use vstd::string::StringSliceAdditionalSpecFns;

use vstd::slice::slice_subrange;

use crate::bytes::bytes_eq;

verus! {

/// Index of the last occurrence of `c` in `s`, or -1 where `c` does not occur.
pub open spec fn last_index_of(s: Seq<u8>, c: u8) -> int
    decreases s.len(),
{
    if s.len() == 0 {
        -1
    } else if s.last() == c {
        s.len() - 1
    } else {
        last_index_of(s.drop_last(), c)
    }
}

/// The last segment of a path: what follows its last `/`.
pub open spec fn file_name_of(path: Seq<u8>) -> Seq<u8> {
    path.subrange(last_index_of(path, 0x2f) + 1, path.len() as int)
}

/// The extension of a path: what follows the last `.` of its last segment,
/// where that `.` is not the segment's first byte; empty where there is none.
pub open spec fn extension_of(path: Seq<u8>) -> Seq<u8> {
    let name = file_name_of(path);
    let dot = last_index_of(name, 0x2e);
    if dot > 0 {
        name.subrange(dot + 1, name.len() as int)
    } else {
        Seq::empty()
    }
}

pub proof fn lemma_last_index_of_bounds(s: Seq<u8>, c: u8)
    ensures
        -1 <= last_index_of(s, c) < s.len(),
        last_index_of(s, c) >= 0 ==> s[last_index_of(s, c)] == c,
        forall|j: int| last_index_of(s, c) < j < s.len() ==> s[j] != c,
    decreases s.len(),
{
    if s.len() > 0 && s.last() != c {
        lemma_last_index_of_bounds(s.drop_last(), c);
        assert forall|j: int| last_index_of(s, c) < j < s.len() implies s[j] != c by {
            if j < s.len() - 1 {
                assert(s[j] == s.drop_last()[j]);
            }
        }
    }
}

/// Finds the last occurrence of `c` in `s`.
pub fn last_index(s: &[u8], c: u8) -> (r: Option<usize>)
    ensures
        match r {
            Some(i) => i as int == last_index_of(s@, c),
            None => last_index_of(s@, c) == -1,
        },
{
    let mut i: usize = s.len();
    assert(s@.subrange(0, i as int) =~= s@);
    while i > 0
        invariant
            i <= s@.len(),
            last_index_of(s@, c) == last_index_of(s@.subrange(0, i as int), c),
        decreases i,
    {
        let ghost pre = s@.subrange(0, i as int);
        if s[i - 1] == c {
            return Some(i - 1);
        }
        assert(pre.drop_last() =~= s@.subrange(0, i - 1));
        i -= 1;
    }
    None
}

/// The extension of `path` (see [`extension_of`]).
pub fn extension(path: &[u8]) -> (r: &[u8])
    ensures
        r@ == extension_of(path@),
{
    proof {
        lemma_last_index_of_bounds(path@, 0x2f);
    }
    let start: usize = match last_index(path, 0x2f) {
        Some(i) => {
            assert(i < path@.len());
            i + 1
        },
        None => 0,
    };
    let name = slice_subrange(path, start, path.len());
    assert(name@ == file_name_of(path@));
    proof {
        lemma_last_index_of_bounds(name@, 0x2e);
    }
    match last_index(name, 0x2e) {
        Some(d) => {
            if d > 0 {
                slice_subrange(name, d + 1, name.len())
            } else {
                slice_subrange(name, 0, 0)
            }
        },
        None => slice_subrange(name, 0, 0),
    }
}

/// The MIME type served for files with extension `ext`.
pub open spec fn mime_of(ext: Seq<u8>) -> Seq<u8> {
    if ext == "html".spec_bytes() {
        "text/html".spec_bytes()
    } else if ext == "css".spec_bytes() {
        "text/css".spec_bytes()
    } else if ext == "js".spec_bytes() {
        "application/javascript".spec_bytes()
    } else if ext == "json".spec_bytes() {
        "application/json".spec_bytes()
    } else if ext == "png".spec_bytes() {
        "image/png".spec_bytes()
    } else if ext == "jpeg".spec_bytes() {
        "image/jpeg".spec_bytes()
    } else if ext == "jpg".spec_bytes() {
        "image/jpeg".spec_bytes()
    } else if ext == "mp4".spec_bytes() {
        "video/mp4".spec_bytes()
    } else if ext == "mkv".spec_bytes() {
        "video/x-matroska".spec_bytes()
    } else if ext == "pdf".spec_bytes() {
        "application/pdf".spec_bytes()
    } else if ext == "doc".spec_bytes() {
        "application/msword".spec_bytes()
    } else if ext == "docx".spec_bytes() {
        "application/vnd.openxmlformats-officedocument.wordprocessingml.document".spec_bytes()
    } else if ext == "xls".spec_bytes() {
        "application/vnd.ms-excel".spec_bytes()
    } else if ext == "xlsx".spec_bytes() {
        "application/vnd.openxmlformats-officedocument.spreadsheetml.sheet".spec_bytes()
    } else if ext == "ppt".spec_bytes() {
        "application/vnd.ms-powerpoint".spec_bytes()
    } else if ext == "pptx".spec_bytes() {
        "application/vnd.openxmlformats-officedocument.presentationml.presentation".spec_bytes()
    } else if ext == "zip".spec_bytes() {
        "application/zip".spec_bytes()
    } else if ext == "rar".spec_bytes() {
        "application/x-rar-compressed".spec_bytes()
    } else if ext == "tar".spec_bytes() {
        "application/x-tar".spec_bytes()
    } else if ext == "gz".spec_bytes() {
        "application/gzip".spec_bytes()
    } else if ext == "gif".spec_bytes() {
        "image/gif".spec_bytes()
    } else if ext == "txt".spec_bytes() {
        "text/plain".spec_bytes()
    } else if ext == "py".spec_bytes() {
        "text/x-python".spec_bytes()
    } else {
        "application/octet-stream".spec_bytes()
    }
}

/// Whether `ext` is one of the extensions with a MIME type of its own.
pub open spec fn is_known_extension(ext: Seq<u8>) -> bool {
    ext == "html".spec_bytes()
        || ext == "css".spec_bytes()
        || ext == "js".spec_bytes()
        || ext == "json".spec_bytes()
        || ext == "png".spec_bytes()
        || ext == "jpeg".spec_bytes()
        || ext == "jpg".spec_bytes()
        || ext == "mp4".spec_bytes()
        || ext == "mkv".spec_bytes()
        || ext == "pdf".spec_bytes()
        || ext == "doc".spec_bytes()
        || ext == "docx".spec_bytes()
        || ext == "xls".spec_bytes()
        || ext == "xlsx".spec_bytes()
        || ext == "ppt".spec_bytes()
        || ext == "pptx".spec_bytes()
        || ext == "zip".spec_bytes()
        || ext == "rar".spec_bytes()
        || ext == "tar".spec_bytes()
        || ext == "gz".spec_bytes()
        || ext == "gif".spec_bytes()
        || ext == "txt".spec_bytes()
        || ext == "py".spec_bytes()
}

/// The MIME type of the file at `path`, from its extension alone.
pub fn mime_type(path: &[u8]) -> (r: &'static str)
    ensures
        r.spec_bytes() == mime_of(extension_of(path@)),
{
    let ext = extension(path);
    if bytes_eq(ext, "html".as_bytes()) {
        "text/html"
    } else if bytes_eq(ext, "css".as_bytes()) {
        "text/css"
    } else if bytes_eq(ext, "js".as_bytes()) {
        "application/javascript"
    } else if bytes_eq(ext, "json".as_bytes()) {
        "application/json"
    } else if bytes_eq(ext, "png".as_bytes()) {
        "image/png"
    } else if bytes_eq(ext, "jpeg".as_bytes()) {
        "image/jpeg"
    } else if bytes_eq(ext, "jpg".as_bytes()) {
        "image/jpeg"
    } else if bytes_eq(ext, "mp4".as_bytes()) {
        "video/mp4"
    } else if bytes_eq(ext, "mkv".as_bytes()) {
        "video/x-matroska"
    } else if bytes_eq(ext, "pdf".as_bytes()) {
        "application/pdf"
    } else if bytes_eq(ext, "doc".as_bytes()) {
        "application/msword"
    } else if bytes_eq(ext, "docx".as_bytes()) {
        "application/vnd.openxmlformats-officedocument.wordprocessingml.document"
    } else if bytes_eq(ext, "xls".as_bytes()) {
        "application/vnd.ms-excel"
    } else if bytes_eq(ext, "xlsx".as_bytes()) {
        "application/vnd.openxmlformats-officedocument.spreadsheetml.sheet"
    } else if bytes_eq(ext, "ppt".as_bytes()) {
        "application/vnd.ms-powerpoint"
    } else if bytes_eq(ext, "pptx".as_bytes()) {
        "application/vnd.openxmlformats-officedocument.presentationml.presentation"
    } else if bytes_eq(ext, "zip".as_bytes()) {
        "application/zip"
    } else if bytes_eq(ext, "rar".as_bytes()) {
        "application/x-rar-compressed"
    } else if bytes_eq(ext, "tar".as_bytes()) {
        "application/x-tar"
    } else if bytes_eq(ext, "gz".as_bytes()) {
        "application/gzip"
    } else if bytes_eq(ext, "gif".as_bytes()) {
        "image/gif"
    } else if bytes_eq(ext, "txt".as_bytes()) {
        "text/plain"
    } else if bytes_eq(ext, "py".as_bytes()) {
        "text/x-python"
    } else {
        "application/octet-stream"
    }
}

/// The MIME type of a file depends on its extension alone, and a file whose
/// extension has no type of its own is served as generic binary data.
pub proof fn lemma_mime_by_extension(p: Seq<u8>, q: Seq<u8>)
    ensures
        extension_of(p) == extension_of(q) ==> mime_of(extension_of(p)) == mime_of(extension_of(q)),
        !is_known_extension(extension_of(p)) ==> mime_of(extension_of(p))
            == "application/octet-stream".spec_bytes(),
{
}

} // verus!
