//! Static file serving: which file a request path stands for, and what to answer
//! once it has been read.

use crate::auth::{sha256, sha256_digest};
use crate::http::{PylonResponse, ResponseView, error_response, header_texts};
use crate::percent::{clean, decode, decoded, escapes_all, law_decoding_undoes_escaping};
use crate::text::{cat2, cat3, cat4, chars_of, decimal, decimal_text, only, quoted, same, split, split_on, texts, trim_start_by, trim_start_char};
use vstd::prelude::*;
use vstd::utf8::is_ascii_chars;

verus! {

/// A directory that is served.
#[derive(Debug)]
pub struct FileServer {
    /// The canonical path of the directory, as bytes.
    pub root: Vec<u8>,
    pub index: Option<String>,
    pub cache_secs: u64,
}

/// Whether a segment of a path names something that is not served: a step up, a
/// hidden file, or the directory itself in front.
pub open spec fn refused_segment(i: int, s: Seq<char>) -> bool {
    s.len() > 0 && s[0] == '.' && !(s == "."@ && i > 0)
}

/// Whether a segment of a path names something.
pub open spec fn names_something(s: Seq<char>) -> bool {
    s.len() > 0 && s != "."@
}

/// The segments of a path below the root.
pub open spec fn path_segments(path: Seq<char>) -> Seq<Seq<char>> {
    split_on(trim_start_by(path, only('/')), '/')
}

/// The names from the root down that a decoded path stands for, unless it is
/// refused: for a NUL character, which ends a path early in some system calls, or
/// for one of its segments.
pub open spec fn file_parts(path: Seq<char>) -> Option<Seq<Seq<char>>> {
    let segments = path_segments(path);
    if path.contains('\0') || exists|i: int|
        0 <= i < segments.len() && refused_segment(i, #[trigger] segments[i]) {
        None
    } else {
        Some(segments.filter(|s: Seq<char>| names_something(s)))
    }
}

/// The names that a path stands for, if it is not refused, lead nowhere but down:
/// none is empty, hidden or a step up, and none holds a separator or a NUL.
pub proof fn law_parts_stay_below_the_root(path: Seq<char>, i: int)
    requires
        file_parts(path) is Some,
        0 <= i < file_parts(path)->0.len(),
    ensures
        file_parts(path)->0[i].len() > 0,
        file_parts(path)->0[i][0] != '.',
        !file_parts(path)->0[i].contains('/'),
        !file_parts(path)->0[i].contains('\0'),
{
    let keep = |s: Seq<char>| names_something(s);
    let segments = path_segments(path);
    let parts = segments.filter(keep);
    let part = parts[i];
    segments.lemma_filter_pred(keep, i);
    segments.lemma_filter_contains_rev(keep, part);
    let j = choose|j: int| 0 <= j < segments.len() && segments[j] == part;
    assert(!refused_segment(j, segments[j]));
    let tail = trim_start_by(path, only('/'));
    crate::text::lemma_split_pieces(tail, only('/'));
    crate::text::lemma_trim_start_part(path, only('/'));
    if part.contains('/') {
        let k = choose|k: int| 0 <= k < part.len() && part[k] == '/';
        assert(!only('/')(segments[j][k]));
    }
    if part.contains('\0') {
        let k = choose|k: int| 0 <= k < part.len() && part[k] == '\0';
        assert(tail.contains(segments[j][k]));
        let m = choose|m: int| 0 <= m < tail.len() && tail[m] == '\0';
        assert(path.contains(tail[m]));
    }
}

/// A path with a step up in it is refused.
pub proof fn law_traversal_is_refused(path: Seq<char>, i: int)
    requires
        0 <= i < path_segments(path).len(),
        path_segments(path)[i] == ".."@,
    ensures
        file_parts(path) is None,
{
    reveal_strlit("..");
    reveal_strlit(".");
    assert(".."@.len() == 2 && "."@.len() == 1);
    assert(refused_segment(i, path_segments(path)[i]));
}

/// A step up is refused though it is written in escapes.
pub proof fn law_an_escaped_traversal_is_refused(relative: Seq<char>, path: Seq<char>, i: int)
    requires
        is_ascii_chars(path),
        escapes_all(relative, path),
        0 <= i < path_segments(path).len(),
        path_segments(path)[i] == ".."@,
    ensures
        clean(relative),
        file_parts(decoded(relative, false)) is None,
{
    law_decoding_undoes_escaping(relative, path);
    law_traversal_is_refused(path, i);
}

/// A path with a hidden file or directory in it is refused.
pub proof fn law_dotfiles_are_refused(path: Seq<char>, i: int)
    requires
        0 <= i < path_segments(path).len(),
        path_segments(path)[i].len() > 1,
        path_segments(path)[i][0] == '.',
    ensures
        file_parts(path) is None,
{
    reveal_strlit(".");
    assert("."@.len() == 1);
    assert(refused_segment(i, path_segments(path)[i]));
}

/// Whether a canonical path is a directory or lies below it.
pub open spec fn under(root: Seq<u8>, path: Seq<u8>) -> bool {
    root == path || root.push(47u8).is_prefix_of(path) || (root == seq![47u8] && root.is_prefix_of(path))
}

fn is_prefix(a: &[u8], b: &[u8]) -> (r: bool)
    ensures
        r == a@.is_prefix_of(b@),
{
    if a.len() > b.len() {
        return false;
    }
    let mut i: usize = 0;
    while i < a.len()
        invariant
            i <= a.len() <= b.len(),
            forall|j: int| 0 <= j < i ==> a@[j] == b@[j],
        decreases a.len() - i,
    {
        if a[i] != b[i] {
            assert(b@.subrange(0, a@.len() as int)[i as int] != a@[i as int]);
            return false;
        }
        i = i + 1;
    }
    assert(b@.subrange(0, a@.len() as int) =~= a@);
    true
}

/// A lower-case hexadecimal digit.
pub open spec fn hex_char(d: u8) -> char {
    if d < 10 {
        (48 + d) as char
    } else {
        (87 + d) as char
    }
}

/// Bytes as lower-case hexadecimal digits, two for each.
pub open spec fn hex_text(bytes: Seq<u8>) -> Seq<char>
    decreases bytes.len(),
{
    if bytes.len() == 0 {
        Seq::empty()
    } else {
        hex_text(bytes.drop_last()).push(hex_char(bytes.last() / 16)).push(hex_char(bytes.last() % 16))
    }
}

fn hex_of(d: u8) -> (c: char)
    requires
        d < 16,
    ensures
        c == hex_char(d),
{
    if d < 10 {
        crate::text::ascii_char(48 + d)
    } else {
        crate::text::ascii_char(87 + d)
    }
}

/// The entity tag of a content: its digest.
pub open spec fn etag_text(bytes: Seq<u8>) -> Seq<char> {
    "W/\""@ + hex_text(sha256_digest(bytes)) + "\""@
}

/// A weak entity tag made of the content's digest.
pub fn weak_etag(bytes: &[u8]) -> (r: String)
    ensures
        r@ == etag_text(bytes@),
{
    let digest = sha256(bytes);
    let mut hex = String::new();
    let mut i: usize = 0;
    assert(hex@ =~= hex_text(digest@.take(0)));
    while i < 32
        invariant
            i <= 32,
            hex@ == hex_text(digest@.take(i as int)),
        decreases 32 - i,
    {
        assert(digest@.take(i + 1).drop_last() =~= digest@.take(i as int));
        hex.push(hex_of(digest[i] / 16));
        hex.push(hex_of(digest[i] % 16));
        i = i + 1;
    }
    assert(digest@.take(32) =~= digest@);
    cat3("W/\"", hex.as_str(), "\"")
}

/// The media type that mime_guess gives for a path, `application/octet-stream`
/// where it knows none.
pub uninterp spec fn guessed_mime(path: Seq<char>) -> Seq<char>;

/// `mime_guess::from_path(..).first_or_octet_stream()` as text: the media type that
/// the extension of a path stands for in its table, which is left to the name.
#[verifier::external_body]
fn guess_mime(path: &str) -> (r: String)
    ensures
        r@ == guessed_mime(path@),
{
    mime_guess::from_path(path).first_or_octet_stream().to_string()
}

/// What the directory of a server turned out to be.
#[derive(Debug)]
pub enum Directory {
    /// The path cannot be resolved, and what the system said.
    Unusable(String),
    /// It is something else than a directory.
    NotADirectory,
    /// Its canonical path, as bytes.
    Canonical(Vec<u8>),
}

/// What is read: the path itself, or a file in it, where [`FileServer::contains`] says
/// so of what that file leads to once links are followed.
#[derive(Debug)]
pub enum Target {
    Itself,
    Index(String),
}

/// A file that was read.
#[derive(Debug)]
pub struct FoundFile {
    /// Its canonical path, as bytes.
    pub canonical: Vec<u8>,
    /// The name that it was asked for by.
    pub path: String,
    pub bytes: Vec<u8>,
}

/// The response of a file that was read.
pub open spec fn file_response(
    path: Seq<char>,
    bytes: Seq<u8>,
    cache_secs: u64,
    if_none_match: Option<Seq<char>>,
) -> ResponseView {
    if if_none_match == Some(etag_text(bytes)) {
        ResponseView { status: 304, headers: seq![("etag"@, etag_text(bytes))], body: Seq::empty() }
    } else {
        ResponseView {
            status: 200,
            headers: seq![
                ("content-type"@, guessed_mime(path)),
                ("etag"@, etag_text(bytes)),
                ("cache-control"@, "public, max-age="@ + decimal(cache_secs as nat)),
                ("x-content-type-options"@, "nosniff"@),
            ],
            body: bytes,
        }
    }
}

/// The answer to a request for a file: 404 for one that could not be read or lies
/// outside the root, whatever the reason, so that a probe learns nothing of what exists.
pub open spec fn file_answer(
    root: Seq<u8>,
    cache_secs: u64,
    found: Option<FoundFile>,
    if_none_match: Option<Seq<char>>,
) -> ResponseView {
    match found {
        Some(f) => if under(root, f.canonical@) {
            file_response(f.path@, f.bytes@, cache_secs, if_none_match)
        } else {
            error_response(404, "not found"@)
        },
        None => error_response(404, "not found"@),
    }
}

/// Nothing outside the root is ever served, by whatever name or link it is reached, the
/// index of a directory included: anything but 404 is the answer for a file whose
/// canonical path lies below the root.
pub proof fn law_nothing_outside_the_root_is_served(
    root: Seq<u8>,
    cache_secs: u64,
    found: Option<FoundFile>,
    if_none_match: Option<Seq<char>>,
)
    requires
        file_answer(root, cache_secs, found, if_none_match) != error_response(404, "not found"@),
    ensures
        found matches Some(f) && under(root, f.canonical@),
{
}

impl FileServer {
    /// A server for a directory, once the file system has been asked about it.
    pub fn new(dir: &str, found: Directory, index: Option<String>, cache_secs: u64) -> (r: Result<
        FileServer,
        String,
    >)
        ensures
            match (found, r) {
                (Directory::Canonical(root), Ok(s)) => s.root == root && s.index == index && s.cache_secs
                    == cache_secs,
                (Directory::Unusable(e), Err(m)) => m@ == "static directory "@ + crate::text::debug_quoted(dir@)
                    + " is unusable: "@ + e@,
                (Directory::NotADirectory, Err(m)) => m@ == "static path "@ + crate::text::debug_quoted(dir@)
                    + " is not a directory"@,
                _ => false,
            },
    {
        match found {
            Directory::Canonical(root) => Ok(FileServer { root, index, cache_secs }),
            Directory::Unusable(e) => Err(
                cat4("static directory ", quoted(dir).as_str(), " is unusable: ", e.as_str()),
            ),
            Directory::NotADirectory => Err(
                cat3("static path ", quoted(dir).as_str(), " is not a directory"),
            ),
        }
    }

    /// The names from the root down that a request path stands for, or nothing
    /// where it is refused.
    pub fn resolve(&self, relative: &str) -> (r: Option<Vec<String>>)
        requires
            clean(relative@),
        ensures
            match r {
                Some(parts) => file_parts(decoded(relative@, false)) == Some(texts(parts@)),
                None => file_parts(decoded(relative@, false)) is None,
            },
    {
        let path = decode(relative, false);
        let chars = chars_of(path.as_str());
        let mut i: usize = 0;
        while i < chars.len()
            invariant
                i <= chars@.len(),
                chars@ == path@,
                path@ == decoded(relative@, false),
                forall|k: int| 0 <= k < i ==> chars@[k] != '\0',
            decreases chars.len() - i,
        {
            if chars[i] == '\0' {
                assert(path@.contains(chars@[i as int]));
                return None;
            }
            i = i + 1;
        }
        let segments = split(trim_start_char(path.as_str(), '/').as_str(), '/');
        let ghost all = texts(segments@);
        let ghost keep = |s: Seq<char>| names_something(s);
        let mut parts: Vec<String> = Vec::new();
        let mut i: usize = 0;
        assert(texts(parts@) =~= all.take(0).filter(keep)) by {
            reveal(Seq::filter);
        }
        while i < segments.len()
            invariant
                i <= segments@.len(),
                all == texts(segments@),
                all == path_segments(path@),
                path@ == decoded(relative@, false),
                keep == (|s: Seq<char>| names_something(s)),
                forall|k: int| 0 <= k < i ==> !refused_segment(k, #[trigger] all[k]),
                texts(parts@) == all.take(i as int).filter(keep),
            decreases segments.len() - i,
        {
            let seg = segments[i].as_str();
            assert(all[i as int] == seg@);
            proof {
                all.take(i as int).lemma_filter_push(all[i as int], keep);
                assert(all.take(i + 1) =~= all.take(i as int).push(all[i as int]));
            }
            if !seg.is_empty() {
                let here = same(seg, ".");
                if seg.get_char(0) == '.' && !(here && i > 0) {
                    assert(refused_segment(i as int, all[i as int]));
                    return None;
                }
                if !here {
                    proof {
                        crate::text::lemma_texts_push(parts@, segments@[i as int]);
                    }
                    parts.push(segments[i].clone());
                }
            }
            i = i + 1;
        }
        assert(all.take(all.len() as int) =~= all);
        Some(parts)
    }

    /// Whether a canonical path is the root or lies below it. Whatever is read has to be
    /// one of these.
    pub fn contains(&self, canonical: &[u8]) -> (r: bool)
        ensures
            r == under(self.root@, canonical@),
    {
        let mut below: Vec<u8> = self.root.clone();
        assert(below@ =~= self.root@);
        below.push(47);
        let itself = self.root.len() == canonical.len() && is_prefix(&self.root, canonical);
        let at_top = self.root.len() == 1 && self.root[0] == 47;
        proof {
            if itself {
                assert(canonical@.subrange(0, self.root@.len() as int) =~= canonical@);
            }
            if self.root@ == canonical@ {
                assert(canonical@.subrange(0, self.root@.len() as int) =~= canonical@);
            }
            assert(at_top == (self.root@ =~= seq![47u8]));
        }
        itself || is_prefix(&below, canonical) || (at_top && is_prefix(&self.root, canonical))
    }

    /// What to read of a path, given where it leads once links are followed:
    /// nothing outside the root, and in a directory the index, if there is one. The index
    /// may be a link in turn: [`FileServer::contains`] is to be asked where that leads.
    pub fn pick(&self, canonical: &[u8], is_dir: bool) -> (r: Option<Target>)
        ensures
            match r {
                None => !under(self.root@, canonical@) || (is_dir && self.index is None),
                Some(Target::Itself) => under(self.root@, canonical@) && !is_dir,
                Some(Target::Index(name)) => under(self.root@, canonical@) && is_dir && (self.index matches Some(
                    n,
                ) && n@ == name@),
            },
    {
        if !self.contains(canonical) {
            return None;
        }
        if is_dir {
            match &self.index {
                Some(name) => Some(Target::Index(name.clone())),
                None => None,
            }
        } else {
            Some(Target::Itself)
        }
    }

    /// The response of a file that was read, or of one that could not be.
    pub fn serve(&self, found: Option<FoundFile>, if_none_match: Option<&str>) -> (r: PylonResponse)
        ensures
            r@ == file_answer(self.root@, self.cache_secs, found, crate::middleware::origin_text(if_none_match)),
    {
        let file = match found {
            Some(f) => f,
            None => {
                return PylonResponse::error(404, "not found");
            },
        };
        if !self.contains(&file.canonical) {
            return PylonResponse::error(404, "not found");
        }
        let path = file.path;
        let bytes = file.bytes;
        let etag = weak_etag(&bytes);
        let fresh = match if_none_match {
            Some(v) => same(v, etag.as_str()),
            None => false,
        };
        if fresh {
            return PylonResponse {
                status: 304,
                headers: crate::http::one_header("etag", etag.as_str()),
                body: Vec::new(),
            };
        }
        let mut headers: Vec<(String, String)> = Vec::new();
        headers.push(("content-type".to_owned(), guess_mime(path.as_str())));
        headers.push(("etag".to_owned(), etag));
        headers.push(
            ("cache-control".to_owned(), cat2("public, max-age=", decimal_text(self.cache_secs).as_str())),
        );
        headers.push(("x-content-type-options".to_owned(), "nosniff".to_owned()));
        assert(header_texts(headers@) =~= seq![
            ("content-type"@, guessed_mime(path@)),
            ("etag"@, etag_text(bytes@)),
            ("cache-control"@, "public, max-age="@ + decimal(self.cache_secs as nat)),
            ("x-content-type-options"@, "nosniff"@),
        ]);
        PylonResponse { status: 200, headers, body: bytes }
    }
}

/// A digest is written with two digits for each byte, in order.
pub proof fn law_a_digest_has_two_digits_a_byte(bytes: Seq<u8>, i: int)
    requires
        0 <= i < bytes.len(),
    ensures
        hex_text(bytes).len() == 2 * bytes.len(),
        crate::percent::hex_digit(hex_text(bytes)[2 * i] as u8) == Some((bytes[i] / 16) as u8),
        crate::percent::hex_digit(hex_text(bytes)[2 * i + 1] as u8) == Some((bytes[i] % 16) as u8),
    decreases bytes.len(),
{
    let rest = bytes.drop_last();
    if rest.len() > 0 {
        if i < rest.len() {
            law_a_digest_has_two_digits_a_byte(rest, i);
        } else {
            law_a_digest_has_two_digits_a_byte(rest, 0);
        }
    } else {
        assert(hex_text(rest).len() == 0);
    }
}

/// A file is answered with its bytes, its type, its tag and how long it may be kept; and a
/// caller that has it already, by its tag, is told so and sent nothing.
pub proof fn law_a_file_is_answered_with_its_bytes(
    path: Seq<char>,
    bytes: Seq<u8>,
    cache_secs: u64,
    if_none_match: Option<Seq<char>>,
)
    ensures
        ({
            let r = file_response(path, bytes, cache_secs, if_none_match);
            &&& if_none_match == Some(etag_text(bytes)) ==> r.status == 304 && r.body.len() == 0
            &&& if_none_match != Some(etag_text(bytes)) ==> r.status == 200 && r.body == bytes && r.headers.contains(
                ("content-type"@, guessed_mime(path)),
            ) && r.headers.contains(("cache-control"@, "public, max-age="@ + decimal(cache_secs as nat)))
                && r.headers.contains(("x-content-type-options"@, "nosniff"@))
            &&& r.headers.contains(("etag"@, etag_text(bytes)))
            &&& etag_text(bytes) == "W/\""@ + hex_text(sha256_digest(bytes)) + "\""@
        }),
{
    let r = file_response(path, bytes, cache_secs, if_none_match);
    if if_none_match == Some(etag_text(bytes)) {
        assert(r.headers[0] == ("etag"@, etag_text(bytes)));
    } else {
        assert(r.headers[0] == ("content-type"@, guessed_mime(path)));
        assert(r.headers[1] == ("etag"@, etag_text(bytes)));
        assert(r.headers[2] == ("cache-control"@, "public, max-age="@ + decimal(cache_secs as nat)));
        assert(r.headers[3] == ("x-content-type-options"@, "nosniff"@));
    }
}

/// A file is served exactly where it was found below the root, and 404 is answered for
/// everything else.
pub proof fn law_a_file_below_the_root_is_served(
    root: Seq<u8>,
    cache_secs: u64,
    found: Option<FoundFile>,
    if_none_match: Option<Seq<char>>,
)
    ensures
        found matches Some(f) ==> (under(root, f.canonical@) ==> file_answer(root, cache_secs, found, if_none_match)
            == file_response(f.path@, f.bytes@, cache_secs, if_none_match)),
        found matches Some(f) ==> (!under(root, f.canonical@) ==> file_answer(root, cache_secs, found, if_none_match).status
            == 404),
        found is None ==> file_answer(root, cache_secs, found, if_none_match).status == 404,
{
}

/// An ordinary path stands for the names that it is made of: one more name at its end is one
/// more name below the root, and the names before it stay.
pub proof fn law_a_path_stands_for_its_names(path: Seq<char>, name: Seq<char>)
    requires
        path.len() > 0 && path[0] != '/',
        name.len() > 0 && name[0] != '.' && name[0] != '/',
        !name.contains('/'),
        !name.contains('\0'),
        file_parts(path) is Some,
    ensures
        file_parts(name) == Some(seq![name]),
        file_parts(path + seq!['/'] + name) == Some(file_parts(path)->0.push(name)),
{
    reveal_strlit(".");
    let keep = |s: Seq<char>| names_something(s);
    let whole = path + seq!['/'] + name;
    let none = Seq::<char>::empty();
    assert(whole[0] == path[0]);
    assert(trim_start_by(whole, only('/')) == whole);
    assert(trim_start_by(path, only('/')) == path);
    assert(trim_start_by(name, only('/')) == name);
    crate::text::law_a_text_is_cut_at_each_separator(path, name, '/');
    crate::text::law_a_text_is_cut_at_each_separator(name, none, '/');
    let before = split_on(path, '/');
    let after = path_segments(whole);
    assert(after =~= before.push(name));
    assert(path_segments(name) =~= seq![name]);
    assert(!whole.contains('\0')) by {
        if whole.contains('\0') {
            let i = choose|i: int| 0 <= i < whole.len() && whole[i] == '\0';
            if i < path.len() {
                assert(path[i] == '\0');
                assert(path.contains('\0'));
            } else {
                assert(name[i - path.len() - 1] == '\0');
            }
        }
    }
    assert forall|i: int| 0 <= i < after.len() implies !refused_segment(i, #[trigger] after[i]) by {
        if i < before.len() {
            assert(path_segments(path)[i] == after[i]);
        }
    }
    assert(name != "."@) by {
        assert("."@[0] == '.');
    }
    assert(keep(name));
    reveal(Seq::filter);
    assert(after.drop_last() =~= before);
    assert(after.filter(keep) =~= before.filter(keep).push(name));
    assert(seq![name].drop_last() =~= Seq::empty());
    assert(Seq::<Seq<char>>::empty().filter(keep) =~= Seq::empty());
    assert(seq![name].filter(keep) =~= seq![name]);
    assert forall|i: int| 0 <= i < path_segments(name).len() implies !refused_segment(i, #[trigger] path_segments(name)[i]) by {}
}

} // verus!
