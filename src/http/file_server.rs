//! The pages of a directory-listing handler. Reading the file system is left to the
//! caller; this builds the HTML from what it read.
use crate::http::header::{add_spec, HeaderModel};
use crate::http::response::Response;
use crate::http::status::Status;
use crate::http::version::Version;
use crate::text::{chars_of, decimal, decimal_string, str_eq};
use vstd::prelude::*;
use vstd::utf8::encode_utf8;

verus! {

/// Serves the files under `path`.
#[derive(Clone, Copy)]
pub struct FileServer {
    path: &'static str,
}

/// The HTML page around `body`.
pub open spec fn page(body: Seq<char>) -> Seq<char> {
    "<!DOCTYPE html><html lang=\"en\"><head><meta charset=\"UTF-8\"><meta name=\"viewport\" content=\"width=device-width, initial-scale=1.0\"><title>Hello</title></head><body>"@
        + body + "</body></html>"@
}

/// The request path as links show it: empty for the root.
pub open spec fn shown_path(path: Seq<char>) -> Seq<char> {
    if path == "/"@ {
        Seq::empty()
    } else {
        path
    }
}

/// One list item per file name, each linking to `prefix` followed by the name.
pub open spec fn list_items(prefix: Seq<char>, names: Seq<Seq<char>>) -> Seq<char>
    decreases names.len(),
{
    if names.len() == 0 {
        Seq::empty()
    } else {
        list_items(prefix, names.drop_last()) + "<li><a href=\""@ + prefix + names.last()
            + "\">"@ + names.last() + "</a></li>"@
    }
}

/// A listing: the directory as a heading, a link back unless at the root, and the
/// list of its files.
pub open spec fn listing(root: Seq<char>, path: Seq<char>, previous: Seq<char>, names: Seq<Seq<char>>) -> Seq<char> {
    let shown = shown_path(path);
    "<h3>"@ + root + shown + "</h3>"@ + (if shown.len() > 0 {
        "<a href=\""@ + previous + "\">Back</a>"@
    } else {
        Seq::empty()
    }) + "<ul>"@ + list_items(shown, names) + "</ul>"@
}

/// The link target of a parent directory: its path below the served root, or `/`
/// where it is the root itself or lies outside it.
pub open spec fn parent_link(root: Seq<char>, parent: Seq<char>) -> Seq<char> {
    if root.len() < parent.len() && parent.take(root.len() as int) == root {
        parent.skip(root.len() as int)
    } else {
        "/"@
    }
}

/// The header fields of an HTML page of `len` bytes.
pub open spec fn html_fields(len: nat) -> HeaderModel {
    add_spec(
        add_spec(Seq::empty(), "Content-Type"@, "text/html; charset=utf-8"@),
        "Content-Length"@,
        decimal(len),
    )
}

/// A response that carries the HTML page `html`, with `status`.
fn html_response(status: Status, html: String) -> (r: Response)
    ensures
        r.http_version == Version::V1P1,
        r.status == status,
        r.body@ == encode_utf8(html@),
        r.header@ == html_fields(encode_utf8(html@).len()),
{
    let bytes = vstd::slice::slice_to_vec(html.as_str().as_bytes());
    let len = decimal_string(bytes.len() as u64);
    Response::builder()
        .status(status)
        .header("Content-Type", "text/html; charset=utf-8")
        .header("Content-Length", len.as_str())
        .body(bytes)
        .into()
}

impl FileServer {
    pub fn new(path: &'static str) -> (r: FileServer)
        ensures
            r.root() == path@,
    {
        FileServer { path }
    }

    /// The directory served.
    pub closed spec fn root(self) -> Seq<char> {
        self.path@
    }

    pub fn path(&self) -> (r: &'static str)
        ensures
            r@ == self.root(),
    {
        self.path
    }

    /// `body` inside the page template.
    pub fn html_template(&self, body: String) -> (r: String)
        ensures
            r@ == page(body@),
    {
        let mut r = "<!DOCTYPE html><html lang=\"en\"><head><meta charset=\"UTF-8\"><meta name=\"viewport\" content=\"width=device-width, initial-scale=1.0\"><title>Hello</title></head><body>".to_owned();
        r.append(body.as_str());
        r.append("</body></html>");
        r
    }

    /// The listing of the directory at request path `path` (see `listing`).
    pub fn build_body(&self, path: String, previous_path: String, filenames: Vec<String>) -> (r:
        String)
        ensures
            r@ == listing(self.root(), path@, previous_path@, filenames@.map_values(|f: String| f@)),
    {
        let shown: &str = if str_eq(path.as_str(), "/") {
            ""
        } else {
            path.as_str()
        };
        proof {
            reveal_strlit("");
            assert(""@ =~= Seq::<char>::empty());
        }
        assert(shown@ == shown_path(path@));
        let mut r = "<h3>".to_owned();
        r.append(self.path);
        r.append(shown);
        r.append("</h3>");
        if shown.unicode_len() > 0 {
            r.append("<a href=\"");
            r.append(previous_path.as_str());
            r.append("\">Back</a>");
        }
        r.append("<ul>");
        let ghost names = filenames@.map_values(|f: String| f@);
        let ghost start = r@;
        let mut i: usize = 0;
        assert(names.take(0) =~= Seq::<Seq<char>>::empty());
        while i < filenames.len()
            invariant
                i <= filenames.len(),
                names == filenames@.map_values(|f: String| f@),
                r@ == start + list_items(shown@, names.take(i as int)),
            decreases filenames.len() - i,
        {
            let f = filenames[i].as_str();
            r.append("<li><a href=\"");
            r.append(shown);
            r.append(f);
            r.append("\">");
            r.append(f);
            r.append("</a></li>");
            proof {
                let t = names.take(i + 1);
                assert(t.drop_last() =~= names.take(i as int));
                assert(t.last() == f@);
                assert(r@ =~= start + list_items(shown@, t));
            }
            i = i + 1;
        }
        assert(names.take(i as int) =~= names);
        r.append("</ul>");
        r
    }

    /// The link target of the parent directory `parent_path` (see `parent_link`).
    pub fn get_parent_path(&self, parent_path: &str) -> (r: String)
        ensures
            r@ == parent_link(self.root(), parent_path@),
    {
        let root = chars_of(self.path);
        let p = chars_of(parent_path);
        if root.len() < p.len() {
            let mut i: usize = 0;
            while i < root.len()
                invariant
                    root@ == self.path@,
                    p@ == parent_path@,
                    root.len() < p.len(),
                    i <= root.len(),
                    forall|j: int| 0 <= j < i ==> root@[j] == p@[j],
                decreases root.len() - i,
            {
                if root[i] != p[i] {
                    assert(p@.take(root.len() as int)[i as int] != root@[i as int]);
                    return "/".to_owned();
                }
                i = i + 1;
            }
            assert(p@.take(root.len() as int) =~= root@);
            return parent_path.substring_char(root.len(), p.len()).to_owned();
        }
        "/".to_owned()
    }

    /// The `200 OK` listing page of the directory at request path `path`, whose parent
    /// links to `previous_path` and which holds `filenames`.
    pub fn listing_response(&self, path: String, previous_path: String, filenames: Vec<String>) -> (r:
        Response)
        ensures
            r.http_version == Version::V1P1,
            r.status == Status::OK,
            r.body@ == encode_utf8(
                page(listing(self.root(), path@, previous_path@, filenames@.map_values(|f: String| f@))),
            ),
            r.header@ == html_fields(r.body@.len()),
    {
        let body = self.build_body(path, previous_path, filenames);
        html_response(Status::OK, self.html_template(body))
    }

    /// The `404 Not Found` page.
    pub fn not_found_response(&self) -> (r: Response)
        ensures
            r.http_version == Version::V1P1,
            r.status == Status::NotFound,
            r.body@ == encode_utf8(page("<h1>404 Content Not Found</h1>"@)),
            r.header@ == html_fields(r.body@.len()),
    {
        html_response(Status::NotFound, self.html_template("<h1>404 Content Not Found</h1>".to_owned()))
    }
}

} // verus!
