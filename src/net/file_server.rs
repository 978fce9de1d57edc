//! Directory listings written as complete HTTP responses.
use crate::text::str_eq;
use vstd::prelude::*;

verus! {

/// Serves the files under `path`.
#[derive(Clone, Copy)]
pub struct FileServer {
    path: &'static str,
}

/// What comes before the list in a listing response.
pub open spec fn page_head() -> Seq<char> {
    "HTTP/1.1 200 OK\r\nContent-Type: text/html; charset=UTF-8\r\n\r\n<!DOCTYPE html><html><head><title>Hello</title></head><body>"@
}

/// What comes after the list in a listing response.
pub open spec fn page_tail() -> Seq<char> {
    "\n    </body></html>\r\n\r\n"@
}

/// The list item that links to `name` in the directory at `path`.
pub open spec fn link_item(path: Seq<char>, name: Seq<char>) -> Seq<char> {
    "<li><a href=\""@ + path + (if path != "/"@ {
        "/"@
    } else {
        Seq::empty()
    }) + name + "\">"@ + name + "</a></li>"@
}

/// The pieces of the list: its opening tag, one item per name, its closing tag.
pub open spec fn list_pieces(path: Seq<char>, names: Seq<Seq<char>>) -> Seq<Seq<char>> {
    seq!["<ul>"@] + names.map_values(|n: Seq<char>| link_item(path, n)) + seq!["</ul>"@]
}

/// The pieces joined together.
pub open spec fn concat(pieces: Seq<Seq<char>>) -> Seq<char>
    decreases pieces.len(),
{
    if pieces.len() == 0 {
        Seq::empty()
    } else {
        concat(pieces.drop_last()) + pieces.last()
    }
}

impl FileServer {
    pub fn new(path: &'static str) -> (r: FileServer)
        ensures
            r.root() == path@,
    {
        FileServer { path }
    }

    /// The directory served.
    pub closed spec fn root(self) -> Seq<char> {
        self.path@
    }

    pub fn path(&self) -> (r: &'static str)
        ensures
            r@ == self.root(),
    {
        self.path
    }

    /// The listing response for the directory at `path` holding `filenames`.
    pub fn build_page(path: String, filenames: Vec<String>) -> (r: String)
        ensures
            r@ == page_head() + concat(list_pieces(path@, filenames@.map_values(|f: String| f@)))
                + page_tail(),
    {
        let list = FileServer::build_ul_list(path, filenames);
        let ghost pieces = list@.map_values(|s: String| s@);
        let mut page = "HTTP/1.1 200 OK\r\nContent-Type: text/html; charset=UTF-8\r\n\r\n<!DOCTYPE html><html><head><title>Hello</title></head><body>".to_owned();
        let mut i: usize = 0;
        assert(pieces.take(0) =~= Seq::<Seq<char>>::empty());
        while i < list.len()
            invariant
                i <= list.len(),
                pieces == list@.map_values(|s: String| s@),
                page@ == page_head() + concat(pieces.take(i as int)),
            decreases list.len() - i,
        {
            page.append(list[i].as_str());
            proof {
                let t = pieces.take(i + 1);
                assert(t.drop_last() =~= pieces.take(i as int));
                assert(page@ =~= page_head() + concat(t));
            }
            i = i + 1;
        }
        assert(pieces.take(i as int) =~= pieces);
        page.append("\n    </body></html>\r\n\r\n");
        page
    }

    /// The list of links to `filenames` in the directory at `path`, as pieces.
    pub fn build_ul_list(path: String, filenames: Vec<String>) -> (r: Vec<String>)
        ensures
            r@.map_values(|s: String| s@) == list_pieces(
                path@,
                filenames@.map_values(|f: String| f@),
            ),
    {
        let ghost names = filenames@.map_values(|f: String| f@);
        let ghost items = names.map_values(|n: Seq<char>| link_item(path@, n));
        let sep: &str = if str_eq(path.as_str(), "/") {
            ""
        } else {
            "/"
        };
        proof {
            reveal_strlit("");
            assert(""@ =~= Seq::<char>::empty());
        }
        let mut list: Vec<String> = Vec::new();
        list.push("<ul>".to_owned());
        let mut i: usize = 0;
        assert(list@.map_values(|s: String| s@) =~= seq!["<ul>"@] + items.take(0));
        while i < filenames.len()
            invariant
                i <= filenames.len(),
                names == filenames@.map_values(|f: String| f@),
                items == names.map_values(|n: Seq<char>| link_item(path@, n)),
                sep@ == (if path@ != "/"@ {
                    "/"@
                } else {
                    Seq::<char>::empty()
                }),
                list@.map_values(|s: String| s@) == seq!["<ul>"@] + items.take(i as int),
            decreases filenames.len() - i,
        {
            let f = filenames[i].as_str();
            let mut item = "<li><a href=\"".to_owned();
            item.append(path.as_str());
            item.append(sep);
            item.append(f);
            item.append("\">");
            item.append(f);
            item.append("</a></li>");
            let ghost before = list@;
            list.push(item);
            proof {
                assert(item@ =~= link_item(path@, names[i as int]));
                assert(list@.map_values(|s: String| s@) =~= before.map_values(|s: String| s@).push(
                    item@,
                ));
                assert(items.take(i + 1) =~= items.take(i as int).push(items[i as int]));
                assert(list@.map_values(|s: String| s@) =~= seq!["<ul>"@] + items.take(i + 1));
            }
            i = i + 1;
        }
        let ghost before = list@;
        list.push("</ul>".to_owned());
        assert(items.take(i as int) =~= items);
        assert(list@.map_values(|s: String| s@) =~= before.map_values(|s: String| s@).push(
            "</ul>"@,
        ));
        assert(list@.map_values(|s: String| s@) =~= list_pieces(path@, names));
        list
    }
}

} // verus!
