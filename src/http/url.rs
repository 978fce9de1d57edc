//! Request targets.
use crate::http::error::ParseError;
use vstd::prelude::*;

verus! {

/// The target path of a request.
#[derive(Debug)]
pub struct URL {
    pub path: String,
}

/// A target path starts with a slash.
pub open spec fn valid_path(s: Seq<char>) -> bool {
    s.len() > 0 && s[0] == '/'
}

impl URL {
    pub fn new(path: &str) -> (r: URL)
        ensures
            r.path@ == path@,
    {
        URL { path: path.to_owned() }
    }

    /// The target `s`, which must start with `/`.
    pub fn from_str(s: &str) -> (r: Result<URL, ParseError>)
        ensures
            valid_path(s@) ==> r is Ok && r->Ok_0.path@ == s@,
            !valid_path(s@) ==> r == Err::<URL, ParseError>(ParseError::InvalidUrl),
    {
        let n = s.unicode_len();
        if n > 0 && s.get_char(0) == '/' {
            Ok(URL::new(s))
        } else {
            Err(ParseError::InvalidUrl)
        }
    }
}

impl Default for URL {
    fn default() -> (r: URL)
        ensures
            r.path@ == "/"@,
    {
        URL::new("/")
    }
}

} // verus!
