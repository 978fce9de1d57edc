//! Message bodies.
use vstd::prelude::*;
use vstd::string::StringSliceAdditionalSpecFns;

verus! {

/// The raw bytes of a message body.
#[derive(Debug)]
pub struct Body {
    inner: Vec<u8>,
}

impl View for Body {
    type V = Seq<u8>;

    closed spec fn view(&self) -> Seq<u8> {
        self.inner@
    }
}

impl Body {
    pub fn new(inner: Vec<u8>) -> (r: Body)
        ensures
            r@ == inner@,
    {
        Body { inner }
    }

    /// A copy of the bytes.
    pub fn get(&self) -> (r: Vec<u8>)
        ensures
            r@ == self@,
    {
        let r = self.inner.clone();
        assert(r@ =~= self.inner@);
        r
    }

    /// The UTF-8 bytes of `s`.
    pub fn from_str(s: &str) -> (r: Body)
        ensures
            r@ == s.spec_bytes(),
    {
        Body::new(vstd::slice::slice_to_vec(s.as_bytes()))
    }
}

impl Default for Body {
    fn default() -> (r: Body)
        ensures
            r@ == Seq::<u8>::empty(),
    {
        Body::new(Vec::new())
    }
}

} // verus!
