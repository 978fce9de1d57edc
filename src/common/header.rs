//! A lenient header dictionary: names are cleaned rather than refused, and lines that
//! are not header lines are skipped.
use crate::http::header::{
    has_key, header_line, is_key_char, join_values, key_index, lemma_key_index, lines_text, lookup,
    unique_keys, valid_key, HeaderModel,
};
use crate::text::{
    char_is_alphanumeric,
    chars_of, find_char, pieces_of, skip_until, split_bounds,
    split_crlf, split_crlf_bounds, split_on, take_until, trim, trim_bounds,
};
use crate::http::error::ParseError;
use vstd::prelude::*;

verus! {

/// The alphanumeric characters and hyphens of `k`, in order.
pub open spec fn key_chars_of(k: Seq<char>) -> Seq<char>
    decreases k.len(),
{
    if k.len() == 0 {
        Seq::empty()
    } else if is_key_char(k.last()) {
        key_chars_of(k.drop_last()).push(k.last())
    } else {
        key_chars_of(k.drop_last())
    }
}

proof fn lemma_key_chars_valid(k: Seq<char>)
    ensures
        forall|i: int| 0 <= i < key_chars_of(k).len() ==> is_key_char(#[trigger] key_chars_of(k)[i]),
    decreases k.len(),
{
    if k.len() > 0 {
        let prev = key_chars_of(k.drop_last());
        lemma_key_chars_valid(k.drop_last());
        if is_key_char(k.last()) {
            assert forall|i: int| 0 <= i < key_chars_of(k).len() implies is_key_char(
                #[trigger] key_chars_of(k)[i],
            ) by {
                if i < prev.len() {
                    assert(key_chars_of(k)[i] == prev[i]);
                }
            }
        }
    }
}

/// Names are unique and valid; each holds at least one value, none empty.
pub open spec fn lenient_wf(m: HeaderModel) -> bool {
    &&& unique_keys(m)
    &&& forall|i: int| 0 <= i < m.len() ==> valid_key((#[trigger] m[i]).0)
    &&& forall|i: int| 0 <= i < m.len() ==> (#[trigger] m[i]).1.len() > 0
    &&& forall|i: int, j: int| 0 <= i < m.len() && 0 <= j < m[i].1.len() ==> (#[trigger] m[i].1[j]).len() > 0
}

/// The effect of `add(k, v)`: the name is cut down to its letters, digits and
/// hyphens; nothing is stored if that leaves it empty, or if `v` is empty.
pub open spec fn lenient_add(m: HeaderModel, k: Seq<char>, v: Seq<char>) -> HeaderModel {
    let fk = key_chars_of(k);
    if fk.len() == 0 || v.len() == 0 {
        m
    } else if has_key(m, fk) {
        let i = key_index(m, fk);
        m.update(i, (fk, m[i].1.push(v)))
    } else {
        m.push((fk, seq![v]))
    }
}

/// The effect of adding each of `vs` under `k`, in order.
pub open spec fn lenient_add_all(m: HeaderModel, k: Seq<char>, vs: Seq<Seq<char>>) -> HeaderModel
    decreases vs.len(),
{
    if vs.len() == 0 {
        m
    } else {
        lenient_add_all(lenient_add(m, k, vs[0]), k, vs.drop_first())
    }
}

/// What one line adds: nothing if it is empty or has no colon; else the text before
/// the first colon names the field, and the text from the first space on, cut at
/// commas and trimmed, gives its values.
pub open spec fn lenient_line(m: HeaderModel, line: Seq<char>) -> HeaderModel {
    if line.len() == 0 || !line.contains(':') {
        m
    } else {
        lenient_add_all(
            m,
            take_until(line, ':'),
            split_on(skip_until(line, ' '), ',').map_values(|p: Seq<char>| trim(p)),
        )
    }
}

/// The header that the lines of a text add, one after another.
pub open spec fn lenient_lines(m: HeaderModel, lines: Seq<Seq<char>>) -> HeaderModel
    decreases lines.len(),
{
    if lines.len() == 0 {
        m
    } else {
        lenient_lines(lenient_line(m, lines[0]), lines.drop_first())
    }
}

proof fn lemma_lenient_add_wf(m: HeaderModel, k: Seq<char>, v: Seq<char>)
    requires
        lenient_wf(m),
    ensures
        lenient_wf(lenient_add(m, k, v)),
{
    let fk = key_chars_of(k);
    lemma_key_chars_valid(k);
    let r = lenient_add(m, k, v);
    if fk.len() > 0 && v.len() > 0 {
        if has_key(m, fk) {
            let i = key_index(m, fk);
            assert forall|a: int, b: int| 0 <= a < r.len() && 0 <= b < r[a].1.len() implies (
            #[trigger] r[a].1[b]).len() > 0 by {
                if a == i && b == m[i].1.len() {
                } else {
                    assert(r[a].1[b] == m[a].1[b]);
                }
            }
        } else {
            assert forall|a: int, b: int| 0 <= a < b < r.len() implies (#[trigger] r[a]).0 != (
            #[trigger] r[b]).0 by {
                if b == m.len() {
                    assert(m[a].0 != fk);
                }
            }
            assert forall|a: int, b: int| 0 <= a < r.len() && 0 <= b < r[a].1.len() implies (
            #[trigger] r[a].1[b]).len() > 0 by {
                if a < m.len() {
                    assert(r[a].1[b] == m[a].1[b]);
                }
            }
        }
    }
}

/// A header block whose names keep only their letters, digits and hyphens.
#[derive(Debug)]
pub struct Header {
    keys: Vec<String>,
    vals: Vec<Vec<String>>,
}

spec fn model_of(keys: Seq<String>, vals: Seq<Vec<String>>) -> HeaderModel {
    Seq::new(keys.len() as nat, |i: int| (keys[i]@, vals[i]@.map_values(|s: String| s@)))
}

impl View for Header {
    type V = HeaderModel;

    closed spec fn view(&self) -> HeaderModel {
        model_of(self.keys@, self.vals@)
    }
}

/// The letters, digits and hyphens of `key`.
fn clean_key(key: &str) -> (r: String)
    ensures
        r@ == key_chars_of(key@),
{
    let kc = chars_of(key);
    let mut r = String::new();
    let mut i: usize = 0;
    assert(kc@.take(0) =~= Seq::<char>::empty());
    while i < kc.len()
        invariant
            kc@ == key@,
            i <= kc.len(),
            r@ == key_chars_of(kc@.take(i as int)),
        decreases kc.len() - i,
    {
        let c = kc[i];
        assert(kc@.take(i + 1).drop_last() =~= kc@.take(i as int));
        if char_is_alphanumeric(c) || c == '-' {
            r.append(key.substring_char(i, i + 1));
            assert(key@.subrange(i as int, i + 1) =~= seq![c]);
        }
        assert(r@ =~= key_chars_of(kc@.take(i + 1)));
        i = i + 1;
    }
    assert(kc@.take(i as int) =~= kc@);
    r
}

impl Header {
    /// Names and values agree in number, and the model is well formed. This holds of
    /// every header.
    #[verifier::type_invariant]
    pub closed spec fn wf(&self) -> bool {
        self.keys.len() == self.vals.len() && lenient_wf(self@)
    }

    pub fn new() -> (r: Header)
        ensures
            r@ == Seq::<(Seq<char>, Seq<Seq<char>>)>::empty(),
    {
        let r = Header { keys: Vec::new(), vals: Vec::new() };
        assert(r@ =~= Seq::<(Seq<char>, Seq<Seq<char>>)>::empty());
        r
    }

    fn find_key(&self, k: &String) -> (r: Option<usize>)
        ensures
            match r {
                Some(i) => i < self.keys.len() && self@[i as int].0 == k@ && key_index(self@, k@)
                    == i && has_key(self@, k@),
                None => !has_key(self@, k@),
            },
    {
        proof {
            use_type_invariant(self);
        }
        let mut i: usize = 0;
        while i < self.keys.len()
            invariant
                self.wf(),
                i <= self.keys.len(),
                forall|j: int| 0 <= j < i ==> (#[trigger] self@[j]).0 != k@,
            decreases self.keys.len() - i,
        {
            if self.keys[i] == *k {
                proof {
                    lemma_key_index(self@, k@, i as int);
                }
                return Some(i);
            }
            i = i + 1;
        }
        None
    }

    /// Adds `val` under the letters, digits and hyphens of `key`; nothing is stored
    /// if those are none, or if `val` is empty.
    pub fn add(&mut self, key: &str, val: &str)
        ensures
            final(self)@ == lenient_add(old(self)@, key@, val@),
    {
        proof {
            use_type_invariant(&*self);
            lemma_lenient_add_wf(self@, key@, val@);
        }
        let k = clean_key(key);
        if k.unicode_len() == 0 || val.unicode_len() == 0 {
            return;
        }
        let v = val.to_owned();
        let ghost m = self@;
        let found = self.find_key(&k);
        let mut taken = Header::new();
        std::mem::swap(self, &mut taken);
        let Header { mut keys, mut vals } = taken;
        assert(model_of(keys@, vals@) == m);
        match found {
            Some(i) => {
                let ghost old_vals = vals@;
                let mut vs = vals.remove(i);
                vs.push(v);
                assert(vs@.map_values(|s: String| s@) =~= old_vals[i as int]@.map_values(
                    |s: String| s@,
                ).push(v@));
                vals.insert(i, vs);
                assert(vals@ =~= old_vals.update(i as int, vs));
                assert(model_of(keys@, vals@) =~= m.update(i as int, (k@, m[i as int].1.push(v@))));
            },
            None => {
                keys.push(k);
                let mut vs: Vec<String> = Vec::new();
                vs.push(v);
                vals.push(vs);
                assert(vs@.map_values(|s: String| s@) =~= seq![v@]);
                assert(model_of(keys@, vals@) =~= m.push((k@, seq![v@])));
            },
        }
        *self = Header { keys, vals };
    }

    /// Removes the field named by `key`, trimmed.
    pub fn del(&mut self, key: &str)
        ensures
            final(self)@ == match lookup(old(self)@, trim(key@)) {
                Some(_) => old(self)@.remove(key_index(old(self)@, trim(key@))),
                None => old(self)@,
            },
    {
        proof {
            use_type_invariant(&*self);
        }
        let k = trimmed(key);
        let ghost m = self@;
        match self.find_key(&k) {
            Some(i) => {
                let mut taken = Header::new();
                std::mem::swap(self, &mut taken);
                let Header { mut keys, mut vals } = taken;
                assert(model_of(keys@, vals@) == m);
                keys.remove(i);
                vals.remove(i);
                assert(model_of(keys@, vals@) =~= m.remove(i as int));
                assert(lenient_wf(model_of(keys@, vals@))) by {
                    let r = model_of(keys@, vals@);
                    assert forall|a: int| 0 <= a < r.len() implies #[trigger] r[a] == if a < i {
                        m[a]
                    } else {
                        m[a + 1]
                    } by {}
                }
                *self = Header { keys, vals };
            },
            None => {},
        }
    }

    /// The first value stored under `key`, trimmed.
    pub fn get(&self, key: &str) -> (r: Option<String>)
        ensures
            r is Some <==> lookup(self@, trim(key@)) is Some,
            r is Some ==> r->0@ == lookup(self@, trim(key@))->0[0],
    {
        proof {
            use_type_invariant(self);
        }
        let k = trimmed(key);
        match self.find_key(&k) {
            Some(i) => {
                assert(self.vals@[i as int]@.map_values(|s: String| s@)[0] == self.vals@[i as int]@[0]@);
                Some(self.vals[i][0].clone())
            },
            None => None,
        }
    }

    /// All values stored under `key`, trimmed, in the order they were added.
    pub fn values(&self, key: &str) -> (r: Option<Vec<String>>)
        ensures
            r is Some <==> lookup(self@, trim(key@)) is Some,
            r is Some ==> r->0@.map_values(|s: String| s@) == lookup(self@, trim(key@))->0,
    {
        proof {
            use_type_invariant(self);
        }
        let k = trimmed(key);
        match self.find_key(&k) {
            Some(i) => {
                let vs = self.vals[i].clone();
                assert(vs@.map_values(|s: String| s@) =~= self.vals@[i as int]@.map_values(
                    |s: String| s@,
                ));
                Some(vs)
            },
            None => None,
        }
    }
    /// Adds the fields of each line of `s` (see `lenient_line`); lines that are empty
    /// or have no colon are skipped, so this never fails.
    pub fn from_str(s: &str) -> (r: Result<Header, ParseError>)
        ensures
            r is Ok,
            r->Ok_0@ == lenient_lines(Seq::empty(), split_crlf(s@)),
    {
        let cs = chars_of(s);
        let n = cs.len();
        let ranges = split_crlf_bounds(&cs, 0, n);
        let ghost raw = split_crlf(s@);
        assert(cs@.subrange(0, n as int) =~= s@);
        let mut header = Header::new();
        assert(raw.skip(0) =~= raw);
        let mut i: usize = 0;
        while i < ranges.len()
            invariant
                i <= ranges.len(),
                cs@ == s@,
                n == cs.len(),
                forall|k: int| 0 <= k < ranges.len() ==> 0 <= (#[trigger] ranges@[k]).0 <= ranges@[k].1 <= n,
                pieces_of(cs@, ranges@) == raw,
                lenient_lines(Seq::empty(), raw) == lenient_lines(header@, raw.skip(i as int)),
            decreases ranges.len() - i,
        {
            let (x, y) = ranges[i];
            assert(raw.skip(i as int)[0] == cs@.subrange(x as int, y as int));
            assert(raw.skip(i as int).drop_first() =~= raw.skip(i + 1));
            header.add_line(s, &cs, x, y);
            i = i + 1;
        }
        assert(raw.skip(i as int) =~= Seq::<Seq<char>>::empty());
        Ok(header)
    }

    fn add_line(&mut self, s: &str, cs: &Vec<char>, x: usize, y: usize)
        requires
            cs@ == s@,
            x <= y <= cs.len(),
        ensures
            final(self)@ == lenient_line(old(self)@, cs@.subrange(x as int, y as int)),
    {
        let ghost line = cs@.subrange(x as int, y as int);
        if x == y {
            return;
        }
        let colon = find_char(cs, x, y, ':');
        if colon == y {
            assert(!line.contains(':')) by {
                if line.contains(':') {
                    let j = choose|j: int| 0 <= j < line.len() && line[j] == ':';
                    assert(cs@[x + j] == ':');
                }
            }
            return;
        }
        assert(line[colon - x] == ':');
        let key = s.substring_char(x, colon);
        let space = find_char(cs, x, y, ' ');
        let ranges = split_bounds(cs, space, y, ',');
        let ghost vs = split_on(cs@.subrange(space as int, y as int), ',').map_values(
            |p: Seq<char>| trim(p),
        );
        let ghost m0 = self@;
        assert(vs.skip(0) =~= vs);
        let mut j: usize = 0;
        while j < ranges.len()
            invariant
                j <= ranges.len(),
                x <= colon <= y,
                key@ == cs@.subrange(x as int, colon as int),
                cs@ == s@,
                space <= y <= cs.len(),
                forall|i: int| 0 <= i < ranges.len() ==> space <= (#[trigger] ranges@[i]).0 <= ranges@[i].1 <= y,
                pieces_of(cs@, ranges@) == split_on(cs@.subrange(space as int, y as int), ','),
                vs == split_on(cs@.subrange(space as int, y as int), ',').map_values(
                    |p: Seq<char>| trim(p),
                ),
                lenient_add_all(m0, key@, vs) == lenient_add_all(self@, key@, vs.skip(j as int)),
            decreases ranges.len() - j,
        {
            let (a, b) = ranges[j];
            let (a2, b2) = trim_bounds(cs, a, b);
            let v = s.substring_char(a2, b2);
            assert(vs.skip(j as int)[0] == v@);
            assert(vs.skip(j as int).drop_first() =~= vs.skip(j + 1));
            self.add(key, v);
            j = j + 1;
        }
        assert(vs.skip(j as int) =~= Seq::<Seq<char>>::empty());
    }

    /// The line that the field at `i` is written as, without its line break.
    fn line_string(&self, i: usize) -> (r: String)
        requires
            i < self@.len(),
        ensures
            r@ == header_line(self@[i as int]),
    {
        proof {
            use_type_invariant(self);
            reveal_strlit(": ");
            reveal_strlit(", ");
            assert(": "@ =~= seq![':', ' ']);
            assert(", "@ =~= seq![',', ' ']);
        }
        let ghost vsm = self@[i as int].1;
        let mut r = self.keys[i].clone();
        r.append(": ");
        let vs = &self.vals[i];
        assert(vs@.map_values(|s: String| s@) == vsm);
        assert(vsm.take(0) =~= Seq::<Seq<char>>::empty());
        let mut j: usize = 0;
        while j < vs.len()
            invariant
                self.wf(),
                i < self@.len(),
                ", "@ == seq![',', ' '],
                j <= vs.len(),
                vs@.map_values(|s: String| s@) == vsm,
                r@ == self@[i as int].0 + seq![':', ' '] + join_values(vsm.take(j as int)),
            decreases vs.len() - j,
        {
            if j > 0 {
                r.append(", ");
            }
            r.append(vs[j].as_str());
            proof {
                let t = vsm.take(j + 1);
                assert(t.drop_last() =~= vsm.take(j as int));
                assert(t.last() == vs@[j as int]@);
                if j == 0 {
                    assert(join_values(t) == t[0]);
                }
                assert(r@ =~= self@[i as int].0 + seq![':', ' '] + join_values(t));
            }
            j = j + 1;
        }
        assert(vsm.take(j as int) =~= vsm);
        r
    }

    /// `Name: v1, v2, ..., vn` and CRLF for each name, in first-seen order.
    pub fn to_string(&self) -> (r: String)
        ensures
            r@ == lines_text(self@),
    {
        proof {
            use_type_invariant(self);
            reveal_strlit("\r\n");
            assert("\r\n"@ =~= seq!['\r', '\n']);
        }
        let mut r = String::new();
        let mut i: usize = 0;
        assert(self@.take(0) =~= Seq::<(Seq<char>, Seq<Seq<char>>)>::empty());
        while i < self.keys.len()
            invariant
                self.wf(),
                i <= self@.len(),
                "\r\n"@ == seq!['\r', '\n'],
                r@ == lines_text(self@.take(i as int)),
            decreases self.keys.len() - i,
        {
            let line = self.line_string(i);
            r.append(line.as_str());
            r.append("\r\n");
            proof {
                let t = self@.take(i + 1);
                assert(t.drop_last() =~= self@.take(i as int));
                assert(r@ =~= lines_text(t));
            }
            i = i + 1;
        }
        assert(self@.take(i as int) =~= self@);
        r
    }
}

/// `s` trimmed, as an owned string.
fn trimmed(s: &str) -> (r: String)
    ensures
        r@ == trim(s@),
{
    let cs = chars_of(s);
    let (a, b) = trim_bounds(&cs, 0, cs.len());
    assert(cs@.subrange(0, cs.len() as int) =~= s@);
    s.substring_char(a, b).to_owned()
}

impl Default for Header {
    fn default() -> (r: Header)
        ensures
            r@ == Seq::<(Seq<char>, Seq<Seq<char>>)>::empty(),
    {
        Header::new()
    }
}

} // verus!
