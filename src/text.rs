//! Character-level helpers shared by the header and request parsers.
use vstd::prelude::*;

verus! {

/// Unicode `White_Space`: the characters that `char::is_whitespace` accepts.
pub open spec fn is_space(c: char) -> bool {
    ('\u{9}' <= c && c <= '\u{d}') || c == ' ' || c == '\u{85}' || c == '\u{a0}'
        || c == '\u{1680}' || ('\u{2000}' <= c && c <= '\u{200a}') || c == '\u{2028}'
        || c == '\u{2029}' || c == '\u{202f}' || c == '\u{205f}' || c == '\u{3000}'
}

pub fn char_is_space(c: char) -> (r: bool)
    ensures
        r == is_space(c),
{
    ('\u{9}' <= c && c <= '\u{d}') || c == ' ' || c == '\u{85}' || c == '\u{a0}'
        || c == '\u{1680}' || ('\u{2000}' <= c && c <= '\u{200a}') || c == '\u{2028}'
        || c == '\u{2029}' || c == '\u{202f}' || c == '\u{205f}' || c == '\u{3000}'
}

/// What `char::is_alphanumeric` says of `c`: whether it is a Unicode letter or number.
pub uninterp spec fn alnum(c: char) -> bool;

/// Relies on `char::is_alphanumeric`: among ASCII characters exactly the letters and
/// digits are alphanumeric, and no white space is.
#[verifier::external_body]
pub(crate) fn char_is_alphanumeric(c: char) -> (r: bool)
    ensures
        r == alnum(c),
        c <= '\u{7f}' ==> (r <==> (('a' <= c && c <= 'z') || ('A' <= c && c <= 'Z') || ('0' <= c
            && c <= '9'))),
        is_space(c) ==> !r,
{
    c.is_alphanumeric()
}

/// `s` without its leading white space.
pub open spec fn trim_start(s: Seq<char>) -> Seq<char>
    decreases s.len(),
{
    if s.len() > 0 && is_space(s[0]) {
        trim_start(s.drop_first())
    } else {
        s
    }
}

/// `s` without its trailing white space.
pub open spec fn trim_end(s: Seq<char>) -> Seq<char>
    decreases s.len(),
{
    if s.len() > 0 && is_space(s.last()) {
        trim_end(s.drop_last())
    } else {
        s
    }
}

/// `s` without leading and trailing white space, as `str::trim` gives it.
pub open spec fn trim(s: Seq<char>) -> Seq<char> {
    trim_end(trim_start(s))
}

/// The characters of `s`, in order.
pub fn chars_of(s: &str) -> (r: Vec<char>)
    ensures
        r@ == s@,
{
    let n = s.unicode_len();
    let mut r: Vec<char> = Vec::with_capacity(n);
    for c in it: s.chars()
        invariant
            r@ == it.seq().take(it.index() as int),
    {
        r.push(c);
    }
    r
}


/// The part of `s` before the first `c` (all of `s` if there is none).
pub open spec fn take_until(s: Seq<char>, c: char) -> Seq<char>
    decreases s.len(),
{
    if s.len() == 0 || s[0] == c {
        Seq::empty()
    } else {
        seq![s[0]] + take_until(s.drop_first(), c)
    }
}

/// The part of `s` from the first `c` on (empty if there is none).
pub open spec fn skip_until(s: Seq<char>, c: char) -> Seq<char>
    decreases s.len(),
{
    if s.len() == 0 || s[0] == c {
        s
    } else {
        skip_until(s.drop_first(), c)
    }
}

/// The pieces of `s` between occurrences of `c`, as `str::split` gives them.
pub open spec fn split_on(s: Seq<char>, c: char) -> Seq<Seq<char>>
    decreases s.len(),
{
    if s.len() == 0 {
        seq![Seq::empty()]
    } else {
        let rest = split_on(s.drop_first(), c);
        if s[0] == c {
            seq![Seq::<char>::empty()] + rest
        } else {
            rest.update(0, seq![s[0]] + rest[0])
        }
    }
}

pub proof fn lemma_split_on_nonempty(s: Seq<char>, c: char)
    ensures
        split_on(s, c).len() >= 1,
    decreases s.len(),
{
    if s.len() > 0 {
        lemma_split_on_nonempty(s.drop_first(), c);
    }
}

/// When `i` is the first position of `c` in `s` (or `s.len()`), `take_until` and
/// `skip_until` cut `s` there.
pub proof fn lemma_cut_at_first(s: Seq<char>, c: char, i: int)
    requires
        0 <= i <= s.len(),
        forall|j: int| 0 <= j < i ==> s[j] != c,
        i == s.len() || s[i] == c,
    ensures
        take_until(s, c) == s.take(i),
        skip_until(s, c) == s.skip(i),
    decreases i,
{
    if i == 0 {
        assert(s.take(0) =~= Seq::<char>::empty());
        assert(s.skip(0) =~= s);
    } else {
        let t = s.drop_first();
        assert forall|j: int| 0 <= j < i - 1 implies t[j] != c by {
            assert(t[j] == s[j + 1]);
        }
        lemma_cut_at_first(t, c, i - 1);
        assert(s.take(i) =~= seq![s[0]] + t.take(i - 1));
        assert(s.skip(i) =~= t.skip(i - 1));
    }
}

/// A piece without `c`, then `c`, then the rest: the first piece comes off whole.
pub proof fn lemma_split_on_first(p: Seq<char>, c: char, t: Seq<char>)
    requires
        !p.contains(c),
    ensures
        split_on(p + seq![c] + t, c) == seq![p] + split_on(t, c),
    decreases p.len(),
{
    let s = p + seq![c] + t;
    if p.len() == 0 {
        assert(p =~= Seq::<char>::empty());
        assert(s.drop_first() =~= t);
        assert(seq![Seq::<char>::empty()] + split_on(t, c) =~= seq![p] + split_on(t, c));
    } else {
        let q = p.drop_first();
        assert(!q.contains(c)) by {
            if q.contains(c) {
                let j = choose|j: int| 0 <= j < q.len() && q[j] == c;
                assert(p[j + 1] == c);
            }
        }
        assert(s.drop_first() =~= q + seq![c] + t);
        assert(s[0] == p[0]);
        assert(p[0] != c) by {
            if p[0] == c {
                assert(p.contains(c));
            }
        }
        lemma_split_on_first(q, c, t);
        assert(seq![p[0]] + q =~= p);
        assert(split_on(s, c) =~= seq![p] + split_on(t, c));
    }
}

/// A piece without `c` is its own single piece.
pub proof fn lemma_split_on_none(p: Seq<char>, c: char)
    requires
        !p.contains(c),
    ensures
        split_on(p, c) == seq![p],
    decreases p.len(),
{
    if p.len() == 0 {
        assert(p =~= Seq::<char>::empty());
        assert(split_on(p, c) =~= seq![p]);
    } else {
        let q = p.drop_first();
        assert(!q.contains(c)) by {
            if q.contains(c) {
                let j = choose|j: int| 0 <= j < q.len() && q[j] == c;
                assert(p[j + 1] == c);
            }
        }
        assert(p[0] != c) by {
            if p[0] == c {
                assert(p.contains(c));
            }
        }
        lemma_split_on_none(q, c);
        assert(seq![p[0]] + q =~= p);
        assert(split_on(p, c) == split_on(q, c).update(0, seq![p[0]] + split_on(q, c)[0]));
        assert(split_on(p, c) =~= seq![p]);
    }
}

/// The bounds, within `lo..hi`, of that range of `cs` trimmed.
pub fn trim_bounds(cs: &Vec<char>, lo: usize, hi: usize) -> (r: (usize, usize))
    requires
        lo <= hi <= cs.len(),
    ensures
        lo <= r.0 <= r.1 <= hi,
        cs@.subrange(r.0 as int, r.1 as int) == trim(cs@.subrange(lo as int, hi as int)),
{
    let mut a = lo;
    while a < hi && char_is_space(cs[a])
        invariant
            lo <= a <= hi <= cs.len(),
            trim_start(cs@.subrange(a as int, hi as int)) == trim_start(
                cs@.subrange(lo as int, hi as int),
            ),
        decreases hi - a,
    {
        assert(cs@.subrange(a as int, hi as int).drop_first() =~= cs@.subrange(
            a + 1,
            hi as int,
        ));
        a = a + 1;
    }
    let mut b = hi;
    while b > a && char_is_space(cs[b - 1])
        invariant
            lo <= a <= b <= hi <= cs.len(),
            trim_end(cs@.subrange(a as int, b as int)) == trim_end(
                cs@.subrange(a as int, hi as int),
            ),
        decreases b - a,
    {
        assert(cs@.subrange(a as int, b as int).drop_last() =~= cs@.subrange(
            a as int,
            b - 1,
        ));
        b = b - 1;
    }
    (a, b)
}

/// The first position of `c` in `cs[lo..hi]`, or `hi`.
pub fn find_char(cs: &Vec<char>, lo: usize, hi: usize, c: char) -> (r: usize)
    requires
        lo <= hi <= cs.len(),
    ensures
        lo <= r <= hi,
        forall|j: int| lo <= j < r ==> cs@[j] != c,
        r < hi ==> cs@[r as int] == c,
        take_until(cs@.subrange(lo as int, hi as int), c) == cs@.subrange(lo as int, r as int),
        skip_until(cs@.subrange(lo as int, hi as int), c) == cs@.subrange(r as int, hi as int),
{
    let mut i = lo;
    while i < hi && cs[i] != c
        invariant
            lo <= i <= hi <= cs.len(),
            forall|j: int| lo <= j < i ==> cs@[j] != c,
        decreases hi - i,
    {
        i = i + 1;
    }
    proof {
        let s = cs@.subrange(lo as int, hi as int);
        lemma_cut_at_first(s, c, i - lo);
        assert(s.take(i - lo) =~= cs@.subrange(lo as int, i as int));
        assert(s.skip(i - lo) =~= cs@.subrange(i as int, hi as int));
    }
    i
}


/// The view of the pieces of `cs` that `ranges` marks.
pub open spec fn pieces_of(cs: Seq<char>, ranges: Seq<(usize, usize)>) -> Seq<Seq<char>> {
    ranges.map_values(|r: (usize, usize)| cs.subrange(r.0 as int, r.1 as int))
}

/// The bounds of the pieces of `cs[lo..hi]` between occurrences of `c`.
pub fn split_bounds(cs: &Vec<char>, lo: usize, hi: usize, c: char) -> (r: Vec<(usize, usize)>)
    requires
        lo <= hi <= cs.len(),
    ensures
        forall|i: int| 0 <= i < r.len() ==> lo <= (#[trigger] r@[i]).0 <= r@[i].1 <= hi,
        pieces_of(cs@, r@) == split_on(cs@.subrange(lo as int, hi as int), c),
{
    let mut r: Vec<(usize, usize)> = Vec::new();
    let mut start = lo;
    let mut done = false;
    while !done
        invariant
            lo <= start <= hi <= cs.len(),
            forall|i: int| 0 <= i < r.len() ==> lo <= (#[trigger] r@[i]).0 <= r@[i].1 <= hi,
            !done ==> split_on(cs@.subrange(lo as int, hi as int), c) == pieces_of(cs@, r@)
                + split_on(cs@.subrange(start as int, hi as int), c),
            done ==> split_on(cs@.subrange(lo as int, hi as int), c) == pieces_of(cs@, r@),
        decreases hi - start + (if done { 0int } else { 1int }),
    {
        let j = find_char(cs, start, hi, c);
        let ghost before = r@;
        r.push((start, j));
        proof {
            let p = cs@.subrange(start as int, j as int);
            assert(!p.contains(c)) by {
                if p.contains(c) {
                    let k = choose|k: int| 0 <= k < p.len() && p[k] == c;
                    assert(cs@[start + k] == c);
                }
            }
            assert(pieces_of(cs@, r@) =~= pieces_of(cs@, before) + seq![p]);
            if j == hi {
                assert(cs@.subrange(start as int, hi as int) =~= p);
                lemma_split_on_none(p, c);
            } else {
                let t = cs@.subrange(j + 1, hi as int);
                assert(cs@.subrange(start as int, hi as int) =~= p + seq![c] + t);
                lemma_split_on_first(p, c, t);
            }
        }
        if j == hi {
            done = true;
        } else {
            start = j + 1;
        }
    }
    r
}

/// `trim_start(s)` is a suffix of `s`, and starts with no white space.
pub proof fn lemma_trim_start(s: Seq<char>)
    ensures
        trim_start(s) == s.skip(s.len() - trim_start(s).len()),
        trim_start(s).len() <= s.len(),
        trim_start(s).len() > 0 ==> !is_space(trim_start(s)[0]),
    decreases s.len(),
{
    if s.len() > 0 && is_space(s[0]) {
        lemma_trim_start(s.drop_first());
        assert(s.drop_first().skip(s.len() - 1 - trim_start(s).len()) =~= s.skip(
            s.len() - trim_start(s).len(),
        ));
    } else {
        assert(s.skip(0) =~= s);
    }
}

/// `trim_end(s)` is a prefix of `s`, and ends with no white space.
pub proof fn lemma_trim_end(s: Seq<char>)
    ensures
        trim_end(s) == s.take(trim_end(s).len() as int),
        trim_end(s).len() <= s.len(),
        trim_end(s).len() > 0 ==> !is_space(trim_end(s).last()),
    decreases s.len(),
{
    if s.len() > 0 && is_space(s.last()) {
        lemma_trim_end(s.drop_last());
        assert(s.drop_last().take(trim_end(s).len() as int) =~= s.take(
            trim_end(s).len() as int,
        ));
    } else {
        assert(s.take(s.len() as int) =~= s);
    }
}

/// A trimmed piece that is not empty: neither end is white space, and it holds
/// nothing that `s` does not.
pub proof fn lemma_trim(s: Seq<char>)
    ensures
        trim(s).len() <= s.len(),
        trim(s).len() > 0 ==> !is_space(trim(s)[0]) && !is_space(trim(s).last()),
        forall|c: char| #[trigger] trim(s).contains(c) ==> s.contains(c),
{
    let a = trim_start(s);
    lemma_trim_start(s);
    lemma_trim_end(a);
    let t = trim(s);
    if t.len() > 0 {
        assert(t[0] == a[0]);
    }
    assert forall|c: char| #[trigger] t.contains(c) implies s.contains(c) by {
        let j = choose|j: int| 0 <= j < t.len() && t[j] == c;
        assert(a[j] == c);
        assert(s[s.len() - a.len() + j] == c);
    }
}

/// A piece with no white space at either end is its own trim, and stays so with
/// spaces in front.
pub proof fn lemma_trim_unspaced(v: Seq<char>)
    requires
        v.len() > 0,
        !is_space(v[0]),
        !is_space(v.last()),
    ensures
        trim(v) == v,
        trim(seq![' '] + v) == v,
{
    let w = seq![' '] + v;
    assert(w.drop_first() =~= v);
    assert(trim_start(w) == trim_start(v));
}

/// No piece of `split_on(s, c)` holds `c`.
pub proof fn lemma_split_on_pieces(s: Seq<char>, c: char)
    ensures
        forall|i: int| 0 <= i < split_on(s, c).len() ==> !(#[trigger] split_on(s, c)[i]).contains(c),
    decreases s.len(),
{
    if s.len() > 0 {
        let rest = split_on(s.drop_first(), c);
        lemma_split_on_pieces(s.drop_first(), c);
        lemma_split_on_nonempty(s.drop_first(), c);
        if s[0] != c {
            let p = seq![s[0]] + rest[0];
            assert(!p.contains(c)) by {
                if p.contains(c) {
                    let j = choose|j: int| 0 <= j < p.len() && p[j] == c;
                    assert(rest[0][j - 1] == c);
                }
            }
            assert forall|i: int| 0 <= i < split_on(s, c).len() implies !(#[trigger] split_on(
                s,
                c,
            )[i]).contains(c) by {
                if i > 0 {
                    assert(split_on(s, c)[i] == rest[i]);
                }
            }
        } else {
            assert forall|i: int| 0 <= i < split_on(s, c).len() implies !(#[trigger] split_on(
                s,
                c,
            )[i]).contains(c) by {
                if i > 0 {
                    assert(split_on(s, c)[i] == rest[i - 1]);
                }
            }
        }
    }
}

/// Whether `a` and `b` hold the same characters.
pub fn str_eq(a: &str, b: &str) -> (r: bool)
    ensures
        r == (a@ == b@),
{
    let ac = chars_of(a);
    let bc = chars_of(b);
    if ac.len() != bc.len() {
        return false;
    }
    let mut i: usize = 0;
    while i < ac.len()
        invariant
            ac@ == a@,
            bc@ == b@,
            ac.len() == bc.len(),
            i <= ac.len(),
            forall|j: int| 0 <= j < i ==> ac@[j] == bc@[j],
        decreases ac.len() - i,
    {
        if ac[i] != bc[i] {
            assert(ac@[i as int] != bc@[i as int]);
            return false;
        }
        i = i + 1;
    }
    assert(ac@ =~= bc@);
    true
}

/// Whether `s` has the pair CR LF at `i`.
pub open spec fn crlf_at(s: Seq<char>, i: int) -> bool {
    0 <= i && i + 1 < s.len() && s[i] == '\r' && s[i + 1] == '\n'
}

/// Whether a blank line, CR LF CR LF, starts at `i`.
pub open spec fn blank_at(s: Seq<char>, i: int) -> bool {
    crlf_at(s, i) && crlf_at(s, i + 2)
}

pub open spec fn has_blank(s: Seq<char>) -> bool {
    exists|i: int| blank_at(s, i)
}

/// Where the first blank line starts.
pub open spec fn first_blank(s: Seq<char>) -> int {
    choose|i: int| blank_at(s, i) && forall|j: int| 0 <= j < i ==> !blank_at(s, j)
}

/// The lines of `s`: the pieces between occurrences of CR LF, as `str::split` gives them.
pub open spec fn split_crlf(s: Seq<char>) -> Seq<Seq<char>>
    decreases s.len(),
{
    if s.len() == 0 {
        seq![Seq::empty()]
    } else if crlf_at(s, 0) {
        seq![Seq::<char>::empty()] + split_crlf(s.skip(2))
    } else {
        let rest = split_crlf(s.drop_first());
        rest.update(0, seq![s[0]] + rest[0])
    }
}

pub open spec fn no_crlf(p: Seq<char>) -> bool {
    forall|j: int| !crlf_at(p, j)
}

pub proof fn lemma_split_crlf_nonempty(s: Seq<char>)
    ensures
        split_crlf(s).len() >= 1,
    decreases s.len(),
{
    if s.len() > 0 {
        if crlf_at(s, 0) {
            lemma_split_crlf_nonempty(s.skip(2));
        } else {
            lemma_split_crlf_nonempty(s.drop_first());
        }
    }
}

pub proof fn lemma_split_crlf_first(p: Seq<char>, t: Seq<char>)
    requires
        no_crlf(p),
    ensures
        split_crlf(p + seq!['\r', '\n'] + t) == seq![p] + split_crlf(t),
    decreases p.len(),
{
    let s = p + seq!['\r', '\n'] + t;
    if p.len() == 0 {
        assert(p =~= Seq::<char>::empty());
        assert(crlf_at(s, 0));
        assert(s.skip(2) =~= t);
        assert(seq![Seq::<char>::empty()] + split_crlf(t) =~= seq![p] + split_crlf(t));
    } else {
        let q = p.drop_first();
        assert(no_crlf(q)) by {
            assert forall|j: int| !crlf_at(q, j) by {
                if crlf_at(q, j) {
                    assert(crlf_at(p, j + 1));
                }
            }
        }
        assert(!crlf_at(s, 0)) by {
            if crlf_at(s, 0) {
                if p.len() >= 2 {
                    assert(crlf_at(p, 0));
                } else {
                    assert(s[1] == '\r');
                }
            }
        }
        assert(s.drop_first() =~= q + seq!['\r', '\n'] + t);
        lemma_split_crlf_first(q, t);
        assert(seq![p[0]] + q =~= p);
        assert(split_crlf(s) == split_crlf(s.drop_first()).update(
            0,
            seq![s[0]] + split_crlf(s.drop_first())[0],
        ));
        assert(split_crlf(s) =~= seq![p] + split_crlf(t));
    }
}

pub proof fn lemma_split_crlf_none(p: Seq<char>)
    requires
        no_crlf(p),
    ensures
        split_crlf(p) == seq![p],
    decreases p.len(),
{
    if p.len() == 0 {
        assert(p =~= Seq::<char>::empty());
        assert(split_crlf(p) =~= seq![p]);
    } else {
        let q = p.drop_first();
        assert(no_crlf(q)) by {
            assert forall|j: int| !crlf_at(q, j) by {
                if crlf_at(q, j) {
                    assert(crlf_at(p, j + 1));
                }
            }
        }
        assert(!crlf_at(p, 0));
        lemma_split_crlf_none(q);
        assert(seq![p[0]] + q =~= p);
        assert(split_crlf(p) == split_crlf(q).update(0, seq![p[0]] + split_crlf(q)[0]));
        assert(split_crlf(p) =~= seq![p]);
    }
}

/// The first position in `cs[lo..hi]` where CR LF starts, or `hi`.
pub fn find_crlf(cs: &Vec<char>, lo: usize, hi: usize) -> (r: usize)
    requires
        lo <= hi <= cs.len(),
    ensures
        lo <= r <= hi,
        forall|j: int| 0 <= j < r - lo ==> !#[trigger] crlf_at(cs@.subrange(lo as int, hi as int), j),
        r < hi ==> crlf_at(cs@.subrange(lo as int, hi as int), r - lo),
{
    let ghost s = cs@.subrange(lo as int, hi as int);
    let mut i = lo;
    while i < hi && !(i + 1 < hi && cs[i] == '\r' && cs[i + 1] == '\n')
        invariant
            lo <= i <= hi <= cs.len(),
            s == cs@.subrange(lo as int, hi as int),
            forall|j: int| 0 <= j < i - lo ==> !#[trigger] crlf_at(s, j),
        decreases hi - i,
    {
        i = i + 1;
    }
    i
}

/// The bounds of the lines of `cs[lo..hi]`.
pub fn split_crlf_bounds(cs: &Vec<char>, lo: usize, hi: usize) -> (r: Vec<(usize, usize)>)
    requires
        lo <= hi <= cs.len(),
    ensures
        forall|i: int| 0 <= i < r.len() ==> lo <= (#[trigger] r@[i]).0 <= r@[i].1 <= hi,
        pieces_of(cs@, r@) == split_crlf(cs@.subrange(lo as int, hi as int)),
{
    let mut r: Vec<(usize, usize)> = Vec::new();
    let mut start = lo;
    let mut done = false;
    while !done
        invariant
            lo <= start <= hi <= cs.len(),
            forall|i: int| 0 <= i < r.len() ==> lo <= (#[trigger] r@[i]).0 <= r@[i].1 <= hi,
            !done ==> split_crlf(cs@.subrange(lo as int, hi as int)) == pieces_of(cs@, r@)
                + split_crlf(cs@.subrange(start as int, hi as int)),
            done ==> split_crlf(cs@.subrange(lo as int, hi as int)) == pieces_of(cs@, r@),
        decreases hi - start + (if done { 0int } else { 1int }),
    {
        let j = find_crlf(cs, start, hi);
        let ghost before = r@;
        r.push((start, j));
        proof {
            let s = cs@.subrange(start as int, hi as int);
            let p = cs@.subrange(start as int, j as int);
            assert(no_crlf(p)) by {
                assert forall|k: int| !crlf_at(p, k) by {
                    if crlf_at(p, k) {
                        assert(crlf_at(s, k));
                    }
                }
            }
            assert(pieces_of(cs@, r@) =~= pieces_of(cs@, before) + seq![p]);
            if j == hi {
                assert(s =~= p);
                lemma_split_crlf_none(p);
            } else {
                let t = cs@.subrange(j + 2, hi as int);
                assert(s =~= p + seq!['\r', '\n'] + t);
                lemma_split_crlf_first(p, t);
            }
        }
        if j == hi {
            done = true;
        } else {
            start = j + 2;
        }
    }
    r
}

/// Where the first blank line of `cs` starts, or `cs.len()` if it has none.
pub fn find_blank(cs: &Vec<char>) -> (r: usize)
    ensures
        r <= cs.len(),
        r < cs.len() <==> has_blank(cs@),
        r < cs.len() ==> r == first_blank(cs@) && blank_at(cs@, r as int),
{
    let n = cs.len();
    let mut i: usize = 0;
    while i < n
        invariant
            n == cs.len(),
            i <= n,
            forall|j: int| 0 <= j < i ==> !blank_at(cs@, j),
        decreases n - i,
    {
        if 3 < n - i && cs[i] == '\r' && cs[i + 1] == '\n' && cs[i + 2] == '\r' && cs[i + 3] == '\n' {
            proof {
                assert(blank_at(cs@, i as int));
                let f = first_blank(cs@);
                assert(blank_at(cs@, f) && forall|j: int| 0 <= j < f ==> !blank_at(cs@, j));
                if f < i {
                } else if i < f {
                }
            }
            return i;
        }
        i = i + 1;
    }
    assert(!has_blank(cs@)) by {
        if has_blank(cs@) {
            let j = choose|j: int| blank_at(cs@, j);
        }
    }
    n
}

/// The first three pieces of `s` between spaces, if it has that many.
pub fn first_three_words(s: &str) -> (r: Option<(&str, &str, &str)>)
    ensures
        match r {
            Some(w) => split_on(s@, ' ').len() >= 3 && w.0@ == split_on(s@, ' ')[0] && w.1@
                == split_on(s@, ' ')[1] && w.2@ == split_on(s@, ' ')[2],
            None => split_on(s@, ' ').len() < 3,
        },
{
    let cs = chars_of(s);
    let n = cs.len();
    let ranges = split_bounds(&cs, 0, n, ' ');
    assert(cs@.subrange(0, n as int) =~= s@);
    if ranges.len() < 3 {
        return None;
    }
    let (a0, b0) = ranges[0];
    let (a1, b1) = ranges[1];
    let (a2, b2) = ranges[2];
    assert(pieces_of(cs@, ranges@)[0] == cs@.subrange(a0 as int, b0 as int));
    assert(pieces_of(cs@, ranges@)[1] == cs@.subrange(a1 as int, b1 as int));
    assert(pieces_of(cs@, ranges@)[2] == cs@.subrange(a2 as int, b2 as int));
    Some((s.substring_char(a0, b0), s.substring_char(a1, b1), s.substring_char(a2, b2)))
}

/// The decimal digit for `d`, which is below ten.
pub open spec fn digit_char(d: nat) -> char {
    if d == 0 {
        '0'
    } else if d == 1 {
        '1'
    } else if d == 2 {
        '2'
    } else if d == 3 {
        '3'
    } else if d == 4 {
        '4'
    } else if d == 5 {
        '5'
    } else if d == 6 {
        '6'
    } else if d == 7 {
        '7'
    } else if d == 8 {
        '8'
    } else {
        '9'
    }
}

/// `n` written in decimal, without leading zeros.
pub open spec fn decimal(n: nat) -> Seq<char>
    decreases n,
{
    if n < 10 {
        seq![digit_char(n)]
    } else {
        decimal(n / 10) + seq![digit_char(n % 10)]
    }
}

fn digit_str(d: u64) -> (r: &'static str)
    requires
        d < 10,
    ensures
        r@ == seq![digit_char(d as nat)],
{
    proof {
        reveal_strlit("0");
        reveal_strlit("1");
        reveal_strlit("2");
        reveal_strlit("3");
        reveal_strlit("4");
        reveal_strlit("5");
        reveal_strlit("6");
        reveal_strlit("7");
        reveal_strlit("8");
        reveal_strlit("9");
    }
    let r = if d == 0 {
        "0"
    } else if d == 1 {
        "1"
    } else if d == 2 {
        "2"
    } else if d == 3 {
        "3"
    } else if d == 4 {
        "4"
    } else if d == 5 {
        "5"
    } else if d == 6 {
        "6"
    } else if d == 7 {
        "7"
    } else if d == 8 {
        "8"
    } else {
        "9"
    };
    assert(r@ =~= seq![digit_char(d as nat)]);
    r
}

/// `n` written in decimal.
pub fn decimal_string(n: u64) -> (r: String)
    ensures
        r@ == decimal(n as nat),
    decreases n,
{
    let d = digit_str(n % 10);
    if n < 10 {
        d.to_owned()
    } else {
        let mut r = decimal_string(n / 10);
        r.append(d);
        r
    }
}

proof fn lemma_least_blank(s: Seq<char>, i: int)
    requires
        blank_at(s, i),
    ensures
        exists|k: int| blank_at(s, k) && forall|j: int| 0 <= j < k ==> !blank_at(s, j),
    decreases i,
{
    if exists|j: int| 0 <= j < i && blank_at(s, j) {
        let j = choose|j: int| 0 <= j < i && blank_at(s, j);
        lemma_least_blank(s, j);
    } else {
        assert(blank_at(s, i) && forall|j: int| 0 <= j < i ==> !blank_at(s, j));
    }
}

/// A text with a blank line has a first one.
pub proof fn lemma_first_blank(s: Seq<char>)
    requires
        has_blank(s),
    ensures
        blank_at(s, first_blank(s)),
        forall|j: int| 0 <= j < first_blank(s) ==> !blank_at(s, j),
{
    let i = choose|i: int| blank_at(s, i);
    lemma_least_blank(s, i);
}

/// Cutting a text at a CR LF leaves its first line as it was.
pub proof fn lemma_first_line_prefix(a: Seq<char>, b: Seq<char>)
    ensures
        split_crlf(a + seq!['\r', '\n'] + b)[0] == split_crlf(a)[0],
    decreases a.len(),
{
    let s = a + seq!['\r', '\n'] + b;
    lemma_split_crlf_nonempty(a);
    if a.len() == 0 {
        assert(a =~= Seq::<char>::empty());
        assert(crlf_at(s, 0));
    } else if crlf_at(a, 0) {
        assert(crlf_at(s, 0));
    } else {
        assert(!crlf_at(s, 0)) by {
            if a.len() == 1 {
                assert(s[1] == '\r');
            } else {
                assert(s[0] == a[0] && s[1] == a[1]);
            }
        }
        let t = a.drop_first();
        assert(s.drop_first() =~= t + seq!['\r', '\n'] + b);
        lemma_first_line_prefix(t, b);
        lemma_split_crlf_nonempty(t);
        lemma_split_crlf_nonempty(s.drop_first());
        assert(split_crlf(s)[0] == seq![s[0]] + split_crlf(s.drop_first())[0]);
        assert(split_crlf(a)[0] == seq![a[0]] + split_crlf(t)[0]);
    }
}

/// A piece of a text with no CR LF has none either.
pub proof fn lemma_no_crlf_subrange(s: Seq<char>, a: int, b: int)
    requires
        no_crlf(s),
        0 <= a <= b <= s.len(),
    ensures
        no_crlf(s.subrange(a, b)),
{
    let t = s.subrange(a, b);
    assert forall|j: int| !crlf_at(t, j) by {
        if crlf_at(t, j) {
            assert(crlf_at(s, a + j));
        }
    }
}

/// Two texts without CR LF, not joined at a CR and an LF, make one without.
pub proof fn lemma_no_crlf_concat(a: Seq<char>, b: Seq<char>)
    requires
        no_crlf(a),
        no_crlf(b),
        a.len() == 0 || b.len() == 0 || a.last() != '\r' || b[0] != '\n',
    ensures
        no_crlf(a + b),
{
    let s = a + b;
    assert forall|j: int| !crlf_at(s, j) by {
        if crlf_at(s, j) {
            if j + 1 < a.len() {
                assert(crlf_at(a, j));
            } else if j >= a.len() {
                assert(crlf_at(b, j - a.len()));
            } else {
                assert(s[j] == a.last() && s[j + 1] == b[0]);
            }
        }
    }
}

/// `skip_until(s, c)` is a suffix of `s`.
pub proof fn lemma_skip_until_suffix(s: Seq<char>, c: char)
    ensures
        skip_until(s, c).len() <= s.len(),
        skip_until(s, c) == s.skip(s.len() - skip_until(s, c).len()),
    decreases s.len(),
{
    if s.len() == 0 || s[0] == c {
        assert(s.skip(0) =~= s);
    } else {
        lemma_skip_until_suffix(s.drop_first(), c);
        assert(s.drop_first().skip(s.len() - 1 - skip_until(s, c).len()) =~= s.skip(
            s.len() - skip_until(s, c).len(),
        ));
    }
}

/// The first piece of `split_on(s, c)` is a prefix of `s`.
proof fn lemma_split_on_prefix(s: Seq<char>, c: char)
    ensures
        split_on(s, c).len() >= 1,
        split_on(s, c)[0].len() <= s.len(),
        split_on(s, c)[0] == s.take(split_on(s, c)[0].len() as int),
    decreases s.len(),
{
    lemma_split_on_nonempty(s, c);
    if s.len() == 0 {
        assert(s.take(0) =~= Seq::<char>::empty());
    } else {
        let t = s.drop_first();
        lemma_split_on_prefix(t, c);
        if s[0] == c {
            assert(s.take(0) =~= Seq::<char>::empty());
        } else {
            let r0 = split_on(t, c)[0];
            assert(split_on(s, c)[0] == seq![s[0]] + r0);
            assert(seq![s[0]] + r0 =~= s.take(r0.len() + 1int));
        }
    }
}

/// Cut at `c`, a text with no CR LF gives pieces with none.
pub proof fn lemma_split_on_no_crlf(s: Seq<char>, c: char)
    requires
        no_crlf(s),
    ensures
        forall|i: int| 0 <= i < split_on(s, c).len() ==> no_crlf(#[trigger] split_on(s, c)[i]),
    decreases s.len(),
{
    lemma_split_on_prefix(s, c);
    lemma_no_crlf_subrange(s, 0, split_on(s, c)[0].len() as int);
    if s.len() > 0 {
        let t = s.drop_first();
        lemma_no_crlf_subrange(s, 1, s.len() as int);
        assert(t =~= s.subrange(1, s.len() as int));
        lemma_split_on_no_crlf(t, c);
        lemma_split_on_nonempty(t, c);
        let rest = split_on(t, c);
        assert forall|i: int| 0 <= i < split_on(s, c).len() implies no_crlf(
            #[trigger] split_on(s, c)[i],
        ) by {
            if i > 0 {
                if s[0] == c {
                    assert(split_on(s, c)[i] == rest[i - 1]);
                } else {
                    assert(split_on(s, c)[i] == rest[i]);
                }
            } else {
                assert(s.take(split_on(s, c)[0].len() as int) =~= s.subrange(
                    0,
                    split_on(s, c)[0].len() as int,
                ));
            }
        }
    }
}

/// Trimming a text with no CR LF gives one with none.
pub proof fn lemma_trim_no_crlf(s: Seq<char>)
    requires
        no_crlf(s),
    ensures
        no_crlf(trim(s)),
{
    let a = trim_start(s);
    lemma_trim_start(s);
    lemma_trim_end(a);
    lemma_no_crlf_subrange(s, s.len() - a.len(), s.len() as int);
    assert(a =~= s.subrange(s.len() - a.len(), s.len() as int));
    lemma_no_crlf_subrange(a, 0, trim(s).len() as int);
    assert(trim(s) =~= a.subrange(0, trim(s).len() as int));
}

} // verus!
