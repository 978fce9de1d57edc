//! Header fields: an ordered multi-value dictionary with its wire format.
use crate::http::method::{method_of, Method};
use crate::http::url::{valid_path, URL};
use crate::http::version::Version;
use crate::text::{
    alnum, char_is_alphanumeric, crlf_at, lemma_no_crlf_concat, lemma_skip_until_suffix,
    lemma_split_crlf_first, lemma_split_on_no_crlf, lemma_trim_no_crlf, no_crlf,
    lemma_no_crlf_subrange,
    chars_of, find_blank, find_char, first_blank, first_three_words, has_blank, split_crlf,
    split_crlf_bounds, is_space, lemma_cut_at_first, lemma_split_on_first,
    lemma_split_on_none, lemma_split_on_pieces, lemma_trim, lemma_trim_unspaced, pieces_of,
    skip_until, split_bounds, split_on, take_until, trim, trim_bounds,
};
use crate::http::error::ParseError;
use vstd::prelude::*;

verus! {

/// Header fields as a sequence of (name, values), in the order names were first seen.
pub type HeaderModel = Seq<(Seq<char>, Seq<Seq<char>>)>;

/// A character a header name may hold: an alphanumeric one (a Unicode letter or
/// number) or a hyphen. An alphanumeric character is never white space, a colon or a
/// comma; the definition spells that out, as the parser relies on it.
pub open spec fn is_key_char(c: char) -> bool {
    c == '-' || (alnum(c) && !is_space(c) && c != ':' && c != ',')
}

pub open spec fn valid_key(k: Seq<char>) -> bool {
    k.len() > 0 && forall|i: int| 0 <= i < k.len() ==> is_key_char(#[trigger] k[i])
}

/// Whether `add(k, v)` stores anything.
pub open spec fn accepts(k: Seq<char>, v: Seq<char>) -> bool {
    valid_key(k) && trim(v).len() > 0
}

pub open spec fn has_key(m: HeaderModel, k: Seq<char>) -> bool {
    exists|i: int| 0 <= i < m.len() && (#[trigger] m[i]).0 == k
}

pub open spec fn key_index(m: HeaderModel, k: Seq<char>) -> int {
    choose|i: int| 0 <= i < m.len() && (#[trigger] m[i]).0 == k
}

/// All values stored under `k`, if any.
pub open spec fn lookup(m: HeaderModel, k: Seq<char>) -> Option<Seq<Seq<char>>> {
    if has_key(m, k) {
        Some(m[key_index(m, k)].1)
    } else {
        None
    }
}

/// No name occurs twice.
pub open spec fn unique_keys(m: HeaderModel) -> bool {
    forall|i: int, j: int| 0 <= i < j < m.len() ==> (#[trigger] m[i]).0 != (#[trigger] m[j]).0
}

/// Names are unique and valid; each name holds at least one value, none blank.
pub open spec fn model_wf(m: HeaderModel) -> bool {
    &&& unique_keys(m)
    &&& forall|i: int| 0 <= i < m.len() ==> valid_key((#[trigger] m[i]).0)
    &&& forall|i: int| 0 <= i < m.len() ==> (#[trigger] m[i]).1.len() > 0
    &&& forall|i: int, j: int|
        0 <= i < m.len() && 0 <= j < m[i].1.len() ==> trim(#[trigger] m[i].1[j]).len() > 0
}

/// The effect of `add(k, v)`.
pub open spec fn add_spec(m: HeaderModel, k: Seq<char>, v: Seq<char>) -> HeaderModel {
    if !accepts(k, v) {
        m
    } else if has_key(m, k) {
        let i = key_index(m, k);
        m.update(i, (k, m[i].1.push(v)))
    } else {
        m.push((k, seq![v]))
    }
}

/// The effect of `del(k)`.
pub open spec fn del_spec(m: HeaderModel, k: Seq<char>) -> HeaderModel {
    if has_key(m, k) {
        m.remove(key_index(m, k))
    } else {
        m
    }
}

pub proof fn lemma_key_index(m: HeaderModel, k: Seq<char>, i: int)
    requires
        unique_keys(m),
        0 <= i < m.len(),
        m[i].0 == k,
    ensures
        has_key(m, k),
        key_index(m, k) == i,
        lookup(m, k) == Some(m[i].1),
{
    assert(has_key(m, k));
    let j = key_index(m, k);
    if j < i {
        assert(m[j].0 != m[i].0);
    } else if i < j {
        assert(m[i].0 != m[j].0);
    }
}

pub proof fn lemma_add_wf(m: HeaderModel, k: Seq<char>, v: Seq<char>)
    requires
        model_wf(m),
    ensures
        model_wf(add_spec(m, k, v)),
{
    let r = add_spec(m, k, v);
    if accepts(k, v) {
        if has_key(m, k) {
            let i = key_index(m, k);
            assert forall|a: int, b: int| 0 <= a < r.len() && 0 <= b < r[a].1.len() implies trim(
                #[trigger] r[a].1[b],
            ).len() > 0 by {
                if a == i && b == m[i].1.len() {
                    assert(r[a].1[b] == v);
                } else {
                    assert(r[a].1[b] == m[a].1[b]);
                }
            }
        } else {
            assert forall|a: int, b: int| 0 <= a < b < r.len() implies (#[trigger] r[a]).0 != (
            #[trigger] r[b]).0 by {
                if b == m.len() {
                    assert(m[a].0 != k);
                }
            }
            assert forall|a: int, b: int| 0 <= a < r.len() && 0 <= b < r[a].1.len() implies trim(
                #[trigger] r[a].1[b],
            ).len() > 0 by {
                if a == m.len() {
                    assert(r[a].1 == seq![v]);
                } else {
                    assert(r[a].1[b] == m[a].1[b]);
                }
            }
        }
    }
}

/// The name and the values that one header line holds: the name is what comes
/// before the first colon, the values what comes from the first space on, cut at
/// commas and trimmed.
pub open spec fn parse_line(line: Seq<char>) -> Option<(Seq<char>, Seq<Seq<char>>)> {
    let t = trim(line);
    if !t.contains(':') || !t.contains(' ') {
        None
    } else {
        let key = take_until(t, ':');
        let rest = skip_until(t, ' ');
        if key.len() == 0 || rest.len() == 0 {
            None
        } else {
            Some((key, split_on(rest, ',').map_values(|p: Seq<char>| trim(p))))
        }
    }
}

/// The effect of adding each of `vs` under `k`, in order.
pub open spec fn add_all(m: HeaderModel, k: Seq<char>, vs: Seq<Seq<char>>) -> HeaderModel
    decreases vs.len(),
{
    if vs.len() == 0 {
        m
    } else {
        add_all(add_spec(m, k, vs[0]), k, vs.drop_first())
    }
}

/// The header that `lines` add to `m`, or `None` where a line is malformed.
pub open spec fn parse_lines(m: HeaderModel, lines: Seq<Seq<char>>) -> Option<HeaderModel>
    decreases lines.len(),
{
    if lines.len() == 0 {
        Some(m)
    } else {
        match parse_line(lines[0]) {
            None => None,
            Some(kv) => parse_lines(add_all(m, kv.0, kv.1), lines.drop_first()),
        }
    }
}

/// `vs` joined by a comma and a space.
pub open spec fn join_values(vs: Seq<Seq<char>>) -> Seq<char>
    decreases vs.len(),
{
    if vs.len() == 0 {
        Seq::empty()
    } else if vs.len() == 1 {
        vs[0]
    } else {
        join_values(vs.drop_last()) + seq![',', ' '] + vs.last()
    }
}

/// One header line as it is written, without its line break.
pub open spec fn header_line(e: (Seq<char>, Seq<Seq<char>>)) -> Seq<char> {
    e.0 + seq![':', ' '] + join_values(e.1)
}

/// Each header line followed by CRLF.
pub open spec fn lines_text(m: HeaderModel) -> Seq<char>
    decreases m.len(),
{
    if m.len() == 0 {
        Seq::empty()
    } else {
        lines_text(m.drop_last()) + header_line(m.last()) + seq!['\r', '\n']
    }
}

/// The header block on the wire: its lines, then a blank line.
pub open spec fn header_text(m: HeaderModel) -> Seq<char> {
    lines_text(m) + seq!['\r', '\n']
}

pub proof fn lemma_add_all_wf(m: HeaderModel, k: Seq<char>, vs: Seq<Seq<char>>)
    requires
        model_wf(m),
    ensures
        model_wf(add_all(m, k, vs)),
    decreases vs.len(),
{
    if vs.len() > 0 {
        lemma_add_wf(m, k, vs[0]);
        lemma_add_all_wf(add_spec(m, k, vs[0]), k, vs.drop_first());
    }
}

/// The values that a lookup of `k` gives before an add.
pub open spec fn values_or_empty(m: HeaderModel, k: Seq<char>) -> Seq<Seq<char>> {
    match lookup(m, k) {
        Some(vs) => vs,
        None => Seq::empty(),
    }
}

proof fn lemma_lookup_add(m: HeaderModel, k: Seq<char>, v: Seq<char>)
    requires
        model_wf(m),
        accepts(k, v),
    ensures
        lookup(add_spec(m, k, v), k) == Some(values_or_empty(m, k).push(v)),
{
    let r = add_spec(m, k, v);
    lemma_add_wf(m, k, v);
    if has_key(m, k) {
        let i = key_index(m, k);
        lemma_key_index(r, k, i);
    } else {
        assert(values_or_empty(m, k).push(v) =~= seq![v]);
        lemma_key_index(r, k, m.len() as int);
    }
}

/// Adding values one by one under a valid name, none of them blank, and then looking
/// the name up gives the values it held before, followed by the new ones in the
/// order they were added; on a new name, exactly the new ones.
pub proof fn lemma_add_then_lookup(m: HeaderModel, k: Seq<char>, vs: Seq<Seq<char>>)
    requires
        model_wf(m),
        valid_key(k),
        vs.len() > 0,
        forall|i: int| 0 <= i < vs.len() ==> trim(#[trigger] vs[i]).len() > 0,
    ensures
        model_wf(add_all(m, k, vs)),
        lookup(add_all(m, k, vs), k) == Some(values_or_empty(m, k) + vs),
    decreases vs.len(),
{
    let m1 = add_spec(m, k, vs[0]);
    lemma_add_wf(m, k, vs[0]);
    lemma_lookup_add(m, k, vs[0]);
    lemma_add_all_wf(m, k, vs);
    if vs.len() == 1 {
        assert(vs.drop_first() =~= Seq::<Seq<char>>::empty());
        assert(values_or_empty(m, k).push(vs[0]) =~= values_or_empty(m, k) + vs);
    } else {
        let rest = vs.drop_first();
        assert forall|i: int| 0 <= i < rest.len() implies trim(#[trigger] rest[i]).len() > 0 by {
            assert(rest[i] == vs[i + 1]);
        }
        lemma_add_then_lookup(m1, k, rest);
        assert(values_or_empty(m1, k) == values_or_empty(m, k).push(vs[0]));
        assert(values_or_empty(m, k).push(vs[0]) + rest =~= values_or_empty(m, k) + vs);
    }
}

/// A name with a character other than a letter, digit or hyphen, an empty name, or a
/// blank value: `add` leaves the header as it was, and such a name is never found.
pub proof fn lemma_add_rejected(m: HeaderModel, k: Seq<char>, v: Seq<char>)
    requires
        model_wf(m),
        !accepts(k, v),
    ensures
        add_spec(m, k, v) == m,
        !valid_key(k) ==> lookup(add_spec(m, k, v), k) is None,
{
    if !valid_key(k) && has_key(m, k) {
        let i = key_index(m, k);
        assert(valid_key(m[i].0));
    }
}

/// A value as the parser stores it from lines without CR LF: not empty, no white
/// space at either end, no comma, no CR LF.
pub open spec fn clean_value(v: Seq<char>) -> bool {
    v.len() > 0 && !is_space(v[0]) && !is_space(v.last()) && !v.contains(',') && no_crlf(v)
}

pub open spec fn model_clean(m: HeaderModel) -> bool {
    forall|i: int, j: int| 0 <= i < m.len() && 0 <= j < m[i].1.len() ==> clean_value(#[trigger] m[i].1[j])
}

proof fn lemma_add_clean(m: HeaderModel, k: Seq<char>, v: Seq<char>)
    requires
        model_wf(m),
        model_clean(m),
        accepts(k, v) ==> clean_value(v),
    ensures
        model_clean(add_spec(m, k, v)),
{
    let r = add_spec(m, k, v);
    if accepts(k, v) {
        if has_key(m, k) {
            let i = key_index(m, k);
            assert forall|a: int, b: int| 0 <= a < r.len() && 0 <= b < r[a].1.len() implies clean_value(
                #[trigger] r[a].1[b],
            ) by {
                if a == i && b == m[i].1.len() {
                    assert(r[a].1[b] == v);
                } else {
                    assert(r[a].1[b] == m[a].1[b]);
                }
            }
        } else {
            assert forall|a: int, b: int| 0 <= a < r.len() && 0 <= b < r[a].1.len() implies clean_value(
                #[trigger] r[a].1[b],
            ) by {
                if a < m.len() {
                    assert(r[a].1[b] == m[a].1[b]);
                }
            }
        }
    }
}

proof fn lemma_add_all_clean(m: HeaderModel, k: Seq<char>, vs: Seq<Seq<char>>)
    requires
        model_wf(m),
        model_clean(m),
        forall|i: int| 0 <= i < vs.len() ==> accepts(k, #[trigger] vs[i]) ==> clean_value(vs[i]),
    ensures
        model_clean(add_all(m, k, vs)),
    decreases vs.len(),
{
    if vs.len() > 0 {
        lemma_add_clean(m, k, vs[0]);
        lemma_add_wf(m, k, vs[0]);
        let rest = vs.drop_first();
        assert forall|i: int| 0 <= i < rest.len() && accepts(k, #[trigger] rest[i]) implies clean_value(
            rest[i],
        ) by {
            assert(rest[i] == vs[i + 1]);
        }
        lemma_add_all_clean(add_spec(m, k, vs[0]), k, rest);
    }
}

/// What `parse_lines` builds is well formed and holds only clean values.
proof fn lemma_parse_lines_clean(m: HeaderModel, lines: Seq<Seq<char>>)
    requires
        model_wf(m),
        model_clean(m),
        parse_lines(m, lines) is Some,
        forall|i: int| 0 <= i < lines.len() ==> no_crlf(#[trigger] lines[i]),
    ensures
        model_wf(parse_lines(m, lines).unwrap()),
        model_clean(parse_lines(m, lines).unwrap()),
    decreases lines.len(),
{
    if lines.len() > 0 {
        let kv = parse_line(lines[0]).unwrap();
        let t = trim(lines[0]);
        let rest = skip_until(t, ' ');
        let pieces = split_on(rest, ',');
        lemma_split_on_pieces(rest, ',');
        assert(no_crlf(lines[0]));
        lemma_trim_no_crlf(lines[0]);
        lemma_skip_until_suffix(t, ' ');
        lemma_no_crlf_subrange(t, t.len() - rest.len(), t.len() as int);
        assert(rest =~= t.subrange(t.len() - rest.len(), t.len() as int));
        lemma_split_on_no_crlf(rest, ',');
        assert forall|i: int| 0 <= i < kv.1.len() && accepts(kv.0, #[trigger] kv.1[i]) implies clean_value(
            kv.1[i],
        ) by {
            let p = pieces[i];
            assert(kv.1[i] == trim(p));
            lemma_trim_no_crlf(p);
            lemma_trim(p);
            lemma_trim(trim(p));
            assert(!trim(p).contains(',')) by {
                if trim(p).contains(',') {
                    assert(p.contains(','));
                }
            }
        }
        lemma_add_all_wf(m, kv.0, kv.1);
        lemma_add_all_clean(m, kv.0, kv.1);
        assert forall|i: int| 0 <= i < lines.drop_first().len() implies no_crlf(
            #[trigger] lines.drop_first()[i],
        ) by {
            assert(lines.drop_first()[i] == lines[i + 1]);
        }
        lemma_parse_lines_clean(add_all(m, kv.0, kv.1), lines.drop_first());
    }
}

proof fn lemma_join_front(vs: Seq<Seq<char>>)
    requires
        vs.len() >= 2,
    ensures
        join_values(vs) == vs[0] + seq![',', ' '] + join_values(vs.drop_first()),
    decreases vs.len(),
{
    if vs.len() == 2 {
        assert(vs.drop_last() =~= seq![vs[0]]);
        assert(vs.drop_first() =~= seq![vs[1]]);
        assert(join_values(vs.drop_last()) == vs[0]);
        assert(join_values(vs.drop_first()) == vs[1]);
    } else {
        lemma_join_front(vs.drop_last());
        assert(vs.drop_last().drop_first() =~= vs.drop_first().drop_last());
        assert(join_values(vs) =~= vs[0] + seq![',', ' '] + join_values(vs.drop_first()));
    }
}

/// Cut at commas, a space and the joined clean values give each value behind a space.
proof fn lemma_split_join(vs: Seq<Seq<char>>)
    requires
        vs.len() >= 1,
        forall|i: int| 0 <= i < vs.len() ==> clean_value(#[trigger] vs[i]),
    ensures
        split_on(seq![' '] + join_values(vs), ',') == vs.map_values(|v: Seq<char>| seq![' '] + v),
    decreases vs.len(),
{
    let sp = seq![' '];
    if vs.len() == 1 {
        let p = sp + vs[0];
        assert(!p.contains(',')) by {
            if p.contains(',') {
                let j = choose|j: int| 0 <= j < p.len() && p[j] == ',';
                assert(vs[0][j - 1] == ',');
                assert(vs[0].contains(','));
            }
        }
        lemma_split_on_none(p, ',');
        assert(vs.map_values(|v: Seq<char>| seq![' '] + v) =~= seq![p]);
    } else {
        let rest = vs.drop_first();
        lemma_join_front(vs);
        let p = sp + vs[0];
        assert(!p.contains(',')) by {
            if p.contains(',') {
                let j = choose|j: int| 0 <= j < p.len() && p[j] == ',';
                assert(vs[0][j - 1] == ',');
                assert(vs[0].contains(','));
            }
        }
        assert(sp + join_values(vs) =~= p + seq![','] + (sp + join_values(rest)));
        lemma_split_on_first(p, ',', sp + join_values(rest));
        assert forall|i: int| 0 <= i < rest.len() implies clean_value(#[trigger] rest[i]) by {
            assert(rest[i] == vs[i + 1]);
        }
        lemma_split_join(rest);
        assert(vs.map_values(|v: Seq<char>| seq![' '] + v) =~= seq![p] + rest.map_values(
            |v: Seq<char>| seq![' '] + v,
        ));
    }
}

proof fn lemma_join_ends(vs: Seq<Seq<char>>)
    requires
        vs.len() >= 1,
        forall|i: int| 0 <= i < vs.len() ==> clean_value(#[trigger] vs[i]),
    ensures
        join_values(vs).len() > 0,
        join_values(vs).last() == vs.last().last(),
    decreases vs.len(),
{
    if vs.len() > 1 {
        assert(vs.drop_last().last() == vs[vs.len() - 2]);
        assert(clean_value(vs[vs.len() - 2]));
        assert forall|i: int| 0 <= i < vs.drop_last().len() implies clean_value(
            #[trigger] vs.drop_last()[i],
        ) by {
            assert(vs.drop_last()[i] == vs[i]);
        }
        lemma_join_ends(vs.drop_last());
    }
}

proof fn lemma_join_no_crlf(vs: Seq<Seq<char>>)
    requires
        vs.len() >= 1,
        forall|i: int| 0 <= i < vs.len() ==> clean_value(#[trigger] vs[i]),
    ensures
        no_crlf(join_values(vs)),
        join_values(vs).len() > 0,
        !is_space(join_values(vs)[0]),
    decreases vs.len(),
{
    if vs.len() == 1 {
        assert(clean_value(vs[0]));
    } else {
        let d = vs.drop_last();
        assert forall|i: int| 0 <= i < d.len() implies clean_value(#[trigger] d[i]) by {
            assert(d[i] == vs[i]);
        }
        lemma_join_no_crlf(d);
        assert(clean_value(vs.last()));
        lemma_no_crlf_concat(join_values(d), seq![',', ' ']);
        lemma_no_crlf_concat(join_values(d) + seq![',', ' '], vs.last());
    }
}

/// A line as `to_string` writes it parses back to its name and values.
proof fn lemma_parse_written_line(k: Seq<char>, vs: Seq<Seq<char>>)
    requires
        valid_key(k),
        vs.len() >= 1,
        forall|i: int| 0 <= i < vs.len() ==> clean_value(#[trigger] vs[i]),
    ensures
        parse_line(header_line((k, vs))) == Some((k, vs)),
        header_line((k, vs)).len() > 0,
        trim(header_line((k, vs))) == header_line((k, vs)),
        no_crlf(header_line((k, vs))),
{
    let line = header_line((k, vs));
    let n = k.len() as int;
    lemma_join_ends(vs);
    assert(line[0] == k[0]);
    assert(is_key_char(k[0]));
    assert(line.last() == join_values(vs).last());
    assert(clean_value(vs.last()));
    assert(crate::text::trim_start(line) == line);
    assert(crate::text::trim_end(line) == line);
    assert(trim(line) == line);
    assert(line[n] == ':');
    assert(line[n + 1] == ' ');
    assert(line.contains(':'));
    assert(line.contains(' '));
    assert forall|j: int| 0 <= j < n implies line[j] != ':' by {
        assert(line[j] == k[j]);
        assert(is_key_char(k[j]));
    }
    lemma_cut_at_first(line, ':', n);
    assert(line.take(n) =~= k);
    assert(no_crlf(k)) by {
        assert forall|j: int| !crlf_at(k, j) by {
            if crlf_at(k, j) {
                assert(is_key_char(k[j]));
            }
        }
    }
    lemma_join_no_crlf(vs);
    lemma_no_crlf_concat(k, seq![':', ' ']);
    lemma_no_crlf_concat(k + seq![':', ' '], join_values(vs));
    assert forall|j: int| 0 <= j < n + 1 implies line[j] != ' ' by {
        if j < n {
            assert(line[j] == k[j]);
            assert(is_key_char(k[j]));
        }
    }
    lemma_cut_at_first(line, ' ', n + 1);
    let rest = seq![' '] + join_values(vs);
    assert(line.skip(n + 1) =~= rest);
    lemma_split_join(vs);
    let pieces = split_on(rest, ',');
    assert(pieces.map_values(|p: Seq<char>| trim(p)) =~= vs) by {
        assert forall|i: int| 0 <= i < vs.len() implies trim(#[trigger] pieces[i]) == vs[i] by {
            assert(pieces[i] == seq![' '] + vs[i]);
            lemma_trim_unspaced(vs[i]);
        }
    }
}
proof fn lemma_add_all_existing(m: HeaderModel, i: int, k: Seq<char>, vs: Seq<Seq<char>>)
    requires
        model_wf(m),
        0 <= i < m.len(),
        m[i].0 == k,
        forall|j: int| 0 <= j < vs.len() ==> accepts(k, #[trigger] vs[j]),
    ensures
        add_all(m, k, vs) == m.update(i, (k, m[i].1 + vs)),
    decreases vs.len(),
{
    if vs.len() == 0 {
        assert(m[i].1 + vs =~= m[i].1);
        assert(m.update(i, (k, m[i].1 + vs)) =~= m);
    } else {
        lemma_key_index(m, k, i);
        let m1 = add_spec(m, k, vs[0]);
        assert(m1 == m.update(i, (k, m[i].1.push(vs[0]))));
        lemma_add_wf(m, k, vs[0]);
        let rest = vs.drop_first();
        assert forall|j: int| 0 <= j < rest.len() implies accepts(k, #[trigger] rest[j]) by {
            assert(rest[j] == vs[j + 1]);
        }
        lemma_add_all_existing(m1, i, k, rest);
        assert(m[i].1.push(vs[0]) + rest =~= m[i].1 + vs);
        assert(m1.update(i, (k, m1[i].1 + rest)) =~= m.update(i, (k, m[i].1 + vs)));
    }
}

/// The lines that `to_string` writes for a header, without their line breaks.
pub open spec fn written_lines(m: HeaderModel) -> Seq<Seq<char>> {
    m.map_values(|e: (Seq<char>, Seq<Seq<char>>)| header_line(e))
}

proof fn lemma_parse_written(m: HeaderModel, i: int)
    requires
        model_wf(m),
        model_clean(m),
        0 <= i <= m.len(),
    ensures
        parse_lines(m.take(i), written_lines(m).skip(i)) == Some(m),
    decreases m.len() - i,
{
    let lines = written_lines(m).skip(i);
    if i == m.len() {
        assert(lines =~= Seq::<Seq<char>>::empty());
        assert(m.take(i) =~= m);
    } else {
        let e = m[i];
        let k = e.0;
        let vs = e.1;
        let pre = m.take(i);
        assert(lines[0] == header_line(e));
        assert forall|j: int| 0 <= j < vs.len() implies clean_value(#[trigger] vs[j]) by {
            assert(clean_value(m[i].1[j]));
        }
        lemma_parse_written_line(k, vs);
        assert forall|j: int| 0 <= j < vs.len() implies accepts(k, #[trigger] vs[j]) by {
            assert(clean_value(m[i].1[j]));
            lemma_trim_unspaced(vs[j]);
        }
        assert(model_wf(pre));
        assert(!has_key(pre, k)) by {
            if has_key(pre, k) {
                let a = key_index(pre, k);
                assert(m[a].0 == m[i].0);
            }
        }
        let m1 = add_spec(pre, k, vs[0]);
        assert(m1 == pre.push((k, seq![vs[0]])));
        lemma_add_wf(pre, k, vs[0]);
        let rest = vs.drop_first();
        assert forall|j: int| 0 <= j < rest.len() implies accepts(k, #[trigger] rest[j]) by {
            assert(rest[j] == vs[j + 1]);
        }
        lemma_add_all_existing(m1, i, k, rest);
        assert(seq![vs[0]] + rest =~= vs);
        assert(add_all(pre, k, vs) == add_all(m1, k, rest));
        assert(m1.update(i, (k, m1[i].1 + rest)) =~= m.take(i + 1));
        assert(lines.drop_first() =~= written_lines(m).skip(i + 1));
        lemma_parse_written(m, i + 1);
    }
}

/// Writing out a header that was parsed from `lines` (none holding a CR LF), and
/// parsing the written lines again, gives the same names with the same values in the
/// same order.
pub proof fn lemma_round_trip(lines: Seq<Seq<char>>)
    requires
        parse_lines(Seq::empty(), lines) is Some,
        forall|i: int| 0 <= i < lines.len() ==> no_crlf(#[trigger] lines[i]),
    ensures
        parse_lines(Seq::empty(), written_lines(parse_lines(Seq::empty(), lines).unwrap()))
            == parse_lines(Seq::empty(), lines),
{
    let e = Seq::<(Seq<char>, Seq<Seq<char>>)>::empty();
    lemma_parse_lines_clean(e, lines);
    let m = parse_lines(e, lines).unwrap();
    lemma_parse_written(m, 0);
    assert(m.take(0) =~= e);
    assert(written_lines(m).skip(0) =~= written_lines(m));
}

/// The lines that are not blank, each trimmed.
pub open spec fn nonblank_lines(ls: Seq<Seq<char>>) -> Seq<Seq<char>>
    decreases ls.len(),
{
    if ls.len() == 0 {
        Seq::empty()
    } else {
        let r = nonblank_lines(ls.drop_last());
        if trim(ls.last()).len() > 0 {
            r.push(trim(ls.last()))
        } else {
            r
        }
    }
}

proof fn lemma_lines_text_front(m: HeaderModel)
    requires
        m.len() >= 1,
    ensures
        lines_text(m) == header_line(m[0]) + seq!['\r', '\n'] + lines_text(m.drop_first()),
    decreases m.len(),
{
    if m.len() == 1 {
        assert(m.drop_last() =~= Seq::<(Seq<char>, Seq<Seq<char>>)>::empty());
        assert(m.drop_first() =~= Seq::<(Seq<char>, Seq<Seq<char>>)>::empty());
        assert(lines_text(m) =~= header_line(m[0]) + seq!['\r', '\n'] + lines_text(m.drop_first()));
    } else {
        lemma_lines_text_front(m.drop_last());
        assert(m.drop_last().drop_first() =~= m.drop_first().drop_last());
        assert(lines_text(m) =~= header_line(m[0]) + seq!['\r', '\n'] + lines_text(m.drop_first()));
    }
}

/// The lines of written header text are the written lines, when none holds CR LF.
proof fn lemma_split_lines_text(m: HeaderModel, t: Seq<char>)
    requires
        forall|i: int| 0 <= i < m.len() ==> no_crlf(#[trigger] header_line(m[i])),
    ensures
        split_crlf(lines_text(m) + t) == written_lines(m) + split_crlf(t),
    decreases m.len(),
{
    if m.len() == 0 {
        assert(lines_text(m) + t =~= t);
        assert(written_lines(m) + split_crlf(t) =~= split_crlf(t));
    } else {
        lemma_lines_text_front(m);
        let rest = m.drop_first();
        assert forall|i: int| 0 <= i < rest.len() implies no_crlf(#[trigger] header_line(rest[i])) by {
            assert(rest[i] == m[i + 1]);
        }
        lemma_split_lines_text(rest, t);
        assert(no_crlf(header_line(m[0])));
        assert(lines_text(m) + t =~= header_line(m[0]) + seq!['\r', '\n'] + (lines_text(rest) + t));
        lemma_split_crlf_first(header_line(m[0]), lines_text(rest) + t);
        assert(written_lines(m) =~= seq![header_line(m[0])] + written_lines(rest));
        assert(written_lines(m) + split_crlf(t) =~= seq![header_line(m[0])] + (written_lines(rest)
            + split_crlf(t)));
    }
}

proof fn lemma_nonblank_of_trimmed(w: Seq<Seq<char>>)
    requires
        forall|i: int| 0 <= i < w.len() ==> (#[trigger] w[i]).len() > 0 && trim(w[i]) == w[i],
    ensures
        nonblank_lines(w) == w,
    decreases w.len(),
{
    if w.len() > 0 {
        let d = w.drop_last();
        assert forall|i: int| 0 <= i < d.len() implies (#[trigger] d[i]).len() > 0 && trim(d[i])
            == d[i] by {
            assert(d[i] == w[i]);
        }
        lemma_nonblank_of_trimmed(d);
        assert(d.push(w.last()) =~= w);
    }
}

/// Writing out a header that was parsed from `lines` (none holding a CR LF) and
/// cutting the text at CR LF gives the written lines and two empty pieces, from the
/// blank line that ends the block. Dropping blank pieces and parsing again gives the
/// same names with the same values in the same order.
pub proof fn lemma_round_trip_text(lines: Seq<Seq<char>>)
    requires
        parse_lines(Seq::empty(), lines) is Some,
        forall|i: int| 0 <= i < lines.len() ==> no_crlf(#[trigger] lines[i]),
    ensures
        split_crlf(header_text(parse_lines(Seq::empty(), lines).unwrap())) == written_lines(
            parse_lines(Seq::empty(), lines).unwrap(),
        ) + seq![Seq::<char>::empty(), Seq::<char>::empty()],
        nonblank_lines(split_crlf(header_text(parse_lines(Seq::empty(), lines).unwrap())))
            == written_lines(parse_lines(Seq::empty(), lines).unwrap()),
        parse_lines(
            Seq::empty(),
            nonblank_lines(split_crlf(header_text(parse_lines(Seq::empty(), lines).unwrap()))),
        ) == parse_lines(Seq::empty(), lines),
{
    let e = Seq::<(Seq<char>, Seq<Seq<char>>)>::empty();
    lemma_parse_lines_clean(e, lines);
    lemma_round_trip(lines);
    let m = parse_lines(e, lines).unwrap();
    let w = written_lines(m);
    assert forall|i: int| 0 <= i < m.len() implies no_crlf(#[trigger] header_line(m[i])) && header_line(
        m[i],
    ).len() > 0 && trim(header_line(m[i])) == header_line(m[i]) by {
        let vs = m[i].1;
        assert forall|j: int| 0 <= j < vs.len() implies clean_value(#[trigger] vs[j]) by {
            assert(clean_value(m[i].1[j]));
        }
        lemma_parse_written_line(m[i].0, vs);
        assert(m[i] == (m[i].0, vs));
    }
    let crlf = seq!['\r', '\n'];
    lemma_split_lines_text(m, crlf);
    assert(crlf =~= Seq::<char>::empty() + crlf + Seq::<char>::empty());
    lemma_split_crlf_first(Seq::<char>::empty(), Seq::<char>::empty());
    assert(split_crlf(Seq::<char>::empty()) =~= seq![Seq::<char>::empty()]);
    assert(split_crlf(crlf) =~= seq![Seq::<char>::empty(), Seq::<char>::empty()]);
    let full = w + seq![Seq::<char>::empty(), Seq::<char>::empty()];
    assert(full.drop_last() =~= w.push(Seq::<char>::empty()));
    assert(w.push(Seq::<char>::empty()).drop_last() =~= w);
    assert(trim(Seq::<char>::empty()) =~= Seq::<char>::empty());
    assert forall|i: int| 0 <= i < w.len() implies (#[trigger] w[i]).len() > 0 && trim(w[i]) == w[i] by {
        assert(w[i] == header_line(m[i]));
    }
    lemma_nonblank_of_trimmed(w);
    assert(nonblank_lines(full) == nonblank_lines(w.push(Seq::<char>::empty())));
}

/// What a request line must hold: at least three words, a known method, a path
/// that starts with a slash, and `HTTP/1.1`; the first failing check names the error.
pub open spec fn check_request_line(line: Seq<char>) -> Option<ParseError> {
    let w = split_on(line, ' ');
    if w.len() < 3 {
        Some(ParseError::MalformedHeaders)
    } else if method_of(w[0]) is None {
        Some(ParseError::InvalidMethod)
    } else if !valid_path(w[1]) {
        Some(ParseError::InvalidUrl)
    } else if w[2] != "HTTP/1.1"@ {
        Some(ParseError::UnsupportedVersion)
    } else {
        None
    }
}

/// The header fields of a request head: the text before the first blank line, cut
/// into lines, blank lines dropped; the first line must be a valid request line and
/// the others header lines.
pub open spec fn parse_header_text(s: Seq<char>) -> Result<HeaderModel, ParseError> {
    if !has_blank(s) {
        Err(ParseError::MalformedHeaders)
    } else {
        let lines = nonblank_lines(split_crlf(s.take(first_blank(s))));
        if lines.len() == 0 {
            Err(ParseError::MalformedHeaders)
        } else {
            match check_request_line(lines[0]) {
                Some(e) => Err(e),
                None => match parse_lines(Seq::empty(), lines.drop_first()) {
                    Some(m) => Ok(m),
                    None => Err(ParseError::InvalidHeaderLine),
                },
            }
        }
    }
}

/// Checks a request line as `check_request_line` says.
pub fn request_line_error(line: &str) -> (r: Option<ParseError>)
    ensures
        r == check_request_line(line@),
{
    match first_three_words(line) {
        None => Some(ParseError::MalformedHeaders),
        Some((m, u, v)) => {
            if Method::from_str(m).is_err() {
                Some(ParseError::InvalidMethod)
            } else if URL::from_str(u).is_err() {
                Some(ParseError::InvalidUrl)
            } else if Version::from_str(v).is_err() {
                Some(ParseError::UnsupportedVersion)
            } else {
                None
            }
        },
    }
}

/// The lines of `s[..nb]` that are not blank, each trimmed.
fn head_lines<'a>(s: &'a str, cs: &Vec<char>, nb: usize) -> (lines: Vec<&'a str>)
    requires
        cs@ == s@,
        nb <= cs.len(),
    ensures
        lines@.map_values(|l: &str| l@) == nonblank_lines(split_crlf(s@.take(nb as int))),
{
    let ranges = split_crlf_bounds(cs, 0, nb);
    let ghost raw = split_crlf(cs@.subrange(0, nb as int));
    assert(cs@.subrange(0, nb as int) =~= s@.take(nb as int));
    let mut lines: Vec<&str> = Vec::new();
    let mut i: usize = 0;
    assert(raw.take(0) =~= Seq::<Seq<char>>::empty());
    while i < ranges.len()
        invariant
            i <= ranges.len(),
            cs@ == s@,
            nb <= cs.len(),
            forall|k: int| 0 <= k < ranges.len() ==> 0 <= (#[trigger] ranges@[k]).0 <= ranges@[k].1 <= nb,
            pieces_of(cs@, ranges@) == raw,
            lines@.map_values(|l: &str| l@) == nonblank_lines(raw.take(i as int)),
        decreases ranges.len() - i,
    {
        let (x, y) = ranges[i];
        let (x2, y2) = trim_bounds(cs, x, y);
        let ghost before = lines@;
        assert(raw.take(i + 1).drop_last() =~= raw.take(i as int));
        assert(raw.take(i + 1).last() == cs@.subrange(x as int, y as int));
        if x2 < y2 {
            lines.push(s.substring_char(x2, y2));
            assert(lines@.map_values(|l: &str| l@) =~= before.map_values(|l: &str| l@).push(
                cs@.subrange(x2 as int, y2 as int),
            ));
        }
        i = i + 1;
    }
    assert(raw.take(i as int) =~= raw);
    lines
}

/// All of `lines` but the first.
pub(crate) fn lines_after_first<'a>(lines: &Vec<&'a str>) -> (r: Vec<&'a str>)
    requires
        lines.len() >= 1,
    ensures
        r@.map_values(|l: &str| l@) == lines@.map_values(|l: &str| l@).drop_first(),
{
    let ghost all = lines@.map_values(|l: &str| l@);
    let mut rest: Vec<&str> = Vec::new();
    let mut j: usize = 1;
    assert(all.subrange(1, 1) =~= rest@.map_values(|l: &str| l@));
    while j < lines.len()
        invariant
            1 <= j <= lines.len(),
            all == lines@.map_values(|l: &str| l@),
            rest@.map_values(|l: &str| l@) == all.subrange(1, j as int),
        decreases lines.len() - j,
    {
        let ghost before = rest@;
        rest.push(lines[j]);
        assert(rest@ == before.push(lines@[j as int]));
        assert(all[j as int] == lines@[j as int]@);
        assert(rest@.map_values(|l: &str| l@) =~= before.map_values(|l: &str| l@).push(
            lines@[j as int]@,
        ));
        assert(all.subrange(1, j + 1) =~= all.subrange(1, j as int).push(all[j as int]));
        assert(rest@.map_values(|l: &str| l@) =~= all.subrange(1, j + 1));
        j = j + 1;
    }
    assert(all.subrange(1, j as int) =~= all.drop_first());
    rest
}

/// An HTTP header block: values by name, names in the order they were first added.
#[derive(Debug)]
pub struct Header {
    keys: Vec<String>,
    vals: Vec<Vec<String>>,
}

impl View for Header {
    type V = HeaderModel;

    closed spec fn view(&self) -> HeaderModel {
        model_of(self.keys@, self.vals@)
    }
}

spec fn model_of(keys: Seq<String>, vals: Seq<Vec<String>>) -> HeaderModel {
    Seq::new(keys.len() as nat, |i: int| (keys[i]@, vals[i]@.map_values(|s: String| s@)))
}

fn valid_key_chars(kc: &Vec<char>) -> (r: bool)
    ensures
        r == valid_key(kc@),
{
    if kc.len() == 0 {
        return false;
    }
    let mut i: usize = 0;
    while i < kc.len()
        invariant
            i <= kc.len(),
            forall|j: int| 0 <= j < i ==> is_key_char(#[trigger] kc@[j]),
        decreases kc.len() - i,
    {
        let c = kc[i];
        if !(char_is_alphanumeric(c) || c == '-') {
            return false;
        }
        i = i + 1;
    }
    true
}

impl Header {
    /// Names and values agree in number, and the model is well formed. This holds of
    /// every header.
    #[verifier::type_invariant]
    pub closed spec fn wf(&self) -> bool {
        self.keys.len() == self.vals.len() && model_wf(self@)
    }

    pub proof fn lemma_wf(&self)
        requires
            self.wf(),
        ensures
            model_wf(self@),
    {
    }

    pub fn new() -> (r: Header)
        ensures
            r.wf(),
            r@ == Seq::<(Seq<char>, Seq<Seq<char>>)>::empty(),
    {
        let r = Header { keys: Vec::new(), vals: Vec::new() };
        assert(r@ =~= Seq::<(Seq<char>, Seq<Seq<char>>)>::empty());
        r
    }

    fn find_key(&self, k: &String) -> (r: Option<usize>)
        requires
            self.wf(),
        ensures
            match r {
                Some(i) => i < self.keys.len() && self@[i as int].0 == k@ && key_index(self@, k@)
                    == i && has_key(self@, k@),
                None => !has_key(self@, k@),
            },
    {
        let mut i: usize = 0;
        while i < self.keys.len()
            invariant
                self.wf(),
                i <= self.keys.len(),
                forall|j: int| 0 <= j < i ==> (#[trigger] self@[j]).0 != k@,
            decreases self.keys.len() - i,
        {
            if self.keys[i] == *k {
                proof {
                    lemma_key_index(self@, k@, i as int);
                }
                return Some(i);
            }
            i = i + 1;
        }
        None
    }

    /// Adds `val` under `key`. Does nothing unless `key` is made of letters, digits
    /// and hyphens only and `val` holds more than white space.
    pub fn add(&mut self, key: &str, val: &str)
        ensures
            final(self).wf(),
            final(self)@ == add_spec(old(self)@, key@, val@),
    {
        proof {
            use_type_invariant(&*self);
            lemma_add_wf(self@, key@, val@);
        }
        let kc = chars_of(key);
        if !valid_key_chars(&kc) {
            return;
        }
        let vc = chars_of(val);
        let (a, b) = trim_bounds(&vc, 0, vc.len());
        assert(vc@.subrange(0, vc.len() as int) =~= val@);
        if a == b {
            return;
        }
        let k = key.to_owned();
        let v = val.to_owned();
        let ghost m = self@;
        let found = self.find_key(&k);
        let mut taken = Header::new();
        std::mem::swap(self, &mut taken);
        let Header { mut keys, mut vals } = taken;
        assert(model_of(keys@, vals@) == m);
        match found {
            Some(i) => {
                let ghost old_vals = vals@;
                let mut vs = vals.remove(i);
                vs.push(v);
                assert(vs@.map_values(|s: String| s@) =~= old_vals[i as int]@.map_values(
                    |s: String| s@,
                ).push(v@));
                vals.insert(i, vs);
                assert(vals@ =~= old_vals.update(i as int, vs));
                assert(model_of(keys@, vals@) =~= m.update(i as int, (k@, m[i as int].1.push(v@))));
            },
            None => {
                keys.push(k);
                let mut vs: Vec<String> = Vec::new();
                vs.push(v);
                vals.push(vs);
                assert(vs@.map_values(|s: String| s@) =~= seq![v@]);
                assert(model_of(keys@, vals@) =~= m.push((k@, seq![v@])));
            },
        }
        *self = Header { keys, vals };
    }

    /// Removes `key` and all its values.
    pub fn del(&mut self, key: &str)
        ensures
            final(self).wf(),
            final(self)@ == del_spec(old(self)@, key@),
    {
        proof {
            use_type_invariant(&*self);
        }
        let k = key.to_owned();
        let ghost m = self@;
        match self.find_key(&k) {
            Some(i) => {
                let mut taken = Header::new();
                std::mem::swap(self, &mut taken);
                let Header { mut keys, mut vals } = taken;
                assert(model_of(keys@, vals@) == m);
                keys.remove(i);
                vals.remove(i);
                assert(model_of(keys@, vals@) =~= m.remove(i as int));
                assert(model_wf(model_of(keys@, vals@))) by {
                    let r = model_of(keys@, vals@);
                    assert forall|a: int| 0 <= a < r.len() implies #[trigger] r[a] == if a < i {
                        m[a]
                    } else {
                        m[a + 1]
                    } by {}
                }
                *self = Header { keys, vals };
            },
            None => {},
        }
    }

    /// The first value stored under `key`.
    pub fn get(&self, key: &str) -> (r: Option<String>)
        ensures
            r is Some <==> lookup(self@, key@) is Some,
            r is Some ==> r->0@ == lookup(self@, key@)->0[0],
    {
        proof {
            use_type_invariant(self);
        }
        let k = key.to_owned();
        match self.find_key(&k) {
            Some(i) => {
                assert(self.vals@[i as int]@.map_values(|s: String| s@)[0] == self.vals@[i as int]@[0]@);
                Some(self.vals[i][0].clone())
            },
            None => None,
        }
    }

    /// All values stored under `key`, in the order they were added.
    pub fn values(&self, key: &str) -> (r: Option<Vec<String>>)
        ensures
            r is Some <==> lookup(self@, key@) is Some,
            r is Some ==> r->0@.map_values(|s: String| s@) == lookup(self@, key@)->0,
    {
        proof {
            use_type_invariant(self);
        }
        let k = key.to_owned();
        match self.find_key(&k) {
            Some(i) => {
                let vs = self.vals[i].clone();
                assert(vs@.map_values(|s: String| s@) =~= self.vals@[i as int]@.map_values(
                    |s: String| s@,
                ));
                Some(vs)
            },
            None => None,
        }
    }

    /// Reads header lines, one field per line as `Name: v1, v2`. Fails on the first
    /// line without a colon or a space; each comma-separated value is added on its own.
    pub fn from_lines(lines: Vec<&str>) -> (r: Result<Header, ParseError>)
        ensures
            match r {
                Ok(h) => h.wf() && parse_lines(Seq::empty(), lines@.map_values(|l: &str| l@))
                    == Some(h@),
                Err(e) => e == ParseError::InvalidHeaderLine && parse_lines(
                    Seq::empty(),
                    lines@.map_values(|l: &str| l@),
                ) is None,
            },
    {
        let ghost all = lines@.map_values(|l: &str| l@);
        let mut header = Header::new();
        assert(all.skip(0) =~= all);
        let mut i: usize = 0;
        while i < lines.len()
            invariant
                header.wf(),
                i <= lines.len(),
                all == lines@.map_values(|l: &str| l@),
                parse_lines(Seq::empty(), all) == parse_lines(header@, all.skip(i as int)),
            decreases lines.len() - i,
        {
            let line = lines[i];
            assert(all.skip(i as int)[0] == line@);
            assert(all.skip(i as int).drop_first() =~= all.skip(i + 1));
            if !header.add_line(line) {
                return Err(ParseError::InvalidHeaderLine);
            }
            i = i + 1;
        }
        assert(all.skip(i as int) =~= Seq::<Seq<char>>::empty());
        Ok(header)
    }

    /// Adds the fields of one header line; false, with nothing added, if it is
    /// malformed.
    fn add_line(&mut self, line: &str) -> (ok: bool)
        requires
            old(self).wf(),
        ensures
            final(self).wf(),
            ok == parse_line(line@) is Some,
            ok ==> final(self)@ == add_all(
                old(self)@,
                parse_line(line@).unwrap().0,
                parse_line(line@).unwrap().1,
            ),
            !ok ==> final(self)@ == old(self)@,
    {
        let lc = chars_of(line);
        let n = lc.len();
        let (a, b) = trim_bounds(&lc, 0, n);
        assert(lc@.subrange(0, n as int) =~= line@);
        let ghost t = lc@.subrange(a as int, b as int);
        let colon = find_char(&lc, a, b, ':');
        let space = find_char(&lc, a, b, ' ');
        proof {
            if colon < b {
                assert(t[colon - a] == ':');
            } else {
                assert forall|j: int| 0 <= j < t.len() implies t[j] != ':' by {
                    assert(t[j] == lc@[a + j]);
                }
            }
            if space < b {
                assert(t[space - a] == ' ');
            } else {
                assert forall|j: int| 0 <= j < t.len() implies t[j] != ' ' by {
                    assert(t[j] == lc@[a + j]);
                }
            }
        }
        if colon == b || space == b || colon == a {
            return false;
        }
        let key = line.substring_char(a, colon);
        let ranges = split_bounds(&lc, space, b, ',');
        let ghost vs = split_on(lc@.subrange(space as int, b as int), ',').map_values(
            |p: Seq<char>| trim(p),
        );
        let ghost m0 = self@;
        assert(vs.skip(0) =~= vs);
        let mut j: usize = 0;
        while j < ranges.len()
            invariant
                self.wf(),
                j <= ranges.len(),
                a <= colon <= b,
                key@ == lc@.subrange(a as int, colon as int),
                lc@ == line@,
                space <= b <= lc.len(),
                forall|i: int| 0 <= i < ranges.len() ==> space <= (#[trigger] ranges@[i]).0 <= ranges@[i].1 <= b,
                pieces_of(lc@, ranges@) == split_on(lc@.subrange(space as int, b as int), ','),
                vs == split_on(lc@.subrange(space as int, b as int), ',').map_values(
                    |p: Seq<char>| trim(p),
                ),
                add_all(m0, key@, vs) == add_all(self@, key@, vs.skip(j as int)),
            decreases ranges.len() - j,
        {
            let (x, y) = ranges[j];
            let (x2, y2) = trim_bounds(&lc, x, y);
            let v = line.substring_char(x2, y2);
            assert(vs.skip(j as int)[0] == v@);
            assert(vs.skip(j as int).drop_first() =~= vs.skip(j + 1));
            self.add(key, v);
            j = j + 1;
        }
        assert(vs.skip(j as int) =~= Seq::<Seq<char>>::empty());
        true
    }

    /// The line that the field at `i` is written as, without its line break.
    fn line_string(&self, i: usize) -> (r: String)
        requires
            self.wf(),
            i < self@.len(),
        ensures
            r@ == header_line(self@[i as int]),
    {
        let ghost vsm = self@[i as int].1;
        let mut r = self.keys[i].clone();
        proof {
            reveal_strlit(": ");
            reveal_strlit(", ");
            assert(": "@ =~= seq![':', ' ']);
            assert(", "@ =~= seq![',', ' ']);
        }
        r.append(": ");
        let vs = &self.vals[i];
        assert(vs@.map_values(|s: String| s@) == vsm);
        assert(vsm.take(0) =~= Seq::<Seq<char>>::empty());
        let mut j: usize = 0;
        while j < vs.len()
            invariant
                self.wf(),
                i < self@.len(),
                ", "@ == seq![',', ' '],
                j <= vs.len(),
                vs@.map_values(|s: String| s@) == vsm,
                r@ == self@[i as int].0 + seq![':', ' '] + join_values(vsm.take(j as int)),
            decreases vs.len() - j,
        {
            let ghost before = r@;
            if j > 0 {
                r.append(", ");
            }
            r.append(vs[j].as_str());
            proof {
                let t = vsm.take(j + 1);
                assert(t.drop_last() =~= vsm.take(j as int));
                assert(t.last() == vs@[j as int]@);
                if j == 0 {
                    assert(join_values(t) == t[0]);
                }
                assert(r@ =~= self@[i as int].0 + seq![':', ' '] + join_values(t));
            }
            j = j + 1;
        }
        assert(vsm.take(j as int) =~= vsm);
        r
    }

    /// The header block as it goes on the wire: `Name: v1, v2, ..., vn` and CRLF for
    /// each name in first-seen order, then a blank line.
    pub fn to_string(&self) -> (r: String)
        ensures
            r@ == header_text(self@),
    {
        proof {
            use_type_invariant(self);
        }
        proof {
            reveal_strlit("\r\n");
            assert("\r\n"@ =~= seq!['\r', '\n']);
        }
        let mut r = String::new();
        let mut i: usize = 0;
        assert(self@.take(0) =~= Seq::<(Seq<char>, Seq<Seq<char>>)>::empty());
        while i < self.keys.len()
            invariant
                self.wf(),
                i <= self@.len(),
                "\r\n"@ == seq!['\r', '\n'],
                r@ == lines_text(self@.take(i as int)),
            decreases self.keys.len() - i,
        {
            let line = self.line_string(i);
            r.append(line.as_str());
            r.append("\r\n");
            proof {
                let t = self@.take(i + 1);
                assert(t.drop_last() =~= self@.take(i as int));
                assert(r@ =~= lines_text(t));
            }
            i = i + 1;
        }
        assert(self@.take(i as int) =~= self@);
        r.append("\r\n");
        r
    }

    /// The header fields of a request head (see `parse_header_text`).
    #[verifier::rlimit(40)]
    pub fn from_str(s: &str) -> (r: Result<Header, ParseError>)
        ensures
            match r {
                Ok(h) => h.wf() && parse_header_text(s@) == Ok::<HeaderModel, ParseError>(h@),
                Err(e) => parse_header_text(s@) == Err::<HeaderModel, ParseError>(e),
            },
    {
        let cs = chars_of(s);
        let nb = find_blank(&cs);
        if nb == cs.len() {
            return Err(ParseError::MalformedHeaders);
        }
        let lines = head_lines(s, &cs, nb);
        if lines.len() == 0 {
            return Err(ParseError::MalformedHeaders);
        }
        match request_line_error(lines[0]) {
            Some(e) => {
                return Err(e);
            },
            None => {},
        }
        Header::from_lines(lines_after_first(&lines))
    }
}

impl Default for Header {
    fn default() -> (r: Header)
        ensures
            r@ == Seq::<(Seq<char>, Seq<Seq<char>>)>::empty(),
    {
        Header::new()
    }
}

} // verus!
