//! Reading a saved `key=value` config back: the values saved for the schema's fields are
//! the values read afterwards.
use vstd::prelude::*;

use crate::config::{
    appended_lines, has_field, line_pair_fn, line_pairs, lookup, prop_pair, prop_rendered_line,
    props_rendered, rendered_config, replaced_keys, shown_value, xml_appended, xml_element,
    xml_name, xml_names, xml_pair, xml_rendered, xml_rendered_line, xml_rendered_lines,
    ends_with_close, LineFormat, Pair,
};
use crate::games::ConfigField;
use crate::text::{
    find, is_first_kept, is_first_occurrence, is_last_kept, is_ws, join, kept_end, lead_len,
    lemma_find_is, lemma_find_none, lemma_find_some_first, lemma_occurs_find_some, lines, newline,
    occurs_at, split_once, strip_cr, trim, trim_by, trim_end_by,
    trim_start_by, trimmed_char, Trimmed,
};

verus! {

proof fn lemma_first_kept_exists(s: Seq<char>, i: int)
    requires
        0 <= i < s.len(),
        !is_ws(s[i]),
    ensures
        exists|j: int| is_first_kept(s, Trimmed::Whitespace, j),
    decreases i,
{
    if forall|j: int| 0 <= j < i ==> trimmed_char(Trimmed::Whitespace, #[trigger] s[j]) {
        assert(is_first_kept(s, Trimmed::Whitespace, i));
    } else {
        let j = choose|j: int| 0 <= j < i && !trimmed_char(Trimmed::Whitespace, #[trigger] s[j]);
        lemma_first_kept_exists(s, j);
    }
}

proof fn lemma_last_kept_exists(s: Seq<char>, i: int)
    requires
        0 <= i < s.len(),
        !is_ws(s[i]),
    ensures
        exists|j: int| is_last_kept(s, Trimmed::Whitespace, j),
    decreases s.len() - i,
{
    if forall|j: int| i < j < s.len() ==> trimmed_char(Trimmed::Whitespace, #[trigger] s[j]) {
        assert(is_last_kept(s, Trimmed::Whitespace, i));
    } else {
        let j = choose|j: int| i < j < s.len() && !trimmed_char(Trimmed::Whitespace, #[trigger] s[j]);
        lemma_last_kept_exists(s, j);
    }
}

/// The leading whitespace run ends at the first non-whitespace character.
proof fn lemma_lead_len_at(s: Seq<char>, i: int)
    requires
        is_first_kept(s, Trimmed::Whitespace, i),
    ensures
        lead_len(s, Trimmed::Whitespace) == i,
{
    let k = choose|k: int| is_first_kept(s, Trimmed::Whitespace, k);
    if k < i {
        assert(trimmed_char(Trimmed::Whitespace, s[k]));
    }
    if i < k {
        assert(trimmed_char(Trimmed::Whitespace, s[i]));
    }
}

/// The kept part ends after the last non-whitespace character.
proof fn lemma_kept_end_at(s: Seq<char>, i: int)
    requires
        is_last_kept(s, Trimmed::Whitespace, i),
    ensures
        kept_end(s, Trimmed::Whitespace) == i + 1,
{
    let k = choose|k: int| is_last_kept(s, Trimmed::Whitespace, k);
    if k < i {
        assert(trimmed_char(Trimmed::Whitespace, s[i]));
    }
    if i < k {
        assert(trimmed_char(Trimmed::Whitespace, s[k]));
    }
}

/// A text that starts and ends with non-whitespace is its own trim.
pub proof fn lemma_trim_fixed(s: Seq<char>)
    requires
        s.len() == 0 || (!is_ws(s[0]) && !is_ws(s.last())),
    ensures
        trim(s) == s,
{
    if s.len() == 0 {
        assert(!exists|i: int| is_first_kept(s, Trimmed::Whitespace, i));
        assert(!exists|i: int| is_last_kept(s, Trimmed::Whitespace, i));
        assert(trim(s) =~= s);
    } else {
        assert(is_first_kept(s, Trimmed::Whitespace, 0));
        lemma_lead_len_at(s, 0);
        assert(trim_start_by(s, Trimmed::Whitespace) =~= s);
        assert(is_last_kept(s, Trimmed::Whitespace, s.len() - 1));
        lemma_kept_end_at(s, s.len() - 1);
        assert(trim_end_by(s, Trimmed::Whitespace) =~= s);
    }
}

/// What a trim leaves: a piece of the text that, unless empty, starts and ends with
/// non-whitespace.
pub proof fn lemma_trim_shape(s: Seq<char>)
    ensures
        exists|a: int, b: int| 0 <= a <= b <= s.len() && trim(s) == s.subrange(a, b),
        trim(s).len() > 0 ==> !is_ws(trim(s)[0]) && !is_ws(trim(s).last()),
        trim(s).len() > 0 && !is_ws(s[0]) ==> trim(s)[0] == s[0],
{
    let w = Trimmed::Whitespace;
    crate::text::lemma_lead_len_bound(s, w);
    let a = lead_len(s, w);
    let st = trim_start_by(s, w);
    crate::text::lemma_lead_len_bound(st, w);
    let b = kept_end(st, w);
    assert(trim(s) =~= s.subrange(a, a + b));
    if trim(s).len() > 0 {
        assert(b > 0);
        assert(exists|i: int| is_last_kept(st, w, i));
        let j = choose|i: int| is_last_kept(st, w, i);
        assert(trim(s).last() == st[j]);
        if exists|i: int| is_first_kept(s, w, i) {
            let i = choose|i: int| is_first_kept(s, w, i);
            assert(trim(s)[0] == s[i]);
            if !is_ws(s[0]) {
                assert(is_first_kept(s, w, 0));
                lemma_lead_len_at(s, 0);
            }
        } else {
            assert(a == s.len());
        }
    }
}

/// Dropping a trailing carriage return does not change a trim.
proof fn lemma_trim_strip_cr(s: Seq<char>)
    ensures
        trim(strip_cr(s)) == trim(s),
{
    let w = Trimmed::Whitespace;
    if s.len() > 0 && s.last() == '\r' {
        let d = s.drop_last();
        assert(is_ws(s.last()));
        if exists|i: int| is_first_kept(s, w, i) {
            let i = choose|i: int| is_first_kept(s, w, i);
            assert(i < s.len() - 1);
            assert(is_first_kept(d, w, i));
            lemma_lead_len_at(s, i);
            lemma_lead_len_at(d, i);
            let ss = s.skip(i);
            let ds = d.skip(i);
            assert(ds =~= ss.drop_last());
            assert(!is_ws(ss[0]));
            lemma_last_kept_exists(ss, 0);
            let j = choose|j: int| is_last_kept(ss, w, j);
            assert(j < ss.len() - 1);
            assert(is_last_kept(ds, w, j));
            lemma_kept_end_at(ss, j);
            lemma_kept_end_at(ds, j);
            assert(trim(d) =~= trim(s));
        } else {
            assert forall|i: int| 0 <= i < d.len() implies is_ws(#[trigger] d[i]) by {
                if !is_ws(d[i]) {
                    assert(!is_ws(s[i]));
                    lemma_first_kept_exists(s, i);
                }
            }
            assert(!exists|i: int| is_first_kept(d, w, i));
            assert(trim_start_by(s, w) =~= Seq::<char>::empty());
            assert(trim_start_by(d, w) =~= Seq::<char>::empty());
            assert(!exists|i: int| is_last_kept(Seq::<char>::empty(), w, i));
            assert(trim(d) =~= trim(s));
        }
    }
}

/// A line well formed as `key=value`: a non-empty key without `=` or a line end, not a
/// comment, with no whitespace around it.
pub open spec fn is_plain_key(k: Seq<char>) -> bool {
    &&& k.len() > 0
    &&& !is_ws(k[0])
    &&& !is_ws(k.last())
    &&& k[0] != '#'
    &&& !k.contains('=')
    &&& !k.contains('\n')
}

/// A value that survives being written as `key=value`: one line, no whitespace around it.
pub open spec fn is_plain_value(v: Seq<char>) -> bool {
    &&& v.len() == 0 || (!is_ws(v[0]) && !is_ws(v.last()))
    &&& !v.contains('\n')
}

/// The trim of `key=w`, for a key that starts with non-whitespace: the line up to its last
/// non-whitespace character, which is at the `=` or after it.
proof fn lemma_key_line_trim(key: Seq<char>, w: Seq<char>) -> (j: int)
    requires
        key.len() == 0 || !is_ws(key[0]),
    ensures
        key.len() <= j < (key + "="@ + w).len(),
        trim(key + "="@ + w) == (key + "="@ + w).take(j + 1),
        is_plain_value(w) ==> j == (key + "="@ + w).len() - 1,
{
    reveal_strlit("=");
    let s = key + "="@ + w;
    let ws = Trimmed::Whitespace;
    assert(s[key.len() as int] == '=');
    assert(!is_ws(s[0]));
    assert(is_first_kept(s, ws, 0));
    lemma_lead_len_at(s, 0);
    assert(trim_start_by(s, ws) =~= s);
    lemma_last_kept_exists(s, key.len() as int);
    let j = choose|j: int| is_last_kept(s, ws, j);
    assert(j >= key.len()) by {
        if j < key.len() {
            assert(trimmed_char(ws, s[key.len() as int]));
        }
    }
    lemma_kept_end_at(s, j);
    if is_plain_value(w) {
        if w.len() > 0 {
            assert(is_last_kept(s, ws, s.len() - 1));
        } else {
            assert(is_last_kept(s, ws, key.len() as int));
        }
        crate::readback::lemma_kept_end_at(s, s.len() - 1);
    }
    j
}

proof fn lemma_split_at_key(t: Seq<char>, key: Seq<char>)
    requires
        key.len() < t.len(),
        t.take(key.len() as int) == key,
        t[key.len() as int] == '=',
        !key.contains('='),
    ensures
        split_once(t, "="@) == Some((key, t.skip(key.len() + 1int))),
{
    reveal_strlit("=");
    assert(occurs_at(t, key.len() as int, "="@)) by {
        assert(t.subrange(key.len() as int, key.len() + 1int) =~= "="@);
    }
    assert forall|i: int| 0 <= i < key.len() implies !occurs_at(t, i, "="@) by {
        if occurs_at(t, i, "="@) {
            assert(t.subrange(i, i + 1)[0] == t[i]);
            assert(t[i] == t.take(key.len() as int)[i]);
            assert(key.contains(key[i]));
        }
    }
    lemma_find_is(t, "="@, key.len() as int);
}

/// A line `key=w` whose key is trimmed, `=`-free and no comment reads back with that key.
#[verifier::spinoff_prover]
#[verifier::rlimit(40)]
proof fn lemma_pair_key(key: Seq<char>, w: Seq<char>)
    requires
        key.len() == 0 || (!is_ws(key[0]) && !is_ws(key.last()) && key[0] != '#'),
        !key.contains('='),
    ensures
        prop_pair(key + "="@ + w) matches Some(p) && p.0 == key,
        is_plain_value(w) ==> prop_pair(key + "="@ + w) == Some((key, w)),
{
    reveal_strlit("=");
    let s = key + "="@ + w;
    let j = lemma_key_line_trim(key, w);
    let st = trim(s);
    assert(st =~= s.take(j + 1));
    assert(st.take(key.len() as int) =~= key);
    assert(st[key.len() as int] == '=');
    assert(st[0] != '#') by {
        if key.len() > 0 {
            assert(st[0] == key[0]);
        }
    }
    lemma_split_at_key(st, key);
    lemma_trim_fixed(key);
    if is_plain_value(w) {
        assert(st =~= s);
        assert(st.skip(key.len() + 1int) =~= w);
        lemma_trim_fixed(w);
    }
}

proof fn lemma_filter_map_append(a: Seq<Seq<char>>, b: Seq<Seq<char>>, f: spec_fn(Seq<char>) -> Option<Pair>)
    ensures
        (a + b).filter_map(f) == a.filter_map(f) + b.filter_map(f),
    decreases b.len(),
{
    if b.len() == 0 {
        assert(a + b =~= a);
        assert(a.filter_map(f) + Seq::<Pair>::empty() =~= a.filter_map(f));
    } else {
        lemma_filter_map_append(a, b.drop_last(), f);
        assert((a + b).drop_last() =~= a + b.drop_last());
        assert((a + b).last() == b.last());
        match f(b.last()) {
            Some(x) => {
                assert((a.filter_map(f) + b.drop_last().filter_map(f)) + seq![x] =~= a.filter_map(f)
                    + (b.drop_last().filter_map(f) + seq![x]));
            },
            None => {},
        }
    }
}

proof fn lemma_join_front(r: Seq<Seq<char>>)
    requires
        r.len() >= 2,
    ensures
        join(r, "\n"@) == r[0] + "\n"@ + join(r.drop_first(), "\n"@),
    decreases r.len(),
{
    let sep = "\n"@;
    if r.len() == 2 {
        assert(join(r.drop_last(), sep) == r.drop_last()[0]);
        assert(r.drop_first().len() == 1);
        assert(join(r.drop_first(), sep) == r.drop_first()[0]);
        assert(join(r, sep) == join(r.drop_last(), sep) + sep + r.last());
        assert(join(r, sep) =~= r[0] + sep + join(r.drop_first(), sep));
    } else {
        lemma_join_front(r.drop_last());
        assert(r.drop_last().drop_first() =~= r.drop_first().drop_last());
        assert(r.drop_first().last() == r.last());
        assert(join(r.drop_first(), sep) == join(r.drop_first().drop_last(), sep) + sep
            + r.drop_first().last());
        assert(join(r, sep) == join(r.drop_last(), sep) + sep + r.last());
        assert(join(r, sep) =~= r[0] + sep + join(r.drop_first(), sep));
    }
}

/// Joining one-line texts with `\n` and reading the pairs of the lines back gives the pairs
/// of the texts.
proof fn lemma_lines_join_pairs(r: Seq<Seq<char>>)
    requires
        forall|j: int| 0 <= j < r.len() ==> !(#[trigger] r[j]).contains('\n'),
    ensures
        lines(join(r, "\n"@)).filter_map(line_pair_fn(LineFormat::Properties)) == r.filter_map(
            line_pair_fn(LineFormat::Properties),
        ),
    decreases r.len(),
{
    let f = line_pair_fn(LineFormat::Properties);
    reveal_strlit("\n");
    if r.len() == 0 {
        assert(lines(Seq::<char>::empty()) =~= Seq::<Seq<char>>::empty());
    } else if r.len() == 1 {
        let x = r[0];
        assert(join(r, "\n"@) == x);
        if x.len() == 0 {
            assert(lines(x) =~= Seq::<Seq<char>>::empty());
            assert(trim(x) =~= x) by {
                lemma_trim_fixed(x);
            }
            assert(f(x) is None);
            assert(r.drop_last() =~= Seq::<Seq<char>>::empty());
        } else {
            assert forall|j: int| !occurs_at(x, j, newline()) by {
                if occurs_at(x, j, newline()) {
                    assert(x.subrange(j, j + 1)[0] == x[j]);
                    assert(x.contains(x[j]));
                }
            }
            crate::text::lemma_find_none(x, newline());
            assert(lines(x) =~= seq![x]);
            assert(lines(x) =~= r);
        }
    } else {
        let x = r[0];
        let rest = r.drop_first();
        lemma_join_front(r);
        let s = join(r, "\n"@);
        let jr = join(rest, "\n"@);
        assert(s =~= x + newline() + jr);
        assert(occurs_at(s, x.len() as int, newline())) by {
            assert(s.subrange(x.len() as int, x.len() + 1int) =~= newline());
        }
        assert forall|j: int| 0 <= j < x.len() implies !occurs_at(s, j, newline()) by {
            if occurs_at(s, j, newline()) {
                assert(s.subrange(j, j + 1)[0] == s[j]);
                assert(s[j] == x[j]);
                assert(x.contains(x[j]));
            }
        }
        lemma_find_is(s, newline(), x.len() as int);
        assert(s.take(x.len() as int) =~= x);
        assert(s.skip(x.len() + 1int) =~= jr);
        assert(lines(s) == seq![strip_cr(x)] + lines(jr));
        assert forall|j: int| 0 <= j < rest.len() implies !(#[trigger] rest[j]).contains('\n') by {
            assert(rest[j] == r[j + 1]);
        }
        lemma_lines_join_pairs(rest);
        lemma_filter_map_append(seq![strip_cr(x)], lines(jr), f);
        lemma_filter_map_append(seq![x], rest, f);
        assert(r =~= seq![x] + rest);
        lemma_trim_strip_cr(x);
        assert(f(strip_cr(x)) == f(x));
        reveal_with_fuel(Seq::filter_map, 2);
        assert(seq![strip_cr(x)].drop_last() =~= Seq::<Seq<char>>::empty());
        assert(seq![x].drop_last() =~= Seq::<Seq<char>>::empty());
    }
}

/// Every pair with key `k` in `ps` has value `v`, and there is one: looking `k` up gives `v`.
pub proof fn lemma_lookup_all(ps: Seq<Pair>, k: Seq<char>, v: Seq<char>)
    requires
        forall|j: int| 0 <= j < ps.len() && (#[trigger] ps[j]).0 == k ==> ps[j].1 == v,
        exists|j: int| 0 <= j < ps.len() && (#[trigger] ps[j]).0 == k,
    ensures
        lookup(ps, k) == Some(v),
    decreases ps.len(),
{
    if ps.last().0 != k {
        let j = choose|j: int| 0 <= j < ps.len() && (#[trigger] ps[j]).0 == k;
        assert(j < ps.len() - 1);
        assert(ps.drop_last()[j] == ps[j]);
        assert forall|i: int| 0 <= i < ps.drop_last().len() && (#[trigger] ps.drop_last()[i]).0 == k
            implies ps.drop_last()[i].1 == v by {
            assert(ps.drop_last()[i] == ps[i]);
        }
        lemma_lookup_all(ps.drop_last(), k, v);
    }
}

proof fn lemma_lines_no_newline(s: Seq<char>)
    ensures
        forall|j: int| 0 <= j < lines(s).len() ==> !(#[trigger] lines(s)[j]).contains('\n'),
    decreases s.len(),
{
    if s.len() > 0 {
        match find(s, newline()) {
            Some(i) => {
                if 0 <= i < s.len() {
                    lemma_lines_no_newline(s.skip(i + 1));
                    let head = strip_cr(s.take(i));
                    assert(is_first_occurrence(s, newline(), i)) by {
                        crate::text::lemma_occurs_find_some(s, newline(), i);
                        let k = choose|k: int| is_first_occurrence(s, newline(), k);
                        crate::text::lemma_find_is(s, newline(), k);
                    }
                    assert forall|m: int| 0 <= m < head.len() implies head[m] != '\n' by {
                        assert(head[m] == s[m]);
                        if s[m] == '\n' {
                            assert(s.subrange(m, m + 1) =~= newline());
                            assert(occurs_at(s, m, newline()));
                        }
                    }
                    assert forall|j: int| 0 <= j < lines(s).len() implies !(#[trigger] lines(
                        s,
                    )[j]).contains('\n') by {
                        if j > 0 {
                            assert(lines(s)[j] == lines(s.skip(i + 1))[j - 1]);
                        } else {
                            assert(lines(s)[j] == head);
                        }
                    }
                }
            },
            None => {
                assert forall|m: int| 0 <= m < s.len() implies s[m] != '\n' by {
                    if s[m] == '\n' {
                        assert(s.subrange(m, m + 1) =~= newline());
                        assert(occurs_at(s, m, newline()));
                        crate::text::lemma_occurs_find_some(s, newline(), m);
                    }
                }
            },
        }
    }
}

proof fn lemma_filter_map_has<A, B>(s: Seq<A>, f: spec_fn(A) -> Option<B>, x: A)
    requires
        s.contains(x),
        f(x) is Some,
    ensures
        s.filter_map(f).contains(f(x)->0),
    decreases s.len(),
{
    if s.last() == x {
        assert(s.filter_map(f).last() == f(x)->0);
    } else {
        let j = choose|j: int| 0 <= j < s.len() && s[j] == x;
        assert(s.drop_last()[j] == x);
        lemma_filter_map_has(s.drop_last(), f, x);
        let k = choose|k: int| 0 <= k < s.drop_last().filter_map(f).len() && s.drop_last().filter_map(
            f,
        )[k] == f(x)->0;
        assert(s.filter_map(f)[k] == f(x)->0);
    }
}

proof fn lemma_lookup_in(vals: Seq<Pair>, k: Seq<char>)
    ensures
        lookup(vals, k) matches Some(x) ==> exists|j: int| 0 <= j < vals.len() && #[trigger] vals[j]
            == (k, x),
    decreases vals.len(),
{
    if vals.len() > 0 && vals.last().0 != k {
        lemma_lookup_in(vals.drop_last(), k);
        if lookup(vals, k) is Some {
            let j = choose|j: int| 0 <= j < vals.drop_last().len() && #[trigger] vals.drop_last()[j]
                == (k, lookup(vals, k)->0);
            assert(vals[j] == vals.drop_last()[j]);
        }
    } else if vals.len() > 0 {
        assert(vals[vals.len() - 1] == (k, lookup(vals, k)->0));
    }
}

/// A pair read back with key `k` has value `v`.
pub open spec fn reads_k_as(o: Option<Pair>, k: Seq<char>, v: Seq<char>) -> bool {
    match o {
        Some(p) => p.0 == k ==> p.1 == v,
        None => true,
    }
}

/// The line `x` does not read back with key `k` and another value than `v`.
#[verifier::opaque]
pub open spec fn reads_as(x: Seq<char>, k: Seq<char>, v: Seq<char>) -> bool {
    reads_k_as(prop_pair(x), k, v)
}

/// The line `x` reads back as the pair `(k, v)`.
#[verifier::opaque]
pub open spec fn carries(x: Seq<char>, k: Seq<char>, v: Seq<char>) -> bool {
    prop_pair(x) == Some((k, v))
}

/// The values saved for schema fields are single lines (other entries are never written).
pub open spec fn one_line_values(fields: Seq<ConfigField>, vals: Seq<Pair>) -> bool {
    forall|j: int| 0 <= j < fields.len() ==> one_line_opt(lookup(vals, (#[trigger] fields[j]).key@))
}

/// A saved value, if any, is one line.
pub open spec fn one_line_opt(o: Option<Seq<char>>) -> bool {
    match o {
        Some(v) => !v.contains('\n'),
        None => true,
    }
}

/// Every schema key is a plain key.
pub open spec fn plain_keys(fields: Seq<ConfigField>) -> bool {
    forall|j: int| 0 <= j < fields.len() ==> is_plain_key(#[trigger] fields[j].key@)
}

/// A line of the file after saving: a single line, and when it reads back as a pair with key
/// `k`, that pair is `(k, v)`; a line that replaced `k` reads back as `(k, v)`.
proof fn lemma_rendered_line(l: Seq<char>, fields: Seq<ConfigField>, vals: Seq<Pair>, k: Seq<char>, v: Seq<char>)
    requires
        !l.contains('\n'),
        one_line_values(fields, vals),
        has_field(fields, k),
        lookup(vals, k) == Some(v),
        is_plain_value(v),
        k.len() > 0,
    ensures
        !prop_rendered_line(l, fields, vals).0.contains('\n'),
        reads_as(prop_rendered_line(l, fields, vals).0, k, v),
        prop_rendered_line(l, fields, vals).1 == Some(k) ==> carries(
            prop_rendered_line(l, fields, vals).0,
            k,
            v,
        ),
{
    reveal(reads_as);
    reveal(carries);
    reveal_strlit("=");
    let t = trim(l);
    lemma_trim_shape(l);
    if t.len() == 0 || t[0] == '#' {
    } else {
        match split_once(t, "="@) {
            Some((kk, rest)) => {
                let key = trim(kk);
                let idx = find(t, "="@)->0;
                assert(kk == t.take(idx));
                assert(is_first_occurrence(t, "="@, idx)) by {
                    let m = choose|m: int| is_first_occurrence(t, "="@, m);
                    crate::text::lemma_first_occurrence_unique(t, "="@, idx, m);
                }
                lemma_trim_shape(kk);
                let (a, b) = choose|a: int, b: int| 0 <= a <= b <= kk.len() && key == kk.subrange(a, b);
                assert forall|m: int| 0 <= m < key.len() implies key[m] != '=' && key[m] != '\n' by {
                    assert(key[m] == kk[a + m]);
                    assert(kk[a + m] == t[a + m]);
                    if t[a + m] == '=' {
                        assert(t.subrange(a + m, a + m + 1) =~= "="@);
                        assert(occurs_at(t, a + m, "="@));
                    }
                    let (ta, tb) = choose|ta: int, tb: int| 0 <= ta <= tb <= l.len() && t == l.subrange(ta, tb);
                    assert(t[a + m] == l[ta + a + m]);
                    if l[ta + a + m] == '\n' {
                        assert(l.contains(l[ta + a + m]));
                    }
                }
                assert(!key.contains('=') && !key.contains('\n'));
                if key.len() > 0 {
                    assert(kk.len() > 0);
                    assert(kk[0] == t[0]);
                    assert(!is_ws(t[0]));
                    assert(key[0] == kk[0]);
                }
                if has_field(fields, key) {
                    match lookup(vals, key) {
                        Some(vk) => {
                            lemma_lookup_in(vals, key);
                            let j = choose|j: int| 0 <= j < vals.len() && #[trigger] vals[j] == (key, vk);
                            assert(!vals[j].1.contains('\n'));
                            let x = key + "="@ + vk;
                            assert forall|m: int| 0 <= m < x.len() implies x[m] != '\n' by {
                                if m < key.len() {
                                    assert(x[m] == key[m]);
                                } else if m > key.len() {
                                    assert(x[m] == vk[m - key.len() - 1]);
                                }
                            }
                            lemma_pair_key(key, vk);
                        },
                        None => {},
                    }
                }
                // An untouched line never reads back with key `k`: it would have been replaced.
                if prop_rendered_line(l, fields, vals).1 is None {
                    assert(prop_pair(l) == Some((key, trim(rest))));
                }
            },
            None => {},
        }
    }
}

proof fn lemma_appended(fields: Seq<ConfigField>, vals: Seq<Pair>, seen: Seq<Seq<char>>, k: Seq<char>, v: Seq<char>)
    requires
        plain_keys(fields),
        one_line_values(fields, vals),
        lookup(vals, k) == Some(v),
        is_plain_value(v),
    ensures
        forall|x: Seq<char>|
            #[trigger] appended_lines(fields, vals, seen).contains(x) ==> !x.contains('\n')
                && reads_as(x, k, v),
        (exists|j: int| 0 <= j < fields.len() && #[trigger] fields[j].key@ == k) && !seen.contains(k)
            ==> appended_lines(fields, vals, seen).contains(k + "="@ + v),
    decreases fields.len(),
{
    reveal(reads_as);
    reveal_strlit("=");
    let a = appended_lines(fields, vals, seen);
    if fields.len() > 0 {
        let rest = fields.drop_last();
        assert(plain_keys(rest)) by {
            assert forall|j: int| 0 <= j < rest.len() implies is_plain_key(#[trigger] rest[j].key@) by {
                assert(rest[j] == fields[j]);
            }
        }
        lemma_appended(rest, vals, seen, k, v);
        let f = fields.last();
        assert(is_plain_key(fields[fields.len() - 1].key@));
        let ar = appended_lines(rest, vals, seen);
        let last_line: Option<Seq<char>> = if seen.contains(f.key@) {
            None
        } else {
            match lookup(vals, f.key@) {
                Some(vf) => Some(f.key@ + "="@ + vf),
                None => None,
            }
        };
        match last_line {
            Some(x) => {
                assert(a =~= ar + seq![x]);
                let vf = lookup(vals, f.key@)->0;
                lemma_lookup_in(vals, f.key@);
                let j = choose|j: int| 0 <= j < vals.len() && #[trigger] vals[j] == (f.key@, vf);
                assert(!vals[j].1.contains('\n'));
                assert forall|m: int| 0 <= m < x.len() implies x[m] != '\n' by {
                    if m < f.key@.len() {
                        assert(x[m] == f.key@[m]);
                        assert(f.key@.contains(f.key@[m]));
                    } else if m > f.key@.len() {
                        assert(x[m] == vf[m - f.key@.len() - 1]);
                        assert(vf.contains(vf[m - f.key@.len() - 1]));
                    }
                }
                lemma_pair_key(f.key@, vf);
                assert forall|y: Seq<char>| #[trigger] a.contains(y) implies !y.contains('\n')
                    && reads_as(y, k, v) by {
                    if y != x {
                        let m = choose|m: int| 0 <= m < a.len() && a[m] == y;
                        assert(ar[m] == y);
                        assert(ar.contains(y));
                    }
                }
                if (exists|j: int| 0 <= j < fields.len() && #[trigger] fields[j].key@ == k) && !seen.contains(k) {
                    if f.key@ == k {
                        assert(a[a.len() - 1] == k + "="@ + v);
                    } else {
                        let j = choose|j: int| 0 <= j < fields.len() && #[trigger] fields[j].key@ == k;
                        assert(rest[j].key@ == k);
                        let m = choose|m: int| 0 <= m < ar.len() && ar[m] == k + "="@ + v;
                        assert(a[m] == ar[m]);
                    }
                }
            },
            None => {
                assert(a =~= ar);
                if (exists|j: int| 0 <= j < fields.len() && #[trigger] fields[j].key@ == k) && !seen.contains(k) {
                    if f.key@ == k {
                        assert(false);
                    } else {
                        let j = choose|j: int| 0 <= j < fields.len() && #[trigger] fields[j].key@ == k;
                        assert(rest[j].key@ == k);
                    }
                }
            },
        }
    }
}

/// The lines of a saved `key=value` file, before they are joined.
pub open spec fn saved_lines(raw: Seq<char>, fields: Seq<ConfigField>, vals: Seq<Pair>) -> Seq<Seq<char>> {
    lines(raw).map_values(|l: Seq<char>| prop_rendered_line(l, fields, vals).0) + appended_lines(
        fields,
        vals,
        replaced_keys(lines(raw), fields, vals),
    )
}

/// The conditions of the read-back: saving `fields[i]` with a well-formed value.
pub open spec fn read_back_case(fields: Seq<ConfigField>, vals: Seq<Pair>, i: int) -> bool {
    &&& 0 <= i < fields.len()
    &&& plain_keys(fields)
    &&& one_line_values(fields, vals)
    &&& lookup(vals, fields[i].key@) is Some
    &&& is_plain_value(lookup(vals, fields[i].key@)->0)
}

pub open spec fn rewritten_lines(raw: Seq<char>, fields: Seq<ConfigField>, vals: Seq<Pair>) -> Seq<Seq<char>> {
    lines(raw).map_values(|l: Seq<char>| prop_rendered_line(l, fields, vals).0)
}

#[verifier::spinoff_prover]
proof fn lemma_rewritten_facts(raw: Seq<char>, fields: Seq<ConfigField>, vals: Seq<Pair>, k: Seq<char>, v: Seq<char>)
    requires
        one_line_values(fields, vals),
        has_field(fields, k),
        lookup(vals, k) == Some(v),
        is_plain_value(v),
        k.len() > 0,
    ensures
        forall|j: int|
            0 <= j < rewritten_lines(raw, fields, vals).len() ==> !(#[trigger] rewritten_lines(
                raw,
                fields,
                vals,
            )[j]).contains('\n') && reads_as(rewritten_lines(raw, fields, vals)[j], k, v),
        replaced_keys(lines(raw), fields, vals).contains(k) ==> exists|j: int|
            0 <= j < rewritten_lines(raw, fields, vals).len() && carries(
                #[trigger] rewritten_lines(raw, fields, vals)[j],
                k,
                v,
            ),
{
    let ls = lines(raw);
    let r1 = rewritten_lines(raw, fields, vals);
    lemma_lines_no_newline(raw);
    assert forall|j: int| 0 <= j < r1.len() implies !(#[trigger] r1[j]).contains('\n') && reads_as(
        r1[j],
        k,
        v,
    ) by {
        lemma_rendered_line(ls[j], fields, vals, k, v);
    }
    let seen = replaced_keys(ls, fields, vals);
    if seen.contains(k) {
        let g = |l: Seq<char>| prop_rendered_line(l, fields, vals).1;
        assert(seen == ls.filter_map(g));
        ls.lemma_filter_map_contains(g, k);
        let l = choose|l: Seq<char>| #[trigger] ls.contains(l) && g(l) == Some(k);
        let jl = choose|jl: int| 0 <= jl < ls.len() && ls[jl] == l;
        lemma_rendered_line(ls[jl], fields, vals, k, v);
        assert(carries(r1[jl], k, v));
    }
}

proof fn lemma_saved_lines_join(raw: Seq<char>, fields: Seq<ConfigField>, vals: Seq<Pair>)
    ensures
        props_rendered(raw, fields, vals) == join(saved_lines(raw, fields, vals), "\n"@),
{
}

#[verifier::spinoff_prover]
#[verifier::rlimit(60)]
proof fn lemma_saved_lines_facts(raw: Seq<char>, fields: Seq<ConfigField>, vals: Seq<Pair>, i: int)
    requires
        read_back_case(fields, vals, i),
    ensures
        ({
            let k = fields[i].key@;
            let v = lookup(vals, k)->0;
            let r = saved_lines(raw, fields, vals);
            &&& forall|j: int| 0 <= j < r.len() ==> !(#[trigger] r[j]).contains('\n') && reads_as(
                r[j],
                k,
                v,
            )
            &&& exists|j: int| 0 <= j < r.len() && carries(#[trigger] r[j], k, v)
        }),
{
    let k = fields[i].key@;
    let v = lookup(vals, k)->0;
    let r1 = rewritten_lines(raw, fields, vals);
    let seen = replaced_keys(lines(raw), fields, vals);
    let a = appended_lines(fields, vals, seen);
    let r = saved_lines(raw, fields, vals);
    assert(r == r1 + a);
    assert(has_field(fields, k)) by {
        assert(fields[i].key@ == k);
    }
    assert(is_plain_key(fields[i].key@));
    lemma_rewritten_facts(raw, fields, vals, k, v);
    lemma_appended(fields, vals, seen, k, v);
    assert forall|j: int| 0 <= j < r.len() implies !(#[trigger] r[j]).contains('\n') && reads_as(
        r[j],
        k,
        v,
    ) by {
        if j >= r1.len() {
            assert(r[j] == a[j - r1.len()]);
            assert(a.contains(a[j - r1.len()]));
        } else {
            assert(r[j] == r1[j]);
        }
    }
    if seen.contains(k) {
        let j = choose|j: int| 0 <= j < r1.len() && carries(#[trigger] r1[j], k, v);
        assert(r[j] == r1[j]);
    } else {
        assert(exists|j: int| 0 <= j < fields.len() && #[trigger] fields[j].key@ == k) by {
            assert(fields[i].key@ == k);
        }
        assert(carries(k + "="@ + v, k, v)) by {
            reveal(carries);
            lemma_pair_key(k, v);
        }
        let m = choose|m: int| 0 <= m < a.len() && a[m] == k + "="@ + v;
        assert(r[r1.len() + m] == a[m]);
    }
}

proof fn lemma_saved_pairs(raw: Seq<char>, fields: Seq<ConfigField>, vals: Seq<Pair>, i: int)
    requires
        read_back_case(fields, vals, i),
    ensures
        lookup(line_pairs(LineFormat::Properties, props_rendered(raw, fields, vals)), fields[i].key@)
            == lookup(vals, fields[i].key@),
{
    let k = fields[i].key@;
    let v = lookup(vals, k)->0;
    let r = saved_lines(raw, fields, vals);
    lemma_saved_lines_facts(raw, fields, vals, i);
    lemma_saved_lines_join(raw, fields, vals);
    lemma_lines_join_pairs(r);
    let f = line_pair_fn(LineFormat::Properties);
    let pp = r.filter_map(f);
    assert(line_pairs(LineFormat::Properties, props_rendered(raw, fields, vals)) == pp);
    assert forall|m: int| 0 <= m < pp.len() && (#[trigger] pp[m]).0 == k implies pp[m].1 == v by {
        assert(pp.contains(pp[m]));
        r.lemma_filter_map_contains(f, pp[m]);
        let x = choose|x: Seq<char>| #[trigger] r.contains(x) && f(x) == Some(pp[m]);
        let jx = choose|jx: int| 0 <= jx < r.len() && r[jx] == x;
        assert(reads_as(r[jx], k, v));
        reveal(reads_as);
    }
    let jx = choose|j: int| 0 <= j < r.len() && carries(#[trigger] r[j], k, v);
    reveal(carries);
    assert(r.contains(r[jx]));
    lemma_filter_map_has(r, f, r[jx]);
    lemma_lookup_all(pp, k, v);
}

/// Saving values into a `key=value` config and reading it back gives the saved values: for
/// every schema field that a value was saved for, parsing the file written shows that value.
/// This holds when the schema's keys are plain (non-empty, no `=`, no line end, not a comment,
/// no surrounding whitespace), the saved values are single lines, and the value read is free of
/// surrounding whitespace (the reader trims values).
pub proof fn lemma_saved_properties_read_back(
    format: Seq<char>,
    raw: Seq<char>,
    fields: Seq<ConfigField>,
    vals: Seq<Pair>,
    i: int,
)
    requires
        format != "xml-properties"@,
        format != "palworld-ini"@,
        format != "json"@,
        read_back_case(fields, vals, i),
    ensures
        rendered_config(format, raw, fields, vals) matches crate::config::RenderedConfigView::Text(t)
            && crate::config::parsed_config(fields, crate::config::found_pairs(format, t))[i] == (
            fields[i].key@,
            lookup(vals, fields[i].key@)->0,
        ),
{
    lemma_saved_pairs(raw, fields, vals, i);
    let t = props_rendered(raw, fields, vals);
    assert(crate::config::found_pairs(format, t) == line_pairs(LineFormat::Properties, t));
}


/// A quote-ended pattern found in `s` is still found, at the same place, once the last
/// character of `s` (no quote) is dropped; a pattern not found stays not found.
proof fn lemma_find_drop_last(s: Seq<char>, p: Seq<char>)
    requires
        s.len() > 0,
        p.len() > 0,
        p.last() == '"',
        s.last() != '"',
    ensures
        find(s.drop_last(), p) == find(s, p),
{
    let t = s.drop_last();
    match find(s, p) {
        Some(i) => {
            lemma_find_some_first(s, p);
            assert(s.subrange(i, i + p.len())[p.len() - 1] == s[i + p.len() - 1]);
            assert(i + p.len() <= t.len());
            assert(t.subrange(i, i + p.len()) =~= s.subrange(i, i + p.len()));
            assert forall|j: int| 0 <= j < i implies !occurs_at(t, j, p) by {
                if occurs_at(t, j, p) {
                    assert(t.subrange(j, j + p.len()) =~= s.subrange(j, j + p.len()));
                    assert(occurs_at(s, j, p));
                }
            }
            lemma_find_is(t, p, i);
        },
        None => {
            if exists|j: int| occurs_at(t, j, p) {
                let j = choose|j: int| occurs_at(t, j, p);
                assert(t.subrange(j, j + p.len()) =~= s.subrange(j, j + p.len()));
                lemma_occurs_find_some(s, p, j);
            }
            lemma_find_none(t, p);
        },
    }
}

/// Dropping a last character that is no quote does not change how an XML property line reads.
proof fn lemma_xml_pair_drop_last(x: Seq<char>)
    requires
        x.len() > 0,
        x.last() != '"',
    ensures
        xml_pair(x.drop_last()) == xml_pair(x),
{
    reveal_strlit("name=\"");
    reveal_strlit("value=\"");
    reveal_strlit("\"");
    let t = x.drop_last();
    let nm = "name=\""@;
    let vl = "value=\""@;
    let q = "\""@;
    lemma_find_drop_last(x, nm);
    lemma_find_drop_last(x, vl);
    if find(x, nm) is Some {
        let ns = find(x, nm)->0;
        lemma_find_some_first(x, nm);
        assert(x[ns + 5] == '"') by {
            assert(x.subrange(ns, ns + 6)[5] == x[ns + 5]);
        }
        assert(ns + 6 < x.len());
        assert(t.skip(ns + 6) =~= x.skip(ns + 6).drop_last());
        lemma_find_drop_last(x.skip(ns + 6), q);
        if find(x.skip(ns + 6), q) is Some {
            let ne = find(x.skip(ns + 6), q)->0;
            lemma_find_some_first(x.skip(ns + 6), q);
            assert(t.skip(ns + 6).take(ne) =~= x.skip(ns + 6).take(ne));
        }
    }
    if find(x, vl) is Some {
        let vs = find(x, vl)->0;
        lemma_find_some_first(x, vl);
        assert(x[vs + 6] == '"') by {
            assert(x.subrange(vs, vs + 7)[6] == x[vs + 6]);
        }
        assert(vs + 7 < x.len());
        assert(t.skip(vs + 7) =~= x.skip(vs + 7).drop_last());
        lemma_find_drop_last(x.skip(vs + 7), q);
        if find(x.skip(vs + 7), q) is Some {
            let ve = find(x.skip(vs + 7), q)->0;
            lemma_find_some_first(x.skip(vs + 7), q);
            assert(t.skip(vs + 7).take(ve) =~= x.skip(vs + 7).take(ve));
        }
    }
}

proof fn lemma_xml_pair_strip_cr(x: Seq<char>)
    ensures
        xml_pair(strip_cr(x)) == xml_pair(x),
{
    if x.len() > 0 && x.last() == '\r' {
        lemma_xml_pair_drop_last(x);
    }
}

/// Joining one-line texts with `\n` and reading the lines back, with a reader that ignores a
/// final `\r` and reads nothing from an empty line, gives what the texts read.
proof fn lemma_lines_join_read(r: Seq<Seq<char>>, f: spec_fn(Seq<char>) -> Option<Pair>)
    requires
        forall|j: int| 0 <= j < r.len() ==> !(#[trigger] r[j]).contains('\n'),
        forall|x: Seq<char>| #[trigger] f(strip_cr(x)) == f(x),
        f(Seq::<char>::empty()) is None,
    ensures
        lines(join(r, "\n"@)).filter_map(f) == r.filter_map(f),
    decreases r.len(),
{
    reveal_strlit("\n");
    if r.len() == 0 {
        assert(lines(Seq::<char>::empty()) =~= Seq::<Seq<char>>::empty());
    } else if r.len() == 1 {
        let x = r[0];
        assert(join(r, "\n"@) == x);
        if x.len() == 0 {
            assert(lines(x) =~= Seq::<Seq<char>>::empty());
            assert(x =~= Seq::<char>::empty());
            assert(r.drop_last() =~= Seq::<Seq<char>>::empty());
        } else {
            assert forall|j: int| !occurs_at(x, j, newline()) by {
                if occurs_at(x, j, newline()) {
                    assert(x.subrange(j, j + 1)[0] == x[j]);
                    assert(x.contains(x[j]));
                }
            }
            lemma_find_none(x, newline());
            assert(lines(x) =~= seq![x]);
            assert(lines(x) =~= r);
        }
    } else {
        let x = r[0];
        let rest = r.drop_first();
        lemma_join_front(r);
        let s = join(r, "\n"@);
        let jr = join(rest, "\n"@);
        assert(s =~= x + newline() + jr);
        assert(occurs_at(s, x.len() as int, newline())) by {
            assert(s.subrange(x.len() as int, x.len() + 1int) =~= newline());
        }
        assert forall|j: int| 0 <= j < x.len() implies !occurs_at(s, j, newline()) by {
            if occurs_at(s, j, newline()) {
                assert(s.subrange(j, j + 1)[0] == s[j]);
                assert(s[j] == x[j]);
                assert(x.contains(x[j]));
            }
        }
        lemma_find_is(s, newline(), x.len() as int);
        assert(s.take(x.len() as int) =~= x);
        assert(s.skip(x.len() + 1int) =~= jr);
        assert(lines(s) == seq![strip_cr(x)] + lines(jr));
        assert forall|j: int| 0 <= j < rest.len() implies !(#[trigger] rest[j]).contains('\n') by {
            assert(rest[j] == r[j + 1]);
        }
        lemma_lines_join_read(rest, f);
        lemma_filter_map_append(seq![strip_cr(x)], lines(jr), f);
        lemma_filter_map_append(seq![x], rest, f);
        assert(r =~= seq![x] + rest);
        assert(f(strip_cr(x)) == f(x));
        reveal_with_fuel(Seq::filter_map, 2);
        assert(seq![strip_cr(x)].drop_last() =~= Seq::<Seq<char>>::empty());
        assert(seq![x].drop_last() =~= Seq::<Seq<char>>::empty());
    }
}

/// A property line whose name attribute closes before its value attribute opens, as in
/// `<property name="ServerName" value="My Server"/>`.
pub open spec fn name_before_value(l: Seq<char>) -> bool {
    match find(l, "name=\""@) {
        Some(ns) => match find(l.skip(ns + 6), "\""@) {
            Some(ne) => match find(l, "value=\""@) {
                Some(vs) => ns + 6 + ne < vs,
                None => true,
            },
            None => true,
        },
        None => true,
    }
}

/// The values saved for schema fields hold no quote and no line end (other entries are never
/// written).
pub open spec fn quote_free_values(fields: Seq<ConfigField>, vals: Seq<Pair>) -> bool {
    forall|j: int| 0 <= j < fields.len() ==> quote_free_opt(lookup(vals, (#[trigger] fields[j]).key@))
}

/// A saved value, if any, holds no quote and no line end.
pub open spec fn quote_free_opt(o: Option<Seq<char>>) -> bool {
    match o {
        Some(v) => !v.contains('"') && !v.contains('\n'),
        None => true,
    }
}

/// How a line reads after saving: a line naming a schema field with a new value reads that
/// value; any other line is left as it was.
pub open spec fn xml_reads_saved(l: Seq<char>, x: Seq<char>, fields: Seq<ConfigField>, vals: Seq<Pair>) -> bool {
    match xml_pair(l) {
        Some(p) => if has_field(fields, p.0) && lookup(vals, p.0) is Some {
            xml_pair(x) == Some((p.0, lookup(vals, p.0)->0))
        } else {
            x == l
        },
        None => x == l,
    }
}

/// The first occurrence of a pattern in `s` is still the first in `t` when `t` agrees with
/// `s` up to where the occurrence ends.
pub proof fn lemma_first_found_kept(s: Seq<char>, t: Seq<char>, p: Seq<char>, i: int, m: int)
    requires
        is_first_occurrence(s, p, i),
        i + p.len() <= m <= s.len(),
        m <= t.len(),
        forall|k: int| 0 <= k < m ==> s[k] == t[k],
    ensures
        find(t, p) == Some(i),
{
    assert(t.subrange(i, i + p.len()) =~= s.subrange(i, i + p.len()));
    assert forall|j: int| 0 <= j < i implies !occurs_at(t, j, p) by {
        if occurs_at(t, j, p) {
            assert(t.subrange(j, j + p.len()) =~= s.subrange(j, j + p.len()));
            assert(occurs_at(s, j, p));
        }
    }
    lemma_find_is(t, p, i);
}

/// A line of an XML properties file after saving: still a single line, and it reads as
/// `xml_reads_saved` says.
#[verifier::spinoff_prover]
#[verifier::rlimit(40)]
proof fn lemma_xml_rendered_line(l: Seq<char>, fields: Seq<ConfigField>, vals: Seq<Pair>)
    requires
        names_saved(l, fields, vals) ==> name_before_value(l),
        !l.contains('\n'),
        quote_free_values(fields, vals),
    ensures
        !xml_rendered_line(l, fields, vals).contains('\n'),
        xml_reads_saved(l, xml_rendered_line(l, fields, vals), fields, vals),
{
    reveal_strlit("name=\"");
    reveal_strlit("value=\"");
    reveal_strlit("\"");
    let nm = "name=\""@;
    let vl = "value=\""@;
    let q = "\""@;
    let x = xml_rendered_line(l, fields, vals);
    let named = match xml_pair(l) {
        Some(pk) => has_field(fields, pk.0) && lookup(vals, pk.0) is Some,
        None => false,
    };
    if named {
        let ns = find(l, nm)->0;
        let an = l.skip(ns + 6);
        let ne = find(an, q)->0;
        let n = an.take(ne);
        let vs = find(l, vl)->0;
        let av = l.skip(vs + 7);
        let ve = find(av, q)->0;
        let nv = lookup(vals, n)->0;
        lemma_find_some_first(l, nm);
        lemma_find_some_first(an, q);
        lemma_find_some_first(l, vl);
        lemma_find_some_first(av, q);
        lemma_lookup_in(vals, n);
        let jv = choose|j: int| 0 <= j < vals.len() && #[trigger] vals[j] == (n, nv);
        assert(!nv.contains('"') && !nv.contains('\n'));
        let tail = av.skip(ve + 1);
        assert(x == l.take(vs) + vl + nv + q + tail);
        assert(ns + 6 + ne < vs);
        assert forall|k: int| 0 <= k < vs + 7 implies l[k] == x[k] by {
            if k >= vs {
                assert(l.subrange(vs, vs + 7)[k - vs] == l[k]);
            }
        }
        lemma_first_found_kept(l, x, nm, ns, vs);
        let xn = x.skip(ns + 6);
        assert forall|k: int| 0 <= k < vs - ns - 6 implies an[k] == xn[k] by {
            assert(an[k] == l[ns + 6 + k]);
            assert(xn[k] == x[ns + 6 + k]);
        }
        lemma_first_found_kept(an, xn, q, ne, vs - ns - 6);
        assert(xn.take(ne) =~= n);
        lemma_first_found_kept(l, x, vl, vs, vs + 7);
        let xv = x.skip(vs + 7);
        assert(xv =~= nv + q + tail);
        assert(occurs_at(xv, nv.len() as int, q)) by {
            assert(xv.subrange(nv.len() as int, nv.len() + 1int) =~= q);
        }
        assert forall|j: int| 0 <= j < nv.len() implies !occurs_at(xv, j, q) by {
            if occurs_at(xv, j, q) {
                assert(xv.subrange(j, j + 1)[0] == xv[j]);
                assert(xv[j] == nv[j]);
                assert(nv.contains(nv[j]));
            }
        }
        lemma_find_is(xv, q, nv.len() as int);
        assert(xv.take(nv.len() as int) =~= nv);
        assert(xml_pair(x) == Some((n, nv)));
        assert forall|k: int| 0 <= k < x.len() implies x[k] != '\n' by {
            if k < vs {
                assert(x[k] == l[k]);
                if l[k] == '\n' {
                    assert(l.contains(l[k]));
                }
            } else if k < vs + 7 {
                assert(x[k] == vl[k - vs]);
            } else if k < vs + 7 + nv.len() {
                assert(x[k] == nv[k - vs - 7]);
                if nv[k - vs - 7] == '\n' {
                    assert(nv.contains(nv[k - vs - 7]));
                }
            } else if k == vs + 7 + nv.len() {
                assert(x[k] == '"');
            } else {
                let m = k - vs - 8 - nv.len();
                assert(x[k] == tail[m]);
                assert(tail[m] == l[vs + 7 + ve + 1 + m]);
                if l[vs + 7 + ve + 1 + m] == '\n' {
                    assert(l.contains(l[vs + 7 + ve + 1 + m]));
                }
            }
        }
    }
}

/// A key the added element can carry: no quote, no `=` and no line end.
pub open spec fn plain_key(k: Seq<char>) -> bool {
    !k.contains('"') && !k.contains('=') && !k.contains('\n')
}

/// The element added for a saved field is one line and reads back as that field's pair.
proof fn lemma_xml_element_reads(k: Seq<char>, v: Seq<char>)
    requires
        plain_key(k),
        !v.contains('"'),
        !v.contains('\n'),
    ensures
        !xml_element(k, v).contains('\n'),
        xml_pair(xml_element(k, v)) == Some((k, v)),
{
    reveal_strlit("  <property name=\"");
    reveal_strlit("\" value=\"");
    reveal_strlit("\"/>");
    reveal_strlit("name=\"");
    reveal_strlit("value=\"");
    reveal_strlit("\"");
    let a = "  <property name=\""@;
    let b = "\" value=\""@;
    let c = "\"/>"@;
    let nm = "name=\""@;
    let vl = "value=\""@;
    let q = "\""@;
    let x = xml_element(k, v);
    assert(x =~= a + k + b + v + c);
    let n = k.len() as int;
    let m = v.len() as int;
    // name="
    assert(x.subrange(12, 18) =~= nm);
    assert forall|j: int| 0 <= j < 12 implies !occurs_at(x, j, nm) by {
        if occurs_at(x, j, nm) {
            assert(x.subrange(j, j + 6)[4] == x[j + 4]);
            assert(x[j + 4] == a[j + 4]);
        }
    }
    assert(is_first_occurrence(x, nm, 12));
    lemma_find_is(x, nm, 12);
    let an = x.skip(18);
    assert(an =~= k + b + v + c);
    assert(an.subrange(n, n + 1) =~= q);
    assert forall|j: int| 0 <= j < n implies !occurs_at(an, j, q) by {
        if occurs_at(an, j, q) {
            assert(an.subrange(j, j + 1)[0] == an[j]);
            assert(an[j] == k[j]);
            assert(k.contains(k[j]));
        }
    }
    assert(is_first_occurrence(an, q, n));
    lemma_find_is(an, q, n);
    assert(an.take(n) =~= k);
    // value="
    let vs = 18 + n + 2;
    assert(x.subrange(vs, vs + 7) =~= vl);
    assert forall|j: int| 0 <= j < vs implies !occurs_at(x, j, vl) by {
        if occurs_at(x, j, vl) {
            assert(x.subrange(j, j + 7)[5] == x[j + 5]);
            assert(x[j + 5] == '=');
            assert(x.subrange(j, j + 7)[0] == x[j]);
            if j + 5 < 18 {
                assert(x[j + 5] == a[j + 5]);
                assert(x[j] == a[j]);
            } else if j + 5 < 18 + n {
                assert(x[j + 5] == k[j + 5 - 18]);
                assert(k.contains(k[j + 5 - 18]));
            } else {
                assert(x[j + 5] == b[j + 5 - 18 - n]);
            }
        }
    }
    assert(is_first_occurrence(x, vl, vs));
    lemma_find_is(x, vl, vs);
    let av = x.skip(vs + 7);
    assert(av =~= v + c);
    assert(av.subrange(m, m + 1) =~= q);
    assert forall|j: int| 0 <= j < m implies !occurs_at(av, j, q) by {
        if occurs_at(av, j, q) {
            assert(av.subrange(j, j + 1)[0] == av[j]);
            assert(av[j] == v[j]);
            assert(v.contains(v[j]));
        }
    }
    assert(is_first_occurrence(av, q, m));
    lemma_find_is(av, q, m);
    assert(av.take(m) =~= v);
    assert forall|j: int| 0 <= j < x.len() implies x[j] != '\n' by {
        if j < 18 {
            assert(x[j] == a[j]);
        } else if j < 18 + n {
            assert(x[j] == k[j - 18]);
            if k[j - 18] == '\n' {
                assert(k.contains(k[j - 18]));
            }
        } else if j < 18 + n + 9 {
            assert(x[j] == b[j - 18 - n]);
        } else if j < 18 + n + 9 + m {
            assert(x[j] == v[j - 27 - n]);
            if v[j - 27 - n] == '\n' {
                assert(v.contains(v[j - 27 - n]));
            }
        } else {
            assert(x[j] == c[j - 27 - n - m]);
        }
    }
}

/// Every schema field that has a saved value has a key the added element can carry.
pub open spec fn plain_saved_keys(fields: Seq<ConfigField>, vals: Seq<Pair>) -> bool {
    forall|j: int|
        0 <= j < fields.len() && lookup(vals, (#[trigger] fields[j]).key@) is Some ==> plain_key(
            fields[j].key@,
        )
}

/// What an added element reads as: the key and saved value of a schema field that no line
/// of the file held.
pub open spec fn added_read(p: Pair, fields: Seq<ConfigField>, vals: Seq<Pair>, seen: Seq<Seq<char>>) -> bool {
    !seen.contains(p.0) && has_field(fields, p.0) && lookup(vals, p.0) == Some(p.1)
}

proof fn lemma_xml_appended_reads(fields: Seq<ConfigField>, vals: Seq<Pair>, seen: Seq<Seq<char>>)
    requires
        quote_free_values(fields, vals),
        plain_saved_keys(fields, vals),
    ensures
        forall|m: int|
            0 <= m < xml_appended(fields, vals, seen).len() ==> !(#[trigger] xml_appended(
                fields,
                vals,
                seen,
            )[m]).contains('\n') && xml_pair(xml_appended(fields, vals, seen)[m]) is Some && added_read(
                xml_pair(xml_appended(fields, vals, seen)[m])->0,
                fields,
                vals,
                seen,
            ),
{
    let h = |f: ConfigField|
        if seen.contains(f.key@) {
            None
        } else {
            match lookup(vals, f.key@) {
                Some(v) => Some(xml_element(f.key@, v)),
                None => None,
            }
        };
    let a = xml_appended(fields, vals, seen);
    assert(a == fields.filter_map(h));
    assert forall|m: int| 0 <= m < a.len() implies !(#[trigger] a[m]).contains('\n') && xml_pair(a[m])
        is Some && added_read(xml_pair(a[m])->0, fields, vals, seen) by {
        assert(a.contains(a[m]));
        fields.lemma_filter_map_contains(h, a[m]);
        let fd = choose|fd: ConfigField| #[trigger] fields.contains(fd) && h(fd) == Some(a[m]);
        let j = choose|j: int| 0 <= j < fields.len() && fields[j] == fd;
        let k = fd.key@;
        let v = lookup(vals, k)->0;
        lemma_lookup_in(vals, k);
        let jj = choose|jj: int| 0 <= jj < vals.len() && #[trigger] vals[jj] == (k, v);
        assert(!vals[jj].1.contains('"') && !vals[jj].1.contains('\n'));
        assert(plain_key(fields[j].key@));
        lemma_xml_element_reads(k, v);
        assert(has_field(fields, k));
    }
}

/// The rendered lines before the added elements.
pub open spec fn xml_front(ls: Seq<Seq<char>>, r: Seq<Seq<char>>) -> Seq<Seq<char>> {
    if ends_with_close(ls) {
        r.drop_last()
    } else {
        r
    }
}

/// The rendered line after the added elements (the closing one), if any.
pub open spec fn xml_back(ls: Seq<Seq<char>>, r: Seq<Seq<char>>) -> Seq<Seq<char>> {
    if ends_with_close(ls) {
        seq![r.last()]
    } else {
        seq![]
    }
}

/// What a saved XML properties file reads as: the reads of its rendered lines, split around
/// those of the added elements.
#[verifier::spinoff_prover]
#[verifier::rlimit(40)]
proof fn lemma_xml_rendered_split(
    raw: Seq<char>,
    fields: Seq<ConfigField>,
    vals: Seq<Pair>,
    ls: Seq<Seq<char>>,
    r: Seq<Seq<char>>,
    a: Seq<Seq<char>>,
)
    requires
        saved_lines_shaped(raw, fields, vals),
        quote_free_values(fields, vals),
        plain_saved_keys(fields, vals),
        ls == lines(raw),
        r == ls.map_values(|l: Seq<char>| xml_rendered_line(l, fields, vals)),
        a == xml_appended(fields, vals, xml_names(ls)),
    ensures
        xml_front(ls, r) + xml_back(ls, r) == r,
        line_pairs(LineFormat::XmlProperty, xml_rendered(raw, fields, vals)) == xml_front(ls, r).filter_map(
            line_pair_fn(LineFormat::XmlProperty),
        ) + a.filter_map(line_pair_fn(LineFormat::XmlProperty)) + xml_back(ls, r).filter_map(
            line_pair_fn(LineFormat::XmlProperty),
        ),
        forall|j: int|
            0 <= j < r.len() ==> !(#[trigger] r[j]).contains('\n') && xml_reads_saved(ls[j], r[j], fields, vals),
{
    reveal_strlit("name=\"");
    let f = line_pair_fn(LineFormat::XmlProperty);
    let front = xml_front(ls, r);
    let back = xml_back(ls, r);
    lemma_lines_no_newline(raw);
    assert forall|j: int| 0 <= j < r.len() implies !(#[trigger] r[j]).contains('\n') && xml_reads_saved(
        ls[j],
        r[j],
        fields,
        vals,
    ) by {
        assert(names_saved(ls[j], fields, vals) ==> name_before_value(ls[j]));
        lemma_xml_rendered_line(ls[j], fields, vals);
    }
    if ends_with_close(ls) {
        assert(front + back =~= r);
    } else {
        assert(front + back =~= r);
    }
    let rl = xml_rendered_lines(ls, fields, vals);
    assert(rl =~= front + a + back);
    lemma_xml_appended_reads(fields, vals, xml_names(ls));
    assert forall|j: int| 0 <= j < rl.len() implies !(#[trigger] rl[j]).contains('\n') by {
        if j < front.len() {
            assert(rl[j] == r[j]);
        } else if j < front.len() + a.len() {
            assert(rl[j] == a[j - front.len()]);
        } else {
            assert(rl[j] == r[r.len() - 1]);
        }
    }
    assert forall|x: Seq<char>| #[trigger] f(strip_cr(x)) == f(x) by {
        lemma_xml_pair_strip_cr(x);
    }
    lemma_find_none(Seq::<char>::empty(), "name=\""@);
    assert(f(Seq::<char>::empty()) is None);
    lemma_lines_join_read(rl, f);
    lemma_filter_map_append(front + a, back, f);
    lemma_filter_map_append(front, a, f);
}

/// Saving values into an XML properties config and reading it back gives the saved values:
/// for every schema field that a value was saved for, parsing the file written shows that
/// value, whether the file held the property (its value is replaced) or not (an element is
/// added). This holds when each line holding a property a value is saved for names it before
/// giving its value, the saved values hold no quote and no line end (a quote would end the
/// value read), and the keys of the saved fields hold no quote, no `=` and no line end (an
/// added element with such a key would be read under another name).
#[verifier::spinoff_prover]
#[verifier::rlimit(40)]
pub proof fn lemma_saved_xml_read_back(raw: Seq<char>, fields: Seq<ConfigField>, vals: Seq<Pair>, i: int)
    requires
        0 <= i < fields.len(),
        lookup(vals, fields[i].key@) is Some,
        quote_free_values(fields, vals),
        plain_saved_keys(fields, vals),
        saved_lines_shaped(raw, fields, vals),
    ensures
        rendered_config("xml-properties"@, raw, fields, vals) matches crate::config::RenderedConfigView::Text(t)
            && crate::config::parsed_config(fields, crate::config::found_pairs("xml-properties"@, t))[i] == (
            fields[i].key@,
            lookup(vals, fields[i].key@)->0,
        ),
{
    reveal_strlit("json");
    reveal_strlit("xml-properties");
    let k = fields[i].key@;
    let v = lookup(vals, k)->0;
    let ls = lines(raw);
    let r = ls.map_values(|l: Seq<char>| xml_rendered_line(l, fields, vals));
    let a = xml_appended(fields, vals, xml_names(ls));
    let t = xml_rendered(raw, fields, vals);
    let f = line_pair_fn(LineFormat::XmlProperty);
    lemma_xml_rendered_split(raw, fields, vals, ls, r, a);
    lemma_xml_appended_reads(fields, vals, xml_names(ls));
    let front = xml_front(ls, r);
    let back = xml_back(ls, r);
    let pf = front.filter_map(f);
    let pa = a.filter_map(f);
    let pb = back.filter_map(f);
    let pp = pf + pa + pb;
    assert(line_pairs(LineFormat::XmlProperty, t) == pp);
    assert(has_field(fields, k)) by {
        assert(fields[i].key@ == k);
    }
    // Every pair read under `k` holds `v`.
    assert forall|m: int| 0 <= m < pp.len() && (#[trigger] pp[m]).0 == k implies pp[m].1 == v by {
        if m < pf.len() || m >= pf.len() + pa.len() {
            let (part, idx) = if m < pf.len() {
                (front, m)
            } else {
                (back, m - pf.len() - pa.len())
            };
            assert(part.filter_map(f)[idx] == pp[m]);
            assert(part.filter_map(f).contains(pp[m]));
            part.lemma_filter_map_contains(f, pp[m]);
            let x = choose|x: Seq<char>| #[trigger] part.contains(x) && f(x) == Some(pp[m]);
            let jp = choose|jp: int| 0 <= jp < part.len() && part[jp] == x;
            let jx = if m < pf.len() {
                jp
            } else {
                r.len() - 1
            };
            assert(r[jx] == x);
            assert(xml_reads_saved(ls[jx], r[jx], fields, vals));
        } else {
            assert(pa[m - pf.len()] == pp[m]);
            assert(pa.contains(pp[m]));
            a.lemma_filter_map_contains(f, pp[m]);
            let x = choose|x: Seq<char>| #[trigger] a.contains(x) && f(x) == Some(pp[m]);
            let ja = choose|ja: int| 0 <= ja < a.len() && a[ja] == x;
            assert(added_read(xml_pair(a[ja])->0, fields, vals, xml_names(ls)));
        }
    }
    // Some pair is read under `k`.
    let g = |l: Seq<char>| xml_name(l);
    if exists|j: int| 0 <= j < ls.len() && names_key(xml_pair(#[trigger] ls[j]), k) {
        let jl = choose|j: int| 0 <= j < ls.len() && names_key(xml_pair(#[trigger] ls[j]), k);
        assert(xml_reads_saved(ls[jl], r[jl], fields, vals));
        assert(f(r[jl]) == Some((k, v)));
        if jl < front.len() {
            assert(front[jl] == r[jl]);
            assert(front.contains(r[jl]));
            lemma_filter_map_has(front, f, r[jl]);
            let q = choose|q: int| 0 <= q < pf.len() && pf[q] == (k, v);
            assert(pp[q] == (k, v));
            assert(pp[q].0 == k);
        } else {
            assert(back[0] == r[jl]);
            assert(back.contains(r[jl]));
            lemma_filter_map_has(back, f, r[jl]);
            let q = choose|q: int| 0 <= q < pb.len() && pb[q] == (k, v);
            assert(pp[pf.len() + pa.len() + q] == (k, v));
            assert(pp[pf.len() + pa.len() + q].0 == k);
        }
    } else {
        assert(!xml_names(ls).contains(k)) by {
            if xml_names(ls).contains(k) {
                assert(xml_names(ls) == ls.filter_map(g));
                ls.lemma_filter_map_contains(g, k);
                let x = choose|x: Seq<char>| #[trigger] ls.contains(x) && g(x) == Some(k);
                let jx = choose|jx: int| 0 <= jx < ls.len() && ls[jx] == x;
                assert(names_key(xml_pair(ls[jx]), k));
            }
        }
        let h = |fd: ConfigField|
            if xml_names(ls).contains(fd.key@) {
                None
            } else {
                match lookup(vals, fd.key@) {
                    Some(w) => Some(xml_element(fd.key@, w)),
                    None => None,
                }
            };
        assert(a == fields.filter_map(h));
        assert(fields.contains(fields[i]));
        lemma_filter_map_has(fields, h, fields[i]);
        let e = xml_element(k, v);
        assert(a.contains(e));
        let je = choose|je: int| 0 <= je < a.len() && a[je] == e;
        assert(added_read(xml_pair(a[je])->0, fields, vals, xml_names(ls)));
        assert(f(e) is Some);
        lemma_filter_map_has(a, f, e);
        lemma_lookup_in(vals, k);
        let jj = choose|jj: int| 0 <= jj < vals.len() && #[trigger] vals[jj] == (k, v);
        assert(!vals[jj].1.contains('"') && !vals[jj].1.contains('\n'));
        assert(plain_key(fields[i].key@));
        lemma_xml_element_reads(k, v);
        let q = choose|q: int| 0 <= q < pa.len() && pa[q] == f(e)->0;
        assert(pp[pf.len() + q] == pa[q]);
        assert(pp[pf.len() + q].0 == k);
    }
    lemma_lookup_all(pp, k, v);
    assert(rendered_config("xml-properties"@, raw, fields, vals) == crate::config::RenderedConfigView::Text(t));
    assert("xml-properties"@ != "json"@) by {
        assert("xml-properties"@.len() != "json"@.len());
    }
    assert(crate::config::found_pairs("xml-properties"@, t) == pp);
    assert(crate::config::parsed_config(fields, pp)[i] == (k, shown_value(pp, k, fields[i].default@)));
}

/// A line holds a property that a value is saved for.
pub open spec fn names_saved(l: Seq<char>, fields: Seq<ConfigField>, vals: Seq<Pair>) -> bool {
    match xml_pair(l) {
        Some(p) => saved_key(fields, vals, p.0),
        None => false,
    }
}

/// Every line of the file that holds a property a value is saved for names it before giving
/// its value. (A line `value="a" name="k"` saved with the value `xname=` would read its name
/// from inside the new value.)
pub open spec fn saved_lines_shaped(raw: Seq<char>, fields: Seq<ConfigField>, vals: Seq<Pair>) -> bool {
    forall|j: int|
        0 <= j < lines(raw).len() ==> (names_saved(#[trigger] lines(raw)[j], fields, vals) ==> name_before_value(
            lines(raw)[j],
        ))
}

/// A property read with the name `k`.
pub open spec fn names_key(o: Option<Pair>, k: Seq<char>) -> bool {
    match o {
        Some(p) => p.0 == k,
        None => false,
    }
}

/// The values stored under `k` in `ps`, in order.
pub open spec fn keyed(ps: Seq<Pair>, k: Seq<char>) -> Seq<Seq<char>>
    decreases ps.len(),
{
    if ps.len() == 0 {
        seq![]
    } else {
        let r = keyed(ps.drop_last(), k);
        if ps.last().0 == k {
            r.push(ps.last().1)
        } else {
            r
        }
    }
}

/// The value a read pair gives for `k`.
pub open spec fn value_for(o: Option<Pair>, k: Seq<char>) -> Option<Seq<char>> {
    match o {
        Some(p) => if p.0 == k {
            Some(p.1)
        } else {
            None
        },
        None => None,
    }
}

/// Looking `k` up gives the last value stored under it.
pub proof fn lemma_lookup_keyed(ps: Seq<Pair>, k: Seq<char>)
    ensures
        lookup(ps, k) == (if keyed(ps, k).len() > 0 {
            Some(keyed(ps, k).last())
        } else {
            None
        }),
    decreases ps.len(),
{
    if ps.len() > 0 {
        lemma_lookup_keyed(ps.drop_last(), k);
    }
}

pub proof fn lemma_keyed_append(a: Seq<Pair>, b: Seq<Pair>, k: Seq<char>)
    ensures
        keyed(a + b, k) == keyed(a, k) + keyed(b, k),
    decreases b.len(),
{
    if b.len() == 0 {
        assert(a + b =~= a);
        assert(keyed(a, k) + keyed(b, k) =~= keyed(a, k));
    } else {
        lemma_keyed_append(a, b.drop_last(), k);
        assert((a + b).drop_last() =~= a + b.drop_last());
        assert((a + b).last() == b.last());
        if b.last().0 == k {
            assert((keyed(a, k) + keyed(b.drop_last(), k)).push(b.last().1) =~= keyed(a, k) + keyed(
                b.drop_last(),
                k,
            ).push(b.last().1));
        }
    }
}

/// The pairs read from a list of lines followed by one more line.
pub open spec fn with_read(r: Seq<Pair>, o: Option<Pair>) -> Seq<Pair> {
    match o {
        Some(p) => r + seq![p],
        None => r,
    }
}

pub open spec fn value_seq(o: Option<Seq<char>>) -> Seq<Seq<char>> {
    match o {
        Some(v) => seq![v],
        None => seq![],
    }
}

proof fn lemma_keyed_with_read(r: Seq<Pair>, o: Option<Pair>, k: Seq<char>)
    ensures
        keyed(with_read(r, o), k) == keyed(r, k) + value_seq(value_for(o, k)),
{
    match o {
        Some(p) => {
            lemma_keyed_append(r, seq![p], k);
            assert(seq![p].drop_last() =~= Seq::<Pair>::empty());
            assert(keyed(Seq::<Pair>::empty(), k) =~= Seq::<Seq<char>>::empty());
            assert(seq![p].last() == p);
            if p.0 == k {
                assert(keyed(seq![p], k) =~= seq![p.1]);
            } else {
                assert(keyed(seq![p], k) =~= Seq::<Seq<char>>::empty());
            }
        },
        None => {
            assert(keyed(r, k) + Seq::<Seq<char>>::empty() =~= keyed(r, k));
        },
    }
}

/// Line lists that read the same for `k`, line by line, hold the same values for `k`.
pub proof fn lemma_keyed_lines(l1: Seq<Seq<char>>, l2: Seq<Seq<char>>, f: spec_fn(Seq<char>) -> Option<Pair>, k: Seq<char>)
    requires
        l1.len() == l2.len(),
        forall|j: int| 0 <= j < l1.len() ==> value_for(f(#[trigger] l1[j]), k) == value_for(f(l2[j]), k),
    ensures
        keyed(l1.filter_map(f), k) == keyed(l2.filter_map(f), k),
    decreases l1.len(),
{
    if l1.len() > 0 {
        let d1 = l1.drop_last();
        let d2 = l2.drop_last();
        assert forall|j: int| 0 <= j < d1.len() implies value_for(f(#[trigger] d1[j]), k) == value_for(
            f(d2[j]),
            k,
        ) by {
            assert(d1[j] == l1[j]);
            assert(d2[j] == l2[j]);
        }
        lemma_keyed_lines(d1, d2, f, k);
        assert(value_for(f(l1[l1.len() - 1]), k) == value_for(f(l2[l2.len() - 1]), k));
        assert(l1.filter_map(f) == with_read(d1.filter_map(f), f(l1.last())));
        assert(l2.filter_map(f) == with_read(d2.filter_map(f), f(l2.last())));
        lemma_keyed_with_read(d1.filter_map(f), f(l1.last()), k);
        lemma_keyed_with_read(d2.filter_map(f), f(l2.last()), k);
    }
}

/// Lines that never read with key `k` hold no value for it.
pub proof fn lemma_keyed_lines_none(l: Seq<Seq<char>>, f: spec_fn(Seq<char>) -> Option<Pair>, k: Seq<char>)
    requires
        forall|j: int| 0 <= j < l.len() ==> value_for(f(#[trigger] l[j]), k) is None,
    ensures
        keyed(l.filter_map(f), k) == Seq::<Seq<char>>::empty(),
    decreases l.len(),
{
    if l.len() > 0 {
        let d = l.drop_last();
        assert forall|j: int| 0 <= j < d.len() implies value_for(f(#[trigger] d[j]), k) is None by {
            assert(d[j] == l[j]);
        }
        lemma_keyed_lines_none(d, f, k);
        assert(value_for(f(l[l.len() - 1]), k) is None);
        assert(l.filter_map(f) == with_read(d.filter_map(f), f(l.last())));
        lemma_keyed_with_read(d.filter_map(f), f(l.last()), k);
        assert(Seq::<Seq<char>>::empty() + Seq::<Seq<char>>::empty() =~= Seq::<Seq<char>>::empty());
    }
}

/// `k` is a schema field that a value is saved for.
pub open spec fn saved_key(fields: Seq<ConfigField>, vals: Seq<Pair>, k: Seq<char>) -> bool {
    has_field(fields, k) && lookup(vals, k) is Some
}

/// A line of a `key=value` file after saving: still one line, and it reads the same as
/// before for any key no value is saved for.
#[verifier::spinoff_prover]
#[verifier::rlimit(40)]
proof fn lemma_prop_line_keeps(l: Seq<char>, fields: Seq<ConfigField>, vals: Seq<Pair>, k2: Seq<char>)
    requires
        !l.contains('\n'),
        one_line_values(fields, vals),
        !saved_key(fields, vals, k2),
    ensures
        !prop_rendered_line(l, fields, vals).0.contains('\n'),
        value_for(prop_pair(prop_rendered_line(l, fields, vals).0), k2) == value_for(prop_pair(l), k2),
{
    reveal_strlit("=");
    let t = trim(l);
    lemma_trim_shape(l);
    if t.len() == 0 || t[0] == '#' {
    } else {
        match split_once(t, "="@) {
            Some((kk, rest)) => {
                let key = trim(kk);
                let idx = find(t, "="@)->0;
                assert(kk == t.take(idx));
                assert(is_first_occurrence(t, "="@, idx)) by {
                    let m = choose|m: int| is_first_occurrence(t, "="@, m);
                    crate::text::lemma_first_occurrence_unique(t, "="@, idx, m);
                }
                lemma_trim_shape(kk);
                let (a, b) = choose|a: int, b: int| 0 <= a <= b <= kk.len() && key == kk.subrange(a, b);
                assert forall|m: int| 0 <= m < key.len() implies key[m] != '=' && key[m] != '\n' by {
                    assert(key[m] == kk[a + m]);
                    assert(kk[a + m] == t[a + m]);
                    if t[a + m] == '=' {
                        assert(t.subrange(a + m, a + m + 1) =~= "="@);
                        assert(occurs_at(t, a + m, "="@));
                    }
                    let (ta, tb) = choose|ta: int, tb: int| 0 <= ta <= tb <= l.len() && t == l.subrange(ta, tb);
                    assert(t[a + m] == l[ta + a + m]);
                    if l[ta + a + m] == '\n' {
                        assert(l.contains(l[ta + a + m]));
                    }
                }
                assert(!key.contains('=') && !key.contains('\n'));
                if key.len() > 0 {
                    assert(kk.len() > 0);
                    assert(kk[0] == t[0]);
                    assert(!is_ws(t[0]));
                    assert(key[0] == kk[0]);
                }
                assert(prop_pair(l) == Some((key, trim(rest))));
                if has_field(fields, key) {
                    match lookup(vals, key) {
                        Some(vk) => {
                            assert(key != k2);
                            lemma_lookup_in(vals, key);
                            let j = choose|j: int| 0 <= j < vals.len() && #[trigger] vals[j] == (key, vk);
                            assert(!vals[j].1.contains('\n'));
                            let x = key + "="@ + vk;
                            assert forall|m: int| 0 <= m < x.len() implies x[m] != '\n' by {
                                if m < key.len() {
                                    assert(x[m] == key[m]);
                                } else if m > key.len() {
                                    assert(x[m] == vk[m - key.len() - 1]);
                                }
                            }
                            lemma_pair_key(key, vk);
                        },
                        None => {},
                    }
                }
            },
            None => {},
        }
    }
}

/// The lines appended when saving never read with a key no value is saved for.
proof fn lemma_appended_other(fields: Seq<ConfigField>, vals: Seq<Pair>, seen: Seq<Seq<char>>, k2: Seq<char>)
    requires
        plain_keys(fields),
        one_line_values(fields, vals),
        !saved_key(fields, vals, k2),
    ensures
        forall|j: int|
            0 <= j < appended_lines(fields, vals, seen).len() ==> !(#[trigger] appended_lines(
                fields,
                vals,
                seen,
            )[j]).contains('\n') && value_for(prop_pair(appended_lines(fields, vals, seen)[j]), k2) is None,
{
    reveal_strlit("=");
    let a = appended_lines(fields, vals, seen);
    let g = |f: ConfigField|
        if seen.contains(f.key@) {
            None
        } else {
            match lookup(vals, f.key@) {
                Some(v) => Some(f.key@ + "="@ + v),
                None => None,
            }
        };
    assert(a == fields.filter_map(g));
    assert forall|j: int| 0 <= j < a.len() implies !(#[trigger] a[j]).contains('\n') && value_for(
        prop_pair(a[j]),
        k2,
    ) is None by {
        let x = a[j];
        assert(a.contains(x));
        fields.lemma_filter_map_contains(g, x);
        let f = choose|f: ConfigField| #[trigger] fields.contains(f) && g(f) == Some(x);
        let fi = choose|fi: int| 0 <= fi < fields.len() && fields[fi] == f;
        assert(is_plain_key(fields[fi].key@));
        let vf = lookup(vals, f.key@)->0;
        assert(x == f.key@ + "="@ + vf);
        assert(has_field(fields, f.key@));
        assert(f.key@ != k2);
        lemma_lookup_in(vals, f.key@);
        let jv = choose|jv: int| 0 <= jv < vals.len() && #[trigger] vals[jv] == (f.key@, vf);
        assert(!vals[jv].1.contains('\n'));
        assert forall|m: int| 0 <= m < x.len() implies x[m] != '\n' by {
            if m < f.key@.len() {
                assert(x[m] == f.key@[m]);
                assert(f.key@.contains(f.key@[m]));
            } else if m > f.key@.len() {
                assert(x[m] == vf[m - f.key@.len() - 1]);
                assert(vf.contains(vf[m - f.key@.len() - 1]));
            }
        }
        lemma_pair_key(f.key@, vf);
    }
}

/// Saving a `key=value` config leaves every other key as it was: for a key no value is
/// saved for, the value read after saving is the value read before (or none, as before).
/// This holds when the schema's keys are plain and the saved values are single lines.
#[verifier::spinoff_prover]
#[verifier::rlimit(40)]
pub proof fn lemma_saved_properties_keep_others(
    format: Seq<char>,
    raw: Seq<char>,
    fields: Seq<ConfigField>,
    vals: Seq<Pair>,
    k: Seq<char>,
)
    requires
        format != "xml-properties"@,
        format != "palworld-ini"@,
        format != "json"@,
        plain_keys(fields),
        one_line_values(fields, vals),
        !saved_key(fields, vals, k),
    ensures
        rendered_config(format, raw, fields, vals) matches crate::config::RenderedConfigView::Text(t)
            && lookup(crate::config::found_pairs(format, t), k) == lookup(
            crate::config::found_pairs(format, raw),
            k,
        ),
{
    let f = line_pair_fn(LineFormat::Properties);
    let ls = lines(raw);
    let r1 = rewritten_lines(raw, fields, vals);
    let a = appended_lines(fields, vals, replaced_keys(ls, fields, vals));
    let sl = saved_lines(raw, fields, vals);
    assert(sl == r1 + a);
    let t = props_rendered(raw, fields, vals);
    lemma_saved_lines_join(raw, fields, vals);
    lemma_lines_no_newline(raw);
    assert forall|j: int| 0 <= j < r1.len() implies !(#[trigger] r1[j]).contains('\n') && value_for(
        f(r1[j]),
        k,
    ) == value_for(f(ls[j]), k) by {
        lemma_prop_line_keeps(ls[j], fields, vals, k);
    }
    lemma_appended_other(fields, vals, replaced_keys(ls, fields, vals), k);
    assert forall|j: int| 0 <= j < sl.len() implies !(#[trigger] sl[j]).contains('\n') by {
        if j < r1.len() {
            assert(sl[j] == r1[j]);
        } else {
            assert(sl[j] == a[j - r1.len()]);
        }
    }
    lemma_lines_join_pairs(sl);
    lemma_filter_map_append(r1, a, f);
    assert forall|j: int| 0 <= j < a.len() implies value_for(f(#[trigger] a[j]), k) is None by {}
    lemma_keyed_lines(r1, ls, f, k);
    lemma_keyed_lines_none(a, f, k);
    lemma_keyed_append(r1.filter_map(f), a.filter_map(f), k);
    let after = lines(t).filter_map(f);
    assert(after == r1.filter_map(f) + a.filter_map(f));
    assert(keyed(after, k) =~= keyed(ls.filter_map(f), k));
    lemma_lookup_keyed(after, k);
    lemma_lookup_keyed(ls.filter_map(f), k);
    assert(crate::config::found_pairs(format, t) == line_pairs(LineFormat::Properties, t));
    assert(crate::config::found_pairs(format, raw) == line_pairs(LineFormat::Properties, raw));
}

/// Saving an XML properties config leaves every other property as it was: for a name no
/// value is saved for, the value read after saving is the value read before (or none, as
/// before). This holds when each line holding a property a value is saved for names it before
/// giving its value, the saved values hold no quote and no line end, and the keys of the saved
/// fields hold no quote, no `=` and no line end.
#[verifier::spinoff_prover]
#[verifier::rlimit(40)]
pub proof fn lemma_saved_xml_keep_others(raw: Seq<char>, fields: Seq<ConfigField>, vals: Seq<Pair>, k: Seq<char>)
    requires
        quote_free_values(fields, vals),
        plain_saved_keys(fields, vals),
        saved_lines_shaped(raw, fields, vals),
        !saved_key(fields, vals, k),
    ensures
        rendered_config("xml-properties"@, raw, fields, vals) matches crate::config::RenderedConfigView::Text(t)
            && lookup(crate::config::found_pairs("xml-properties"@, t), k) == lookup(
            crate::config::found_pairs("xml-properties"@, raw),
            k,
        ),
{
    reveal_strlit("json");
    reveal_strlit("xml-properties");
    let ls = lines(raw);
    let r = ls.map_values(|l: Seq<char>| xml_rendered_line(l, fields, vals));
    let a = xml_appended(fields, vals, xml_names(ls));
    let t = xml_rendered(raw, fields, vals);
    let f = line_pair_fn(LineFormat::XmlProperty);
    lemma_xml_rendered_split(raw, fields, vals, ls, r, a);
    lemma_xml_appended_reads(fields, vals, xml_names(ls));
    let front = xml_front(ls, r);
    let back = xml_back(ls, r);
    assert forall|j: int| 0 <= j < r.len() implies value_for(f(#[trigger] r[j]), k) == value_for(
        f(ls[j]),
        k,
    ) by {
        assert(xml_reads_saved(ls[j], r[j], fields, vals));
    }
    lemma_keyed_lines(r, ls, f, k);
    assert forall|j: int| 0 <= j < a.len() implies value_for(f(#[trigger] a[j]), k) is None by {
        assert(added_read(xml_pair(a[j])->0, fields, vals, xml_names(ls)));
    }
    lemma_keyed_lines_none(a, f, k);
    lemma_filter_map_append(front, back, f);
    lemma_keyed_append(front.filter_map(f), back.filter_map(f), k);
    lemma_keyed_append(front.filter_map(f), a.filter_map(f), k);
    lemma_keyed_append(front.filter_map(f) + a.filter_map(f), back.filter_map(f), k);
    let after = front.filter_map(f) + a.filter_map(f) + back.filter_map(f);
    assert(keyed(after, k) =~= keyed(ls.filter_map(f), k));
    lemma_lookup_keyed(after, k);
    lemma_lookup_keyed(ls.filter_map(f), k);
    assert("xml-properties"@ != "json"@) by {
        assert("xml-properties"@.len() != "json"@.len());
    }
    assert(rendered_config("xml-properties"@, raw, fields, vals) == crate::config::RenderedConfigView::Text(t));
    assert(crate::config::found_pairs("xml-properties"@, t) == after);
    assert(crate::config::found_pairs("xml-properties"@, raw) == ls.filter_map(f));
}

proof fn lemma_filter_map_none<A, B>(s: Seq<A>, f: spec_fn(A) -> Option<B>)
    requires
        forall|j: int| 0 <= j < s.len() ==> f(#[trigger] s[j]) is None,
    ensures
        s.filter_map(f) == Seq::<B>::empty(),
    decreases s.len(),
{
    if s.len() > 0 {
        assert forall|j: int| 0 <= j < s.drop_last().len() implies f(#[trigger] s.drop_last()[j]) is None by {
            assert(s.drop_last()[j] == s[j]);
        }
        lemma_filter_map_none(s.drop_last(), f);
        assert(f(s[s.len() - 1]) is None);
    }
}

/// Saving nothing changes nothing: with no value saved for any schema field, a `key=value`
/// or XML properties file is written back as its lines, each unchanged, joined by `\n`
/// (nothing is rewritten and nothing is added).
pub proof fn lemma_nothing_saved_keeps_lines(format: Seq<char>, raw: Seq<char>, fields: Seq<ConfigField>, vals: Seq<Pair>)
    requires
        format != "json"@,
        format != "palworld-ini"@,
        forall|j: int| 0 <= j < fields.len() ==> lookup(vals, (#[trigger] fields[j]).key@) is None,
    ensures
        rendered_config(format, raw, fields, vals) == crate::config::RenderedConfigView::Text(
            join(lines(raw), "\n"@),
        ),
{
    let ls = lines(raw);
    assert forall|k: Seq<char>| has_field(fields, k) implies lookup(vals, k) is None by {
        let j = choose|j: int| 0 <= j < fields.len() && (#[trigger] fields[j]).key@ == k;
        assert(lookup(vals, fields[j].key@) is None);
    }
    if format == "xml-properties"@ {
        let r = ls.map_values(|l: Seq<char>| xml_rendered_line(l, fields, vals));
        assert(r =~= ls);
        let seen = xml_names(ls);
        let h = |f: ConfigField|
            if seen.contains(f.key@) {
                None
            } else {
                match lookup(vals, f.key@) {
                    Some(v) => Some(xml_element(f.key@, v)),
                    None => None,
                }
            };
        assert(xml_appended(fields, vals, seen) == fields.filter_map(h));
        lemma_filter_map_none(fields, h);
        if ends_with_close(ls) {
            assert(r.drop_last() + Seq::<Seq<char>>::empty() + seq![r.last()] =~= ls);
        } else {
            assert(r + Seq::<Seq<char>>::empty() =~= ls);
        }
        assert(xml_rendered_lines(ls, fields, vals) == ls);
    } else {
        let g = |l: Seq<char>| prop_rendered_line(l, fields, vals).1;
        assert(ls.map_values(|l: Seq<char>| prop_rendered_line(l, fields, vals).0) =~= ls);
        assert(replaced_keys(ls, fields, vals) == ls.filter_map(g));
        lemma_filter_map_none(ls, g);
        let seen = replaced_keys(ls, fields, vals);
        let h = |f: ConfigField|
            if seen.contains(f.key@) {
                None
            } else {
                match lookup(vals, f.key@) {
                    Some(v) => Some(f.key@ + "="@ + v),
                    None => None,
                }
            };
        assert(appended_lines(fields, vals, seen) == fields.filter_map(h));
        lemma_filter_map_none(fields, h);
        assert(ls + Seq::<Seq<char>>::empty() =~= ls);
    }
}

/// A saved value, if any, survives being written as `key=value`.
pub open spec fn plain_opt(o: Option<Seq<char>>) -> bool {
    match o {
        Some(v) => is_plain_value(v),
        None => true,
    }
}

/// What a field reads as after saving: the value saved for it, or else what it read before.
pub open spec fn after_save(saved: Option<Seq<char>>, before: Seq<char>) -> Seq<char> {
    match saved {
        Some(v) => v,
        None => before,
    }
}

/// Saving values into a `key=value` config and reading it back: every field of the schema
/// reads as the value saved for it, and a field no value was saved for reads as it did before.
/// This holds when the schema's keys are plain (non-empty, no `=`, no line end, not a comment,
/// no surrounding whitespace) and each saved value is a single line without surrounding
/// whitespace.
pub proof fn lemma_saved_properties_read_all(
    format: Seq<char>,
    raw: Seq<char>,
    fields: Seq<ConfigField>,
    vals: Seq<Pair>,
)
    requires
        format != "xml-properties"@,
        format != "palworld-ini"@,
        format != "json"@,
        plain_keys(fields),
        forall|j: int| 0 <= j < fields.len() ==> plain_opt(lookup(vals, (#[trigger] fields[j]).key@)),
    ensures
        rendered_config(format, raw, fields, vals) matches crate::config::RenderedConfigView::Text(t)
            && forall|i: int|
            0 <= i < fields.len() ==> #[trigger] crate::config::parsed_config(
                fields,
                crate::config::found_pairs(format, t),
            )[i] == (
                fields[i].key@,
                after_save(
                    lookup(vals, fields[i].key@),
                    crate::config::parsed_config(fields, crate::config::found_pairs(format, raw))[i].1,
                ),
            ),
{
    let t = props_rendered(raw, fields, vals);
    assert(rendered_config(format, raw, fields, vals) == crate::config::RenderedConfigView::Text(t));
    assert(one_line_values(fields, vals)) by {
        assert forall|j: int| 0 <= j < fields.len() implies one_line_opt(lookup(vals, (#[trigger] fields[j]).key@)) by {
            assert(plain_opt(lookup(vals, fields[j].key@)));
        }
    }
    assert forall|i: int| 0 <= i < fields.len() implies #[trigger] crate::config::parsed_config(
        fields,
        crate::config::found_pairs(format, t),
    )[i] == (
        fields[i].key@,
        after_save(
            lookup(vals, fields[i].key@),
            crate::config::parsed_config(fields, crate::config::found_pairs(format, raw))[i].1,
        ),
    ) by {
        let k = fields[i].key@;
        if lookup(vals, k) is Some {
            assert(plain_opt(lookup(vals, fields[i].key@)));
            assert(read_back_case(fields, vals, i));
            lemma_saved_properties_read_back(format, raw, fields, vals, i);
        } else {
            lemma_saved_properties_keep_others(format, raw, fields, vals, k);
        }
    }
}

/// Saving a `bool` field of a JSON config writes a JSON boolean that is `true` exactly when
/// the saved text is `true`: the updates hold `(key, true)` for a saved `"true"` and
/// `(key, false)` for any other saved text.
pub proof fn lemma_json_bool_update(raw: Seq<char>, fields: Seq<ConfigField>, vals: Seq<Pair>, i: int, v: Seq<char>)
    requires
        0 <= i < fields.len(),
        fields[i].field_type@ == "bool"@,
        lookup(vals, fields[i].key@) == Some(v),
    ensures
        rendered_config("json"@, raw, fields, vals) matches crate::config::RenderedConfigView::JsonUpdates(u)
            && (v == "true"@ ==> u.contains((fields[i].key@, crate::config::JsonValueView::Flag(true))))
            && (v != "true"@ ==> u.contains((fields[i].key@, crate::config::JsonValueView::Flag(false)))),
{
    reveal_strlit("json");
    reveal_strlit("xml-properties");
    reveal_strlit("palworld-ini");
    reveal_strlit("bool");
    reveal_strlit("number");
    reveal_strlit("true");
    assert("json"@ != "xml-properties"@) by {
        assert("json"@.len() != "xml-properties"@.len());
    }
    assert("json"@ != "palworld-ini"@) by {
        assert("json"@.len() != "palworld-ini"@.len());
    }
    assert("bool"@ != "number"@) by {
        assert("bool"@[0] != "number"@[0]);
    }
    let h = |f: ConfigField|
        match lookup(vals, f.key@) {
            Some(w) => Some((f.key@, crate::config::json_value_of(f.field_type@, w))),
            None => None,
        };
    let u = crate::config::json_updates(fields, vals);
    assert(u == fields.filter_map(h));
    assert(fields.contains(fields[i]));
    lemma_filter_map_has(fields, h, fields[i]);
    assert(h(fields[i]) == Some((fields[i].key@, crate::config::JsonValueView::Flag(v == "true"@))));
}

} // verus!
