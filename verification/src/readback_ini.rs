//! Reading a saved Palworld `OptionSettings=(...)` config back: the values saved for the
//! schema's fields are the values read afterwards.
use vstd::prelude::*;

use crate::config::{
    apply_fields, ini_pair, ini_pair_fn, ini_pieces_from, ini_tuple_pairs, is_first_key, lookup,
    pair_text, palworld_pairs, palworld_rendered, palworld_value, unquote_fn, Pair,
};
use crate::games::ConfigField;
use crate::config::rendered_config;
use crate::config::has_field;
use crate::readback::{
    keyed, lemma_first_found_kept, lemma_lookup_all, lemma_trim_fixed, lemma_trim_shape, saved_key,
    value_for,
};
use crate::text::{
    find, is_last_occurrence, join, lemma_join_front_sep, split_once, lemma_find_is, lemma_find_some_first, lemma_rfind_is, occurs_at,
    is_first_kept, is_last_kept, is_ws, kept_end, lead_len, rfind, trim, trim_by, trim_end_by,
    trim_start_by, trimmed_char, Trimmed,
};

verus! {

/// The quote state after scanning `t` from state `q`, as the tuple splitter scans: `None`
/// when a comma occurs outside quotes.
pub open spec fn comma_scan(t: Seq<char>, q: bool) -> Option<bool>
    decreases t.len(),
{
    if t.len() == 0 {
        Some(q)
    } else if t[0] == '"' {
        comma_scan(t.drop_first(), !q)
    } else if t[0] == ',' && !q {
        None
    } else {
        comma_scan(t.drop_first(), q)
    }
}

/// A piece without a top-level comma is read into the current piece whole.
proof fn lemma_pieces_through(t: Seq<char>, s: Seq<char>, q: bool, cur: Seq<char>)
    requires
        comma_scan(t, q) is Some,
    ensures
        ini_pieces_from(t + s, q, cur) == ini_pieces_from(s, comma_scan(t, q)->0, cur + t),
    decreases t.len(),
{
    if t.len() == 0 {
        assert(t + s =~= s);
        assert(cur + t =~= cur);
    } else {
        let c = t[0];
        assert((t + s)[0] == c);
        assert((t + s).drop_first() =~= t.drop_first() + s);
        assert(cur.push(c) + t.drop_first() =~= cur + t);
        if c == '"' {
            lemma_pieces_through(t.drop_first(), s, !q, cur.push(c));
        } else {
            lemma_pieces_through(t.drop_first(), s, q, cur.push(c));
        }
    }
}

/// Non-empty pieces without a top-level comma and with their quotes closed, joined with
/// commas, split back into themselves.
proof fn lemma_pieces_of_join(texts: Seq<Seq<char>>)
    requires
        forall|j: int|
            0 <= j < texts.len() ==> (#[trigger] texts[j]).len() > 0 && comma_scan(texts[j], false)
                == Some(false),
    ensures
        ini_pieces_from(join(texts, ","@), false, seq![]) == texts,
    decreases texts.len(),
{
    reveal_strlit(",");
    let e = Seq::<char>::empty();
    if texts.len() == 0 {
    } else if texts.len() == 1 {
        let t0 = texts[0];
        assert(join(texts, ","@) == t0);
        assert(t0 + e =~= t0);
        lemma_pieces_through(t0, e, false, e);
        assert(e + t0 =~= t0);
        assert(texts =~= seq![t0]);
    } else {
        let t0 = texts[0];
        let rest = texts.drop_first();
        lemma_join_front_sep(texts, ","@);
        let jr = join(rest, ","@);
        let tail = ","@ + jr;
        assert(join(texts, ","@) =~= t0 + tail);
        lemma_pieces_through(t0, tail, false, e);
        assert(e + t0 =~= t0);
        assert(tail[0] == ',');
        assert(tail.drop_first() =~= jr);
        assert(ini_pieces_from(tail, false, t0) == seq![t0] + ini_pieces_from(jr, false, e));
        assert forall|j: int| 0 <= j < rest.len() implies (#[trigger] rest[j]).len() > 0 && comma_scan(
            rest[j],
            false,
        ) == Some(false) by {
            assert(rest[j] == texts[j + 1]);
        }
        lemma_pieces_of_join(rest);
        assert(seq![t0] + rest =~= texts);
    }
}

proof fn lemma_rfind_some_last(s: Seq<char>, p: Seq<char>)
    requires
        rfind(s, p) is Some,
    ensures
        is_last_occurrence(s, p, rfind(s, p)->0),
{
}

/// `key=value` read back as a tuple piece: the trimmed key and value, for a key without `=`.
proof fn lemma_pair_text_reads(p: Pair)
    requires
        !p.0.contains('='),
    ensures
        ini_pair(pair_text(p)) == Some((trim(p.0), trim(p.1))),
{
    reveal_strlit("=");
    let t = pair_text(p);
    let n = p.0.len() as int;
    assert(t =~= p.0 + "="@ + p.1);
    assert(t.subrange(n, n + 1) =~= "="@);
    assert forall|j: int| 0 <= j < n implies !occurs_at(t, j, "="@) by {
        if occurs_at(t, j, "="@) {
            assert(t.subrange(j, j + 1)[0] == t[j]);
            assert(t[j] == p.0[j]);
            assert(p.0.contains(p.0[j]));
        }
    }
    lemma_find_is(t, "="@, n);
    assert(t.take(n) =~= p.0);
    assert(t.skip(n + 1) =~= p.1);
}

/// How a pair of the rewritten tuple reads back: key and value trimmed, the value's quotes
/// removed.
pub open spec fn reread(p: Pair) -> Pair {
    (trim(p.0), trim_by(trim(p.1), Trimmed::Char('"')))
}

/// A pair that the rewritten tuple can hold: a key without `=`, and its text closes every
/// quote it opens and has no comma outside quotes.
pub open spec fn writable_pair(p: Pair) -> bool {
    !p.0.contains('=') && comma_scan(pair_text(p), false) == Some(false)
}

proof fn lemma_texts_read(ps: Seq<Pair>)
    requires
        forall|j: int| 0 <= j < ps.len() ==> writable_pair(#[trigger] ps[j]),
    ensures
        ps.map_values(|p: Pair| pair_text(p)).filter_map(ini_pair_fn()).map_values(unquote_fn())
            == ps.map_values(|p: Pair| reread(p)),
    decreases ps.len(),
{
    let tx = ps.map_values(|p: Pair| pair_text(p));
    if ps.len() > 0 {
        let pd = ps.drop_last();
        assert forall|j: int| 0 <= j < pd.len() implies writable_pair(#[trigger] pd[j]) by {
            assert(pd[j] == ps[j]);
        }
        lemma_texts_read(pd);
        assert(tx.drop_last() =~= pd.map_values(|p: Pair| pair_text(p)));
        assert(writable_pair(ps.last()));
        lemma_pair_text_reads(ps.last());
        assert(tx.last() == pair_text(ps.last()));
        let a = tx.drop_last().filter_map(ini_pair_fn());
        let x = (trim(ps.last().0), trim(ps.last().1));
        assert(tx.filter_map(ini_pair_fn()) == a.push(x));
        assert(a.map_values(unquote_fn()) == pd.map_values(|p: Pair| reread(p)));
        assert(a.push(x).map_values(unquote_fn()) =~= a.map_values(unquote_fn()).push(
            unquote_fn()(x),
        ));
        assert(unquote_fn()(x) == reread(ps.last()));
        assert(ps.map_values(|p: Pair| reread(p)) =~= pd.map_values(|p: Pair| reread(p)).push(
            reread(ps.last()),
        ));
    } else {
        assert(tx.filter_map(ini_pair_fn()) =~= Seq::<Pair>::empty());
        assert(ps.map_values(|p: Pair| reread(p)) =~= Seq::<Pair>::empty());
    }
}

/// The pairs of the `OptionSettings=(...)` body of `raw`.
pub open spec fn tuple_pairs_of(raw: Seq<char>) -> Option<Seq<Pair>> {
    match find(raw, "OptionSettings=("@) {
        Some(ps) => {
            let ts = ps + 16;
            match rfind(raw.skip(ts), ")"@) {
                Some(k) => Some(ini_tuple_pairs(raw.subrange(ts, ts + k))),
                None => None,
            }
        },
        None => None,
    }
}

/// Reading a rewritten file back gives the rewritten pairs, each as `reread` says.
#[verifier::spinoff_prover]
#[verifier::rlimit(40)]
proof fn lemma_rendered_tuple_reads(raw: Seq<char>, fields: Seq<ConfigField>, vals: Seq<Pair>)
    requires
        tuple_pairs_of(raw) is Some,
        forall|j: int|
            0 <= j < apply_fields(tuple_pairs_of(raw)->0, fields, vals).len() ==> writable_pair(
                #[trigger] apply_fields(tuple_pairs_of(raw)->0, fields, vals)[j],
            ),
    ensures
        palworld_pairs(palworld_rendered(raw, fields, vals)) == apply_fields(
            tuple_pairs_of(raw)->0,
            fields,
            vals,
        ).map_values(|p: Pair| reread(p)),
{
    reveal_strlit("OptionSettings=(");
    reveal_strlit(")");
    let os = "OptionSettings=("@;
    let cl = ")"@;
    let ps = find(raw, os)->0;
    let ts = ps + 16;
    let k = rfind(raw.skip(ts), cl)->0;
    let pe = ts + k;
    lemma_find_some_first(raw, os);
    lemma_rfind_some_last(raw.skip(ts), cl);
    assert(tuple_pairs_of(raw)->0 == ini_tuple_pairs(raw.subrange(ts, pe)));
    let pairs = apply_fields(ini_tuple_pairs(raw.subrange(ts, pe)), fields, vals);
    let texts = pairs.map_values(|p: Pair| pair_text(p));
    let b = join(texts, ","@);
    let r = palworld_rendered(raw, fields, vals);
    assert(r == raw.take(ts) + b + raw.skip(pe));
    assert forall|j: int| 0 <= j < ts implies raw[j] == r[j] by {
        assert(r[j] == raw.take(ts)[j]);
    }
    lemma_first_found_kept(raw, r, os, ps, ts);
    let after = r.skip(ts);
    let tail = raw.skip(pe);
    assert(after =~= b + tail);
    assert(tail =~= raw.skip(ts).skip(k));
    assert(tail[0] == ')') by {
        assert(raw.skip(ts).subrange(k, k + 1)[0] == raw.skip(ts)[k]);
    }
    assert(occurs_at(after, b.len() as int, cl)) by {
        assert(after.subrange(b.len() as int, b.len() + 1int) =~= cl);
    }
    assert forall|j: int| b.len() < j <= after.len() implies !occurs_at(after, j, cl) by {
        if occurs_at(after, j, cl) {
            let m = j - b.len();
            assert(after.subrange(j, j + 1)[0] == after[j]);
            assert(after[j] == tail[m]);
            assert(raw.skip(ts)[k + m] == tail[m]);
            assert(raw.skip(ts).subrange(k + m, k + m + 1) =~= cl);
            assert(occurs_at(raw.skip(ts), k + m, cl));
        }
    }
    lemma_rfind_is(after, cl, b.len() as int);
    assert(after.take(b.len() as int) =~= b);
    assert forall|j: int| 0 <= j < texts.len() implies (#[trigger] texts[j]).len() > 0 && comma_scan(
        texts[j],
        false,
    ) == Some(false) by {
        assert(writable_pair(pairs[j]));
        assert(texts[j] == pair_text(pairs[j]));
        reveal_strlit("=");
        assert(texts[j] =~= pairs[j].0 + "="@ + pairs[j].1);
    }
    lemma_pieces_of_join(texts);
    assert(ini_tuple_pairs(b) == texts.filter_map(ini_pair_fn()));
    lemma_texts_read(pairs);
}

proof fn lemma_lead_len_at_w(s: Seq<char>, w: Trimmed, i: int)
    requires
        is_first_kept(s, w, i),
    ensures
        lead_len(s, w) == i,
{
    let k = choose|k: int| is_first_kept(s, w, k);
    if k < i {
        assert(trimmed_char(w, s[k]));
    }
    if i < k {
        assert(trimmed_char(w, s[i]));
    }
}

proof fn lemma_kept_end_at_w(s: Seq<char>, w: Trimmed, i: int)
    requires
        is_last_kept(s, w, i),
    ensures
        kept_end(s, w) == i + 1,
{
    let k = choose|k: int| is_last_kept(s, w, k);
    if k < i {
        assert(trimmed_char(w, s[i]));
    }
    if i < k {
        assert(trimmed_char(w, s[k]));
    }
}

/// A text whose first and last characters are kept is its own trim.
proof fn lemma_trim_by_fixed(s: Seq<char>, w: Trimmed)
    requires
        s.len() == 0 || (!trimmed_char(w, s[0]) && !trimmed_char(w, s.last())),
    ensures
        trim_by(s, w) == s,
{
    if s.len() == 0 {
        assert(!exists|i: int| is_first_kept(s, w, i));
        assert(!exists|i: int| is_last_kept(s, w, i));
        assert(trim_by(s, w) =~= s);
    } else {
        assert(is_first_kept(s, w, 0));
        lemma_lead_len_at_w(s, w, 0);
        assert(trim_start_by(s, w) =~= s);
        assert(is_last_kept(s, w, s.len() - 1));
        lemma_kept_end_at_w(s, w, s.len() - 1);
        assert(trim_end_by(s, w) =~= s);
    }
}

/// A quote-free text in double quotes loses exactly those quotes.
proof fn lemma_trim_quotes_around(v: Seq<char>)
    requires
        !v.contains('"'),
    ensures
        trim_by(seq!['"'] + v + seq!['"'], Trimmed::Char('"')) == v,
{
    let w = Trimmed::Char('"');
    let s = seq!['"'] + v + seq!['"'];
    if v.len() > 0 {
        assert(s[1] == v[0]);
        if v[0] == '"' {
            assert(v.contains(v[0]));
        }
        assert(is_first_kept(s, w, 1));
        lemma_lead_len_at_w(s, w, 1);
        let st = s.skip(1);
        assert(st =~= v + seq!['"']);
        assert(st[v.len() - 1] == v.last());
        if v.last() == '"' {
            assert(v.contains(v[v.len() - 1]));
        }
        assert(is_last_kept(st, w, v.len() - 1));
        lemma_kept_end_at_w(st, w, v.len() - 1);
        assert(st.take(v.len() as int) =~= v);
    } else {
        assert(s =~= seq!['"', '"']);
        assert(!exists|i: int| is_first_kept(s, w, i));
        assert(trim_start_by(s, w) =~= Seq::<char>::empty());
        assert(!exists|i: int| is_last_kept(Seq::<char>::empty(), w, i));
        assert(trim_by(s, w) =~= v);
    }
}

/// Scanning a concatenation scans one part after the other.
proof fn lemma_comma_scan_append(a: Seq<char>, b: Seq<char>, q: bool)
    ensures
        comma_scan(a + b, q) == match comma_scan(a, q) {
            Some(q1) => comma_scan(b, q1),
            None => None,
        },
    decreases a.len(),
{
    if a.len() == 0 {
        assert(a + b =~= b);
    } else {
        assert((a + b)[0] == a[0]);
        assert((a + b).drop_first() =~= a.drop_first() + b);
        if a[0] == '"' {
            lemma_comma_scan_append(a.drop_first(), b, !q);
        } else {
            lemma_comma_scan_append(a.drop_first(), b, q);
        }
    }
}

/// A text without quotes keeps the scan's state; outside quotes it must have no comma.
proof fn lemma_comma_scan_plain(t: Seq<char>, q: bool)
    requires
        !t.contains('"'),
        q || !t.contains(','),
    ensures
        comma_scan(t, q) == Some(q),
    decreases t.len(),
{
    if t.len() > 0 {
        assert(t.contains(t[0]));
        assert forall|c: char| t.drop_first().contains(c) implies t.contains(c) by {
            let j = choose|j: int| 0 <= j < t.drop_first().len() && t.drop_first()[j] == c;
            assert(t[j + 1] == c);
        }
        lemma_comma_scan_plain(t.drop_first(), q);
    }
}

/// A schema key that can stand in the tuple: no whitespace around it, no `=`, comma or quote.
pub open spec fn tuple_key(k: Seq<char>) -> bool {
    trim(k) == k && !k.contains('=') && !k.contains(',') && !k.contains('"')
}

/// The field types whose values are written in double quotes.
pub open spec fn quoted_type(field_type: Seq<char>) -> bool {
    field_type == "text"@ || field_type == "password"@
}

/// A value a field can save into the tuple: no quote, no whitespace around it, and no comma
/// unless the field's values are quoted.
pub open spec fn tuple_value(f: ConfigField, v: Seq<char>) -> bool {
    !v.contains('"') && trim(v) == v && (quoted_type(f.field_type@) || !v.contains(','))
}

/// A field whose saved value (if any) the tuple can hold under its key.
pub open spec fn tuple_saved_ok(f: ConfigField, vals: Seq<Pair>) -> bool {
    match lookup(vals, f.key@) {
        Some(v) => tuple_key(f.key@) && tuple_value(f, v),
        None => true,
    }
}

/// A pair the rewritten tuple holds safely: writable, its key without surrounding whitespace.
pub open spec fn held_pair(p: Pair) -> bool {
    writable_pair(p) && trim(p.0) == p.0
}

proof fn lemma_quote_scan(q: bool)
    ensures
        comma_scan(seq!['"'], q) == Some(!q),
{
    reveal_with_fuel(comma_scan, 2);
    assert(seq!['"'].drop_first() =~= Seq::<char>::empty());
}

proof fn lemma_value_scan(ft: Seq<char>, v: Seq<char>)
    requires
        !v.contains('"'),
        quoted_type(ft) || !v.contains(','),
    ensures
        comma_scan(palworld_value(ft, v), false) == Some(false),
{
    reveal_strlit("\"");
    let q = seq!['"'];
    if quoted_type(ft) {
        assert(palworld_value(ft, v) =~= q + v + q);
        lemma_quote_scan(false);
        lemma_quote_scan(true);
        lemma_comma_scan_append(q, v, false);
        lemma_comma_scan_plain(v, true);
        lemma_comma_scan_append(q + v, q, false);
    } else {
        assert(palworld_value(ft, v) == v);
        lemma_comma_scan_plain(v, false);
    }
}

proof fn lemma_quoted_reread(v: Seq<char>)
    requires
        !v.contains('"'),
    ensures
        trim_by(trim(seq!['"'] + v + seq!['"']), Trimmed::Char('"')) == v,
{
    let r = seq!['"'] + v + seq!['"'];
    assert(r[0] == '"' && r.last() == '"');
    assert(('"' as u32) == 34);
    assert(!is_ws('"'));
    crate::readback::lemma_trim_fixed(r);
    lemma_trim_quotes_around(v);
}

proof fn lemma_unquoted_kept(v: Seq<char>)
    requires
        !v.contains('"'),
    ensures
        trim_by(v, Trimmed::Char('"')) == v,
{
    if v.len() > 0 {
        assert(v.contains(v[0]));
        assert(v.contains(v[v.len() - 1]));
    }
    lemma_trim_by_fixed(v, Trimmed::Char('"'));
}

proof fn lemma_quoted_value(ft: Seq<char>, v: Seq<char>)
    requires
        quoted_type(ft),
    ensures
        palworld_value(ft, v) == seq!['"'] + v + seq!['"'],
{
    reveal_strlit("\"");
    assert(palworld_value(ft, v) =~= seq!['"'] + v + seq!['"']);
}

proof fn lemma_value_reread(ft: Seq<char>, v: Seq<char>)
    requires
        !v.contains('"'),
        trim(v) == v,
    ensures
        trim_by(trim(palworld_value(ft, v)), Trimmed::Char('"')) == v,
{
    if quoted_type(ft) {
        lemma_quoted_value(ft, v);
        lemma_quoted_reread(v);
    } else {
        lemma_unquoted_kept(v);
    }
}

/// The pair a saved field writes is held safely and reads back as the saved value.
proof fn lemma_saved_pair(f: ConfigField, v: Seq<char>)
    requires
        tuple_key(f.key@),
        tuple_value(f, v),
    ensures
        held_pair((f.key@, palworld_value(f.field_type@, v))),
        reread((f.key@, palworld_value(f.field_type@, v))).1 == v,
{
    reveal_strlit("=");
    let k = f.key@;
    let r = palworld_value(f.field_type@, v);
    let eq = "="@;
    lemma_comma_scan_plain(k, false);
    lemma_comma_scan_plain(eq, false);
    lemma_comma_scan_append(k, eq, false);
    lemma_value_scan(f.field_type@, v);
    lemma_comma_scan_append(k + eq, r, false);
    assert(pair_text((k, r)) == (k + eq) + r);
    lemma_value_reread(f.field_type@, v);
}

/// Applying saved fields keeps every pair of the tuple held safely.
proof fn lemma_apply_fields_held(ps: Seq<Pair>, fields: Seq<ConfigField>, vals: Seq<Pair>)
    requires
        forall|j: int| 0 <= j < ps.len() ==> held_pair(#[trigger] ps[j]),
        forall|j: int| 0 <= j < fields.len() ==> tuple_saved_ok(#[trigger] fields[j], vals),
    ensures
        forall|j: int|
            0 <= j < apply_fields(ps, fields, vals).len() ==> held_pair(
                #[trigger] apply_fields(ps, fields, vals)[j],
            ),
    decreases fields.len(),
{
    if fields.len() > 0 {
        let fd = fields.drop_last();
        assert forall|j: int| 0 <= j < fd.len() implies tuple_saved_ok(#[trigger] fd[j], vals) by {
            assert(fd[j] == fields[j]);
        }
        lemma_apply_fields_held(ps, fd, vals);
        let q = apply_fields(ps, fd, vals);
        let f = fields.last();
        assert(tuple_saved_ok(fields[fields.len() - 1], vals));
        match lookup(vals, f.key@) {
            Some(nv) => {
                lemma_saved_pair(f, nv);
                let r = palworld_value(f.field_type@, nv);
                if exists|i: int| is_first_key(q, f.key@, i) {
                    let i = choose|i: int| is_first_key(q, f.key@, i);
                    let res = q.update(i, (q[i].0, r));
                    assert(apply_fields(ps, fields, vals) == res);
                    assert forall|j: int| 0 <= j < res.len() implies held_pair(#[trigger] res[j]) by {
                        if j != i {
                            assert(res[j] == q[j]);
                        }
                    }
                } else {
                    let res = q.push((f.key@, r));
                    assert(apply_fields(ps, fields, vals) == res);
                    assert forall|j: int| 0 <= j < res.len() implies held_pair(#[trigger] res[j]) by {
                        if j < q.len() {
                            assert(res[j] == q[j]);
                        }
                    }
                }
            },
            None => {},
        }
    }
}

/// At most one pair has key `k`.
pub open spec fn one_key(ps: Seq<Pair>, k: Seq<char>) -> bool {
    forall|a: int, b: int|
        0 <= a < ps.len() && 0 <= b < ps.len() && (#[trigger] ps[a]).0 == k && (#[trigger] ps[b]).0 == k
            ==> a == b
}

/// Some pair has key `k` and reads back as `v`.
pub open spec fn key_reads(ps: Seq<Pair>, k: Seq<char>, v: Seq<char>) -> bool {
    exists|m: int| 0 <= m < ps.len() && (#[trigger] ps[m]).0 == k && reread(ps[m]).1 == v
}

proof fn lemma_first_key_exists(ps: Seq<Pair>, k: Seq<char>, a: int)
    requires
        0 <= a < ps.len(),
        ps[a].0 == k,
    ensures
        exists|i: int| is_first_key(ps, k, i),
    decreases a,
{
    if forall|j: int| 0 <= j < a ==> (#[trigger] ps[j]).0 != k {
        assert(is_first_key(ps, k, a));
    } else {
        let j = choose|j: int| 0 <= j < a && (#[trigger] ps[j]).0 == k;
        lemma_first_key_exists(ps, k, j);
    }
}

/// Applying the saved fields leaves at most one pair with key `k`, and once a field with key
/// `k` was applied, that pair reads back as `k`'s saved value.
#[verifier::spinoff_prover]
#[verifier::rlimit(40)]
proof fn lemma_apply_fields_key(ps: Seq<Pair>, fields: Seq<ConfigField>, vals: Seq<Pair>, k: Seq<char>, v: Seq<char>)
    requires
        one_key(ps, k),
        lookup(vals, k) == Some(v),
        forall|j: int| 0 <= j < fields.len() ==> tuple_saved_ok(#[trigger] fields[j], vals),
    ensures
        one_key(apply_fields(ps, fields, vals), k),
        (exists|j: int| 0 <= j < fields.len() && (#[trigger] fields[j]).key@ == k) ==> key_reads(
            apply_fields(ps, fields, vals),
            k,
            v,
        ),
    decreases fields.len(),
{
    if fields.len() > 0 {
        let fd = fields.drop_last();
        assert forall|j: int| 0 <= j < fd.len() implies tuple_saved_ok(#[trigger] fd[j], vals) by {
            assert(fd[j] == fields[j]);
        }
        lemma_apply_fields_key(ps, fd, vals, k, v);
        let q = apply_fields(ps, fd, vals);
        let f = fields.last();
        let res = apply_fields(ps, fields, vals);
        assert(res == crate::config::apply_field(q, f, vals));
        assert(tuple_saved_ok(fields[fields.len() - 1], vals));
        if (exists|j: int| 0 <= j < fields.len() && (#[trigger] fields[j]).key@ == k) && f.key@ != k {
            let j = choose|j: int| 0 <= j < fields.len() && (#[trigger] fields[j]).key@ == k;
            assert(j < fd.len());
            assert(fd[j] == fields[j]);
        }
        match lookup(vals, f.key@) {
            Some(nv) => {
                lemma_saved_pair(f, nv);
                let r = palworld_value(f.field_type@, nv);
                if exists|i: int| is_first_key(q, f.key@, i) {
                    let i = choose|i: int| is_first_key(q, f.key@, i);
                    assert(res == q.update(i, (q[i].0, r)));
                    assert forall|a: int, b: int|
                        0 <= a < res.len() && 0 <= b < res.len() && (#[trigger] res[a]).0 == k && (
                        #[trigger] res[b]).0 == k implies a == b by {
                        assert(res[a].0 == q[a].0);
                        assert(res[b].0 == q[b].0);
                    }
                    if f.key@ == k {
                        assert(nv == v);
                        assert(res[i] == (k, r));
                        assert(key_reads(res, k, v));
                    } else if key_reads(q, k, v) {
                        let m = choose|m: int| 0 <= m < q.len() && (#[trigger] q[m]).0 == k && reread(q[m]).1 == v;
                        assert(m != i);
                        assert(res[m] == q[m]);
                        assert(key_reads(res, k, v));
                    }
                } else {
                    assert(res == q.push((f.key@, r)));
                    if f.key@ == k {
                        assert(nv == v);
                        assert forall|a: int| 0 <= a < q.len() implies (#[trigger] q[a]).0 != k by {
                            if q[a].0 == k {
                                lemma_first_key_exists(q, k, a);
                            }
                        }
                        assert forall|a: int, b: int|
                            0 <= a < res.len() && 0 <= b < res.len() && (#[trigger] res[a]).0 == k && (
                            #[trigger] res[b]).0 == k implies a == b by {
                            if a < q.len() {
                                assert(res[a] == q[a]);
                            }
                            if b < q.len() {
                                assert(res[b] == q[b]);
                            }
                        }
                        assert(res[q.len() as int] == (k, r));
                        assert(key_reads(res, k, v));
                    } else {
                        assert forall|a: int, b: int|
                            0 <= a < res.len() && 0 <= b < res.len() && (#[trigger] res[a]).0 == k && (
                            #[trigger] res[b]).0 == k implies a == b by {
                            assert(a < q.len() && b < q.len());
                            assert(res[a] == q[a]);
                            assert(res[b] == q[b]);
                        }
                        if key_reads(q, k, v) {
                            let m = choose|m: int| 0 <= m < q.len() && (#[trigger] q[m]).0 == k && reread(q[m]).1 == v;
                            assert(res[m] == q[m]);
                            assert(key_reads(res, k, v));
                        }
                    }
                }
            },
            None => {
                assert(f.key@ != k);
                assert(res == q);
            },
        }
    }
}

/// A pair read with a key that holds no `=` and has no whitespace around it.
pub open spec fn plain_read_key(o: Option<Pair>) -> bool {
    match o {
        Some(p) => !p.0.contains('=') && trim(p.0) == p.0,
        None => true,
    }
}

/// A tuple piece reads back with a key that holds no `=` and has no whitespace around it.
proof fn lemma_ini_pair_key(piece: Seq<char>)
    ensures
        plain_read_key(ini_pair(piece)),
{
    reveal_strlit("=");
    let eq = "="@;
    if find(piece, eq) is Some {
        let i = find(piece, eq)->0;
        lemma_find_some_first(piece, eq);
        let a = piece.take(i);
        assert forall|m: int| 0 <= m < a.len() implies a[m] != '=' by {
            if a[m] == '=' {
                assert(piece.subrange(m, m + 1) =~= eq);
                assert(occurs_at(piece, m, eq));
            }
        }
        lemma_trim_shape(a);
        let t = trim(a);
        let (x, y) = choose|x: int, y: int| 0 <= x <= y <= a.len() && trim(a) == a.subrange(x, y);
        assert forall|m: int| 0 <= m < t.len() implies t[m] != '=' by {
            assert(t[m] == a[x + m]);
        }
        if t.contains('=') {
            let m = choose|m: int| 0 <= m < t.len() && t[m] == '=';
        }
        lemma_trim_fixed(t);
    }
}

proof fn lemma_tuple_pairs_keys(body: Seq<char>)
    ensures
        forall|j: int|
            0 <= j < ini_tuple_pairs(body).len() ==> !(#[trigger] ini_tuple_pairs(body)[j]).0.contains('=')
                && trim(ini_tuple_pairs(body)[j].0) == ini_tuple_pairs(body)[j].0,
{
    let pieces = ini_pieces_from(body, false, seq![]);
    let rp = ini_tuple_pairs(body);
    assert(rp == pieces.filter_map(ini_pair_fn()));
    assert forall|j: int| 0 <= j < rp.len() implies !(#[trigger] rp[j]).0.contains('=') && trim(rp[j].0)
        == rp[j].0 by {
        assert(rp.contains(rp[j]));
        pieces.lemma_filter_map_contains(ini_pair_fn(), rp[j]);
        let x = choose|x: Seq<char>| #[trigger] pieces.contains(x) && ini_pair_fn()(x) == Some(rp[j]);
        lemma_ini_pair_key(x);
    }
}

/// Every pair of the tuple closes the quotes it opens and has no comma outside quotes.
pub open spec fn balanced_pairs(ps: Seq<Pair>) -> bool {
    forall|j: int| 0 <= j < ps.len() ==> comma_scan(pair_text(#[trigger] ps[j]), false) == Some(false)
}

/// Saving values into Palworld's `OptionSettings=(...)` config and reading it back gives the
/// saved values: for every schema field that a value was saved for, parsing the file written
/// shows that value. This holds when the file has such a tuple whose pairs each close the
/// quotes they open (with no comma outside quotes), the tuple holds the field's key at most
/// once (a later duplicate would keep its old value and win the read), the saved keys hold no
/// `=`, comma, quote or surrounding whitespace, and the saved values hold no quote, no
/// surrounding whitespace, and no comma unless they are written quoted.
#[verifier::spinoff_prover]
#[verifier::rlimit(40)]
pub proof fn lemma_saved_palworld_read_back(raw: Seq<char>, fields: Seq<ConfigField>, vals: Seq<Pair>, i: int)
    requires
        0 <= i < fields.len(),
        lookup(vals, fields[i].key@) is Some,
        forall|j: int| 0 <= j < fields.len() ==> tuple_saved_ok(#[trigger] fields[j], vals),
        tuple_pairs_of(raw) is Some,
        balanced_pairs(tuple_pairs_of(raw)->0),
        one_key(tuple_pairs_of(raw)->0, fields[i].key@),
    ensures
        rendered_config("palworld-ini"@, raw, fields, vals) matches crate::config::RenderedConfigView::Text(t)
            && crate::config::parsed_config(fields, crate::config::found_pairs("palworld-ini"@, t))[i] == (
            fields[i].key@,
            lookup(vals, fields[i].key@)->0,
        ),
{
    reveal_strlit("OptionSettings=(");
    reveal_strlit(")");
    reveal_strlit("json");
    reveal_strlit("xml-properties");
    reveal_strlit("palworld-ini");
    let k = fields[i].key@;
    let v = lookup(vals, k)->0;
    let rp = tuple_pairs_of(raw)->0;
    let ps = find(raw, "OptionSettings=("@)->0;
    let ts = ps + 16;
    let kk = rfind(raw.skip(ts), ")"@)->0;
    assert(rp == ini_tuple_pairs(raw.subrange(ts, ts + kk)));
    lemma_tuple_pairs_keys(raw.subrange(ts, ts + kk));
    assert forall|j: int| 0 <= j < rp.len() implies held_pair(#[trigger] rp[j]) by {
        assert(comma_scan(pair_text(rp[j]), false) == Some(false));
    }
    lemma_apply_fields_held(rp, fields, vals);
    let pp = apply_fields(rp, fields, vals);
    assert forall|j: int| 0 <= j < pp.len() implies writable_pair(#[trigger] pp[j]) by {
        assert(held_pair(pp[j]));
    }
    lemma_rendered_tuple_reads(raw, fields, vals);
    let t = palworld_rendered(raw, fields, vals);
    let fp = pp.map_values(|p: Pair| reread(p));
    assert(palworld_pairs(t) == fp);
    lemma_apply_fields_key(rp, fields, vals, k, v);
    assert(exists|j: int| 0 <= j < fields.len() && (#[trigger] fields[j]).key@ == k);
    assert(key_reads(pp, k, v));
    let m = choose|m: int| 0 <= m < pp.len() && (#[trigger] pp[m]).0 == k && reread(pp[m]).1 == v;
    assert forall|a: int| 0 <= a < fp.len() && (#[trigger] fp[a]).0 == k implies fp[a].1 == v by {
        assert(held_pair(pp[a]));
        assert(fp[a] == reread(pp[a]));
        assert(pp[a].0 == k);
        assert(a == m);
    }
    assert(held_pair(pp[m]));
    assert(fp[m].0 == k);
    lemma_lookup_all(fp, k, v);
    assert("palworld-ini"@ != "xml-properties"@) by {
        assert("palworld-ini"@.len() != "xml-properties"@.len());
    }
    assert("palworld-ini"@ != "json"@) by {
        assert("palworld-ini"@.len() != "json"@.len());
    }
    assert(rendered_config("palworld-ini"@, raw, fields, vals) == crate::config::RenderedConfigView::Text(t));
    assert(crate::config::found_pairs("palworld-ini"@, t) == fp);
    assert(crate::config::parsed_config(fields, fp)[i] == (k, crate::config::shown_value(fp, k, fields[i].default@)));
}

/// A pair read back has a value with no surrounding white space (a pair that is not read
/// counts as such).
spec fn trimmed_value(o: Option<Pair>) -> bool {
    match o {
        Some(p) => trim(p.1) == p.1,
        None => true,
    }
}

spec fn after_equals(piece: Seq<char>) -> Seq<char> {
    match split_once(piece, "="@) {
        Some(parts) => parts.1,
        None => seq![],
    }
}

proof fn lemma_ini_pair_value(piece: Seq<char>)
    ensures
        trimmed_value(ini_pair(piece)),
{
    if ini_pair(piece) is Some {
        let b = after_equals(piece);
        lemma_trim_shape(b);
        lemma_trim_fixed(trim(b));
    }
}

proof fn lemma_tuple_pairs_values(body: Seq<char>)
    ensures
        forall|j: int|
            0 <= j < ini_tuple_pairs(body).len() ==> trim((#[trigger] ini_tuple_pairs(body)[j]).1)
                == ini_tuple_pairs(body)[j].1,
{
    let pieces = ini_pieces_from(body, false, seq![]);
    let rp = ini_tuple_pairs(body);
    assert(rp == pieces.filter_map(ini_pair_fn()));
    assert forall|j: int| 0 <= j < rp.len() implies trim((#[trigger] rp[j]).1) == rp[j].1 by {
        assert(rp.contains(rp[j]));
        pieces.lemma_filter_map_contains(ini_pair_fn(), rp[j]);
        let x = choose|x: Seq<char>| #[trigger] pieces.contains(x) && ini_pair_fn()(x) == Some(rp[j]);
        lemma_ini_pair_value(x);
    }
}

/// Applying the saved fields never touches a key no value is saved for: the pairs of the
/// tuple keep their keys, a pair with such a key stays as it was, and appended pairs carry
/// other keys.
proof fn lemma_apply_fields_other(ps: Seq<Pair>, fields: Seq<ConfigField>, vals: Seq<Pair>, k: Seq<char>)
    requires
        !saved_key(fields, vals, k),
    ensures
        apply_fields(ps, fields, vals).len() >= ps.len(),
        forall|j: int|
            0 <= j < ps.len() ==> (#[trigger] apply_fields(ps, fields, vals)[j]).0 == ps[j].0 && (ps[j].0
                == k ==> apply_fields(ps, fields, vals)[j] == ps[j]),
        forall|j: int|
            ps.len() <= j < apply_fields(ps, fields, vals).len() ==> (#[trigger] apply_fields(
                ps,
                fields,
                vals,
            )[j]).0 != k,
    decreases fields.len(),
{
    if fields.len() > 0 {
        let fd = fields.drop_last();
        if has_field(fd, k) {
            let j = choose|j: int| 0 <= j < fd.len() && (#[trigger] fd[j]).key@ == k;
            assert(fields[j] == fd[j]);
            assert(has_field(fields, k));
        }
        lemma_apply_fields_other(ps, fd, vals, k);
        let q = apply_fields(ps, fd, vals);
        let f = fields.last();
        let res = apply_fields(ps, fields, vals);
        assert(res == crate::config::apply_field(q, f, vals));
        match lookup(vals, f.key@) {
            Some(nv) => {
                assert(has_field(fields, f.key@)) by {
                    assert(fields[fields.len() - 1].key@ == f.key@);
                }
                assert(f.key@ != k);
                let r = palworld_value(f.field_type@, nv);
                if exists|i: int| is_first_key(q, f.key@, i) {
                    let i = choose|i: int| is_first_key(q, f.key@, i);
                    assert(res == q.update(i, (q[i].0, r)));
                } else {
                    assert(res == q.push((f.key@, r)));
                }
            },
            None => {},
        }
    }
}

proof fn lemma_keyed_pointwise(a: Seq<Pair>, b: Seq<Pair>, k: Seq<char>)
    requires
        a.len() == b.len(),
        forall|j: int| 0 <= j < a.len() ==> value_for(Some(#[trigger] a[j]), k) == value_for(Some(b[j]), k),
    ensures
        keyed(a, k) == keyed(b, k),
    decreases a.len(),
{
    if a.len() > 0 {
        assert forall|j: int| 0 <= j < a.len() - 1 implies value_for(
            Some(#[trigger] a.drop_last()[j]),
            k,
        ) == value_for(Some(b.drop_last()[j]), k) by {
            assert(a.drop_last()[j] == a[j]);
            assert(b.drop_last()[j] == b[j]);
        }
        lemma_keyed_pointwise(a.drop_last(), b.drop_last(), k);
        assert(value_for(Some(a[a.len() - 1]), k) == value_for(Some(b[b.len() - 1]), k));
    }
}

proof fn lemma_keyed_none(a: Seq<Pair>, k: Seq<char>)
    requires
        forall|j: int| 0 <= j < a.len() ==> (#[trigger] a[j]).0 != k,
    ensures
        keyed(a, k) == Seq::<Seq<char>>::empty(),
    decreases a.len(),
{
    if a.len() > 0 {
        assert forall|j: int| 0 <= j < a.len() - 1 implies (#[trigger] a.drop_last()[j]).0 != k by {
            assert(a.drop_last()[j] == a[j]);
        }
        lemma_keyed_none(a.drop_last(), k);
        assert(a[a.len() - 1].0 != k);
    }
}

proof fn lemma_reread_keyed(rp: Seq<Pair>, fields: Seq<ConfigField>, vals: Seq<Pair>, k: Seq<char>)
    requires
        forall|j: int| 0 <= j < rp.len() ==> held_pair(#[trigger] rp[j]),
        forall|j: int| 0 <= j < rp.len() ==> trim((#[trigger] rp[j]).1) == rp[j].1,
        forall|j: int| 0 <= j < fields.len() ==> tuple_saved_ok(#[trigger] fields[j], vals),
        !saved_key(fields, vals, k),
    ensures
        keyed(apply_fields(rp, fields, vals).map_values(|p: Pair| reread(p)), k) == keyed(
            rp.map_values(unquote_fn()),
            k,
        ),
{
    lemma_apply_fields_held(rp, fields, vals);
    lemma_apply_fields_other(rp, fields, vals, k);
    let pp = apply_fields(rp, fields, vals);
    let fp = pp.map_values(|p: Pair| reread(p));
    let n = rp.len() as int;
    let front = fp.take(n);
    let back = fp.skip(n);
    assert(fp =~= front + back);
    let before = rp.map_values(unquote_fn());
    assert forall|j: int| 0 <= j < front.len() implies value_for(Some(#[trigger] front[j]), k)
        == value_for(Some(before[j]), k) by {
        assert(front[j] == reread(pp[j]));
        assert(held_pair(pp[j]));
        assert(pp[j].0 == rp[j].0);
        assert(before[j] == (rp[j].0, trim_by(rp[j].1, Trimmed::Char('"'))));
        if rp[j].0 == k {
            assert(pp[j] == rp[j]);
        }
    }
    lemma_keyed_pointwise(front, before, k);
    assert forall|j: int| 0 <= j < back.len() implies (#[trigger] back[j]).0 != k by {
        assert(back[j] == reread(pp[n + j]));
        assert(held_pair(pp[n + j]));
    }
    lemma_keyed_none(back, k);
    crate::readback::lemma_keyed_append(front, back, k);
}

/// Saving Palworld's `OptionSettings=(...)` config leaves every other setting as it was: for
/// a key no value is saved for, the value read after saving is the value read before (or
/// none, as before). This holds when the tuple's pairs each close the quotes they open (with
/// no comma outside quotes) and the saved keys and values are ones the tuple can hold.
#[verifier::spinoff_prover]
#[verifier::rlimit(40)]
pub proof fn lemma_saved_palworld_keep_others(raw: Seq<char>, fields: Seq<ConfigField>, vals: Seq<Pair>, k: Seq<char>)
    requires
        forall|j: int| 0 <= j < fields.len() ==> tuple_saved_ok(#[trigger] fields[j], vals),
        tuple_pairs_of(raw) is Some ==> balanced_pairs(tuple_pairs_of(raw)->0),
        !saved_key(fields, vals, k),
    ensures
        rendered_config("palworld-ini"@, raw, fields, vals) matches crate::config::RenderedConfigView::Text(t)
            && lookup(crate::config::found_pairs("palworld-ini"@, t), k) == lookup(
            crate::config::found_pairs("palworld-ini"@, raw),
            k,
        ),
{
    reveal_strlit("OptionSettings=(");
    reveal_strlit(")");
    reveal_strlit("json");
    reveal_strlit("xml-properties");
    reveal_strlit("palworld-ini");
    assert("palworld-ini"@ != "xml-properties"@) by {
        assert("palworld-ini"@.len() != "xml-properties"@.len());
    }
    assert("palworld-ini"@ != "json"@) by {
        assert("palworld-ini"@.len() != "json"@.len());
    }
    let t = palworld_rendered(raw, fields, vals);
    assert(rendered_config("palworld-ini"@, raw, fields, vals) == crate::config::RenderedConfigView::Text(t));
    assert(crate::config::found_pairs("palworld-ini"@, t) == palworld_pairs(t));
    assert(crate::config::found_pairs("palworld-ini"@, raw) == palworld_pairs(raw));
    if tuple_pairs_of(raw) is Some {
        let rp = tuple_pairs_of(raw)->0;
        let ps = find(raw, "OptionSettings=("@)->0;
        let ts = ps + 16;
        let kk = rfind(raw.skip(ts), ")"@)->0;
        assert(rp == ini_tuple_pairs(raw.subrange(ts, ts + kk)));
        assert(raw.skip(ts).take(kk) =~= raw.subrange(ts, ts + kk));
        assert(palworld_pairs(raw) == rp.map_values(unquote_fn()));
        lemma_tuple_pairs_keys(raw.subrange(ts, ts + kk));
        lemma_tuple_pairs_values(raw.subrange(ts, ts + kk));
        assert forall|j: int| 0 <= j < rp.len() implies held_pair(#[trigger] rp[j]) by {
            assert(comma_scan(pair_text(rp[j]), false) == Some(false));
        }
        lemma_apply_fields_held(rp, fields, vals);
        let pp = apply_fields(rp, fields, vals);
        assert forall|j: int| 0 <= j < pp.len() implies writable_pair(#[trigger] pp[j]) by {
            assert(held_pair(pp[j]));
        }
        lemma_rendered_tuple_reads(raw, fields, vals);
        let fp = pp.map_values(|p: Pair| reread(p));
        assert(palworld_pairs(t) == fp);
        lemma_reread_keyed(rp, fields, vals, k);
        crate::readback::lemma_lookup_keyed(fp, k);
        crate::readback::lemma_lookup_keyed(rp.map_values(unquote_fn()), k);
    } else {
        assert(t == raw);
    }
}

/// A pair a tuple body can hold as written: key and value with no comma, no quote and no
/// whitespace around them, and a key with no `=`.
#[verifier::opaque]
pub open spec fn tuple_ready(p: Pair) -> bool {
    &&& !p.0.contains(',') && !p.0.contains('"') && !p.0.contains('=') && trim(p.0) == p.0
    &&& !p.1.contains(',') && !p.1.contains('"') && trim(p.1) == p.1
}

proof fn lemma_ready_text(p: Pair)
    requires
        tuple_ready(p),
    ensures
        pair_text(p).len() > 0,
        comma_scan(pair_text(p), false) == Some(false),
        ini_pair(pair_text(p)) == Some(p),
{
    reveal(tuple_ready);
    reveal_strlit("=");
    let t = pair_text(p);
    let n = p.0.len() as int;
    assert(t =~= p.0 + "="@ + p.1);
    assert(t[n] == '=');
    assert forall|c: char| t.contains(c) implies c != '"' && c != ',' by {
        let i = choose|i: int| 0 <= i < t.len() && t[i] == c;
        if i < n {
            assert(p.0.contains(p.0[i]));
        } else if i > n {
            assert(t[i] == p.1[i - n - 1]);
            assert(p.1.contains(p.1[i - n - 1]));
        }
    }
    lemma_comma_scan_plain(t, false);
    lemma_pair_text_reads(p);
}

#[verifier::spinoff_prover]
proof fn lemma_ready_texts_read(ps: Seq<Pair>)
    requires
        forall|j: int| 0 <= j < ps.len() ==> tuple_ready(#[trigger] ps[j]),
    ensures
        ps.map_values(|p: Pair| pair_text(p)).filter_map(ini_pair_fn()) == ps,
    decreases ps.len(),
{
    let tx = ps.map_values(|p: Pair| pair_text(p));
    if ps.len() > 0 {
        let pd = ps.drop_last();
        assert forall|j: int| 0 <= j < pd.len() implies tuple_ready(#[trigger] pd[j]) by {
            assert(pd[j] == ps[j]);
        }
        lemma_ready_texts_read(pd);
        assert(tx.drop_last() =~= pd.map_values(|p: Pair| pair_text(p)));
        assert(tuple_ready(ps.last()));
        lemma_ready_text(ps.last());
        assert(tx.last() == pair_text(ps.last()));
        let a = tx.drop_last().filter_map(ini_pair_fn());
        assert(tx.filter_map(ini_pair_fn()) == a.push(ps.last()));
        assert(pd.push(ps.last()) =~= ps);
    } else {
        assert(tx.filter_map(ini_pair_fn()) =~= Seq::<Pair>::empty());
    }
}

/// Splitting a tuple body written from pairs gives the pairs back, each one and in order:
/// `split_ini_tuple` of the `key=value` texts joined by commas is the pairs, when keys and
/// values hold no comma or quote and no whitespace around them, and keys hold no `=`.
pub proof fn lemma_tuple_round_trip(ps: Seq<Pair>)
    requires
        forall|j: int| 0 <= j < ps.len() ==> tuple_ready(#[trigger] ps[j]),
    ensures
        ini_tuple_pairs(join(ps.map_values(|p: Pair| pair_text(p)), ","@)) == ps,
{
    let tx = ps.map_values(|p: Pair| pair_text(p));
    assert forall|j: int| 0 <= j < tx.len() implies (#[trigger] tx[j]).len() > 0 && comma_scan(tx[j], false)
        == Some(false) by {
        lemma_ready_text(ps[j]);
    }
    lemma_pieces_of_join(tx);
    lemma_ready_texts_read(ps);
}

} // verus!
