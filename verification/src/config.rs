//! Reading and writing the editable fields of a game's config file, in the formats the
//! templates use: `key=value` properties, 7 Days to Die's XML properties, Palworld's
//! one-line `OptionSettings=(...)` tuple, and flat JSON objects.
use vstd::prelude::*;

use crate::games::{ConfigField, ConfigSchema};
use crate::text::{
    chars_of, eq_exec, find, find_exec, is_first_occurrence, join, join_exec, lines, lines_exec,
    lit, push_all, rfind, rfind_exec, slice_of, split_once, split_once_exec, starts_with,
    starts_with_exec, string_of, trim, trim_by, trim_by_exec, trim_exec, Trimmed,
};

verus! {

/// A key/value pair of character sequences.
pub type Pair = (Seq<char>, Seq<char>);

/// The view of a list of key/value pairs held as character vectors.
pub open spec fn cpairs(v: Seq<(Vec<char>, Vec<char>)>) -> Seq<Pair> {
    v.map_values(|p: (Vec<char>, Vec<char>)| (p.0@, p.1@))
}

/// The view of a list of key/value pairs held as strings.
pub open spec fn spairs(v: Seq<(String, String)>) -> Seq<Pair> {
    v.map_values(|p: (String, String)| (p.0@, p.1@))
}

/// The value stored under `k`; a later pair overrides an earlier one, as when the pairs
/// are inserted into a map one after the other.
pub open spec fn lookup(ps: Seq<Pair>, k: Seq<char>) -> Option<Seq<char>>
    decreases ps.len(),
{
    if ps.len() == 0 {
        None
    } else if ps.last().0 == k {
        Some(ps.last().1)
    } else {
        lookup(ps.drop_last(), k)
    }
}

pub fn lookup_exec(ps: &Vec<(Vec<char>, Vec<char>)>, k: &Vec<char>) -> (res: Option<Vec<char>>)
    ensures
        match lookup(cpairs(ps@), k@) {
            Some(v) => res matches Some(x) && x@ == v,
            None => res is None,
        },
{
    let mut i = ps.len();
    assert(cpairs(ps@).take(ps.len() as int) =~= cpairs(ps@));
    while i > 0
        invariant
            i <= ps.len(),
            lookup(cpairs(ps@), k@) == lookup(cpairs(ps@).take(i as int), k@),
        decreases i,
    {
        let ghost t = cpairs(ps@).take(i as int);
        assert(t.drop_last() =~= cpairs(ps@).take(i - 1));
        if eq_exec(&ps[i - 1].0, k) {
            return Some(ps[i - 1].1.clone());
        }
        i -= 1;
    }
    None
}

/// Converts string pairs into character-vector pairs.
pub fn to_cpairs(v: &Vec<(String, String)>) -> (res: Vec<(Vec<char>, Vec<char>)>)
    ensures
        cpairs(res@) == spairs(v@),
{
    let mut res: Vec<(Vec<char>, Vec<char>)> = Vec::new();
    let mut i: usize = 0;
    while i < v.len()
        invariant
            i <= v.len(),
            cpairs(res@) == spairs(v@).take(i as int),
        decreases v.len() - i,
    {
        let p = (chars_of(v[i].0.as_str()), chars_of(v[i].1.as_str()));
        let ghost before = cpairs(res@);
        let ghost pv = (p.0@, p.1@);
        res.push(p);
        assert(cpairs(res@) =~= before.push(pv));
        assert(spairs(v@).take(i + 1) =~= spairs(v@).take(i as int).push(pv));
        i += 1;
    }
    assert(spairs(v@).take(v.len() as int) =~= spairs(v@));
    res
}

/// Converts character-vector pairs into string pairs.
pub fn to_spairs(v: &Vec<(Vec<char>, Vec<char>)>) -> (res: Vec<(String, String)>)
    ensures
        spairs(res@) == cpairs(v@),
{
    let mut res: Vec<(String, String)> = Vec::new();
    let mut i: usize = 0;
    while i < v.len()
        invariant
            i <= v.len(),
            spairs(res@) == cpairs(v@).take(i as int),
        decreases v.len() - i,
    {
        let p = (string_of(&v[i].0), string_of(&v[i].1));
        let ghost before = spairs(res@);
        let ghost pv = (p.0@, p.1@);
        res.push(p);
        assert(spairs(res@) =~= before.push(pv));
        assert(cpairs(v@).take(i + 1) =~= cpairs(v@).take(i as int).push(pv));
        i += 1;
    }
    assert(cpairs(v@).take(v.len() as int) =~= cpairs(v@));
    res
}

/// The pieces of a Palworld `OptionSettings` body, split at top-level commas: `in_quotes`
/// tells whether the scan is inside a double-quoted value, `cur` is the piece read so far.
pub open spec fn ini_pieces_from(s: Seq<char>, in_quotes: bool, cur: Seq<char>) -> Seq<Seq<char>>
    decreases s.len(),
{
    if s.len() == 0 {
        if cur.len() > 0 {
            seq![cur]
        } else {
            seq![]
        }
    } else if s[0] == '"' {
        ini_pieces_from(s.drop_first(), !in_quotes, cur.push(s[0]))
    } else if s[0] == ',' && !in_quotes {
        seq![cur] + ini_pieces_from(s.drop_first(), in_quotes, seq![])
    } else {
        ini_pieces_from(s.drop_first(), in_quotes, cur.push(s[0]))
    }
}

/// A piece `Key=Value` read as a trimmed pair; pieces without `=` are dropped.
pub open spec fn ini_pair(piece: Seq<char>) -> Option<Pair> {
    match split_once(piece, "="@) {
        Some((k, v)) => Some((trim(k), trim(v))),
        None => None,
    }
}

pub open spec fn ini_pair_fn() -> spec_fn(Seq<char>) -> Option<Pair> {
    |p: Seq<char>| ini_pair(p)
}

/// What `split_ini_tuple` produces for `body`.
pub open spec fn ini_tuple_pairs(body: Seq<char>) -> Seq<Pair> {
    ini_pieces_from(body, false, seq![]).filter_map(ini_pair_fn())
}

fn ini_pieces_exec(body: &Vec<char>) -> (res: Vec<Vec<char>>)
    ensures
        res@.map_values(|v: Vec<char>| v@) == ini_pieces_from(body@, false, seq![]),
{
    let mut res: Vec<Vec<char>> = Vec::new();
    let mut cur: Vec<char> = Vec::new();
    let mut in_quotes = false;
    let mut i: usize = 0;
    assert(body@.skip(0) =~= body@);
    assert(res@.map_values(|v: Vec<char>| v@) + ini_pieces_from(body@, false, seq![])
        =~= ini_pieces_from(body@, false, seq![]));
    while i < body.len()
        invariant
            i <= body.len(),
            ini_pieces_from(body@, false, seq![]) == res@.map_values(|v: Vec<char>| v@)
                + ini_pieces_from(body@.skip(i as int), in_quotes, cur@),
        decreases body.len() - i,
    {
        let c = body[i];
        let ghost rest = body@.skip(i as int);
        assert(rest[0] == c);
        assert(rest.drop_first() =~= body@.skip(i + 1));
        if c == '"' {
            in_quotes = !in_quotes;
            cur.push(c);
        } else if c == ',' && !in_quotes {
            let piece = cur;
            cur = Vec::new();
            let ghost before = res@.map_values(|v: Vec<char>| v@);
            res.push(piece);
            assert(res@.map_values(|v: Vec<char>| v@) =~= before + seq![piece@]);
            assert(cur@ =~= Seq::<char>::empty());
        } else {
            cur.push(c);
        }
        i += 1;
    }
    assert(body@.skip(i as int) =~= Seq::<char>::empty());
    if cur.len() > 0 {
        let ghost before = res@.map_values(|v: Vec<char>| v@);
        res.push(cur);
        assert(res@.map_values(|v: Vec<char>| v@) =~= before + seq![cur@]);
    } else {
        assert(res@.map_values(|v: Vec<char>| v@) + Seq::<Seq<char>>::empty() =~= res@.map_values(
            |v: Vec<char>| v@,
        ));
    }
    res
}

fn ini_pair_exec(piece: &Vec<char>) -> (res: Option<(Vec<char>, Vec<char>)>)
    ensures
        match ini_pair(piece@) {
            Some(p) => res matches Some(x) && x.0@ == p.0 && x.1@ == p.1,
            None => res is None,
        },
{
    let eq = lit("=");
    proof {
        reveal_strlit("=");
    }
    match split_once_exec(piece, &eq) {
        Some((k, v)) => Some((trim_exec(&k), trim_exec(&v))),
        None => None,
    }
}

/// Splits Palworld's `OptionSettings=(Key=Value,Key2="a,b",...)` body into trimmed pairs,
/// on top-level commas only: commas inside double-quoted values stay in the value.
pub fn ini_tuple_pairs_exec(body: &Vec<char>) -> (res: Vec<(Vec<char>, Vec<char>)>)
    ensures
        cpairs(res@) == ini_tuple_pairs(body@),
{
    let pieces = ini_pieces_exec(body);
    let ghost pv = pieces@.map_values(|v: Vec<char>| v@);
    let mut res: Vec<(Vec<char>, Vec<char>)> = Vec::new();
    let mut i: usize = 0;
    while i < pieces.len()
        invariant
            i <= pieces.len(),
            pv == pieces@.map_values(|v: Vec<char>| v@),
            cpairs(res@) == pv.take(i as int).filter_map(ini_pair_fn()),
        decreases pieces.len() - i,
    {
        assert(pv.take(i + 1).drop_last() =~= pv.take(i as int));
        assert(pv.take(i + 1).last() == pieces@[i as int]@);
        match ini_pair_exec(&pieces[i]) {
            Some(p) => {
                let ghost before = cpairs(res@);
                res.push(p);
                assert(cpairs(res@) =~= before + seq![(p.0@, p.1@)]);
            },
            None => {},
        }
        i += 1;
    }
    assert(pv.take(pieces.len() as int) =~= pv);
    res
}

/// Splits Palworld's `OptionSettings=(Key=Value,Key2="a,b",...)` body on top-level commas,
/// ignoring commas inside double-quoted string values, into trimmed `(key, value)` pairs.
pub fn split_ini_tuple(body: &str) -> (res: Vec<(String, String)>)
    ensures
        spairs(res@) == ini_tuple_pairs(body@),
{
    to_spairs(&ini_tuple_pairs_exec(&chars_of(body)))
}


/// Which line-oriented format a line belongs to.
#[derive(Clone, Copy)]
pub enum LineFormat {
    /// `<property name="X" value="Y"/>`
    XmlProperty,
    /// `key=value`, `#` comments.
    Properties,
}

/// The `name="..."`/`value="..."` pair of an XML property line: the name is what follows
/// the first `name="` up to the next quote, the value what follows the first `value="` up to
/// the next quote.
pub open spec fn xml_pair(line: Seq<char>) -> Option<Pair> {
    match find(line, "name=\""@) {
        Some(ns) => {
            let after_name = line.skip(ns + 6);
            match find(after_name, "\""@) {
                Some(ne) => {
                    let name = after_name.take(ne);
                    match find(line, "value=\""@) {
                        Some(vs) => {
                            let after_value = line.skip(vs + 7);
                            match find(after_value, "\""@) {
                                Some(ve) => Some((name, after_value.take(ve))),
                                None => None,
                            }
                        },
                        None => None,
                    }
                },
                None => None,
            }
        },
        None => None,
    }
}

/// The trimmed `key`/`value` of a `key=value` line; blank lines, `#` comments and lines
/// without `=` give nothing.
pub open spec fn prop_pair(line: Seq<char>) -> Option<Pair> {
    let t = trim(line);
    if t.len() == 0 || t[0] == '#' {
        None
    } else {
        match split_once(t, "="@) {
            Some((k, v)) => Some((trim(k), trim(v))),
            None => None,
        }
    }
}

pub open spec fn line_pair(f: LineFormat, line: Seq<char>) -> Option<Pair> {
    match f {
        LineFormat::XmlProperty => xml_pair(line),
        LineFormat::Properties => prop_pair(line),
    }
}

pub open spec fn line_pair_fn(f: LineFormat) -> spec_fn(Seq<char>) -> Option<Pair> {
    |l: Seq<char>| line_pair(f, l)
}

fn xml_pair_exec(line: &Vec<char>) -> (res: Option<(Vec<char>, Vec<char>)>)
    ensures
        match xml_pair(line@) {
            Some(p) => res matches Some(x) && x.0@ == p.0 && x.1@ == p.1,
            None => res is None,
        },
{
    let name_attr = lit("name=\"");
    let value_attr = lit("value=\"");
    let quote = lit("\"");
    proof {
        reveal_strlit("name=\"");
        reveal_strlit("value=\"");
        reveal_strlit("\"");
    }
    let ns = match find_exec(line, &name_attr) {
        Some(i) => i,
        None => return None,
    };
    let after_name = slice_of(line, ns + 6, line.len());
    assert(after_name@ == line@.skip(ns + 6));
    let ne = match find_exec(&after_name, &quote) {
        Some(i) => i,
        None => return None,
    };
    let name = slice_of(&after_name, 0, ne);
    let vs = match find_exec(line, &value_attr) {
        Some(i) => i,
        None => return None,
    };
    let after_value = slice_of(line, vs + 7, line.len());
    assert(after_value@ == line@.skip(vs + 7));
    let ve = match find_exec(&after_value, &quote) {
        Some(i) => i,
        None => return None,
    };
    Some((name, slice_of(&after_value, 0, ve)))
}

fn prop_pair_exec(line: &Vec<char>) -> (res: Option<(Vec<char>, Vec<char>)>)
    ensures
        match prop_pair(line@) {
            Some(p) => res matches Some(x) && x.0@ == p.0 && x.1@ == p.1,
            None => res is None,
        },
{
    let t = trim_exec(line);
    if t.len() == 0 || t[0] == '#' {
        return None;
    }
    let eq = lit("=");
    proof {
        reveal_strlit("=");
    }
    match split_once_exec(&t, &eq) {
        Some((k, v)) => Some((trim_exec(&k), trim_exec(&v))),
        None => None,
    }
}

fn line_pair_exec(f: LineFormat, line: &Vec<char>) -> (res: Option<(Vec<char>, Vec<char>)>)
    ensures
        match line_pair(f, line@) {
            Some(p) => res matches Some(x) && x.0@ == p.0 && x.1@ == p.1,
            None => res is None,
        },
{
    match f {
        LineFormat::XmlProperty => xml_pair_exec(line),
        LineFormat::Properties => prop_pair_exec(line),
    }
}

/// The pairs read from the lines of `raw` in format `f`, in line order.
pub open spec fn line_pairs(f: LineFormat, raw: Seq<char>) -> Seq<Pair> {
    lines(raw).filter_map(line_pair_fn(f))
}

fn line_pairs_exec(f: LineFormat, raw: &Vec<char>) -> (res: Vec<(Vec<char>, Vec<char>)>)
    ensures
        cpairs(res@) == line_pairs(f, raw@),
{
    let ls = lines_exec(raw);
    let ghost lv = lines(raw@);
    let mut res: Vec<(Vec<char>, Vec<char>)> = Vec::new();
    let mut i: usize = 0;
    while i < ls.len()
        invariant
            i <= ls.len(),
            lv == lines(raw@),
            ls@.len() == lv.len(),
            forall|k: int| 0 <= k < ls@.len() ==> #[trigger] ls@[k]@ == lv[k],
            cpairs(res@) == lv.take(i as int).filter_map(line_pair_fn(f)),
        decreases ls.len() - i,
    {
        assert(lv.take(i + 1).drop_last() =~= lv.take(i as int));
        assert(lv.take(i + 1).last() == ls@[i as int]@);
        match line_pair_exec(f, &ls[i]) {
            Some(p) => {
                let ghost before = cpairs(res@);
                let ghost pv = (p.0@, p.1@);
                res.push(p);
                assert(cpairs(res@) =~= before + seq![pv]);
            },
            None => {},
        }
        i += 1;
    }
    assert(lv.take(ls.len() as int) =~= lv);
    res
}

pub open spec fn unquote_fn() -> spec_fn(Pair) -> Pair {
    |p: Pair| (p.0, trim_by(p.1, Trimmed::Char('"')))
}

/// The pairs of Palworld's `OptionSettings=(...)` tuple: the body runs from just after the
/// first `OptionSettings=(` to the last `)` after it; values lose their surrounding quotes.
pub open spec fn palworld_pairs(raw: Seq<char>) -> Seq<Pair> {
    match find(raw, "OptionSettings=("@) {
        Some(ps) => {
            let after = raw.skip(ps + 16);
            match rfind(after, ")"@) {
                Some(pe) => ini_tuple_pairs(after.take(pe)).map_values(unquote_fn()),
                None => seq![],
            }
        },
        None => seq![],
    }
}

fn palworld_pairs_exec(raw: &Vec<char>) -> (res: Vec<(Vec<char>, Vec<char>)>)
    ensures
        cpairs(res@) == palworld_pairs(raw@),
{
    let opt = lit("OptionSettings=(");
    let close = lit(")");
    proof {
        reveal_strlit("OptionSettings=(");
        reveal_strlit(")");
    }
    let ps = match find_exec(raw, &opt) {
        Some(i) => i,
        None => return Vec::new(),
    };
    let after = slice_of(raw, ps + 16, raw.len());
    assert(after@ == raw@.skip(ps + 16));
    let pe = match rfind_exec(&after, &close) {
        Some(i) => i,
        None => return Vec::new(),
    };
    let body = slice_of(&after, 0, pe);
    let pairs = ini_tuple_pairs_exec(&body);
    let ghost pv = cpairs(pairs@);
    let mut res: Vec<(Vec<char>, Vec<char>)> = Vec::new();
    let mut i: usize = 0;
    while i < pairs.len()
        invariant
            i <= pairs.len(),
            pv == cpairs(pairs@),
            cpairs(res@) == pv.take(i as int).map_values(unquote_fn()),
        decreases pairs.len() - i,
    {
        let v = trim_by_exec(&pairs[i].1, Trimmed::Char('"'));
        let k = pairs[i].0.clone();
        let ghost before = cpairs(res@);
        let ghost nv = (k@, v@);
        res.push((k, v));
        assert(cpairs(res@) =~= before.push(nv));
        assert(pv.take(i + 1).map_values(unquote_fn()) =~= pv.take(i as int).map_values(
            unquote_fn(),
        ).push(nv));
        i += 1;
    }
    assert(pv.take(pairs.len() as int) =~= pv);
    res
}

/// The key/value pairs found in a config file's contents `raw`, in the order they are found.
pub open spec fn found_pairs(format: Seq<char>, raw: Seq<char>) -> Seq<Pair> {
    if format == "json"@ {
        match crate::json::json_object_entries(raw) {
            Some(ps) => ps,
            None => seq![],
        }
    } else if format == "xml-properties"@ {
        line_pairs(LineFormat::XmlProperty, raw)
    } else if format == "palworld-ini"@ {
        palworld_pairs(raw)
    } else {
        line_pairs(LineFormat::Properties, raw)
    }
}

/// The value a field shows: the one found in the file, else the field's default.
pub open spec fn shown_value(found: Seq<Pair>, key: Seq<char>, default: Seq<char>) -> Seq<char> {
    match lookup(found, key) {
        Some(v) => v,
        None => default,
    }
}

/// What `parse_config` yields for the schema's fields: for each field, in schema order, its
/// key and its shown value.
pub open spec fn parsed_config(fields: Seq<ConfigField>, found: Seq<Pair>) -> Seq<Pair> {
    fields.map_values(|f: ConfigField| (f.key@, shown_value(found, f.key@, f.default@)))
}

fn found_pairs_exec(format: &str, raw: &str) -> (res: Vec<(Vec<char>, Vec<char>)>)
    ensures
        cpairs(res@) == found_pairs(format@, raw@),
{
    let f = chars_of(format);
    let r = chars_of(raw);
    proof {
        reveal_strlit("json");
        reveal_strlit("xml-properties");
        reveal_strlit("palworld-ini");
    }
    if eq_exec(&f, &lit("json")) {
        match crate::json::json_flat_object(raw) {
            Some(v) => to_cpairs(&v),
            None => Vec::new(),
        }
    } else if eq_exec(&f, &lit("xml-properties")) {
        line_pairs_exec(LineFormat::XmlProperty, &r)
    } else if eq_exec(&f, &lit("palworld-ini")) {
        palworld_pairs_exec(&r)
    } else {
        line_pairs_exec(LineFormat::Properties, &r)
    }
}

/// Extracts the schema's known fields out of a raw config file's contents, falling back to
/// each field's default when the key is absent (e.g. the file doesn't exist yet). The result
/// lists each schema field, in schema order, with its value, so that collecting it into a map
/// keyed by field gives each field's value.
pub fn parse_config(schema: &ConfigSchema, raw: &str) -> (res: Vec<(String, String)>)
    ensures
        spairs(res@) == parsed_config(schema.fields@, found_pairs(schema.format@, raw@)),
{
    let found = found_pairs_exec(schema.format.as_str(), raw);
    let ghost fp = found_pairs(schema.format@, raw@);
    let mut res: Vec<(String, String)> = Vec::new();
    let mut i: usize = 0;
    while i < schema.fields.len()
        invariant
            i <= schema.fields.len(),
            fp == cpairs(found@),
            spairs(res@) == parsed_config(schema.fields@.take(i as int), fp),
        decreases schema.fields.len() - i,
    {
        let field = &schema.fields[i];
        let key = chars_of(field.key.as_str());
        let value = match lookup_exec(&found, &key) {
            Some(v) => string_of(&v),
            None => field.default.clone(),
        };
        let ghost before = spairs(res@);
        let ghost nv = (field.key@, value@);
        res.push((field.key.clone(), value));
        assert(spairs(res@) =~= before.push(nv));
        assert(parsed_config(schema.fields@.take(i + 1), fp) =~= parsed_config(
            schema.fields@.take(i as int),
            fp,
        ).push(nv));
        i += 1;
    }
    assert(schema.fields@.take(schema.fields.len() as int) =~= schema.fields@);
    res
}


/// Some field of the schema has key `key`.
pub open spec fn has_field(fields: Seq<ConfigField>, key: Seq<char>) -> bool {
    exists|i: int| 0 <= i < fields.len() && (#[trigger] fields[i]).key@ == key
}

fn has_field_exec(fields: &Vec<ConfigField>, key: &Vec<char>) -> (res: bool)
    ensures
        res == has_field(fields@, key@),
{
    let mut i: usize = 0;
    while i < fields.len()
        invariant
            i <= fields.len(),
            forall|j: int| 0 <= j < i ==> (#[trigger] fields@[j]).key@ != key@,
        decreases fields.len() - i,
    {
        if eq_exec(&chars_of(fields[i].key.as_str()), key) {
            assert(0 <= i < fields@.len() && fields@[i as int].key@ == key@);
            return true;
        }
        i += 1;
    }
    false
}

/// A line of an XML properties file after saving: when the line names a schema field (its
/// first `name="..."`) that has a new value, the first `value="..."` gets that value;
/// every other line stays as it is.
pub open spec fn xml_rendered_line(line: Seq<char>, fields: Seq<ConfigField>, vals: Seq<Pair>) -> Seq<
    char,
> {
    match find(line, "name=\""@) {
        Some(ns) => {
            let after_name = line.skip(ns + 6);
            match find(after_name, "\""@) {
                Some(ne) => {
                    let name = after_name.take(ne);
                    if !has_field(fields, name) {
                        line
                    } else {
                        match lookup(vals, name) {
                            Some(nv) => match find(line, "value=\""@) {
                                Some(vs) => {
                                    let after_value = line.skip(vs + 7);
                                    match find(after_value, "\""@) {
                                        Some(ve) => line.take(vs) + "value=\""@ + nv + "\""@
                                            + after_value.skip(ve + 1),
                                        None => line,
                                    }
                                },
                                None => line,
                            },
                            None => line,
                        }
                    }
                },
                None => line,
            }
        },
        None => line,
    }
}

/// The name of the property a line of an XML properties file holds, if any.
pub open spec fn xml_name(line: Seq<char>) -> Option<Seq<char>> {
    match xml_pair(line) {
        Some(p) => Some(p.0),
        None => None,
    }
}

/// The names of the properties the file's lines hold.
pub open spec fn xml_names(ls: Seq<Seq<char>>) -> Seq<Seq<char>> {
    ls.filter_map(|l: Seq<char>| xml_name(l))
}

/// The element written for a saved field the file does not hold yet.
pub open spec fn xml_element(key: Seq<char>, v: Seq<char>) -> Seq<char> {
    "  <property name=\""@ + key + "\" value=\""@ + v + "\"/>"@
}

/// The elements added on saving: each schema field, in schema order, that has a new value and
/// whose property no line of the file holds.
pub open spec fn xml_appended(fields: Seq<ConfigField>, vals: Seq<Pair>, seen: Seq<Seq<char>>) -> Seq<
    Seq<char>,
> {
    fields.filter_map(
        |f: ConfigField|
            if seen.contains(f.key@) {
                None
            } else {
                match lookup(vals, f.key@) {
                    Some(v) => Some(xml_element(f.key@, v)),
                    None => None,
                }
            },
    )
}

/// The file's last line closes an element (the root's closing tag, `</...>`).
pub open spec fn ends_with_close(ls: Seq<Seq<char>>) -> bool {
    ls.len() > 0 && starts_with(trim(ls.last()), "</"@)
}

/// The lines of an XML properties file after saving: each line rendered, and the added
/// elements placed before a closing last line (so that they stay inside the root element),
/// or at the end when there is none.
pub open spec fn xml_rendered_lines(ls: Seq<Seq<char>>, fields: Seq<ConfigField>, vals: Seq<Pair>) -> Seq<
    Seq<char>,
> {
    let r = ls.map_values(|l: Seq<char>| xml_rendered_line(l, fields, vals));
    let a = xml_appended(fields, vals, xml_names(ls));
    if ends_with_close(ls) {
        r.drop_last() + a + seq![r.last()]
    } else {
        r + a
    }
}

/// An XML properties file after saving: its rendered lines joined by `\n`.
pub open spec fn xml_rendered(raw: Seq<char>, fields: Seq<ConfigField>, vals: Seq<Pair>) -> Seq<
    char,
> {
    join(xml_rendered_lines(lines(raw), fields, vals), "\n"@)
}

fn xml_rendered_line_exec(
    line: &Vec<char>,
    fields: &Vec<ConfigField>,
    vals: &Vec<(Vec<char>, Vec<char>)>,
) -> (res: Vec<char>)
    ensures
        res@ == xml_rendered_line(line@, fields@, cpairs(vals@)),
{
    let name_attr = lit("name=\"");
    let value_attr = lit("value=\"");
    let quote = lit("\"");
    proof {
        reveal_strlit("name=\"");
        reveal_strlit("value=\"");
        reveal_strlit("\"");
    }
    let ns = match find_exec(line, &name_attr) {
        Some(i) => i,
        None => return line.clone(),
    };
    let after_name = slice_of(line, ns + 6, line.len());
    assert(after_name@ == line@.skip(ns + 6));
    let ne = match find_exec(&after_name, &quote) {
        Some(i) => i,
        None => return line.clone(),
    };
    let name = slice_of(&after_name, 0, ne);
    if !has_field_exec(fields, &name) {
        return line.clone();
    }
    let nv = match lookup_exec(vals, &name) {
        Some(v) => v,
        None => return line.clone(),
    };
    let vs = match find_exec(line, &value_attr) {
        Some(i) => i,
        None => return line.clone(),
    };
    let after_value = slice_of(line, vs + 7, line.len());
    assert(after_value@ == line@.skip(vs + 7));
    let ve = match find_exec(&after_value, &quote) {
        Some(i) => i,
        None => return line.clone(),
    };
    let mut out = slice_of(line, 0, vs);
    push_all(&mut out, &value_attr);
    push_all(&mut out, &nv);
    push_all(&mut out, &quote);
    push_all(&mut out, &slice_of(&after_value, ve + 1, after_value.len()));
    assert(after_value@.subrange(ve + 1, after_value@.len() as int) =~= after_value@.skip(ve + 1));
    out
}

fn xml_appended_exec(
    fields: &Vec<ConfigField>,
    vals: &Vec<(Vec<char>, Vec<char>)>,
    seen: &Vec<Vec<char>>,
    out: &mut Vec<Vec<char>>,
)
    ensures
        final(out)@.map_values(|v: Vec<char>| v@) == old(out)@.map_values(|v: Vec<char>| v@)
            + xml_appended(fields@, cpairs(vals@), seen@.map_values(|v: Vec<char>| v@)),
{
    let ghost sv = seen@.map_values(|v: Vec<char>| v@);
    let ghost vv = cpairs(vals@);
    let ghost h = |f: ConfigField|
        if sv.contains(f.key@) {
            None
        } else {
            match lookup(vv, f.key@) {
                Some(v) => Some(xml_element(f.key@, v)),
                None => None,
            }
        };
    let ghost first = out@.map_values(|v: Vec<char>| v@);
    let open_name = lit("  <property name=\"");
    let mid = lit("\" value=\"");
    let close = lit("\"/>");
    let mut j: usize = 0;
    while j < fields.len()
        invariant
            j <= fields.len(),
            sv == seen@.map_values(|v: Vec<char>| v@),
            vv == cpairs(vals@),
            open_name@ == "  <property name=\""@,
            mid@ == "\" value=\""@,
            close@ == "\"/>"@,
            h == (|f: ConfigField|
                if sv.contains(f.key@) {
                    None
                } else {
                    match lookup(vv, f.key@) {
                        Some(v) => Some(xml_element(f.key@, v)),
                        None => None,
                    }
                }),
            out@.map_values(|v: Vec<char>| v@) == first + fields@.take(j as int).filter_map(h),
        decreases fields.len() - j,
    {
        assert(fields@.take(j + 1).drop_last() =~= fields@.take(j as int));
        assert(fields@.take(j + 1).last() == fields@[j as int]);
        let key = chars_of(fields[j].key.as_str());
        if !contains_seq_exec(seen, &key) {
            match lookup_exec(vals, &key) {
                Some(v) => {
                    let mut x = open_name.clone();
                    push_all(&mut x, &key);
                    push_all(&mut x, &mid);
                    push_all(&mut x, &v);
                    push_all(&mut x, &close);
                    let ghost before = out@.map_values(|v: Vec<char>| v@);
                    out.push(x);
                    assert(out@.map_values(|v: Vec<char>| v@) =~= before + seq![x@]);
                },
                None => {},
            }
        }
        j += 1;
    }
    assert(fields@.take(fields.len() as int) =~= fields@);
    assert(h == (|f: ConfigField|
        if sv.contains(f.key@) {
            None
        } else {
            match lookup(vv, f.key@) {
                Some(v) => Some(xml_element(f.key@, v)),
                None => None,
            }
        }));
}

fn xml_rendered_exec(raw: &Vec<char>, fields: &Vec<ConfigField>, vals: &Vec<(Vec<char>, Vec<char>)>) -> (res:
    Vec<char>)
    ensures
        res@ == xml_rendered(raw@, fields@, cpairs(vals@)),
{
    let ls = lines_exec(raw);
    let ghost lv = lines(raw@);
    let ghost f = |l: Seq<char>| xml_rendered_line(l, fields@, cpairs(vals@));
    let ghost g = |l: Seq<char>| xml_name(l);
    let mut out: Vec<Vec<char>> = Vec::new();
    let mut seen: Vec<Vec<char>> = Vec::new();
    let mut i: usize = 0;
    while i < ls.len()
        invariant
            i <= ls.len(),
            lv == lines(raw@),
            f == (|l: Seq<char>| xml_rendered_line(l, fields@, cpairs(vals@))),
            g == (|l: Seq<char>| xml_name(l)),
            ls@.len() == lv.len(),
            forall|k: int| 0 <= k < ls@.len() ==> #[trigger] ls@[k]@ == lv[k],
            out@.len() == i,
            forall|k: int| 0 <= k < i ==> #[trigger] out@[k]@ == f(lv[k]),
            seen@.map_values(|v: Vec<char>| v@) == lv.take(i as int).filter_map(g),
        decreases ls.len() - i,
    {
        assert(lv.take(i + 1).drop_last() =~= lv.take(i as int));
        assert(lv.take(i + 1).last() == lv[i as int]);
        let r = xml_rendered_line_exec(&ls[i], fields, vals);
        out.push(r);
        match xml_pair_exec(&ls[i]) {
            Some((name, _)) => {
                let ghost before = seen@.map_values(|v: Vec<char>| v@);
                seen.push(name);
                assert(seen@.map_values(|v: Vec<char>| v@) =~= before + seq![name@]);
            },
            None => {},
        }
        i += 1;
    }
    assert(lv.take(ls.len() as int) =~= lv);
    let ghost rv = lv.map_values(f);
    assert(out@.map_values(|v: Vec<char>| v@) =~= rv);
    let ghost av = xml_appended(fields@, cpairs(vals@), xml_names(lv));
    let closes = ls.len() > 0 && starts_with_exec(&trim_exec(&ls[ls.len() - 1]), &lit("</"));
    proof {
        reveal_strlit("</");
    }
    if closes {
        let last = out.pop().unwrap();
        assert(out@.map_values(|v: Vec<char>| v@) =~= rv.drop_last());
        xml_appended_exec(fields, vals, &seen, &mut out);
        let ghost before = out@.map_values(|v: Vec<char>| v@);
        out.push(last);
        assert(out@.map_values(|v: Vec<char>| v@) =~= before + seq![rv.last()]);
    } else {
        xml_appended_exec(fields, vals, &seen, &mut out);
    }
    assert(out@.map_values(|v: Vec<char>| v@) =~= xml_rendered_lines(lv, fields@, cpairs(vals@)));
    let nl = lit("\n");
    proof {
        reveal_strlit("\n");
    }
    join_exec(&out, &nl)
}

/// A value as Palworld's parser wants it: text and password values in double quotes.
pub open spec fn palworld_value(field_type: Seq<char>, v: Seq<char>) -> Seq<char> {
    if field_type == "text"@ || field_type == "password"@ {
        "\""@ + v + "\""@
    } else {
        v
    }
}

/// `i` is the first position of a pair with key `k`.
pub open spec fn is_first_key(ps: Seq<Pair>, k: Seq<char>, i: int) -> bool {
    0 <= i < ps.len() && ps[i].0 == k && forall|j: int| 0 <= j < i ==> (#[trigger] ps[j]).0 != k
}

/// One schema field applied to the tuple's pairs: with a new value, the first pair with the
/// field's key gets it, or a new pair is appended.
pub open spec fn apply_field(ps: Seq<Pair>, f: ConfigField, vals: Seq<Pair>) -> Seq<Pair> {
    match lookup(vals, f.key@) {
        Some(nv) => {
            let r = palworld_value(f.field_type@, nv);
            if exists|i: int| is_first_key(ps, f.key@, i) {
                let i = choose|i: int| is_first_key(ps, f.key@, i);
                ps.update(i, (ps[i].0, r))
            } else {
                ps.push((f.key@, r))
            }
        },
        None => ps,
    }
}

/// All schema fields applied to the tuple's pairs, in schema order.
pub open spec fn apply_fields(ps: Seq<Pair>, fields: Seq<ConfigField>, vals: Seq<Pair>) -> Seq<Pair>
    decreases fields.len(),
{
    if fields.len() == 0 {
        ps
    } else {
        apply_field(apply_fields(ps, fields.drop_last(), vals), fields.last(), vals)
    }
}

pub open spec fn pair_text(p: Pair) -> Seq<char> {
    p.0 + "="@ + p.1
}

/// Palworld's settings after saving: the `OptionSettings=(...)` body is rewritten from its
/// pairs with the new values applied; everything around it stays. Without such a tuple the
/// text is unchanged.
pub open spec fn palworld_rendered(raw: Seq<char>, fields: Seq<ConfigField>, vals: Seq<Pair>) -> Seq<
    char,
> {
    match find(raw, "OptionSettings=("@) {
        Some(ps) => {
            let ts = ps + 16;
            match rfind(raw.skip(ts), ")"@) {
                Some(k) => {
                    let pe = ts + k;
                    let pairs = apply_fields(ini_tuple_pairs(raw.subrange(ts, pe)), fields, vals);
                    raw.take(ts) + join(pairs.map_values(|p: Pair| pair_text(p)), ","@) + raw.skip(
                        pe,
                    )
                },
                None => raw,
            }
        },
        None => raw,
    }
}

fn apply_field_exec(
    ps: &mut Vec<(Vec<char>, Vec<char>)>,
    f: &ConfigField,
    vals: &Vec<(Vec<char>, Vec<char>)>,
)
    ensures
        cpairs(final(ps)@) == apply_field(cpairs(old(ps)@), *f, cpairs(vals@)),
{
    let key = chars_of(f.key.as_str());
    let nv = match lookup_exec(vals, &key) {
        Some(v) => v,
        None => return ,
    };
    let ft = chars_of(f.field_type.as_str());
    let q = lit("\"");
    proof {
        reveal_strlit("text");
        reveal_strlit("password");
        reveal_strlit("\"");
    }
    let r = if eq_exec(&ft, &lit("text")) || eq_exec(&ft, &lit("password")) {
        let mut x = q.clone();
        push_all(&mut x, &nv);
        push_all(&mut x, &q);
        x
    } else {
        nv
    };
    let ghost old_ps = cpairs(ps@);
    let mut i: usize = 0;
    while i < ps.len()
        invariant
            i <= ps.len(),
            old_ps == cpairs(ps@),
            old_ps == cpairs(old(ps)@),
            key@ == f.key@,
            lookup(cpairs(vals@), f.key@) == Some(nv@),
            r@ == palworld_value(f.field_type@, nv@),
            forall|j: int| 0 <= j < i ==> (#[trigger] old_ps[j]).0 != key@,
        decreases ps.len() - i,
    {
        assert(old_ps[i as int] == (ps@[i as int].0@, ps@[i as int].1@));
        if eq_exec(&ps[i].0, &key) {
            let k = ps[i].0.clone();
            let ghost nvv = (k@, r@);
            ps.set(i, (k, r));
            proof {
                assert(is_first_key(old_ps, f.key@, i as int));
                let c = choose|c: int| is_first_key(old_ps, f.key@, c);
                if c < i {
                    assert(old_ps[c].0 != key@);
                } else if i < c {
                    assert(old_ps[i as int].0 != f.key@);
                }
                assert(cpairs(ps@) =~= old_ps.update(i as int, nvv));
            }
            return ;
        }
        i += 1;
    }
    let ghost nvv = (key@, r@);
    ps.push((key, r));
    assert(cpairs(ps@) =~= old_ps.push(nvv));
}

fn palworld_rendered_exec(
    raw: &Vec<char>,
    fields: &Vec<ConfigField>,
    vals: &Vec<(Vec<char>, Vec<char>)>,
) -> (res: Vec<char>)
    ensures
        res@ == palworld_rendered(raw@, fields@, cpairs(vals@)),
{
    let opt = lit("OptionSettings=(");
    let close = lit(")");
    let comma = lit(",");
    let eqs = lit("=");
    proof {
        reveal_strlit("OptionSettings=(");
        reveal_strlit(")");
        reveal_strlit(",");
        reveal_strlit("=");
    }
    let ps = match find_exec(raw, &opt) {
        Some(i) => i,
        None => return raw.clone(),
    };
    let ts = ps + 16;
    let after = slice_of(raw, ts, raw.len());
    assert(after@ == raw@.skip(ts as int));
    let k = match rfind_exec(&after, &close) {
        Some(i) => i,
        None => return raw.clone(),
    };
    let pe = ts + k;
    let body = slice_of(raw, ts, pe);
    let mut pairs = ini_tuple_pairs_exec(&body);
    let ghost p0 = cpairs(pairs@);
    let mut i: usize = 0;
    while i < fields.len()
        invariant
            i <= fields.len(),
            cpairs(pairs@) == apply_fields(p0, fields@.take(i as int), cpairs(vals@)),
        decreases fields.len() - i,
    {
        assert(fields@.take(i + 1).drop_last() =~= fields@.take(i as int));
        apply_field_exec(&mut pairs, &fields[i], vals);
        i += 1;
    }
    assert(fields@.take(fields.len() as int) =~= fields@);
    let ghost pv = cpairs(pairs@);
    let mut texts: Vec<Vec<char>> = Vec::new();
    let mut j: usize = 0;
    while j < pairs.len()
        invariant
            j <= pairs.len(),
            pv == cpairs(pairs@),
            eqs@ == "="@,
            texts@.len() == j,
            forall|m: int| 0 <= m < j ==> #[trigger] texts@[m]@ == pair_text(pv[m]),
        decreases pairs.len() - j,
    {
        assert(pv[j as int] == (pairs@[j as int].0@, pairs@[j as int].1@));
        let mut x = pairs[j].0.clone();
        push_all(&mut x, &eqs);
        push_all(&mut x, &pairs[j].1);
        texts.push(x);
        j += 1;
    }
    assert(texts@.map_values(|v: Vec<char>| v@) =~= pv.map_values(|p: Pair| pair_text(p)));
    let mut out = slice_of(raw, 0, ts);
    push_all(&mut out, &join_exec(&texts, &comma));
    push_all(&mut out, &slice_of(raw, pe, raw.len()));
    assert(raw@.subrange(pe as int, raw@.len() as int) =~= raw@.skip(pe as int));
    out
}


/// A line of a `key=value` file after saving, and the key it replaced if any: a non-comment
/// line whose trimmed key is a schema field with a new value becomes `key=value`; every other
/// line stays as it is.
pub open spec fn prop_rendered_line(line: Seq<char>, fields: Seq<ConfigField>, vals: Seq<Pair>) -> (
    Seq<char>,
    Option<Seq<char>>,
) {
    let t = trim(line);
    if t.len() == 0 || t[0] == '#' {
        (line, None)
    } else {
        match split_once(t, "="@) {
            Some((k, _)) => {
                let key = trim(k);
                if has_field(fields, key) {
                    match lookup(vals, key) {
                        Some(v) => (key + "="@ + v, Some(key)),
                        None => (line, None),
                    }
                } else {
                    (line, None)
                }
            },
            None => (line, None),
        }
    }
}

/// The keys whose lines were rewritten in place.
pub open spec fn replaced_keys(ls: Seq<Seq<char>>, fields: Seq<ConfigField>, vals: Seq<Pair>) -> Seq<
    Seq<char>,
> {
    ls.filter_map(|l: Seq<char>| prop_rendered_line(l, fields, vals).1)
}

/// The `key=value` lines added at the end: each schema field, in schema order, that has a new
/// value and whose key was not rewritten in place.
pub open spec fn appended_lines(fields: Seq<ConfigField>, vals: Seq<Pair>, seen: Seq<Seq<char>>) -> Seq<
    Seq<char>,
> {
    fields.filter_map(
        |f: ConfigField|
            if seen.contains(f.key@) {
                None
            } else {
                match lookup(vals, f.key@) {
                    Some(v) => Some(f.key@ + "="@ + v),
                    None => None,
                }
            },
    )
}

/// A `key=value` file after saving: the rendered lines, then the appended ones, joined by
/// `\n`.
pub open spec fn props_rendered(raw: Seq<char>, fields: Seq<ConfigField>, vals: Seq<Pair>) -> Seq<
    char,
> {
    let ls = lines(raw);
    join(
        ls.map_values(|l: Seq<char>| prop_rendered_line(l, fields, vals).0) + appended_lines(
            fields,
            vals,
            replaced_keys(ls, fields, vals),
        ),
        "\n"@,
    )
}

fn prop_rendered_line_exec(
    line: &Vec<char>,
    fields: &Vec<ConfigField>,
    vals: &Vec<(Vec<char>, Vec<char>)>,
) -> (res: (Vec<char>, Option<Vec<char>>))
    ensures
        res.0@ == prop_rendered_line(line@, fields@, cpairs(vals@)).0,
        match prop_rendered_line(line@, fields@, cpairs(vals@)).1 {
            Some(k) => res.1 matches Some(x) && x@ == k,
            None => res.1 is None,
        },
{
    let t = trim_exec(line);
    if t.len() == 0 || t[0] == '#' {
        return (line.clone(), None);
    }
    let eqs = lit("=");
    proof {
        reveal_strlit("=");
    }
    match split_once_exec(&t, &eqs) {
        Some((k, _)) => {
            let key = trim_exec(&k);
            if has_field_exec(fields, &key) {
                match lookup_exec(vals, &key) {
                    Some(v) => {
                        let mut out = key.clone();
                        push_all(&mut out, &eqs);
                        push_all(&mut out, &v);
                        (out, Some(key))
                    },
                    None => (line.clone(), None),
                }
            } else {
                (line.clone(), None)
            }
        },
        None => (line.clone(), None),
    }
}

fn contains_seq_exec(list: &Vec<Vec<char>>, x: &Vec<char>) -> (res: bool)
    ensures
        res == list@.map_values(|v: Vec<char>| v@).contains(x@),
{
    let ghost lv = list@.map_values(|v: Vec<char>| v@);
    let mut i: usize = 0;
    while i < list.len()
        invariant
            i <= list.len(),
            lv == list@.map_values(|v: Vec<char>| v@),
            forall|j: int| 0 <= j < i ==> lv[j] != x@,
        decreases list.len() - i,
    {
        if eq_exec(&list[i], x) {
            assert(lv[i as int] == x@);
            return true;
        }
        i += 1;
    }
    false
}

fn props_rendered_exec(
    raw: &Vec<char>,
    fields: &Vec<ConfigField>,
    vals: &Vec<(Vec<char>, Vec<char>)>,
) -> (res: Vec<char>)
    ensures
        res@ == props_rendered(raw@, fields@, cpairs(vals@)),
{
    let ls = lines_exec(raw);
    let ghost lv = lines(raw@);
    let ghost vv = cpairs(vals@);
    let ghost g = |l: Seq<char>| prop_rendered_line(l, fields@, vv).1;
    let mut out: Vec<Vec<char>> = Vec::new();
    let mut seen: Vec<Vec<char>> = Vec::new();
    let mut i: usize = 0;
    while i < ls.len()
        invariant
            i <= ls.len(),
            lv == lines(raw@),
            vv == cpairs(vals@),
            g == (|l: Seq<char>| prop_rendered_line(l, fields@, vv).1),
            ls@.len() == lv.len(),
            forall|k: int| 0 <= k < ls@.len() ==> #[trigger] ls@[k]@ == lv[k],
            out@.len() == i,
            forall|k: int|
                0 <= k < i ==> #[trigger] out@[k]@ == prop_rendered_line(lv[k], fields@, vv).0,
            seen@.map_values(|v: Vec<char>| v@) == lv.take(i as int).filter_map(g),
        decreases ls.len() - i,
    {
        assert(lv.take(i + 1).drop_last() =~= lv.take(i as int));
        assert(lv.take(i + 1).last() == lv[i as int]);
        let (l, k) = prop_rendered_line_exec(&ls[i], fields, vals);
        out.push(l);
        match k {
            Some(key) => {
                let ghost before = seen@.map_values(|v: Vec<char>| v@);
                seen.push(key);
                assert(seen@.map_values(|v: Vec<char>| v@) =~= before + seq![key@]);
            },
            None => {},
        }
        i += 1;
    }
    assert(lv.take(ls.len() as int) =~= lv);
    let ghost sv = seen@.map_values(|v: Vec<char>| v@);
    assert(sv == replaced_keys(lv, fields@, vv));
    let ghost h = |f: ConfigField|
        if sv.contains(f.key@) {
            None
        } else {
            match lookup(vv, f.key@) {
                Some(v) => Some(f.key@ + "="@ + v),
                None => None,
            }
        };
    let eqs = lit("=");
    let ghost first = out@.map_values(|v: Vec<char>| v@);
    let mut j: usize = 0;
    while j < fields.len()
        invariant
            j <= fields.len(),
            sv == seen@.map_values(|v: Vec<char>| v@),
            vv == cpairs(vals@),
            eqs@ == "="@,
            h == (|f: ConfigField|
                if sv.contains(f.key@) {
                    None
                } else {
                    match lookup(vv, f.key@) {
                        Some(v) => Some(f.key@ + "="@ + v),
                        None => None,
                    }
                }),
            out@.map_values(|v: Vec<char>| v@) == first + fields@.take(j as int).filter_map(h),
        decreases fields.len() - j,
    {
        assert(fields@.take(j + 1).drop_last() =~= fields@.take(j as int));
        assert(fields@.take(j + 1).last() == fields@[j as int]);
        let key = chars_of(fields[j].key.as_str());
        if !contains_seq_exec(&seen, &key) {
            match lookup_exec(vals, &key) {
                Some(v) => {
                    let mut x = key.clone();
                    push_all(&mut x, &eqs);
                    push_all(&mut x, &v);
                    let ghost before = out@.map_values(|v: Vec<char>| v@);
                    out.push(x);
                    assert(out@.map_values(|v: Vec<char>| v@) =~= before + seq![x@]);
                    assert(before + seq![x@] =~= first + fields@.take(j + 1).filter_map(h));
                },
                None => {},
            }
        }
        j += 1;
    }
    assert(fields@.take(fields.len() as int) =~= fields@);
    assert(first =~= lv.map_values(|l: Seq<char>| prop_rendered_line(l, fields@, vv).0));
    let nl = lit("\n");
    proof {
        reveal_strlit("\n");
    }
    join_exec(&out, &nl)
}

/// A new JSON value for a field, by the field's type.
pub enum JsonValue {
    /// A "number" field: the text to read as a JSON number.
    Number(String),
    /// A "bool" field.
    Flag(bool),
    /// Any other field: a JSON string.
    Text(String),
}

pub enum JsonValueView {
    Number(Seq<char>),
    Flag(bool),
    Text(Seq<char>),
}

pub open spec fn json_view(v: JsonValue) -> JsonValueView {
    match v {
        JsonValue::Number(s) => JsonValueView::Number(s@),
        JsonValue::Flag(b) => JsonValueView::Flag(b),
        JsonValue::Text(s) => JsonValueView::Text(s@),
    }
}

/// The JSON value for a field of type `field_type` given the new value `v`: a number for
/// "number" fields, `v == "true"` for "bool" fields, a string otherwise.
pub open spec fn json_value_of(field_type: Seq<char>, v: Seq<char>) -> JsonValueView {
    if field_type == "number"@ {
        JsonValueView::Number(v)
    } else if field_type == "bool"@ {
        JsonValueView::Flag(v == "true"@)
    } else {
        JsonValueView::Text(v)
    }
}

/// The updates written into a JSON config: each schema field with a new value, in schema order.
pub open spec fn json_updates(fields: Seq<ConfigField>, vals: Seq<Pair>) -> Seq<(Seq<char>, JsonValueView)> {
    fields.filter_map(
        |f: ConfigField|
            match lookup(vals, f.key@) {
                Some(v) => Some((f.key@, json_value_of(f.field_type@, v))),
                None => None,
            },
    )
}

pub open spec fn json_updates_view(u: Seq<(String, JsonValue)>) -> Seq<(Seq<char>, JsonValueView)> {
    u.map_values(|p: (String, JsonValue)| (p.0@, json_view(p.1)))
}

fn json_updates_exec(fields: &Vec<ConfigField>, vals: &Vec<(Vec<char>, Vec<char>)>) -> (res: Vec<
    (String, JsonValue),
>)
    ensures
        json_updates_view(res@) == json_updates(fields@, cpairs(vals@)),
{
    let ghost vv = cpairs(vals@);
    let ghost h = |f: ConfigField|
        match lookup(vv, f.key@) {
            Some(v) => Some((f.key@, json_value_of(f.field_type@, v))),
            None => None,
        };
    let mut res: Vec<(String, JsonValue)> = Vec::new();
    let mut j: usize = 0;
    while j < fields.len()
        invariant
            j <= fields.len(),
            vv == cpairs(vals@),
            h == (|f: ConfigField|
                match lookup(vv, f.key@) {
                    Some(v) => Some((f.key@, json_value_of(f.field_type@, v))),
                    None => None,
                }),
            json_updates_view(res@) == fields@.take(j as int).filter_map(h),
        decreases fields.len() - j,
    {
        assert(fields@.take(j + 1).drop_last() =~= fields@.take(j as int));
        assert(fields@.take(j + 1).last() == fields@[j as int]);
        let key = chars_of(fields[j].key.as_str());
        match lookup_exec(vals, &key) {
            Some(v) => {
                let ft = chars_of(fields[j].field_type.as_str());
                proof {
                    reveal_strlit("number");
                    reveal_strlit("bool");
                    reveal_strlit("true");
                }
                let value = if eq_exec(&ft, &lit("number")) {
                    JsonValue::Number(string_of(&v))
                } else if eq_exec(&ft, &lit("bool")) {
                    JsonValue::Flag(eq_exec(&v, &lit("true")))
                } else {
                    JsonValue::Text(string_of(&v))
                };
                let ghost before = json_updates_view(res@);
                let ghost nv = (fields[j as int].key@, json_view(value));
                res.push((fields[j].key.clone(), value));
                assert(json_updates_view(res@) =~= before + seq![nv]);
            },
            None => {},
        }
        j += 1;
    }
    assert(fields@.take(fields.len() as int) =~= fields@);
    res
}

/// A config file's new contents, or, for JSON files, the field updates to merge into the
/// existing JSON object.
pub enum RenderedConfig {
    Text(String),
    JsonUpdates(Vec<(String, JsonValue)>),
}

pub enum RenderedConfigView {
    Text(Seq<char>),
    JsonUpdates(Seq<(Seq<char>, JsonValueView)>),
}

pub open spec fn rendered_view(r: RenderedConfig) -> RenderedConfigView {
    match r {
        RenderedConfig::Text(s) => RenderedConfigView::Text(s@),
        RenderedConfig::JsonUpdates(u) => RenderedConfigView::JsonUpdates(json_updates_view(u@)),
    }
}

/// What saving new values into a config file of format `format` produces.
pub open spec fn rendered_config(
    format: Seq<char>,
    raw: Seq<char>,
    fields: Seq<ConfigField>,
    vals: Seq<Pair>,
) -> RenderedConfigView {
    if format == "xml-properties"@ {
        RenderedConfigView::Text(xml_rendered(raw, fields, vals))
    } else if format == "palworld-ini"@ {
        RenderedConfigView::Text(palworld_rendered(raw, fields, vals))
    } else if format == "json"@ {
        RenderedConfigView::JsonUpdates(json_updates(fields, vals))
    } else {
        RenderedConfigView::Text(props_rendered(raw, fields, vals))
    }
}

/// Merges the given values back into the raw config file, preserving unrelated lines/keys and
/// appending any known field that wasn't already present. For JSON files the result lists the
/// typed field updates; merging them into the JSON object (which reads "number" fields as
/// floating-point numbers) is left to the caller.
pub fn render_config(schema: &ConfigSchema, raw: &str, values: &Vec<(String, String)>) -> (res:
    RenderedConfig)
    ensures
        rendered_view(res) == rendered_config(schema.format@, raw@, schema.fields@, spairs(values@)),
{
    let f = chars_of(schema.format.as_str());
    let r = chars_of(raw);
    let vals = to_cpairs(values);
    proof {
        reveal_strlit("json");
        reveal_strlit("xml-properties");
        reveal_strlit("palworld-ini");
    }
    if eq_exec(&f, &lit("xml-properties")) {
        RenderedConfig::Text(string_of(&xml_rendered_exec(&r, &schema.fields, &vals)))
    } else if eq_exec(&f, &lit("palworld-ini")) {
        RenderedConfig::Text(string_of(&palworld_rendered_exec(&r, &schema.fields, &vals)))
    } else if eq_exec(&f, &lit("json")) {
        RenderedConfig::JsonUpdates(json_updates_exec(&schema.fields, &vals))
    } else {
        RenderedConfig::Text(string_of(&props_rendered_exec(&r, &schema.fields, &vals)))
    }
}

} // verus!
