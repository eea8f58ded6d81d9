//! Game templates: install steps, start commands, config schemas, and the text
//! transformations applied to them.
use vstd::prelude::*;

use crate::text::{
    chars_of, concat, contains, decimal, decimal_exec, find, find_exec, is_first_occurrence, lemma_find_is,
    lemma_find_some_first, lit, occurs_at, push_all, replace, replace_exec, string_of,
};

verus! {

/// How a game gets installed: the install type (e.g. steamcmd / docker), an optional
/// Steam app id, and the shell steps to run.
pub struct GameInstall {
    pub install_type: String,
    pub app_id: Option<u32>,
    pub steps: Vec<String>,
}

/// One choice of a "select" config field.
pub struct ConfigOption {
    pub value: String,
    pub label: String,
}

/// One editable field of a game's config file.
pub struct ConfigField {
    pub key: String,
    pub label: String,
    /// "text" | "number" | "password" | "bool" | "select"
    pub field_type: String,
    pub default: String,
    /// "tcp" or "udp" when this field controls the game's listen port.
    pub opens_port_protocol: Option<String>,
    /// Fixed set of valid values for "select" fields.
    pub options: Option<Vec<ConfigOption>>,
    /// Short explanatory text shown under the field.
    pub hint: Option<String>,
}

/// A port that must be opened in the server's firewall.
pub struct PortSpec {
    pub port: u16,
    /// "tcp" | "udp"
    pub protocol: String,
}

/// Where and in which format a game keeps its config, and its editable fields.
pub struct ConfigSchema {
    /// Path to the config file, relative to the instance's install directory.
    pub file: String,
    /// "properties", "json", "xml-properties" or "palworld-ini".
    pub format: String,
    pub fields: Vec<ConfigField>,
}

/// RCON access for games whose console is not read from stdin.
pub struct RconSpec {
    pub port: u16,
    /// Path to the file holding the RCON password, relative to the install directory.
    pub password_file: String,
    /// RCON command to broadcast a message, `{message}` is substituted.
    pub broadcast_command: String,
    /// RCON command that forces an immediate save.
    pub save_command: Option<String>,
}

/// One installable game.
pub struct GameTemplate {
    pub id: String,
    pub name: String,
    pub subtitle: String,
    pub icon: String,
    pub requires: Vec<String>,
    pub install: GameInstall,
    pub start_command: String,
    pub default_cpu_limit_percent: u32,
    pub default_ram_limit_mb: u32,
    pub config: Option<ConfigSchema>,
    pub ports: Vec<PortSpec>,
    pub tested_on: Vec<String>,
    /// How to write a broadcast into the game's stdin console, `{message}` is substituted.
    pub console_say_format: String,
    pub rcon: Option<RconSpec>,
}

/// The console format used when a template names none.
pub fn default_console_say_format() -> (res: String)
    ensures
        res@ == "say {message}"@,
{
    String::from_str("say {message}")
}

/// The first template whose id is `game_id`.
pub open spec fn first_with_id(templates: Seq<GameTemplate>, game_id: Seq<char>, i: int) -> bool {
    0 <= i < templates.len() && templates[i].id@ == game_id && forall|j: int|
        0 <= j < i ==> (#[trigger] templates[j]).id@ != game_id
}

/// Position of the first template whose id is `game_id`.
fn find_template_index(templates: &Vec<GameTemplate>, game_id: &str) -> (res: Option<usize>)
    ensures
        match res {
            Some(i) => first_with_id(templates@, game_id@, i as int),
            None => forall|i: int| 0 <= i < templates@.len() ==> templates@[i].id@ != game_id@,
        },
{
    let mut i: usize = 0;
    while i < templates.len()
        invariant
            i <= templates.len(),
            forall|j: int| 0 <= j < i ==> (#[trigger] templates@[j]).id@ != game_id@,
        decreases templates.len() - i,
    {
        if crate::text::eq_exec(&chars_of(templates[i].id.as_str()), &chars_of(game_id)) {
            return Some(i);
        }
        i += 1;
    }
    None
}

/// Picks the template with id `game_id` out of the loaded templates: the first one with
/// that id, or `None` when there is none.
pub fn find_template(templates: Vec<GameTemplate>, game_id: &str) -> (res: Option<GameTemplate>)
    ensures
        match res {
            Some(t) => exists|i: int| first_with_id(templates@, game_id@, i) && t == templates@[i],
            None => forall|i: int| 0 <= i < templates@.len() ==> templates@[i].id@ != game_id@,
        },
{
    match find_template_index(&templates, game_id) {
        Some(i) => {
            let ghost all = templates@;
            let mut v = templates;
            let t = v.remove(i);
            assert(first_with_id(all, game_id@, i as int) && t == all[i as int]);
            Some(t)
        },
        None => None,
    }
}

/// The JVM start heap for a RAM limit: half of the limit, at least 2048 MB, never above
/// the limit itself.
pub open spec fn xms_mb(ram_limit_mb: nat) -> nat {
    let half = ram_limit_mb / 2;
    let floored = if half < 2048 {
        2048
    } else {
        half
    };
    if floored < ram_limit_mb {
        floored
    } else {
        ram_limit_mb
    }
}

/// What `render_step` produces: the three placeholders substituted in this order.
pub open spec fn rendered_step(template: Seq<char>, instance_id: Seq<char>, ram_limit_mb: nat) -> Seq<
    char,
> {
    replace(
        replace(
            replace(template, "{instance_id}"@, instance_id),
            "{ram_limit_mb}"@,
            decimal(ram_limit_mb),
        ),
        "{xms_mb}"@,
        decimal(xms_mb(ram_limit_mb)),
    )
}

/// Substitutes `{instance_id}` / `{ram_limit_mb}` / `{xms_mb}` placeholders in install steps
/// and start commands.
pub fn render_step(template: &str, instance_id: &str, ram_limit_mb: u32) -> (res: String)
    ensures
        res@ == rendered_step(template@, instance_id@, ram_limit_mb as nat),
{
    let half = ram_limit_mb / 2;
    let floored = if half < 2048 {
        2048
    } else {
        half
    };
    let xms = if floored < ram_limit_mb {
        floored
    } else {
        ram_limit_mb
    };
    let p1 = lit("{instance_id}");
    let p2 = lit("{ram_limit_mb}");
    let p3 = lit("{xms_mb}");
    proof {
        reveal_strlit("{instance_id}");
        reveal_strlit("{ram_limit_mb}");
        reveal_strlit("{xms_mb}");
    }
    let t = chars_of(template);
    let id = chars_of(instance_id);
    let a = replace_exec(&t, &p1, &id);
    let b = replace_exec(&a, &p2, &decimal_exec(ram_limit_mb as u64));
    let c = replace_exec(&b, &p3, &decimal_exec(xms as u64));
    string_of(&c)
}

pub open spec fn quote_char() -> Seq<char> {
    seq!['\'']
}

/// The escape for a single quote inside single quotes: close, escaped quote, reopen.
pub open spec fn quote_escape() -> Seq<char> {
    seq!['\'', '\\', '\'', '\'']
}

/// What `shell_single_quote` produces.
pub open spec fn single_quoted(s: Seq<char>) -> Seq<char> {
    quote_char() + replace(s, quote_char(), quote_escape()) + quote_char()
}

/// Safely wraps a string in single quotes for embedding inside a shell command, escaping any
/// single quotes it contains.
pub fn shell_single_quote(s: &str) -> (res: String)
    ensures
        res@ == single_quoted(s@),
{
    let q = vec!['\''];
    let e = vec!['\'', '\\', '\'', '\''];
    assert(q@ == quote_char());
    assert(e@ == quote_escape());
    let body = replace_exec(&chars_of(s), &q, &e);
    let mut out = q.clone();
    push_all(&mut out, &body);
    push_all(&mut out, &q);
    string_of(&out)
}

/// The value a POSIX shell gives a word made only of single-quoted segments and
/// backslash-escaped characters; `None` for any other word (an unquoted special character,
/// an unterminated quote).
#[verifier::opaque]
pub open spec fn shell_word_value(w: Seq<char>) -> Option<Seq<char>>
    decreases w.len(),
{
    if w.len() == 0 {
        Some(seq![])
    } else if w[0] == '\'' {
        match find(w.drop_first(), quote_char()) {
            Some(j) => if 0 <= j && j + 2 <= w.len() {
                match shell_word_value(w.skip(j + 2)) {
                    Some(r) => Some(w.subrange(1, j + 1) + r),
                    None => None,
                }
            } else {
                None
            },
            None => None,
        }
    } else if w[0] == '\\' && w.len() >= 2 {
        match shell_word_value(w.skip(2)) {
            Some(r) => Some(seq![w[1]] + r),
            None => None,
        }
    } else {
        None
    }
}

proof fn lemma_quote_first_at(a: Seq<char>, rest: Seq<char>)
    requires
        !a.contains('\''),
    ensures
        find(a + quote_char() + rest, quote_char()) == Some(a.len() as int),
{
    let w = a + quote_char() + rest;
    assert(w.subrange(a.len() as int, a.len() as int + 1) =~= quote_char());
    assert forall|j: int| 0 <= j < a.len() implies !occurs_at(w, j, quote_char()) by {
        if occurs_at(w, j, quote_char()) {
            assert(w.subrange(j, j + 1)[0] == '\'');
            assert(a[j] == w[j]);
        }
    }
    lemma_find_is(w, quote_char(), a.len() as int);
}

proof fn lemma_no_quote_before(s: Seq<char>, i: int)
    requires
        0 <= i <= s.len(),
        forall|j: int| 0 <= j < i ==> !occurs_at(s, j, quote_char()),
    ensures
        !s.take(i).contains('\''),
{
    if s.take(i).contains('\'') {
        let j = choose|j: int| 0 <= j < s.take(i).len() && s.take(i)[j] == '\'';
        assert(s.subrange(j, j + 1) =~= quote_char());
        assert(occurs_at(s, j, quote_char()));
    }
}

proof fn lemma_replace_at_first_quote(s: Seq<char>, i: int)
    requires
        is_first_occurrence(s, quote_char(), i),
    ensures
        replace(s, quote_char(), quote_escape()) == s.take(i) + quote_escape() + replace(
            s.skip(i + 1),
            quote_char(),
            quote_escape(),
        ),
{
    reveal(replace);
    lemma_find_is(s, quote_char(), i);
}

proof fn lemma_word_value_escape(tail: Seq<char>, r: Seq<char>)
    requires
        tail.len() >= 2,
        tail[0] == '\\',
        shell_word_value(tail.skip(2)) == Some(r),
    ensures
        shell_word_value(tail) == Some(seq![tail[1]] + r),
{
    reveal(shell_word_value);
}

proof fn lemma_word_value_quoted(w: Seq<char>, a: Seq<char>, tail: Seq<char>, r: Seq<char>)
    requires
        !a.contains('\''),
        w == quote_char() + a + quote_char() + tail,
        shell_word_value(tail) == Some(r),
    ensures
        shell_word_value(w) == Some(a + r),
{
    reveal(shell_word_value);
    assert(w.drop_first() =~= a + quote_char() + tail);
    lemma_quote_first_at(a, tail);
    assert(w.skip(a.len() as int + 2) =~= tail);
    assert(w.subrange(1, a.len() as int + 1) =~= a);
    assert(w[0] == '\'');
}

proof fn lemma_quoted_shape(a: Seq<char>, r2: Seq<char>)
    ensures
        quote_char() + (a + quote_escape() + r2) + quote_char() == quote_char() + a + quote_char()
            + (seq!['\\', '\''] + (quote_char() + r2 + quote_char())),
{
    assert(quote_char() + (a + quote_escape() + r2) + quote_char() =~= quote_char() + a
        + quote_char() + (seq!['\\', '\''] + (quote_char() + r2 + quote_char())));
}

proof fn lemma_round_trip_at_first_quote(s: Seq<char>, i: int)
    requires
        is_first_occurrence(s, quote_char(), i),
        shell_word_value(single_quoted(s.skip(i + 1))) == Some(s.skip(i + 1)),
    ensures
        shell_word_value(single_quoted(s)) == Some(s),
{
    let q = quote_char();
    let e = quote_escape();
    let a = s.take(i);
    let rest = s.skip(i + 1);
    let r2 = replace(rest, q, e);
    lemma_replace_at_first_quote(s, i);
    lemma_no_quote_before(s, i);
    let tail = seq!['\\', '\''] + single_quoted(rest);
    lemma_quoted_shape(a, r2);
    assert(single_quoted(s) == q + a + q + tail);
    assert(tail.skip(2) =~= single_quoted(rest));
    lemma_word_value_escape(tail, rest);
    assert(seq![tail[1]] + rest =~= seq!['\''] + rest);
    lemma_word_value_quoted(single_quoted(s), a, tail, seq!['\''] + rest);
    assert(s =~= a + (seq!['\''] + rest)) by {
        assert(s.subrange(i, i + 1) =~= q);
    }
}

proof fn lemma_round_trip_no_quote(s: Seq<char>)
    requires
        forall|j: int| !occurs_at(s, j, quote_char()),
    ensures
        shell_word_value(single_quoted(s)) == Some(s),
{
    let q = quote_char();
    let e = quote_escape();
    crate::text::lemma_find_none(s, q);
    assert(replace(s, q, e) == s) by {
        reveal(replace);
    }
    lemma_no_quote_before(s, s.len() as int);
    assert(s.take(s.len() as int) =~= s);
    assert(single_quoted(s) =~= q + s + q + Seq::<char>::empty());
    assert(shell_word_value(Seq::<char>::empty()) == Some(Seq::<char>::empty())) by {
        reveal(shell_word_value);
    }
    lemma_word_value_quoted(single_quoted(s), s, Seq::<char>::empty(), Seq::<char>::empty());
    assert(s + Seq::<char>::empty() =~= s);
}

/// The number of single quotes in `s`.
pub open spec fn quote_count(s: Seq<char>) -> nat
    decreases s.len(),
{
    if s.len() == 0 {
        0
    } else {
        quote_count(s.drop_last()) + if s.last() == '\'' {
            1nat
        } else {
            0nat
        }
    }
}

proof fn lemma_quote_count_append(a: Seq<char>, b: Seq<char>)
    ensures
        quote_count(a + b) == quote_count(a) + quote_count(b),
    decreases b.len(),
{
    if b.len() == 0 {
        assert(a + b =~= a);
    } else {
        lemma_quote_count_append(a, b.drop_last());
        assert((a + b).drop_last() =~= a + b.drop_last());
    }
}

proof fn lemma_quote_count_none(s: Seq<char>)
    requires
        forall|j: int| 0 <= j < s.len() ==> s[j] != '\'',
    ensures
        quote_count(s) == 0,
    decreases s.len(),
{
    if s.len() > 0 {
        assert forall|j: int| 0 <= j < s.drop_last().len() implies s.drop_last()[j] != '\'' by {
            assert(s.drop_last()[j] == s[j]);
        }
        lemma_quote_count_none(s.drop_last());
    }
}

proof fn lemma_escaped_len(s: Seq<char>)
    ensures
        replace(s, quote_char(), quote_escape()).len() == s.len() + 3 * quote_count(s),
    decreases s.len(),
{
    reveal(replace);
    let q = quote_char();
    match find(s, q) {
        Some(i) => {
            lemma_find_some_first(s, q);
            let a = s.take(i);
            let rest = s.skip(i + 1);
            lemma_escaped_len(rest);
            assert(s.subrange(i, i + 1)[0] == s[i]);
            assert(s.subrange(i, i + 1) == q);
            assert(s[i] == '\'');
            assert forall|j: int| 0 <= j < a.len() implies a[j] != '\'' by {
                if a[j] == '\'' {
                    assert(s.subrange(j, j + 1) =~= q);
                    assert(occurs_at(s, j, q));
                }
            }
            lemma_quote_count_none(a);
            assert(s =~= a + seq![s[i]] + rest);
            lemma_quote_count_append(a + seq![s[i]], rest);
            lemma_quote_count_append(a, seq![s[i]]);
            assert(quote_count(seq![s[i]]) == 1) by {
                assert(seq![s[i]].drop_last() =~= Seq::<char>::empty());
                assert(seq![s[i]].last() == '\'');
                assert(quote_count(Seq::<char>::empty()) == 0);
            }
        },
        None => {
            assert forall|j: int| 0 <= j < s.len() implies s[j] != '\'' by {
                if s[j] == '\'' {
                    assert(s.subrange(j, j + 1) =~= q);
                    assert(occurs_at(s, j, q));
                    crate::text::lemma_occurs_find_some(s, q, j);
                }
            }
            lemma_quote_count_none(s);
        },
    }
}

/// Quoting adds the two enclosing quotes and three characters for each quote inside
/// (`'` becomes `'\''`): `shell_single_quote(s)` is `s.len() + 2 + 3 * (quotes in s)`
/// characters long, starting and ending with a single quote.
pub proof fn lemma_single_quote_length(s: Seq<char>)
    ensures
        single_quoted(s).len() == s.len() + 2 + 3 * quote_count(s),
        single_quoted(s)[0] == '\'',
        single_quoted(s).last() == '\'',
{
    lemma_escaped_len(s);
}

/// Quoting then reading back as the shell does gives the original string: whatever `s`
/// holds (spaces, `$`, backticks, quotes), `shell_single_quote(s)` is one shell word whose
/// value is exactly `s`.
pub proof fn lemma_single_quote_round_trip(s: Seq<char>)
    ensures
        shell_word_value(single_quoted(s)) == Some(s),
    decreases s.len(),
{
    let q = quote_char();
    if exists|j: int| occurs_at(s, j, q) {
        let j = choose|j: int| occurs_at(s, j, q);
        crate::text::lemma_occurs_find_some(s, q, j);
        let i = choose|i: int| is_first_occurrence(s, q, i);
        lemma_single_quote_round_trip(s.skip(i + 1));
        lemma_round_trip_at_first_quote(s, i);
    } else {
        lemma_round_trip_no_quote(s);
    }
}

} // verus!
