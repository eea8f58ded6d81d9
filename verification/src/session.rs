//! The decisions of an SSH session: which host keys are trusted, how a forced password change
//! is answered and judged, and how streamed output is cut into lines.
use vstd::prelude::*;

use crate::text::{
    chars_of, contains, contains_exec, eq_exec, lemma_replace_keeps_absent, lemma_replace_removes, lit,
    lowercase, lowercase_exec, push_all, replace,
    replace_exec, string_of, trim, trim_end_by, trim_end_exec, trim_exec, Trimmed,
};

verus! {

/// Trust on first use: with no pinned fingerprint any host key is accepted (and pinned by the
/// caller); otherwise only the pinned one.
pub open spec fn host_key_trusted(expected: Option<Seq<char>>, fingerprint: Seq<char>) -> bool {
    match expected {
        None => true,
        Some(e) => e == fingerprint,
    }
}

pub open spec fn opt_str(o: Option<&str>) -> Option<Seq<char>> {
    match o {
        Some(s) => Some(s@),
        None => None,
    }
}

/// Whether the server's host key (its fingerprint) is accepted.
pub fn check_server_key(expected: Option<&str>, fingerprint: &str) -> (res: bool)
    ensures
        res == host_key_trusted(opt_str(expected), fingerprint@),
{
    match expected {
        None => true,
        Some(e) => eq_exec(&chars_of(e), &chars_of(fingerprint)),
    }
}

/// The warning when a pinned host key changed.
pub open spec fn host_key_changed_text(expected: Option<Seq<char>>, seen: Seq<char>) -> Seq<char> {
    "Host-Key hat sich geändert! Erwartet: "@ + (match expected {
        Some(e) => e,
        None => "?"@,
    }) + ", jetzt gesehen: "@ + seen
        + ". Das ist entweder ein neu aufgesetzter Server oder ein möglicher Man-in-the-Middle-Angriff - Verbindung abgebrochen. Falls der Server absichtlich neu aufgesetzt wurde, bestätige das über \"Server bearbeiten\"."@
}

pub fn host_key_changed_message(expected: Option<&str>, seen: &str) -> (res: String)
    ensures
        res@ == host_key_changed_text(opt_str(expected), seen@),
{
    let mut m = lit("Host-Key hat sich geändert! Erwartet: ");
    match expected {
        Some(e) => push_all(&mut m, &chars_of(e)),
        None => push_all(&mut m, &lit("?")),
    }
    push_all(&mut m, &lit(", jetzt gesehen: "));
    push_all(&mut m, &chars_of(seen));
    push_all(
        &mut m,
        &lit(
            ". Das ist entweder ein neu aufgesetzter Server oder ein möglicher Man-in-the-Middle-Angriff - Verbindung abgebrochen. Falls der Server absichtlich neu aufgesetzt wurde, bestätige das über \"Server bearbeiten\".",
        ),
    );
    string_of(&m)
}

/// A connect error that must not be retried: a refused host key.
pub fn is_host_key_refusal(error: &str) -> (res: bool)
    ensures
        res == contains(error@, "Host-Key"@),
{
    contains_exec(&chars_of(error), &lit("Host-Key"))
}

/// `text` with every non-empty secret replaced by `[REDACTED]`, the new password first.
pub open spec fn redacted(text: Seq<char>, current: Seq<char>, new: Seq<char>) -> Seq<char> {
    let a = if new.len() > 0 {
        replace(text, new, "[REDACTED]"@)
    } else {
        text
    };
    if current.len() > 0 {
        replace(a, current, "[REDACTED]"@)
    } else {
        a
    }
}

/// Removes both passwords from a transcript before it can reach an error message.
pub fn redact(text: &str, current: &str, new: &str) -> (res: String)
    ensures
        res@ == redacted(text@, current@, new@),
{
    let r = lit("[REDACTED]");
    let n = chars_of(new);
    let c = chars_of(current);
    let mut out = chars_of(text);
    if n.len() > 0 {
        out = replace_exec(&out, &n, &r);
    }
    if c.len() > 0 {
        out = replace_exec(&out, &c, &r);
    }
    string_of(&out)
}

/// A secret that the marker `[REDACTED]` cannot help spell: it holds no bracket and does not
/// occur inside the marker.
pub open spec fn marker_safe(secret: Seq<char>) -> bool {
    !secret.contains('[') && !secret.contains(']') && !contains("[REDACTED]"@, secret)
}

/// Redaction removes both passwords: neither occurs in the redacted text, whatever the text
/// held, for every non-empty password that the marker cannot help spell.
pub proof fn lemma_redaction_hides_secrets(text: Seq<char>, current: Seq<char>, new: Seq<char>)
    requires
        marker_safe(current),
        marker_safe(new),
    ensures
        current.len() > 0 ==> !contains(redacted(text, current, new), current),
        new.len() > 0 ==> !contains(redacted(text, current, new), new),
{
    let m = "[REDACTED]"@;
    reveal_strlit("[REDACTED]");
    assert(m[0] == '[' && m.last() == ']');
    let a = if new.len() > 0 {
        replace(text, new, m)
    } else {
        text
    };
    if new.len() > 0 {
        lemma_replace_removes(text, new, m);
    }
    if current.len() > 0 {
        lemma_replace_removes(a, current, m);
        if new.len() > 0 {
            lemma_replace_keeps_absent(a, current, m, new);
        }
    }
}

/// Whether the first prompt of the forced change asks for the current password.
pub open spec fn asks_current(prompt: Seq<char>) -> bool {
    contains(lowercase(prompt), "current"@) || contains(lowercase(prompt), "aktuell"@)
}

pub fn asks_current_first(prompt: &str) -> (res: bool)
    ensures
        res == asks_current(prompt@),
{
    let l = lowercase_exec(&chars_of(prompt));
    contains_exec(&l, &lit("current")) || contains_exec(&l, &lit("aktuell"))
}

/// The lines typed into the forced change: the current password first when it is asked for,
/// then the new one twice.
pub open spec fn change_inputs(asks: bool, current: Seq<char>, new: Seq<char>) -> Seq<Seq<char>> {
    if asks {
        seq![current + "\n"@, new + "\n"@, new + "\n"@]
    } else {
        seq![new + "\n"@, new + "\n"@]
    }
}

pub fn password_change_inputs(asks_current: bool, current: &str, new: &str) -> (res: Vec<String>)
    ensures
        res@.map_values(|s: String| s@) == change_inputs(asks_current, current@, new@),
{
    let mut c = chars_of(current);
    push_all(&mut c, &lit("\n"));
    let mut n = chars_of(new);
    push_all(&mut n, &lit("\n"));
    let v = if asks_current {
        vec![string_of(&c), string_of(&n), string_of(&n)]
    } else {
        vec![string_of(&n), string_of(&n)]
    };
    assert(v@.map_values(|s: String| s@) =~= change_inputs(asks_current, current@, new@));
    v
}

pub open spec fn change_succeeded(out: Seq<char>) -> bool {
    contains(out, "passwd: password updated successfully"@) || contains(
        out,
        "passwd: all authentication tokens updated successfully"@,
    ) || contains(out, "passwort erfolgreich"@)
}

pub open spec fn change_refused(out: Seq<char>) -> bool {
    contains(out, "bad password"@) || contains(out, "password unchanged"@) || contains(
        out,
        "authentication token manipulation error"@,
    )
}

/// How a forced password change went, judged on the redacted, lower-cased transcript: a
/// success message wins, a refusal fails with the (redacted, trimmed) transcript, and
/// anything else counts as success (the reconnect with the new password is the real test).
pub open spec fn change_verdict(transcript: Seq<char>, current: Seq<char>, new: Seq<char>) -> Result<
    (),
    Seq<char>,
> {
    let out = lowercase(redacted(transcript, current, new));
    if change_succeeded(out) {
        Ok(())
    } else if change_refused(out) {
        Err(
            "Erzwungener Passwortwechsel fehlgeschlagen - Server-Antwort: "@ + redacted(
                trim(transcript),
                current,
                new,
            ),
        )
    } else {
        Ok(())
    }
}

pub fn password_change_verdict(transcript: &str, current: &str, new: &str) -> (res: Result<(), String>)
    ensures
        match change_verdict(transcript@, current@, new@) {
            Ok(()) => res is Ok,
            Err(m) => res matches Err(e) && e@ == m,
        },
{
    let red = redact(transcript, current, new);
    let out = lowercase_exec(&chars_of(red.as_str()));
    if contains_exec(&out, &lit("passwd: password updated successfully")) || contains_exec(
        &out,
        &lit("passwd: all authentication tokens updated successfully"),
    ) || contains_exec(&out, &lit("passwort erfolgreich")) {
        return Ok(());
    }
    if contains_exec(&out, &lit("bad password")) || contains_exec(&out, &lit("password unchanged"))
        || contains_exec(&out, &lit("authentication token manipulation error")) {
        let t = string_of(&trim_exec(&chars_of(transcript)));
        let mut m = lit("Erzwungener Passwortwechsel fehlgeschlagen - Server-Antwort: ");
        push_all(&mut m, &chars_of(redact(t.as_str(), current, new).as_str()));
        return Err(string_of(&m));
    }
    Ok(())
}

/// Whether a probe's output (or error) says the password must be changed first.
pub open spec fn needs_password_change(text: Seq<char>) -> bool {
    contains(lowercase(text), "password change required"@)
}

pub fn password_change_required(text: &str) -> (res: bool)
    ensures
        res == needs_password_change(text@),
{
    contains_exec(&lowercase_exec(&chars_of(text)), &lit("password change required"))
}

/// A line boundary of streamed output: steamcmd redraws its progress with `\r`.
pub open spec fn is_line_end(b: u8) -> bool {
    b == 10 || b == 13
}

pub open spec fn no_line_end(s: Seq<u8>) -> bool {
    forall|i: int| 0 <= i < s.len() ==> !is_line_end(#[trigger] s[i])
}

/// A complete line: its bytes up to and including the one line end, which closes it.
pub open spec fn is_complete_line(l: Seq<u8>) -> bool {
    l.len() > 0 && is_line_end(l.last()) && no_line_end(l.drop_last())
}

pub open spec fn flatten(ls: Seq<Seq<u8>>) -> Seq<u8>
    decreases ls.len(),
{
    if ls.len() == 0 {
        seq![]
    } else {
        flatten(ls.drop_last()) + ls.last()
    }
}

pub open spec fn bytes_views(ls: Seq<Vec<u8>>) -> Seq<Seq<u8>> {
    ls.map_values(|v: Vec<u8>| v@)
}

/// Cuts streamed output into lines as it arrives.
pub struct LineSplitter {
    /// The bytes after the last line end seen.
    pub buffer: Vec<u8>,
}

impl LineSplitter {
    pub open spec fn wf(&self) -> bool {
        no_line_end(self.buffer@)
    }

    pub fn new() -> (res: LineSplitter)
        ensures
            res.wf(),
            res.buffer@.len() == 0,
    {
        LineSplitter { buffer: Vec::new() }
    }

    /// Takes in a chunk and hands out the lines it completes. Nothing is lost or reordered:
    /// what was buffered, then the chunk, is exactly the lines handed out followed by what
    /// stays buffered; each line handed out ends at its only line end.
    pub fn feed(&mut self, data: &[u8]) -> (res: Vec<Vec<u8>>)
        requires
            old(self).wf(),
        ensures
            final(self).wf(),
            old(self).buffer@ + data@ == flatten(bytes_views(res@)) + final(self).buffer@,
            forall|k: int| 0 <= k < res@.len() ==> is_complete_line(#[trigger] res@[k]@),
    {
        let mut lines: Vec<Vec<u8>> = Vec::new();
        let mut cur: Vec<u8> = Vec::new();
        let ghost start = self.buffer@;
        let mut j: usize = 0;
        while j < self.buffer.len()
            invariant
                j <= self.buffer.len(),
                self.buffer@ == start,
                no_line_end(start),
                cur@ == start.take(j as int),
            decreases self.buffer.len() - j,
        {
            cur.push(self.buffer[j]);
            assert(start.take(j + 1) =~= start.take(j as int).push(start[j as int]));
            j += 1;
        }
        assert(start.take(start.len() as int) =~= start);
        let mut i: usize = 0;
        while i < data.len()
            invariant
                i <= data.len(),
                no_line_end(cur@),
                start + data@.take(i as int) == flatten(bytes_views(lines@)) + cur@,
                forall|k: int| 0 <= k < lines@.len() ==> is_complete_line(#[trigger] lines@[k]@),
            decreases data.len() - i,
        {
            let b = data[i];
            let ghost before_lines = lines@;
            let ghost before_cur = cur@;
            cur.push(b);
            assert(data@.take(i + 1) =~= data@.take(i as int).push(b));
            assert(start + data@.take(i + 1) =~= (start + data@.take(i as int)).push(b));
            assert((flatten(bytes_views(before_lines)) + before_cur).push(b) =~= flatten(
                bytes_views(before_lines),
            ) + cur@);
            if b == 10 || b == 13 {
                let line = cur;
                cur = Vec::new();
                assert(line@.drop_last() =~= before_cur);
                lines.push(line);
                assert(bytes_views(lines@).drop_last() =~= bytes_views(before_lines));
                assert(bytes_views(lines@).last() == line@);
                assert(flatten(bytes_views(lines@)) == flatten(bytes_views(before_lines)) + line@);
                assert(start + data@.take(i + 1) =~= flatten(bytes_views(lines@)) + cur@);
            } else {
                assert(start + data@.take(i + 1) =~= flatten(bytes_views(lines@)) + cur@);
            }
            i += 1;
        }
        assert(data@.take(data.len() as int) =~= data@);
        self.buffer = cur;
        lines
    }
}

/// The text of a streamed line: its bytes decoded as UTF-8, with each malformed sequence
/// shown as U+FFFD (`String::from_utf8_lossy`). The decoding itself is std's and is not
/// restated here.
pub uninterp spec fn utf8_lossy(bytes: Seq<u8>) -> Seq<char>;

/// `String::from_utf8_lossy(bytes).to_string()`; the contract names the result
/// `utf8_lossy(bytes)`.
#[verifier::external_body]
pub(crate) fn lossy_text(bytes: &[u8]) -> (res: String)
    ensures
        res@ == utf8_lossy(bytes@),
{
    String::from_utf8_lossy(bytes).to_string()
}

/// A streamed line as handed to the caller: decoded, trailing whitespace (the line end
/// among it) removed.
pub fn line_text(bytes: &[u8]) -> (res: String)
    ensures
        res@ == trim_end_by(utf8_lossy(bytes@), Trimmed::Whitespace),
{
    let t = lossy_text(bytes);
    string_of(&trim_end_exec(&chars_of(t.as_str()), Trimmed::Whitespace))
}

} // verus!
