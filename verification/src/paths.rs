//! Remote paths and identifiers: which paths the app may touch on a server, and the names it
//! derives from instance ids and unit names.
use vstd::prelude::*;

use crate::text::{
    chars_of, contains, contains_exec, ends_with, ends_with_exec, eq_exec, has_char,
    is_ascii_alnum, is_ascii_alnum_exec, lit, push_all, starts_with, starts_with_exec, string_of,
    strip_prefix, strip_prefix_exec,
};

verus! {

/// `format!("{:?}", s)` for a string: quoted, with `char::escape_debug` escapes. Named, not
/// restated: the escapes follow Unicode tables.
pub uninterp spec fn debug_quoted(s: Seq<char>) -> Seq<char>;

/// Formats `s` with `{:?}`; the contract names the result `debug_quoted(s)`.
#[verifier::external_body]
pub(crate) fn debug_str(s: &str) -> (res: String)
    ensures
        res@ == debug_quoted(s@),
{
    format!("{:?}", s)
}

/// The directory every instance is installed under.
pub open spec fn instances_base() -> Seq<char> {
    "/home/gameserver/instances/"@
}

/// The directory every instance's backups are kept under.
pub open spec fn backups_base() -> Seq<char> {
    "/home/gameserver/backups/"@
}

/// An instance id that names one directory: non-empty, no `/`, no `..`.
pub open spec fn is_safe_instance_id(id: Seq<char>) -> bool {
    id.len() > 0 && !id.contains('/') && !contains(id, ".."@)
}

/// The error for an unusable instance id.
pub open spec fn bad_instance_id_message(id: Seq<char>) -> Seq<char> {
    "Ungültige instance_id: "@ + debug_quoted(id)
}

/// Checks an instance id; `Err` carries the message for an unusable one.
pub fn check_instance_id(instance_id: &str) -> (res: Result<(), String>)
    ensures
        is_safe_instance_id(instance_id@) ==> res is Ok,
        !is_safe_instance_id(instance_id@) ==> (res matches Err(m) && m@ == bad_instance_id_message(
            instance_id@,
        )),
{
    let id = chars_of(instance_id);
    let dots = lit("..");
    if id.len() == 0 || has_char(&id, '/') || contains_exec(&id, &dots) {
        let mut m = lit("Ungültige instance_id: ");
        push_all(&mut m, &chars_of(debug_str(instance_id).as_str()));
        return Err(string_of(&m));
    }
    Ok(())
}

/// An instance id the removal guard accepts: non-empty, with no `/` and no `.` at all.
pub open spec fn is_plain_instance_id(id: Seq<char>) -> bool {
    id.len() > 0 && !id.contains('/') && !id.contains('.')
}

/// The error for an install path that is not the instance's own directory (or an unusable
/// instance id).
pub open spec fn instance_path_error(install_path: Seq<char>, instance_id: Seq<char>) -> Seq<char> {
    if !is_plain_instance_id(instance_id) {
        bad_instance_id_message(instance_id)
    } else {
        "Install-Pfad passt nicht zur Instanz-ID, breche Löschung ab (erwartet "@ + debug_quoted(
            instances_base() + instance_id,
        ) + ", erhalten "@ + debug_quoted(install_path) + ")"@
    }
}

/// Guards against ever running `rm -rf` on something wider than a single instance's own
/// directory: the path must be exactly `/home/gameserver/instances/<instance_id>` with a
/// non-empty, slash-free, dot-free instance id.
pub fn validate_instance_path(install_path: &str, instance_id: &str) -> (res: Result<(), String>)
    ensures
        res is Ok <==> (is_plain_instance_id(instance_id@) && install_path@ == instances_base()
            + instance_id@),
        res matches Err(m) ==> m@ == instance_path_error(install_path@, instance_id@),
{
    let id = chars_of(instance_id);
    if id.len() == 0 || has_char(&id, '/') || has_char(&id, '.') {
        let mut m = lit("Ungültige instance_id: ");
        push_all(&mut m, &chars_of(debug_str(instance_id).as_str()));
        return Err(string_of(&m));
    }
    let mut expected = lit("/home/gameserver/instances/");
    push_all(&mut expected, &chars_of(instance_id));
    if !eq_exec(&chars_of(install_path), &expected) {
        let e = string_of(&expected);
        let mut m = lit("Install-Pfad passt nicht zur Instanz-ID, breche Löschung ab (erwartet ");
        push_all(&mut m, &chars_of(debug_str(e.as_str()).as_str()));
        push_all(&mut m, &lit(", erhalten "));
        push_all(&mut m, &chars_of(debug_str(install_path).as_str()));
        push_all(&mut m, &lit(")"));
        return Err(string_of(&m));
    }
    Ok(())
}

/// The directory a browse request names: the instance's install or backups directory, and
/// nothing else.
pub open spec fn browsable_path(instance_id: Seq<char>, target: Seq<char>) -> Result<Seq<char>, Seq<char>> {
    if !is_safe_instance_id(instance_id) {
        Err(bad_instance_id_message(instance_id))
    } else if target == "install"@ {
        Ok(instances_base() + instance_id)
    } else if target == "backups"@ {
        Ok(backups_base() + instance_id)
    } else {
        Err("Unbekanntes Verzeichnis: "@ + debug_quoted(target))
    }
}

/// Only ever lets the two directories managed for an instance be browsed, never an
/// arbitrary path.
pub fn resolve_browsable_path(instance_id: &str, target: &str) -> (res: Result<String, String>)
    ensures
        match browsable_path(instance_id@, target@) {
            Ok(p) => res matches Ok(x) && x@ == p,
            Err(m) => res matches Err(x) && x@ == m,
        },
{
    check_instance_id(instance_id)?;
    let t = chars_of(target);
    proof {
        reveal_strlit("install");
        reveal_strlit("backups");
    }
    if eq_exec(&t, &lit("install")) {
        let mut p = lit("/home/gameserver/instances/");
        push_all(&mut p, &chars_of(instance_id));
        Ok(string_of(&p))
    } else if eq_exec(&t, &lit("backups")) {
        let mut p = lit("/home/gameserver/backups/");
        push_all(&mut p, &chars_of(instance_id));
        Ok(string_of(&p))
    } else {
        let mut m = lit("Unbekanntes Verzeichnis: ");
        push_all(&mut m, &chars_of(debug_str(target).as_str()));
        Err(string_of(&m))
    }
}

/// A backup file name: a non-empty `.tar.gz` name with no `/` and no `..`.
pub open spec fn is_valid_backup_name(name: Seq<char>) -> bool {
    name.len() > 0 && !name.contains('/') && !contains(name, ".."@) && ends_with(name, ".tar.gz"@)
}

/// The error for a backup file name that is refused.
pub open spec fn backup_name_error(name: Seq<char>) -> Seq<char> {
    "Ungültiger Backup-Dateiname: "@ + debug_quoted(name)
}

pub fn validate_backup_filename(name: &str) -> (res: Result<(), String>)
    ensures
        res is Ok <==> is_valid_backup_name(name@),
        res matches Err(m) ==> m@ == backup_name_error(name@),
{
    let n = chars_of(name);
    if n.len() == 0 || has_char(&n, '/') || contains_exec(&n, &lit("..")) || !ends_with_exec(
        &n,
        &lit(".tar.gz"),
    ) {
        let mut m = lit("Ungültiger Backup-Dateiname: ");
        push_all(&mut m, &chars_of(debug_str(name).as_str()));
        return Err(string_of(&m));
    }
    Ok(())
}

/// The root of everything the file browser may reach.
pub open spec fn sftp_root() -> Seq<char> {
    "/home/gameserver"@
}

/// A path the file browser may use: the root itself or a path below it, without `..`.
pub open spec fn is_sftp_path(path: Seq<char>) -> bool {
    (path == sftp_root() || starts_with(path, sftp_root() + "/"@)) && !contains(path, ".."@)
}

/// The error for a file-browser path that is refused: outside the root, or holding `..`.
pub open spec fn sftp_path_error(path: Seq<char>) -> Seq<char> {
    if !(path == sftp_root() || starts_with(path, sftp_root() + "/"@)) {
        "Pfad außerhalb des zulässigen Bereichs"@
    } else {
        "Ungültiger Pfad"@
    }
}

/// Every file-browser path must lie inside `/home/gameserver`, never above it.
pub fn validate_sftp_path(path: &str) -> (res: Result<(), String>)
    ensures
        res is Ok <==> is_sftp_path(path@),
        res matches Err(m) ==> m@ == sftp_path_error(path@),
        !(path@ == sftp_root() || starts_with(path@, sftp_root() + "/"@)) ==> (res matches Err(m)
            && m@ == "Pfad außerhalb des zulässigen Bereichs"@),
        (path@ == sftp_root() || starts_with(path@, sftp_root() + "/"@)) && contains(path@, ".."@)
            ==> (res matches Err(m) && m@ == "Ungültiger Pfad"@),
{
    let p = chars_of(path);
    let root = lit("/home/gameserver");
    let mut root_slash = lit("/home/gameserver");
    push_all(&mut root_slash, &lit("/"));
    if !eq_exec(&p, &root) && !starts_with_exec(&p, &root_slash) {
        return Err(String::from_str("Pfad außerhalb des zulässigen Bereichs"));
    }
    if contains_exec(&p, &lit("..")) {
        return Err(String::from_str("Ungültiger Pfad"));
    }
    Ok(())
}

/// The keyring entry under which a server's SSH private key is kept.
pub fn ssh_key_keyring_name(server_id: &str) -> (res: String)
    ensures
        res@ == server_id@ + "::ssh_key"@,
{
    let mut s = chars_of(server_id);
    push_all(&mut s, &lit("::ssh_key"));
    string_of(&s)
}

/// Each server's key has a keyring entry of its own: two servers never share one, and no
/// server's key entry is the entry of a server's password (kept under the bare server id)
/// when server ids hold no `:` (as generated ids never do).
pub proof fn lemma_key_entries_are_per_server(id1: Seq<char>, id2: Seq<char>)
    ensures
        id1 != id2 ==> id1 + "::ssh_key"@ != id2 + "::ssh_key"@,
        !id2.contains(':') ==> id1 + "::ssh_key"@ != id2,
{
    reveal_strlit("::ssh_key");
    let suffix = "::ssh_key"@;
    if id1 != id2 && id1 + suffix == id2 + suffix {
        assert((id1 + suffix).len() == (id2 + suffix).len());
        assert(id1.len() == id2.len());
        assert(id1 =~= (id1 + suffix).take(id1.len() as int));
        assert(id2 =~= (id2 + suffix).take(id2.len() as int));
    }
    if !id2.contains(':') && id1 + suffix == id2 {
        assert((id1 + suffix)[id1.len() as int] == ':');
        assert(id2.contains(id2[id1.len() as int]));
    }
}

/// The console FIFO of a game unit `grimmnetz-<id>`: `/run/grimmnetz-<id>.console`.
pub fn console_fifo_path(unit_name: &str) -> (res: Option<String>)
    ensures
        match strip_prefix(unit_name@, "grimmnetz-"@) {
            Some(id) => res matches Some(p) && p@ == "/run/grimmnetz-"@ + id + ".console"@,
            None => res is None,
        },
{
    match strip_prefix_exec(&chars_of(unit_name), &lit("grimmnetz-")) {
        Some(id) => {
            let mut p = lit("/run/grimmnetz-");
            push_all(&mut p, &id);
            push_all(&mut p, &lit(".console"));
            Some(string_of(&p))
        },
        None => None,
    }
}

/// An identifier safe to splice into unit names and shell commands: non-empty, ASCII letters,
/// digits and `-` only.
pub open spec fn is_plain_identifier(s: Seq<char>) -> bool {
    s.len() > 0 && forall|i: int| 0 <= i < s.len() ==> is_ascii_alnum(#[trigger] s[i]) || s[i] == '-'
}

pub fn is_plain_identifier_exec(s: &Vec<char>) -> (res: bool)
    ensures
        res == is_plain_identifier(s@),
{
    if s.len() == 0 {
        return false;
    }
    let mut i: usize = 0;
    while i < s.len()
        invariant
            i <= s.len(),
            forall|j: int| 0 <= j < i ==> is_ascii_alnum(#[trigger] s@[j]) || s@[j] == '-',
        decreases s.len() - i,
    {
        if !(is_ascii_alnum_exec(s[i]) || s[i] == '-') {
            return false;
        }
        i += 1;
    }
    true
}

/// The name of a scheduled-restart timer, `restart-<unit>-<id>`: both parts must be plain
/// identifiers, so a malformed one can never widen a `rm`/`systemctl` call to another
/// instance's timer.
pub fn timer_name(unit_name: &str, id: &str) -> (res: Result<String, String>)
    ensures
        is_plain_identifier(unit_name@) && is_plain_identifier(id@) ==> (res matches Ok(n) && n@
            == "restart-"@ + unit_name@ + "-"@ + id@),
        !(is_plain_identifier(unit_name@) && is_plain_identifier(id@)) ==> (res matches Err(m)
            && m@ == "Ungültiger Bezeichner"@),
{
    let u = chars_of(unit_name);
    let i = chars_of(id);
    if !is_plain_identifier_exec(&u) || !is_plain_identifier_exec(&i) {
        return Err(String::from_str("Ungültiger Bezeichner"));
    }
    let mut n = lit("restart-");
    push_all(&mut n, &u);
    push_all(&mut n, &lit("-"));
    push_all(&mut n, &i);
    Ok(string_of(&n))
}

} // verus!
