//! Registering servers and connecting to them: duplicate and login checks, the records kept,
//! and the retry rule of a connect.
use vstd::prelude::*;

use crate::ids::{is_hyphenated_uuid, new_uuid};
use crate::records::{AddServerInput, PendingServer, ServerRecord};
use crate::text::{chars_of, decimal, decimal_exec, eq_exec, lit, push_all, string_of, trim, trim_exec};

verus! {

/// The refusal of a second entry for the same host and port.
pub open spec fn duplicate_server_text(host: Seq<char>, port: nat, existing_name: Seq<char>) -> Seq<char> {
    host + ":"@ + decimal(port) + " ist bereits als \""@ + existing_name
        + "\" eingetragen - Server können nicht doppelt hinzugefügt werden."@
}

/// Whether a server may be registered at `host:port`: not when another entry (one whose id is
/// not `own_id`) already has that address. `existing` is the entry found for the address.
pub fn registration_conflict(
    host: &str,
    port: u16,
    existing: &Option<ServerRecord>,
    own_id: Option<&str>,
) -> (res: Result<(), String>)
    ensures
        match existing {
            None => res is Ok,
            Some(e) => if own_id matches Some(o) && e.id@ == o@ {
                res is Ok
            } else {
                res matches Err(m) && m@ == duplicate_server_text(host@, port as nat, e.name@)
            },
        },
{
    match existing {
        None => Ok(()),
        Some(e) => {
            match own_id {
                Some(o) => {
                    if eq_exec(&chars_of(e.id.as_str()), &chars_of(o)) {
                        return Ok(());
                    }
                },
                None => {},
            }
            let mut m = chars_of(host);
            push_all(&mut m, &lit(":"));
            push_all(&mut m, &decimal_exec(port as u64));
            push_all(&mut m, &lit(" ist bereits als \""));
            push_all(&mut m, &chars_of(e.name.as_str()));
            push_all(&mut m, &lit("\" eingetragen - Server können nicht doppelt hinzugefügt werden."));
            Err(string_of(&m))
        },
    }
}

/// The command printing the distribution's pretty name.
pub fn os_pretty_name_command() -> (res: String)
    ensures
        res@ == "grep PRETTY_NAME /etc/os-release | cut -d'\"' -f2"@,
{
    String::from_str("grep PRETTY_NAME /etc/os-release | cut -d'\"' -f2")
}

/// The OS description kept for a server: the trimmed output, or none when it is empty.
pub fn os_info_from(raw: &str) -> (res: Option<String>)
    ensures
        trim(raw@).len() == 0 ==> res is None,
        trim(raw@).len() > 0 ==> (res matches Some(s) && s@ == trim(raw@)),
{
    let t = trim_exec(&chars_of(raw));
    if t.len() == 0 {
        None
    } else {
        Some(string_of(&t))
    }
}

pub open spec fn key_only_user_text(username: Seq<char>) -> Seq<char> {
    "Für einen reinen Key-Server (neuer Cloud-Server) wird aktuell der Benutzername \"root\" benötigt - \""@
        + username
        + "\" funktioniert nicht, weil ohne Passwort kein passwortloses sudo eingerichtet werden kann. Lege die VM mit dem Standard-Benutzer \"root\" an oder füge den Server über den klassischen Weg mit Passwort hinzu."@
}

/// A server reached by key alone can only be provisioned as `root`: without a password no
/// other user can be given passwordless sudo.
pub fn key_only_login_check(username: &str) -> (res: Result<(), String>)
    ensures
        username@ == "root"@ ==> res is Ok,
        username@ != "root"@ ==> (res matches Err(m) && m@ == key_only_user_text(username@)),
{
    proof {
        reveal_strlit("root");
    }
    if eq_exec(&chars_of(username), &lit("root")) {
        return Ok(());
    }
    let mut m = lit(
        "Für einen reinen Key-Server (neuer Cloud-Server) wird aktuell der Benutzername \"root\" benötigt - \"",
    );
    push_all(&mut m, &chars_of(username));
    push_all(
        &mut m,
        &lit(
            "\" funktioniert nicht, weil ohne Passwort kein passwortloses sudo eingerichtet werden kann. Lege die VM mit dem Standard-Benutzer \"root\" an oder füge den Server über den klassischen Weg mit Passwort hinzu.",
        ),
    );
    Err(string_of(&m))
}

/// The record of a server added with a password: its address, login and host key as used,
/// and its OS description.
pub fn registered_server(
    id: &str,
    input: &AddServerInput,
    os_info: Option<String>,
    host_fingerprint: &str,
) -> (res: ServerRecord)
    ensures
        res.id@ == id@,
        res.name@ == input.name@,
        res.host matches Some(h) && h@ == input.host@,
        res.port == input.port,
        res.username@ == input.username@,
        res.os_info == os_info,
        res.known_host_fingerprint matches Some(f) && f@ == host_fingerprint@,
{
    ServerRecord {
        id: String::from_str(id),
        name: input.name.clone(),
        host: Some(input.host.clone()),
        port: input.port,
        username: input.username.clone(),
        os_info,
        known_host_fingerprint: Some(String::from_str(host_fingerprint)),
    }
}

/// A server prepared ahead of its VM: a fresh id, no address yet, port 22, and the public key
/// line to hand to the provider. The record and the pending entry share the id.
pub fn pending_server(name: &str, username: &str, public_line: &str, id: &str) -> (res: (ServerRecord, PendingServer))
    ensures
        res.0.id@ == id@,
        res.0.name@ == name@,
        res.0.host is None,
        res.0.port == 22,
        res.0.username@ == username@,
        res.0.os_info is None,
        res.0.known_host_fingerprint is None,
        res.1.server_id@ == id@,
        res.1.public_key@ == public_line@,
{
    (
        ServerRecord {
            id: String::from_str(id),
            name: String::from_str(name),
            host: None,
            port: 22,
            username: String::from_str(username),
            os_info: None,
            known_host_fingerprint: None,
        },
        PendingServer { server_id: String::from_str(id), public_key: String::from_str(public_line) },
    )
}

/// A fresh server id.
pub fn new_server_id() -> (res: String)
    ensures
        is_hyphenated_uuid(res@),
{
    new_uuid()
}

/// The password an edit connects with: the one typed in when it is not empty, otherwise
/// (`None`) the stored one.
pub fn typed_password(password: &Option<String>) -> (res: Option<String>)
    ensures
        match password {
            Some(p) => if p@.len() > 0 {
                res matches Some(x) && x@ == p@
            } else {
                res is None
            },
            None => res is None,
        },
{
    match password {
        Some(p) => if chars_of(p.as_str()).len() > 0 {
            Some(p.clone())
        } else {
            None
        },
        None => None,
    }
}

/// The error of an edit whose new details do not connect.
pub fn edit_connect_error(error: &str) -> (res: String)
    ensures
        res@ == "Verbindung mit den neuen Zugangsdaten fehlgeschlagen: "@ + error@,
{
    let mut m = lit("Verbindung mit den neuen Zugangsdaten fehlgeschlagen: ");
    push_all(&mut m, &chars_of(error));
    string_of(&m)
}

/// The error when the check connection after enabling the firewall fails; the scheduled
/// rollback then turns the firewall off again.
pub fn firewall_check_failed(error: &str) -> (res: String)
    ensures
        res@ == "Verbindungstest nach dem Aktivieren der Firewall fehlgeschlagen ("@ + error@
            + "). Zu deiner Sicherheit wird die Firewall automatisch in ca. 2 Minuten wieder deaktiviert."@,
{
    let mut m = lit("Verbindungstest nach dem Aktivieren der Firewall fehlgeschlagen (");
    push_all(&mut m, &chars_of(error));
    push_all(
        &mut m,
        &lit("). Zu deiner Sicherheit wird die Firewall automatisch in ca. 2 Minuten wieder deaktiviert."),
    );
    string_of(&m)
}

/// The error when no password is stored: the earlier key failure if there was one (the more
/// useful message for a key-only server), else the keyring's.
pub fn password_lookup_error(key_error: Option<String>, keyring_error: &str) -> (res: String)
    ensures
        match key_error {
            Some(k) => res@ == k@,
            None => res@ == keyring_error@,
        },
{
    match key_error {
        Some(k) => k,
        None => String::from_str(keyring_error),
    }
}

/// Connect attempts: at most three, and never another one after a refused host key.
pub struct ConnectAttempts {
    pub attempts: u32,
    pub last_error: Option<String>,
    pub stopped: bool,
}

impl ConnectAttempts {
    pub fn new() -> (res: ConnectAttempts)
        ensures
            res.attempts == 0,
            res.last_error is None,
            !res.stopped,
    {
        ConnectAttempts { attempts: 0, last_error: None, stopped: false }
    }

    /// Whether another attempt is made.
    pub open spec fn may_retry(&self) -> bool {
        !self.stopped && self.attempts < 3
    }

    /// Records a failed attempt with `error`; returns whether to try again (after a short
    /// pause). A host-key refusal is final.
    pub fn failed(&mut self, error: String) -> (res: bool)
        requires
            old(self).attempts < 3,
        ensures
            final(self).attempts == old(self).attempts + 1,
            final(self).last_error == Some(error),
            final(self).stopped == (old(self).stopped || crate::text::contains(
                error@,
                "Host-Key"@,
            )),
            res == final(self).may_retry(),
            crate::text::contains(error@, "Host-Key"@) ==> !res,
            final(self).attempts <= 3,
    {
        let refused = crate::session::is_host_key_refusal(error.as_str());
        self.attempts = self.attempts + 1;
        self.last_error = Some(error);
        if refused {
            self.stopped = true;
        }
        !self.stopped && self.attempts < 3
    }

    /// The error reported once no attempt succeeded: the last one's.
    pub fn final_error(&self) -> (res: String)
        ensures
            match self.last_error {
                Some(e) => res@ == e@,
                None => res@ == "Verbindung fehlgeschlagen"@,
            },
    {
        match &self.last_error {
            Some(e) => e.clone(),
            None => String::from_str("Verbindung fehlgeschlagen"),
        }
    }
}

} // verus!
