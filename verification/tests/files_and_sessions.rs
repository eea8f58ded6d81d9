use grimmnetz::files::{
    backup_archive_command, backup_delete_command, backup_download_command, backup_entry_from_stat,
    backup_listing_command, backup_stat_command, backup_upload_commands, dir_listing_command,
    new_backup_filename, parse_backup_listing, parse_dir_listing, restore_command, sftp_delete_command,
    sftp_delete_outcome, sftp_download_allowed, sftp_download_commands, sftp_listing_command,
    sftp_mkdir_command, sftp_rename_command, sftp_upload_command, sort_backups, sort_dir_entries,
};
use grimmnetz::paths::validate_backup_filename;
use grimmnetz::records::{AddServerInput, BackupEntry, DirEntry, ServerRecord};
use grimmnetz::servers::{
    edit_connect_error, firewall_check_failed, key_only_login_check, new_server_id, os_info_from,
    os_pretty_name_command, password_lookup_error, pending_server, registered_server, registration_conflict,
    typed_password, ConnectAttempts,
};
use grimmnetz::session::{
    asks_current_first, check_server_key, host_key_changed_message, is_host_key_refusal, line_text,
    password_change_inputs, password_change_required, password_change_verdict, redact,
    LineSplitter,
};

fn entry(name: &str, is_dir: bool, size: u64) -> DirEntry {
    DirEntry { name: name.to_string(), is_dir, size_bytes: size }
}

fn names(v: &[DirEntry]) -> Vec<String> {
    v.iter().map(|e| e.name.clone()).collect()
}

#[test]
fn dir_listing_directories_first_then_by_lowercase_name() {
    let raw = "f|b.txt|10\nd|beta|4096\nf|A.txt|5\nd|Alpha|4096\nno bars here\nf|x|notanumber\n";
    let v = parse_dir_listing(raw);
    assert_eq!(names(&v), vec!["Alpha", "beta", "A.txt", "b.txt"]);
    assert!(v[0].is_dir && v[1].is_dir && !v[2].is_dir && !v[3].is_dir);
    assert_eq!(v[2].size_bytes, 5);
    assert_eq!(v[3].size_bytes, 10);
}

#[test]
fn dir_listing_name_may_hold_bars() {
    let v = parse_dir_listing("f|a|b|3\n");
    assert!(v.is_empty());
    let v = parse_dir_listing("f|a|3|x");
    assert!(v.is_empty());
    let v = parse_dir_listing("l|link|7");
    assert_eq!(names(&v), vec!["link"]);
    assert!(!v[0].is_dir);
}

#[test]
fn dir_sort_is_stable_for_equal_keys() {
    let v = vec![entry("B", false, 1), entry("b", false, 2), entry("a", true, 3), entry("A", false, 4)];
    let s = sort_dir_entries(&v);
    assert_eq!(names(&s), vec!["a", "A", "B", "b"]);
    assert_eq!(s[2].size_bytes, 1);
    assert_eq!(s[3].size_bytes, 2);
}

#[test]
fn empty_listing() {
    assert!(parse_dir_listing("").is_empty());
    assert!(parse_backup_listing("").is_empty());
}

#[test]
fn backups_newest_first() {
    let raw = "backup-1.tar.gz|100|1700000000.5000000000\nbackup-2.tar.gz|200|1700000100.0\nbroken|x|1\nold.tar.gz|7|5\n";
    let v = parse_backup_listing(raw);
    let n: Vec<&str> = v.iter().map(|b| b.name.as_str()).collect();
    assert_eq!(n, vec!["backup-2.tar.gz", "backup-1.tar.gz", "old.tar.gz"]);
    assert_eq!(v[0].created_at, 1700000100);
    assert_eq!(v[0].size_bytes, 200);
    assert_eq!(v[1].created_at, 1700000000);
    assert_eq!(v[2].created_at, 5);
}

#[test]
fn backup_sort_keeps_order_of_equal_times() {
    let v = vec![
        BackupEntry { name: "a".to_string(), size_bytes: 1, created_at: 10 },
        BackupEntry { name: "b".to_string(), size_bytes: 2, created_at: 20 },
        BackupEntry { name: "c".to_string(), size_bytes: 3, created_at: 10 },
    ];
    let s = sort_backups(&v);
    let n: Vec<&str> = s.iter().map(|b| b.name.as_str()).collect();
    assert_eq!(n, vec!["b", "a", "c"]);
}

#[test]
fn listing_commands() {
    assert_eq!(
        dir_listing_command("/home/gameserver/instances/abc"),
        "sudo find /home/gameserver/instances/abc -mindepth 1 -maxdepth 1 -printf '%y|%f|%s\\n' 2>/dev/null"
    );
    assert_eq!(
        sftp_listing_command("/home/gameserver/x y").unwrap(),
        "sudo find '/home/gameserver/x y' -mindepth 1 -maxdepth 1 -printf '%y|%f|%s\\n' 2>/dev/null"
    );
    assert_eq!(sftp_listing_command("/etc").unwrap_err(), "Pfad außerhalb des zulässigen Bereichs");
    assert_eq!(sftp_listing_command("/home/gameserver/../etc").unwrap_err(), "Ungültiger Pfad");
    assert_eq!(
        backup_listing_command("abc").unwrap(),
        "sudo find /home/gameserver/backups/abc -maxdepth 1 -name '*.tar.gz' -printf '%f|%s|%T@\\n' 2>/dev/null"
    );
    assert_eq!(backup_listing_command("a/b").unwrap_err(), "Ungültige instance_id: \"a/b\"");
}

#[test]
fn new_backup_names_always_validate() {
    let n = new_backup_filename();
    assert!(validate_backup_filename(&n).is_ok());
    assert!(n.starts_with("backup-"));
    assert!(n.ends_with(".tar.gz"));
    assert_eq!(n.len(), "backup-".len() + "YYYYMMDD-HHMMSS".len() + ".tar.gz".len());
    assert_eq!(n.as_bytes()["backup-".len() + 8], b'-');
}

#[test]
fn backup_commands() {
    assert_eq!(
        backup_archive_command("abc", "/home/gameserver/instances/abc", "backup-1.tar.gz"),
        "sudo mkdir -p /home/gameserver/backups/abc && sudo chown gameserver:gameserver /home/gameserver/backups/abc && sudo -u gameserver tar -czf /home/gameserver/backups/abc/backup-1.tar.gz -C /home/gameserver/instances/abc ."
    );
    assert_eq!(
        backup_stat_command("abc", "backup-1.tar.gz"),
        "sudo stat -c '%s|%Y' '/home/gameserver/backups/abc/backup-1.tar.gz'"
    );
    assert_eq!(
        backup_download_command("abc", "backup-1.tar.gz").unwrap(),
        "sudo cat '/home/gameserver/backups/abc/backup-1.tar.gz'"
    );
    assert_eq!(
        backup_delete_command("abc", "backup-1.tar.gz").unwrap(),
        "sudo rm -f '/home/gameserver/backups/abc/backup-1.tar.gz'"
    );
    assert_eq!(
        backup_delete_command("abc", "../x.tar.gz").unwrap_err(),
        "Ungültiger Backup-Dateiname: \"../x.tar.gz\""
    );
    assert!(backup_download_command("abc", "x.zip").is_err());
    assert_eq!(
        restore_command("abc", "/home/gameserver/instances/abc", "backup-1.tar.gz"),
        "sudo -u gameserver bash -c \"find '/home/gameserver/instances/abc' -mindepth 1 -delete && tar -xzf '/home/gameserver/backups/abc/backup-1.tar.gz' -C '/home/gameserver/instances/abc'\""
    );
}

#[test]
fn backup_upload() {
    let (a, b, c) = backup_upload_commands("abc", "mine.tar.gz").unwrap();
    assert_eq!(
        a,
        "sudo mkdir -p '/home/gameserver/backups/abc' && sudo chown gameserver:gameserver '/home/gameserver/backups/abc'"
    );
    assert_eq!(b, "sudo -u gameserver tee '/home/gameserver/backups/abc/mine.tar.gz' > /dev/null");
    assert_eq!(c, "sudo stat -c '%s|%Y' '/home/gameserver/backups/abc/mine.tar.gz'");
    assert!(backup_upload_commands("abc", "a/b.tar.gz").is_err());
}

#[test]
fn backup_entry_from_stat_output() {
    let b = backup_entry_from_stat("mine.tar.gz", " 1234|1700000000\n", "kaputt").unwrap();
    assert_eq!(b.name, "mine.tar.gz");
    assert_eq!(b.size_bytes, 1234);
    assert_eq!(b.created_at, 1700000000);
    assert_eq!(backup_entry_from_stat("m", "garbage", "kaputt").err().unwrap(), "kaputt");
    assert_eq!(backup_entry_from_stat("m", "12|x", "kaputt").err().unwrap(), "kaputt");
}

#[test]
fn sftp_commands() {
    assert_eq!(sftp_mkdir_command("/home/gameserver/new").unwrap(), "sudo -u gameserver mkdir -p '/home/gameserver/new'");
    assert!(sftp_mkdir_command("/tmp").is_err());
    assert_eq!(
        sftp_delete_command("/home/gameserver/old").unwrap(),
        "if [ -L '/home/gameserver/old' ]; then echo GRIMMNETZ_SYMLINK_REFUSED; else sudo rm -rf '/home/gameserver/old'; fi"
    );
    assert_eq!(
        sftp_delete_command("/home/gameserver").unwrap_err(),
        "Der Basisordner selbst kann nicht gelöscht werden"
    );
    assert!(sftp_delete_command("/home/gameserverx").is_err());
    assert_eq!(
        sftp_delete_outcome("GRIMMNETZ_SYMLINK_REFUSED\n").unwrap_err(),
        "Verweigert: Ziel ist ein symbolischer Link, kein echter Ordner/Datei"
    );
    assert!(sftp_delete_outcome("").is_ok());
    assert_eq!(
        sftp_rename_command("/home/gameserver/a", "/home/gameserver/b").unwrap(),
        "sudo -u gameserver mv '/home/gameserver/a' '/home/gameserver/b'"
    );
    assert!(sftp_rename_command("/home/gameserver/a", "/root/b").is_err());
    let (check, read) = sftp_download_commands("/home/gameserver/f.txt").unwrap();
    assert_eq!(check, "[ -L '/home/gameserver/f.txt' ] && echo yes || echo no");
    assert_eq!(read, "sudo cat '/home/gameserver/f.txt'");
    assert!(sftp_download_allowed("yes\n").is_err());
    assert!(sftp_download_allowed("no\n").is_ok());
    assert_eq!(
        sftp_upload_command("/home/gameserver/up", "it's.txt").unwrap(),
        "sudo -u gameserver tee '/home/gameserver/up/it'\\''s.txt' > /dev/null"
    );
    assert!(sftp_upload_command("/home/gameserver/..", "x").is_err());
}

#[test]
fn host_keys_trusted_on_first_use() {
    assert!(check_server_key(None, "SHA256:abc"));
    assert!(check_server_key(Some("SHA256:abc"), "SHA256:abc"));
    assert!(!check_server_key(Some("SHA256:abc"), "SHA256:xyz"));
    let m = host_key_changed_message(Some("SHA256:abc"), "SHA256:xyz");
    assert!(m.starts_with("Host-Key hat sich geändert! Erwartet: SHA256:abc, jetzt gesehen: SHA256:xyz. "));
    assert!(is_host_key_refusal(&m));
    assert!(!is_host_key_refusal("Connection refused"));
    assert!(host_key_changed_message(None, "k").contains("Erwartet: ?, jetzt"));
}

#[test]
fn redaction_removes_both_passwords() {
    assert_eq!(redact("old=hunter2 new=s3cret! again s3cret!", "hunter2", "s3cret!"), "old=[REDACTED] new=[REDACTED] again [REDACTED]");
    assert_eq!(redact("nothing", "", ""), "nothing");
}

#[test]
fn forced_password_change_dialogue() {
    assert!(asks_current_first("Current password: "));
    assert!(asks_current_first("Aktuelles Passwort:"));
    assert!(!asks_current_first("New password: "));
    assert_eq!(password_change_inputs(true, "old", "new"), vec!["old\n", "new\n", "new\n"]);
    assert_eq!(password_change_inputs(false, "old", "new"), vec!["new\n", "new\n"]);
    assert!(password_change_required("WARNING: Your password has expired.\nPassword change required but no TTY available."));
    assert!(!password_change_required("ok"));
}

#[test]
fn password_change_verdicts() {
    assert!(password_change_verdict("passwd: password updated successfully", "a", "b").is_ok());
    assert!(password_change_verdict("whatever happened", "a", "b").is_ok());
    assert_eq!(
        password_change_verdict("  BAD PASSWORD: it contains secretpw \n", "old", "secretpw").unwrap_err(),
        "Erzwungener Passwortwechsel fehlgeschlagen - Server-Antwort: BAD PASSWORD: it contains [REDACTED]"
    );
}

#[test]
fn line_splitter_keeps_every_byte() {
    let mut s = LineSplitter::new();
    let a = s.feed(b"Upda");
    assert!(a.is_empty());
    let b = s.feed(b"te 10%\rUpdate 20%\nrest");
    assert_eq!(b, vec![b"Update 10%\r".to_vec(), b"Update 20%\n".to_vec()]);
    assert_eq!(s.buffer, b"rest".to_vec());
    let c = s.feed(b"\n");
    assert_eq!(c, vec![b"rest\n".to_vec()]);
    assert!(s.buffer.is_empty());
}

#[test]
fn line_text_decodes_lossily_and_trims_the_end() {
    assert_eq!(line_text(b"  hello \r\n"), "  hello");
    assert_eq!(line_text(&[0x61, 0xff, 0x62]), "a\u{fffd}b");
}

fn record(id: &str, name: &str) -> ServerRecord {
    ServerRecord {
        id: id.to_string(),
        name: name.to_string(),
        host: Some("10.0.0.1".to_string()),
        port: 22,
        username: "admin".to_string(),
        os_info: None,
        known_host_fingerprint: None,
    }
}

#[test]
fn duplicate_servers_refused() {
    assert!(registration_conflict("10.0.0.1", 22, &None, None).is_ok());
    let existing = Some(record("s1", "Keller"));
    assert_eq!(
        registration_conflict("10.0.0.1", 22, &existing, None).unwrap_err(),
        "10.0.0.1:22 ist bereits als \"Keller\" eingetragen - Server können nicht doppelt hinzugefügt werden."
    );
    assert!(registration_conflict("10.0.0.1", 22, &existing, Some("s1")).is_ok());
    assert!(registration_conflict("10.0.0.1", 22, &existing, Some("s2")).is_err());
}

#[test]
fn server_records() {
    assert_eq!(os_pretty_name_command(), "grep PRETTY_NAME /etc/os-release | cut -d'\"' -f2");
    assert_eq!(os_info_from(" Debian GNU/Linux 12 (bookworm)\n"), Some("Debian GNU/Linux 12 (bookworm)".to_string()));
    assert_eq!(os_info_from("  \n"), None);
    let input = AddServerInput {
        name: "Keller".to_string(),
        host: "10.0.0.1".to_string(),
        port: 2222,
        username: "admin".to_string(),
        password: "pw".to_string(),
        timezone: None,
    };
    let r = registered_server("id1", &input, Some("Debian".to_string()), "SHA256:abc");
    assert_eq!(r.id, "id1");
    assert_eq!(r.host.as_deref(), Some("10.0.0.1"));
    assert_eq!(r.port, 2222);
    assert_eq!(r.known_host_fingerprint.as_deref(), Some("SHA256:abc"));
    let (rec, pending) = pending_server("Cloud", "root", "ssh-ed25519 AAAA grimmnetz-id2", "id2");
    assert_eq!(rec.port, 22);
    assert!(rec.host.is_none());
    assert_eq!(pending.server_id, "id2");
    assert_eq!(pending.public_key, "ssh-ed25519 AAAA grimmnetz-id2");
    let id = new_server_id();
    assert_eq!(id.len(), 36);
    assert_eq!(id.matches('-').count(), 4);
}

#[test]
fn key_only_servers_need_root() {
    assert!(key_only_login_check("root").is_ok());
    let e = key_only_login_check("ubuntu").unwrap_err();
    assert!(e.contains("\"ubuntu\" funktioniert nicht"));
}

#[test]
fn server_messages() {
    assert_eq!(typed_password(&Some("neu".to_string())), Some("neu".to_string()));
    assert_eq!(typed_password(&Some(String::new())), None);
    assert_eq!(typed_password(&None), None);
    assert_eq!(edit_connect_error("timeout"), "Verbindung mit den neuen Zugangsdaten fehlgeschlagen: timeout");
    assert_eq!(
        firewall_check_failed("timeout"),
        "Verbindungstest nach dem Aktivieren der Firewall fehlgeschlagen (timeout). Zu deiner Sicherheit wird die Firewall automatisch in ca. 2 Minuten wieder deaktiviert."
    );
    assert_eq!(password_lookup_error(Some("key failed".to_string()), "no entry"), "key failed");
    assert_eq!(password_lookup_error(None, "no entry"), "no entry");
}

#[test]
fn connect_attempts_stop_after_three_or_host_key() {
    let mut a = ConnectAttempts::new();
    assert!(a.failed("timeout".to_string()));
    assert!(a.failed("timeout".to_string()));
    assert!(!a.failed("refused".to_string()));
    assert_eq!(a.final_error(), "refused");
    let mut b = ConnectAttempts::new();
    assert!(!b.failed("Host-Key hat sich geändert!".to_string()));
    assert_eq!(b.attempts, 1);
    assert_eq!(ConnectAttempts::new().final_error(), "Verbindung fehlgeschlagen");
}
