//! Game installs that run detached on the server: what starting one writes and runs, how the
//! installs still running are found, and how the install log is read back.
use vstd::prelude::*;

use crate::discovery::{install_path_of, strings_view};
use crate::games::{find_template, first_with_id, shell_single_quote, single_quoted, GameTemplate};
use crate::ids::{is_hyphenated_uuid, new_uuid};
use crate::records::{ActiveInstall, InstanceRecord};
use crate::text::{
    chars_of, contains, contains_exec, decimal, decimal_exec, eq_exec, find, find_exec, lines,
    lines_exec, lit, parse_unsigned, parse_unsigned_exec, push_all, replace, replace_exec, slice_of,
    split_once, split_once_exec, starts_with, starts_with_exec, string_of, strip_prefix,
    strip_prefix_exec, trim, trim_exec,
};

verus! {

/// Everything starting an install writes and runs on the server, in order: create the
/// directory, record the game id and the manifest, write the install script (rendered by the
/// caller), install and start the oneshot install unit.
pub struct InstallPlan {
    pub instance_id: String,
    pub install_path: String,
    /// The game's own unit, written by the install script.
    pub unit_name: String,
    pub install_unit_name: String,
    pub mkdir_command: String,
    pub game_id_command: String,
    pub manifest: String,
    pub manifest_command: String,
    pub install_unit_contents: String,
    pub start_command: String,
}

/// `s` without double quotes.
pub open spec fn unquoted(s: Seq<char>) -> Seq<char> {
    replace(s, "\""@, seq![])
}

/// The instance manifest that discovery reads back.
pub open spec fn manifest_text(game_id: Seq<char>, t: GameTemplate) -> Seq<char> {
    "{\"game_id\":\""@ + unquoted(game_id) + "\",\"display_name\":\""@ + unquoted(t.name@)
        + "\",\"cpu_limit_percent\":"@ + decimal(t.default_cpu_limit_percent as nat)
        + ",\"ram_limit_mb\":"@ + decimal(t.default_ram_limit_mb as nat) + "}"@
}

/// The oneshot unit that runs `install.sh`, its output going to `install.log`.
pub open spec fn install_unit_text(instance_id: Seq<char>, install_path: Seq<char>) -> Seq<char> {
    "[Unit]\nDescription=GrimmNetz Install "@ + instance_id
        + "\n\n[Service]\nType=oneshot\nRemainAfterExit=yes\nWorkingDirectory="@ + install_path
        + "\nExecStart=/bin/bash -c '/bin/bash "@ + install_path + "/install.sh > "@ + install_path
        + "/install.log 2>&1'\n\n[Install]\nWantedBy=multi-user.target\n"@
}

/// The plan for installing game `game_id` (template `t`) as instance `instance_id`.
pub open spec fn install_plan_holds(p: InstallPlan, game_id: Seq<char>, t: GameTemplate, id: Seq<char>) -> bool {
    let path = install_path_of(id);
    &&& p.instance_id@ == id
    &&& p.install_path@ == path
    &&& p.unit_name@ == "grimmnetz-"@ + id
    &&& p.install_unit_name@ == "grimmnetz-install-"@ + id
    &&& p.mkdir_command@ == "sudo mkdir -p "@ + path
    &&& p.game_id_command@ == "echo "@ + single_quoted(game_id) + " | sudo tee "@ + path
        + "/.grimmnetz-game-id > /dev/null"@
    &&& p.manifest@ == manifest_text(game_id, t)
    &&& p.manifest_command@ == "echo "@ + single_quoted(manifest_text(game_id, t))
        + " | sudo tee "@ + path + "/.grimmnetz-instance.json > /dev/null"@
    &&& p.install_unit_contents@ == install_unit_text(id, path)
    &&& p.start_command@ == "sudo systemctl start --no-block grimmnetz-install-"@ + id
}

fn push_str(v: &mut Vec<char>, s: &str)
    ensures
        final(v)@ == old(v)@ + s@,
{
    push_all(v, &chars_of(s));
}

/// The commands and files of installing game `game_id` with template `t` as `instance_id`.
pub fn install_plan(game_id: &str, t: &GameTemplate, instance_id: &str) -> (res: InstallPlan)
    ensures
        install_plan_holds(res, game_id@, *t, instance_id@),
{
    let mut path = lit("/home/gameserver/instances/");
    push_str(&mut path, instance_id);
    let path_s = string_of(&path);
    let mut unit = lit("grimmnetz-");
    push_str(&mut unit, instance_id);
    let mut iunit = lit("grimmnetz-install-");
    push_str(&mut iunit, instance_id);
    let mut mkdir = lit("sudo mkdir -p ");
    push_all(&mut mkdir, &path);
    let mut gcmd = lit("echo ");
    push_str(&mut gcmd, shell_single_quote(game_id).as_str());
    push_str(&mut gcmd, " | sudo tee ");
    push_all(&mut gcmd, &path);
    push_str(&mut gcmd, "/.grimmnetz-game-id > /dev/null");
    let quote = lit("\"");
    let none: Vec<char> = Vec::new();
    proof {
        reveal_strlit("\"");
    }
    assert(none@ =~= Seq::<char>::empty());
    let mut m = lit("{\"game_id\":\"");
    push_all(&mut m, &replace_exec(&chars_of(game_id), &quote, &none));
    push_str(&mut m, "\",\"display_name\":\"");
    push_all(&mut m, &replace_exec(&chars_of(t.name.as_str()), &quote, &none));
    push_str(&mut m, "\",\"cpu_limit_percent\":");
    push_all(&mut m, &decimal_exec(t.default_cpu_limit_percent as u64));
    push_str(&mut m, ",\"ram_limit_mb\":");
    push_all(&mut m, &decimal_exec(t.default_ram_limit_mb as u64));
    push_str(&mut m, "}");
    let manifest = string_of(&m);
    let mut mcmd = lit("echo ");
    push_str(&mut mcmd, shell_single_quote(manifest.as_str()).as_str());
    push_str(&mut mcmd, " | sudo tee ");
    push_all(&mut mcmd, &path);
    push_str(&mut mcmd, "/.grimmnetz-instance.json > /dev/null");
    let mut u = lit("[Unit]\nDescription=GrimmNetz Install ");
    push_str(&mut u, instance_id);
    push_str(&mut u, "\n\n[Service]\nType=oneshot\nRemainAfterExit=yes\nWorkingDirectory=");
    push_all(&mut u, &path);
    push_str(&mut u, "\nExecStart=/bin/bash -c '/bin/bash ");
    push_all(&mut u, &path);
    push_str(&mut u, "/install.sh > ");
    push_all(&mut u, &path);
    push_str(&mut u, "/install.log 2>&1'\n\n[Install]\nWantedBy=multi-user.target\n");
    let mut start = lit("sudo systemctl start --no-block ");
    push_all(&mut start, &iunit);
    proof {
        reveal_strlit("grimmnetz-install-");
        reveal_strlit("sudo systemctl start --no-block ");
        reveal_strlit("sudo systemctl start --no-block grimmnetz-install-");
        assert(start@ =~= "sudo systemctl start --no-block grimmnetz-install-"@ + instance_id@);
    }
    InstallPlan {
        instance_id: String::from_str(instance_id),
        install_path: path_s,
        unit_name: string_of(&unit),
        install_unit_name: string_of(&iunit),
        mkdir_command: string_of(&mkdir),
        game_id_command: string_of(&gcmd),
        manifest,
        manifest_command: string_of(&mcmd),
        install_unit_contents: string_of(&u),
        start_command: string_of(&start),
    }
}

/// Starts planning the install of `game_id` under a fresh random instance id; an unknown game
/// is refused.
pub fn start_install(templates: Vec<GameTemplate>, game_id: &str) -> (res: Result<InstallPlan, String>)
    ensures
        (forall|i: int| 0 <= i < templates@.len() ==> templates@[i].id@ != game_id@) ==> (res matches Err(m)
            && m@ == "Unbekanntes Spiel: "@ + game_id@),
        forall|i: int|
            first_with_id(templates@, game_id@, i) ==> (res matches Ok(p) && is_hyphenated_uuid(
                p.instance_id@,
            ) && install_plan_holds(p, game_id@, templates@[i], p.instance_id@)),
{
    let ghost all = templates@;
    let t = match find_template(templates, game_id) {
        Some(t) => t,
        None => {
            let mut m = lit("Unbekanntes Spiel: ");
            push_str(&mut m, game_id);
            return Err(string_of(&m));
        },
    };
    proof {
        let k = choose|k: int| first_with_id(all, game_id@, k) && t == all[k];
        assert forall|i: int| first_with_id(all, game_id@, i) implies i == k by {
            if i < k {
                assert(all[i].id@ != game_id@);
            }
            if k < i {
                assert(all[k].id@ != game_id@);
            }
        }
    }
    let id = new_uuid();
    Ok(install_plan(game_id, &t, id.as_str()))
}

/// Whether a game installs as a container, whose script needs the `gameserver` account's
/// uid and gid.
pub fn is_docker_install(t: &GameTemplate) -> (res: bool)
    ensures
        res == (t.install.install_type@ == "docker"@),
{
    proof {
        reveal_strlit("docker");
    }
    eq_exec(&chars_of(t.install.install_type.as_str()), &lit("docker"))
}

/// The command that writes the rendered install script and makes it executable for root only.
pub open spec fn install_script_text(install_path: Seq<char>, script: Seq<char>) -> Seq<char> {
    "echo '"@ + replace(script, "'"@, "'\\''"@) + "' | sudo tee "@ + install_path
        + "/install.sh > /dev/null && sudo chmod 700 "@ + install_path + "/install.sh"@
}

pub fn install_script_command(install_path: &str, script: &str) -> (res: String)
    ensures
        res@ == install_script_text(install_path@, script@),
{
    let q = lit("'");
    let e = lit("'\\''");
    proof {
        reveal_strlit("'");
        reveal_strlit("'\\''");
    }
    let mut c = lit("echo '");
    push_all(&mut c, &replace_exec(&chars_of(script), &q, &e));
    push_str(&mut c, "' | sudo tee ");
    push_str(&mut c, install_path);
    push_str(&mut c, "/install.sh > /dev/null && sudo chmod 700 ");
    push_str(&mut c, install_path);
    push_str(&mut c, "/install.sh");
    string_of(&c)
}

/// Reads the numeric id printed by `id -u gameserver` (or `id -g`); `error` is the message
/// for output that is no `u32`.
pub fn parse_account_id(output: &str, error: &str) -> (res: Result<u32, String>)
    ensures
        match parse_unsigned(trim(output@), u32::MAX as nat) {
            Some(v) => res == Ok::<u32, String>(v as u32),
            None => res matches Err(m) && m@ == error@,
        },
{
    match parse_unsigned_exec(&trim_exec(&chars_of(output)), 4294967295) {
        Some(v) => Ok(v as u32),
        None => Err(String::from_str(error)),
    }
}

/// The root-run scan for installs that have neither finished nor failed and whose install
/// unit is still active: one `<instance id>|<game id>` line each.
pub fn active_install_scan_command() -> (res: String)
    ensures
        res@ == "sudo bash -c 'for d in /home/gameserver/instances/*/; do id=$(basename \"$d\"); log=\"$d/install.log\"; [ -f \"$log\" ] || continue; tail -c 4096 \"$log\" | grep -qE \"GRIMMNETZ_DONE|GRIMMNETZ_FAILED\" && continue; unit=\"grimmnetz-install-$id\"; active=$(systemctl is-active \"$unit\" 2>/dev/null); { [ \"$active\" = \"active\" ] || [ \"$active\" = \"activating\" ]; } || continue; gid=$(cat \"$d/.grimmnetz-game-id\" 2>/dev/null); echo \"$id|$gid\"; done'"@,
{
    String::from_str(
        "sudo bash -c 'for d in /home/gameserver/instances/*/; do id=$(basename \"$d\"); log=\"$d/install.log\"; [ -f \"$log\" ] || continue; tail -c 4096 \"$log\" | grep -qE \"GRIMMNETZ_DONE|GRIMMNETZ_FAILED\" && continue; unit=\"grimmnetz-install-$id\"; active=$(systemctl is-active \"$unit\" 2>/dev/null); { [ \"$active\" = \"active\" ] || [ \"$active\" = \"activating\" ]; } || continue; gid=$(cat \"$d/.grimmnetz-game-id\" 2>/dev/null); echo \"$id|$gid\"; done'",
    )
}

/// One scan line read back: the instance and game id, unless the id is empty or known.
pub open spec fn active_install_entry(line: Seq<char>, known: Seq<Seq<char>>) -> Option<
    (Seq<char>, Seq<char>),
> {
    match split_once(trim(line), "|"@) {
        Some((id, gid)) => if id.len() == 0 || known.contains(id) {
            None
        } else {
            Some((id, gid))
        },
        None => None,
    }
}

pub open spec fn active_install_entries(ls: Seq<Seq<char>>, known: Seq<Seq<char>>) -> Seq<
    (Seq<char>, Seq<char>),
>
    decreases ls.len(),
{
    if ls.len() == 0 {
        seq![]
    } else {
        let r = active_install_entries(ls.drop_last(), known);
        match active_install_entry(ls.last(), known) {
            Some(e) => r.push(e),
            None => r,
        }
    }
}

pub open spec fn active_view(a: ActiveInstall) -> (Seq<char>, Seq<char>) {
    (a.instance_id@, a.game_id@)
}

fn known_has(known: &Vec<String>, id: &Vec<char>) -> (res: bool)
    ensures
        res == strings_view(known@).contains(id@),
{
    let mut i: usize = 0;
    while i < known.len()
        invariant
            i <= known.len(),
            forall|j: int| 0 <= j < i ==> known@[j]@ != id@,
        decreases known.len() - i,
    {
        if eq_exec(&chars_of(known[i].as_str()), id) {
            assert(strings_view(known@)[i as int] == id@);
            return true;
        }
        i += 1;
    }
    assert forall|j: int| 0 <= j < strings_view(known@).len() implies strings_view(known@)[j]
        != id@ by {
        assert(strings_view(known@)[j] == known@[j]@);
    }
    false
}

/// Reads the scan: the installs still running that the local database does not know (ids in
/// `known`), in scan order, each marked running.
pub fn parse_active_installs(output: &str, known: &Vec<String>) -> (res: Vec<ActiveInstall>)
    ensures
        res@.map_values(|a: ActiveInstall| active_view(a)) == active_install_entries(
            lines(output@),
            strings_view(known@),
        ),
        forall|k: int| 0 <= k < res@.len() ==> #[trigger] res@[k].running,
{
    let ls = lines_exec(&chars_of(output));
    let ghost lv = ls@.map_values(|v: Vec<char>| v@);
    assert(lv == lines(output@));
    let bar = lit("|");
    let mut res: Vec<ActiveInstall> = Vec::new();
    let mut i: usize = 0;
    while i < ls.len()
        invariant
            i <= ls.len(),
            lv == ls@.map_values(|v: Vec<char>| v@),
            bar@ == "|"@,
            res@.map_values(|a: ActiveInstall| active_view(a)) == active_install_entries(
                lv.take(i as int),
                strings_view(known@),
            ),
            forall|k: int| 0 <= k < res@.len() ==> #[trigger] res@[k].running,
        decreases ls.len() - i,
    {
        assert(lv.take(i + 1).drop_last() =~= lv.take(i as int));
        assert(lv.take(i + 1).last() == ls@[i as int]@);
        match split_once_exec(&trim_exec(&ls[i]), &bar) {
            Some((id, gid)) => {
                if id.len() > 0 && !known_has(known, &id) {
                    let ghost before = res@;
                    let a = ActiveInstall {
                        instance_id: string_of(&id),
                        game_id: string_of(&gid),
                        running: true,
                    };
                    res.push(a);
                    assert(res@.map_values(|a: ActiveInstall| active_view(a)) =~= before.map_values(
                        |a: ActiveInstall| active_view(a),
                    ).push((id@, gid@)));
                }
            },
            None => {},
        }
        i += 1;
    }
    assert(lv.take(ls.len() as int) =~= lv);
    res
}

/// The pipeline that replays the install log from its start and ends at the `DONE` or
/// `FAILED` marker.
pub open spec fn install_tail_text(install_path: Seq<char>) -> Seq<char> {
    "sudo tail -f --retry -n +1 "@ + install_path
        + "/install.log 2>/dev/null | awk '{ print; fflush(); if ($0 ~ /^GRIMMNETZ_DONE/ || $0 ~ /^GRIMMNETZ_FAILED/) exit }'"@
}

pub fn install_tail_command(instance_id: &str) -> (res: String)
    ensures
        res@ == install_tail_text(install_path_of(instance_id@)),
{
    let mut c = lit("sudo tail -f --retry -n +1 /home/gameserver/instances/");
    push_str(&mut c, instance_id);
    push_str(
        &mut c,
        "/install.log 2>/dev/null | awk '{ print; fflush(); if ($0 ~ /^GRIMMNETZ_DONE/ || $0 ~ /^GRIMMNETZ_FAILED/) exit }'",
    );
    proof {
        reveal_strlit("sudo tail -f --retry -n +1 /home/gameserver/instances/");
        reveal_strlit("sudo tail -f --retry -n +1 ");
        reveal_strlit("/home/gameserver/instances/");
    }
    assert(c@ =~= install_tail_text(install_path_of(instance_id@)));
    string_of(&c)
}

/// The check whether the install directory is gone.
pub fn install_dir_check_command(instance_id: &str) -> (res: String)
    ensures
        res@ == "test -d "@ + install_path_of(instance_id@) + " || echo GRIMMNETZ_DIR_GONE"@,
{
    let mut c = lit("test -d /home/gameserver/instances/");
    push_str(&mut c, instance_id);
    push_str(&mut c, " || echo GRIMMNETZ_DIR_GONE");
    proof {
        reveal_strlit("test -d /home/gameserver/instances/");
        reveal_strlit("test -d ");
        reveal_strlit("/home/gameserver/instances/");
    }
    assert(c@ =~= "test -d "@ + install_path_of(instance_id@) + " || echo GRIMMNETZ_DIR_GONE"@);
    string_of(&c)
}

/// Whether the directory check reported the directory gone (a failed check counts as not).
pub fn install_dir_gone(output: Option<String>) -> (res: bool)
    ensures
        res == (output matches Some(o) && contains(o@, "GRIMMNETZ_DIR_GONE"@)),
{
    match output {
        Some(o) => contains_exec(&chars_of(o.as_str()), &lit("GRIMMNETZ_DIR_GONE")),
        None => false,
    }
}

/// The index of the first space or `%` in `t`, or its length.
pub open spec fn number_end(t: Seq<char>) -> nat
    decreases t.len(),
{
    if t.len() == 0 || t[0] == ' ' || t[0] == '%' {
        0
    } else {
        1 + number_end(t.drop_first())
    }
}

/// The text between the first `progress:` and the next one (or the end of the line).
pub open spec fn after_progress(line: Seq<char>) -> Option<Seq<char>> {
    match find(line, "progress:"@) {
        None => None,
        Some(i) => {
            let rest = line.skip(i + 9);
            match find(rest, "progress:"@) {
                Some(j) => Some(rest.take(j)),
                None => Some(rest),
            }
        },
    }
}

/// The phase steamcmd reports on a status line.
pub open spec fn steam_phase(line: Seq<char>) -> Seq<char> {
    if contains(line, "verifying"@) {
        "Überprüfung"@
    } else if contains(line, "downloading"@) {
        "Download"@
    } else {
        "Installation"@
    }
}

/// The percentage text and phase of a steamcmd status line such as `Update state (0x61)
/// downloading, progress: 42.30 (123456789 / 291234567)`: the first word after `progress:`
/// (ended by a space or `%`), trimmed. Reading it as a number is the caller's.
pub open spec fn steam_progress(line: Seq<char>) -> Option<(Seq<char>, Seq<char>)> {
    match after_progress(line) {
        None => None,
        Some(after) => {
            let t = trim(after);
            Some((trim(t.take(number_end(t) as int)), steam_phase(line)))
        },
    }
}

proof fn lemma_number_end_bound(t: Seq<char>)
    ensures
        number_end(t) <= t.len(),
    decreases t.len(),
{
    if t.len() > 0 && t[0] != ' ' && t[0] != '%' {
        lemma_number_end_bound(t.drop_first());
    }
}

fn number_end_exec(t: &Vec<char>) -> (res: usize)
    ensures
        res == number_end(t@),
{
    let mut i: usize = 0;
    assert(t@.skip(0) =~= t@);
    while i < t.len() && t[i] != ' ' && t[i] != '%'
        invariant
            i <= t.len(),
            number_end(t@) == i + number_end(t@.skip(i as int)),
        decreases t.len() - i,
    {
        assert(t@.skip(i as int).drop_first() =~= t@.skip(i + 1));
        i += 1;
    }
    assert(t@.skip(i as int).len() == 0 || t@.skip(i as int)[0] == t@[i as int]);
    i
}

/// Pulls the percentage text and phase out of steamcmd's status line, e.g. `Update state
/// (0x61) downloading, progress: 42.30 (123456789 / 291234567)`.
pub fn steamcmd_progress_parts(line: &str) -> (res: Option<(String, String)>)
    ensures
        match steam_progress(line@) {
            Some((n, p)) => res matches Some((a, b)) && a@ == n && b@ == p,
            None => res is None,
        },
{
    let l = chars_of(line);
    let key = lit("progress:");
    proof {
        reveal_strlit("progress:");
    }
    let i = match find_exec(&l, &key) {
        Some(i) => i,
        None => return None,
    };
    let rest = slice_of(&l, i + 9, l.len());
    assert(rest@ =~= l@.skip(i + 9));
    let after = match find_exec(&rest, &key) {
        Some(j) => slice_of(&rest, 0, j),
        None => slice_of(&rest, 0, rest.len()),
    };
    assert(rest@.subrange(0, rest.len() as int) =~= rest@);
    let t = trim_exec(&after);
    let k = number_end_exec(&t);
    proof {
        lemma_number_end_bound(t@);
    }
    let number = trim_exec(&slice_of(&t, 0, k));
    let phase = if contains_exec(&l, &lit("verifying")) {
        String::from_str("Überprüfung")
    } else if contains_exec(&l, &lit("downloading")) {
        String::from_str("Download")
    } else {
        String::from_str("Installation")
    };
    Some((string_of(&number), phase))
}

/// What a line of the install log tells the user.
pub enum InstallNotice {
    /// A step label.
    Step(String),
    /// Download or verify progress: the percentage as text, and the phase.
    Progress(String, String),
}

/// What the install log has said so far.
pub struct InstallTracker {
    /// The message of a `GRIMMNETZ_FAILED:` line.
    pub failure: Option<String>,
    /// Whether a `GRIMMNETZ_DONE` line came.
    pub done: bool,
    /// The step count last announced (the template's step count to start with).
    pub total_steps: usize,
}

/// The step label of `GRIMMNETZ_STEP <rest>`, and the step count it announces.
pub open spec fn step_label(rest: Seq<char>) -> Option<Seq<char>> {
    if rest == "unit"@ {
        Some("Dienst wird eingerichtet"@)
    } else {
        match split_once(rest, "/"@) {
            Some((n, total)) => Some("Schritt "@ + n + "/"@ + total),
            None => None,
        }
    }
}

/// The step count after `GRIMMNETZ_STEP <rest>`: the total of `<n>/<total>` when it parses.
pub open spec fn announced_total(rest: Seq<char>, before: usize) -> usize {
    if rest == "unit"@ {
        before
    } else {
        match split_once(rest, "/"@) {
            Some((_, total)) => match parse_unsigned(total, usize::MAX as nat) {
                Some(v) => v as usize,
                None => before,
            },
            None => before,
        }
    }
}

pub open spec fn notice_view(n: InstallNotice) -> (bool, Seq<char>, Seq<char>) {
    match n {
        InstallNotice::Step(l) => (true, l@, seq![]),
        InstallNotice::Progress(p, ph) => (false, p@, ph@),
    }
}

impl InstallTracker {
    pub fn new(total_steps: usize) -> (res: InstallTracker)
        ensures
            res.failure is None,
            !res.done,
            res.total_steps == total_steps,
    {
        InstallTracker { failure: None, done: false, total_steps }
    }

    /// Takes in one line of the install log: a step marker gives a step label (and may update
    /// the step count), `GRIMMNETZ_DONE` marks the end, `GRIMMNETZ_FAILED:` records the
    /// message, and a steamcmd status line gives progress.
    pub fn observe(&mut self, line: &str) -> (res: Option<InstallNotice>)
        ensures
            match strip_prefix(line@, "GRIMMNETZ_STEP "@) {
                Some(rest) => {
                    &&& final(self).done == old(self).done
                    &&& final(self).failure == old(self).failure
                    &&& match step_label(rest) {
                        Some(l) => res matches Some(n) && notice_view(n) == (true, l, Seq::<char>::empty()),
                        None => res is None,
                    }
                    &&& final(self).total_steps == announced_total(rest, old(self).total_steps)
                },
                None => if starts_with(line@, "GRIMMNETZ_DONE"@) {
                    &&& final(self).done
                    &&& final(self).failure == old(self).failure
                    &&& final(self).total_steps == old(self).total_steps
                    &&& res is None
                } else {
                    &&& final(self).done == old(self).done
                    &&& final(self).total_steps == old(self).total_steps
                    &&& match strip_prefix(line@, "GRIMMNETZ_FAILED:"@) {
                        Some(msg) => final(self).failure matches Some(f) && f@ == msg && res is None,
                        None => final(self).failure == old(self).failure && match steam_progress(line@) {
                            Some((p, ph)) => res matches Some(n) && notice_view(n) == (false, p, ph),
                            None => res is None,
                        },
                    }
                },
            },
    {
        let l = chars_of(line);
        proof {
            reveal_strlit("unit");
            reveal_strlit("/");
        }
        match strip_prefix_exec(&l, &lit("GRIMMNETZ_STEP ")) {
            Some(rest) => {
                if eq_exec(&rest, &lit("unit")) {
                    return Some(InstallNotice::Step(String::from_str("Dienst wird eingerichtet")));
                }
                match split_once_exec(&rest, &lit("/")) {
                    Some((n, total)) => {
                        match parse_unsigned_exec(&total, usize::MAX as u64) {
                            Some(v) => {
                                self.total_steps = v as usize;
                            },
                            None => {},
                        }
                        let mut label = lit("Schritt ");
                        push_all(&mut label, &n);
                        push_all(&mut label, &lit("/"));
                        push_all(&mut label, &total);
                        return Some(InstallNotice::Step(string_of(&label)));
                    },
                    None => {
                        return None;
                    },
                }
            },
            None => {},
        }
        if starts_with_exec(&l, &lit("GRIMMNETZ_DONE")) {
            self.done = true;
            return None;
        }
        match strip_prefix_exec(&l, &lit("GRIMMNETZ_FAILED:")) {
            Some(msg) => {
                self.failure = Some(string_of(&msg));
                return None;
            },
            None => {},
        }
        match steamcmd_progress_parts(line) {
            Some((p, ph)) => Some(InstallNotice::Progress(p, ph)),
            None => None,
        }
    }

    /// How the install ended once the log stream closed: the recorded failure, success after
    /// `GRIMMNETZ_DONE`, and otherwise a failure whose message depends on whether the install
    /// directory is gone (the failure line was lost) or not (the connection was).
    pub fn outcome(&self, dir_gone: bool) -> (res: Result<(), String>)
        ensures
            match self.failure {
                Some(m) => res matches Err(e) && e@ == m@,
                None => if self.done {
                    res is Ok
                } else if dir_gone {
                    res matches Err(e) && e@
                        == "Installation fehlgeschlagen (Fehlermeldung nicht mehr verfügbar, Instanzordner wurde bereits aufgeräumt)."@
                } else {
                    res matches Err(e) && e@
                        == "Verbindung zum Install-Log verloren, bevor die Installation abgeschlossen war - erneut versuchen."@
                },
            },
    {
        match &self.failure {
            Some(m) => Err(m.clone()),
            None => {
                if self.done {
                    Ok(())
                } else if dir_gone {
                    Err(
                        String::from_str(
                            "Installation fehlgeschlagen (Fehlermeldung nicht mehr verfügbar, Instanzordner wurde bereits aufgeräumt).",
                        ),
                    )
                } else {
                    Err(
                        String::from_str(
                            "Verbindung zum Install-Log verloren, bevor die Installation abgeschlossen war - erneut versuchen.",
                        ),
                    )
                }
            },
        }
    }
}

/// The record of a finished install, with the template's default limits.
pub fn installed_record(
    instance_id: &str,
    server_id: &str,
    game_id: &str,
    display_name: &str,
    t: &GameTemplate,
) -> (res: InstanceRecord)
    ensures
        crate::discovery::is_instance(
            res,
            instance_id@,
            server_id@,
            game_id@,
            display_name@,
            install_path_of(instance_id@),
            "grimmnetz-"@ + instance_id@,
            t.default_cpu_limit_percent,
            t.default_ram_limit_mb,
        ),
{
    let mut path = lit("/home/gameserver/instances/");
    push_str(&mut path, instance_id);
    let mut unit = lit("grimmnetz-");
    push_str(&mut unit, instance_id);
    InstanceRecord {
        id: String::from_str(instance_id),
        server_id: String::from_str(server_id),
        game_id: String::from_str(game_id),
        display_name: String::from_str(display_name),
        install_path: string_of(&path),
        systemd_unit: string_of(&unit),
        cpu_limit_percent: t.default_cpu_limit_percent,
        ram_limit_mb: t.default_ram_limit_mb,
    }
}

} // verus!
