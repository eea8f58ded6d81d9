//! Running instances: their config files, status, the host's capacity, resource changes,
//! logs, and removing an instance without a trace.
use vstd::prelude::*;

use crate::config::{lookup, lookup_exec, spairs, to_cpairs, Pair};
use crate::games::{
    find_template, first_with_id, render_step, rendered_step, shell_single_quote, single_quoted,
    ConfigField, ConfigSchema, GameTemplate,
};
use crate::paths::{instance_path_error, instances_base, is_plain_instance_id, validate_instance_path};
use crate::provisioning::{
    control_instance, install_systemd_unit, install_unit_commands, render_systemd_unit,
    systemd_unit_text, Action, ExecOutcome,
};
use crate::records::{HostCapacity, InstanceRecord, InstanceStatus};
use crate::text::{
    chars_of, eq_exec, lines, lit, parse_i64_exec, parse_signed, parse_unsigned, parse_unsigned_exec,
    push_all, split_whitespace, split_whitespace_exec, splitn, splitn_exec, string_of, trim, trim_exec,
};

verus! {

/// Where a game's config lives and how it is read and written.
pub struct ConfigTarget {
    pub schema: ConfigSchema,
    pub path: String,
    pub read_command: String,
    /// Writes the file from stdin, as `gameserver`.
    pub write_command: String,
}

/// The config of the instance at `install_path` of game `game_id`; a game that is unknown or
/// has no config schema is refused.
pub fn config_target(templates: Vec<GameTemplate>, game_id: &str, install_path: &str) -> (res: Result<
    ConfigTarget,
    String,
>)
    ensures
        (forall|i: int| 0 <= i < templates@.len() ==> templates@[i].id@ != game_id@) ==> (res matches Err(m)
            && m@ == "Unbekanntes Spiel: "@ + game_id@),
        forall|i: int|
            first_with_id(templates@, game_id@, i) ==> match templates@[i].config {
                None => res matches Err(m) && m@
                    == "Für dieses Spiel gibt es noch keine Konfigurationsoberfläche"@,
                Some(schema) => res matches Ok(t) && t.schema == schema && t.path@ == install_path@
                    + "/"@ + schema.file@ && t.read_command@ == "sudo cat "@ + single_quoted(t.path@)
                    + " 2>/dev/null"@ && t.write_command@ == "sudo -u gameserver tee "@
                    + single_quoted(t.path@) + " > /dev/null"@,
            },
{
    let ghost all = templates@;
    let t = match find_template(templates, game_id) {
        Some(t) => t,
        None => {
            let mut m = lit("Unbekanntes Spiel: ");
            push_all(&mut m, &chars_of(game_id));
            return Err(string_of(&m));
        },
    };
    proof {
        let k = choose|k: int| first_with_id(all, game_id@, k) && t == all[k];
        assert forall|i: int| first_with_id(all, game_id@, i) implies i == k by {
            if i < k {
                assert(all[i].id@ != game_id@);
            }
            if k < i {
                assert(all[k].id@ != game_id@);
            }
        }
    }
    let schema = match t.config {
        Some(s) => s,
        None => return Err(String::from_str("Für dieses Spiel gibt es noch keine Konfigurationsoberfläche")),
    };
    let mut p = chars_of(install_path);
    push_all(&mut p, &lit("/"));
    push_all(&mut p, &chars_of(schema.file.as_str()));
    let path = string_of(&p);
    let q = chars_of(shell_single_quote(path.as_str()).as_str());
    let mut r = lit("sudo cat ");
    push_all(&mut r, &q);
    push_all(&mut r, &lit(" 2>/dev/null"));
    let mut w = lit("sudo -u gameserver tee ");
    push_all(&mut w, &q);
    push_all(&mut w, &lit(" > /dev/null"));
    Ok(ConfigTarget { schema, path, read_command: string_of(&r), write_command: string_of(&w) })
}

/// The ports to open after a config save: for each field that controls a listen port, in
/// schema order, the new value when it was saved and reads as a port, with the field's
/// protocol.
pub open spec fn ports_for(fields: Seq<ConfigField>, vals: Seq<Pair>) -> Seq<(u16, Seq<char>)>
    decreases fields.len(),
{
    if fields.len() == 0 {
        seq![]
    } else {
        let r = ports_for(fields.drop_last(), vals);
        let f = fields.last();
        match f.opens_port_protocol {
            Some(proto) => match lookup(vals, f.key@) {
                Some(v) => match parse_unsigned(v, u16::MAX as nat) {
                    Some(p) => r.push((p as u16, proto@)),
                    None => r,
                },
                None => r,
            },
            None => r,
        }
    }
}

pub open spec fn port_views(v: Seq<(u16, String)>) -> Seq<(u16, Seq<char>)> {
    v.map_values(|p: (u16, String)| (p.0, p.1@))
}

/// The ports a saved config asks to have opened (`values` are the saved field values).
pub fn ports_to_open(schema: &ConfigSchema, values: &Vec<(String, String)>) -> (res: Vec<(u16, String)>)
    ensures
        port_views(res@) == ports_for(schema.fields@, spairs(values@)),
{
    let vals = to_cpairs(values);
    let fields = &schema.fields;
    let mut res: Vec<(u16, String)> = Vec::new();
    let mut i: usize = 0;
    while i < fields.len()
        invariant
            i <= fields.len(),
            fields == &schema.fields,
            crate::config::cpairs(vals@) == spairs(values@),
            port_views(res@) == ports_for(fields@.take(i as int), spairs(values@)),
        decreases fields.len() - i,
    {
        assert(fields@.take(i + 1).drop_last() =~= fields@.take(i as int));
        assert(fields@.take(i + 1).last() == fields@[i as int]);
        let f = &fields[i];
        match &f.opens_port_protocol {
            Some(proto) => match lookup_exec(&vals, &chars_of(f.key.as_str())) {
                Some(v) => match parse_unsigned_exec(&v, 65535) {
                    Some(p) => {
                        let ghost before = res@;
                        res.push((p as u16, proto.clone()));
                        assert(port_views(res@) =~= port_views(before).push((p as u16, proto@)));
                    },
                    None => {},
                },
                None => {},
            },
            None => {},
        }
        i += 1;
    }
    assert(fields@.take(fields.len() as int) =~= fields@);
    res
}

/// The status probe of a unit: state, uptime in seconds, main PID and start time.
pub open spec fn status_probe_text(unit: Seq<char>) -> Seq<char> {
    "STATE=$(systemctl is-active "@ + unit + "); TS=$(systemctl show -p ActiveEnterTimestamp --value "@
        + unit + "); PID=$(systemctl show -p MainPID --value "@ + unit
        + "); if [ -n \"$TS\" ] && [ \"$TS\" != \"n/a\" ]; then NOW=$(date +%s); THEN=$(date -d \"$TS\" +%s 2>/dev/null || echo $NOW); UPTIME=$((NOW-THEN)); else UPTIME=0; fi; echo \"$STATE|$UPTIME|$PID|$TS\""@
}

pub fn status_probe_command(unit_name: &str) -> (res: String)
    ensures
        res@ == status_probe_text(unit_name@),
{
    let u = chars_of(unit_name);
    let mut c = lit("STATE=$(systemctl is-active ");
    push_all(&mut c, &u);
    push_all(&mut c, &lit("); TS=$(systemctl show -p ActiveEnterTimestamp --value "));
    push_all(&mut c, &u);
    push_all(&mut c, &lit("); PID=$(systemctl show -p MainPID --value "));
    push_all(&mut c, &u);
    push_all(
        &mut c,
        &lit(
            "); if [ -n \"$TS\" ] && [ \"$TS\" != \"n/a\" ]; then NOW=$(date +%s); THEN=$(date -d \"$TS\" +%s 2>/dev/null || echo $NOW); UPTIME=$((NOW-THEN)); else UPTIME=0; fi; echo \"$STATE|$UPTIME|$PID|$TS\"",
        ),
    );
    string_of(&c)
}

pub open spec fn i64_of(s: Seq<char>) -> Option<i64> {
    match parse_signed(s, i64::MAX as nat) {
        Some(v) => Some(v as i64),
        None => None,
    }
}

/// The fields of the probe's output `STATE|UPTIME|PID|TS`: the uptime is 0 when missing or
/// unreadable, a PID of 0 means none, and a start time of `n/a` or nothing means none.
pub open spec fn status_holds(r: InstanceStatus, out: Seq<char>) -> bool {
    let ps = splitn(trim(out), "|"@, 4);
    &&& r.state@ == ps[0]
    &&& r.uptime_seconds == (if ps.len() > 1 {
        match i64_of(ps[1]) {
            Some(v) => v,
            None => 0,
        }
    } else {
        0
    })
    &&& r.pid == (if ps.len() > 2 {
        match i64_of(ps[2]) {
            Some(v) => if v != 0 {
                Some(v)
            } else {
                None
            },
            None => None,
        }
    } else {
        None
    })
    &&& (if ps.len() > 3 && trim(ps[3]).len() > 0 && trim(ps[3]) != "n/a"@ {
        r.started_at matches Some(s) && s@ == trim(ps[3])
    } else {
        r.started_at is None
    })
}

proof fn lemma_splitn_nonempty(s: Seq<char>, p: Seq<char>, n: nat)
    requires
        n >= 1,
    ensures
        splitn(s, p, n).len() >= 1,
{
}

/// Reads the status probe's output.
pub fn parse_instance_status(output: &str) -> (res: InstanceStatus)
    ensures
        status_holds(res, output@),
{
    let ps = splitn_exec(&trim_exec(&chars_of(output)), &lit("|"), 4);
    proof {
        lemma_splitn_nonempty(trim(output@), "|"@, 4);
    }
    let state = string_of(&ps[0]);
    let uptime: i64 = if ps.len() > 1 {
        match parse_i64_exec(&ps[1]) {
            Some(v) => v,
            None => 0,
        }
    } else {
        0
    };
    let pid: Option<i64> = if ps.len() > 2 {
        match parse_i64_exec(&ps[2]) {
            Some(v) => if v != 0 {
                Some(v)
            } else {
                None
            },
            None => None,
        }
    } else {
        None
    };
    proof {
        reveal_strlit("n/a");
    }
    let started: Option<String> = if ps.len() > 3 {
        let t = trim_exec(&ps[3]);
        if t.len() > 0 && !eq_exec(&t, &lit("n/a")) {
            Some(string_of(&t))
        } else {
            None
        }
    } else {
        None
    };
    InstanceStatus { state, uptime_seconds: uptime, pid, started_at: started }
}

/// The probe printing `<cores>|<MB of RAM>`.
pub fn capacity_probe_command() -> (res: String)
    ensures
        res@ == "echo \"$(nproc)|$(awk '/MemTotal/ {print int($2/1024)}' /proc/meminfo)\""@,
{
    String::from_str("echo \"$(nproc)|$(awk '/MemTotal/ {print int($2/1024)}' /proc/meminfo)\"")
}

/// The three probes of the live hardware view: CPU load, then `used total` RAM in MB, then
/// `used total` disk space of `/` in GB.
pub fn hardware_probe_commands() -> (res: (String, String, String))
    ensures
        res.0@ == "top -bn1 | grep 'Cpu(s)' | awk '{print $2}'"@,
        res.1@ == "free -m | awk '/Mem:/ {print $3\" \"$2}'"@,
        res.2@ == "df -BG / | awk 'NR==2 {gsub(\"G\",\"\"); print $3\" \"$2}'"@,
{
    (
        String::from_str("top -bn1 | grep 'Cpu(s)' | awk '{print $2}'"),
        String::from_str("free -m | awk '/Mem:/ {print $3\" \"$2}'"),
        String::from_str("df -BG / | awk 'NR==2 {gsub(\"G\",\"\"); print $3\" \"$2}'"),
    )
}

pub open spec fn u32_of_or(s: Seq<char>, d: u32) -> u32 {
    match parse_unsigned(s, u32::MAX as nat) {
        Some(v) => v as u32,
        None => d,
    }
}

/// Reads the capacity probe: cores (1 when unreadable) and RAM in MB (1024 when unreadable).
pub fn parse_host_capacity(output: &str) -> (res: HostCapacity)
    ensures
        ({
            let ps = splitn(trim(output@), "|"@, 2);
            &&& res.cpu_cores == u32_of_or(ps[0], 1)
            &&& res.ram_total_mb == (if ps.len() > 1 {
                u32_of_or(ps[1], 1024)
            } else {
                1024
            })
        }),
{
    let ps = splitn_exec(&trim_exec(&chars_of(output)), &lit("|"), 2);
    proof {
        lemma_splitn_nonempty(trim(output@), "|"@, 2);
    }
    let cpu: u32 = match parse_unsigned_exec(&ps[0], 4294967295) {
        Some(v) => v as u32,
        None => 1,
    };
    let ram: u32 = if ps.len() > 1 {
        match parse_unsigned_exec(&ps[1], 4294967295) {
            Some(v) => v as u32,
            None => 1024,
        }
    } else {
        1024
    };
    HostCapacity { cpu_cores: cpu, ram_total_mb: ram }
}

pub open spec fn u64_of_or0(s: Seq<char>) -> u64 {
    match parse_unsigned(s, u64::MAX as nat) {
        Some(v) => v as u64,
        None => 0,
    }
}

/// The first two whitespace-separated numbers of a probe (`used total`), 0 where unreadable.
pub fn parse_usage_pair(output: &str) -> (res: (u64, u64))
    ensures
        ({
            let ws = split_whitespace(trim(output@));
            &&& res.0 == (if ws.len() > 0 {
                u64_of_or0(ws[0])
            } else {
                0
            })
            &&& res.1 == (if ws.len() > 1 {
                u64_of_or0(ws[1])
            } else {
                0
            })
        }),
{
    let ws = split_whitespace_exec(&trim_exec(&chars_of(output)));
    let a: u64 = if ws.len() > 0 {
        match parse_unsigned_exec(&ws[0], u64::MAX) {
            Some(v) => v,
            None => 0,
        }
    } else {
        0
    };
    let b: u64 = if ws.len() > 1 {
        match parse_unsigned_exec(&ws[1], u64::MAX) {
            Some(v) => v,
            None => 0,
        }
    } else {
        0
    };
    (a, b)
}

/// What changing an instance's limits does: the new unit file, the commands installing it,
/// and the restart that applies it.
pub struct ResourceUpdate {
    pub unit_contents: String,
    pub install_commands: Vec<String>,
    pub restart_command: String,
}

/// The first record of `instance_id`.
pub open spec fn first_instance(instances: Seq<InstanceRecord>, id: Seq<char>, i: int) -> bool {
    0 <= i < instances.len() && instances[i].id@ == id && forall|j: int|
        0 <= j < i ==> (#[trigger] instances[j]).id@ != id
}

/// Plans new limits for an instance: the path must be the instance's own directory, the
/// instance must be known, and its game's template found; the unit is rendered anew with
/// the template's start command for the new RAM.
pub fn resource_update(
    instances: &Vec<InstanceRecord>,
    templates: Vec<GameTemplate>,
    instance_id: &str,
    unit_name: &str,
    install_path: &str,
    cpu_limit_percent: u32,
    ram_limit_mb: u32,
) -> (res: Result<ResourceUpdate, String>)
    ensures
        !(is_plain_instance_id(instance_id@) && install_path@ == instances_base() + instance_id@)
            ==> (res matches Err(m) && m@ == instance_path_error(install_path@, instance_id@)),
        (is_plain_instance_id(instance_id@) && install_path@ == instances_base() + instance_id@
            && forall|i: int| 0 <= i < instances@.len() ==> instances@[i].id@ != instance_id@) ==> (
        res matches Err(m) && m@ == "Instanz nicht gefunden"@),
        forall|i: int, k: int|
            is_plain_instance_id(instance_id@) && install_path@ == instances_base() + instance_id@
                && first_instance(instances@, instance_id@, i) && first_with_id(
                templates@,
                instances@[i].game_id@,
                k,
            ) ==> (res matches Ok(u) && u.unit_contents@ == systemd_unit_text(
                instance_id@,
                install_path@,
                rendered_step(templates@[k].start_command@, instance_id@, ram_limit_mb as nat),
                ram_limit_mb as nat,
                cpu_limit_percent as nat,
            ) && u.install_commands@.map_values(|s: String| s@) == install_unit_commands(
                unit_name@,
                u.unit_contents@,
            ) && u.restart_command@ == "sudo systemctl restart "@ + unit_name@),
        (is_plain_instance_id(instance_id@) && install_path@ == instances_base() + instance_id@
            && exists|i: int| first_instance(instances@, instance_id@, i) && forall|k: int|
                0 <= k < templates@.len() ==> templates@[k].id@ != instances@[i].game_id@) ==> (
        res matches Err(m) && m@ == "Unbekanntes Spiel"@),
{
    match validate_instance_path(install_path, instance_id) {
        Ok(()) => {},
        Err(e) => return Err(e),
    }
    let id = chars_of(instance_id);
    let mut i: usize = 0;
    while i < instances.len() && !eq_exec(&chars_of(instances[i].id.as_str()), &id)
        invariant
            i <= instances.len(),
            id@ == instance_id@,
            forall|j: int| 0 <= j < i ==> (#[trigger] instances@[j]).id@ != instance_id@,
        decreases instances.len() - i,
    {
        i += 1;
    }
    if i == instances.len() {
        return Err(String::from_str("Instanz nicht gefunden"));
    }
    assert(first_instance(instances@, instance_id@, i as int));
    proof {
        assert forall|j: int| first_instance(instances@, instance_id@, j) implies j == i by {
            if j < i {
                assert(instances@[j].id@ != instance_id@);
            }
            if i < j {
                assert(instances@[i as int].id@ != instance_id@);
            }
        }
    }
    let ghost all = templates@;
    let game_id = instances[i].game_id.clone();
    let t = match find_template(templates, game_id.as_str()) {
        Some(t) => t,
        None => return Err(String::from_str("Unbekanntes Spiel")),
    };
    proof {
        let k = choose|k: int| first_with_id(all, game_id@, k) && t == all[k];
        assert forall|j: int| first_with_id(all, game_id@, j) implies j == k by {
            if j < k {
                assert(all[j].id@ != game_id@);
            }
            if k < j {
                assert(all[k].id@ != game_id@);
            }
        }
    }
    let start = render_step(t.start_command.as_str(), instance_id, ram_limit_mb);
    let unit = render_systemd_unit(instance_id, install_path, start.as_str(), ram_limit_mb, cpu_limit_percent);
    let cmds = install_systemd_unit(unit_name, unit.as_str());
    let restart = control_instance(unit_name, "restart");
    proof {
        reveal_strlit("restart");
        reveal_strlit("sudo systemctl ");
        reveal_strlit(" ");
        reveal_strlit("sudo systemctl restart ");
        assert(restart@ =~= "sudo systemctl restart "@ + unit_name@);
    }
    Ok(ResourceUpdate { unit_contents: unit, install_commands: cmds, restart_command: restart })
}

/// The live log of a unit: the last 200 lines, then following, without journald's prefix.
pub fn log_follow_command(unit_name: &str) -> (res: String)
    ensures
        res@ == "journalctl -fu "@ + unit_name@ + " -n 200 --no-pager -o cat"@,
{
    let mut c = lit("journalctl -fu ");
    push_all(&mut c, &chars_of(unit_name));
    push_all(&mut c, &lit(" -n 200 --no-pager -o cat"));
    string_of(&c)
}

/// Where removing an instance stands: the step whose outcome comes next.
#[derive(Clone, Copy, PartialEq, Eq, Structural)]
pub enum RemovalStage {
    Start,
    Stopped,
    Disabled,
    UnitRemoved,
    TimersRemoved,
    InstallUnitRemoved,
    ContainerRemoved,
    Reloaded,
    FilesRemoved,
    Done,
}

/// Uninstalling an instance completely: stop and disable its service, remove its unit, its
/// restart timers, its install unit and any leftover container, reload systemd, and delete
/// its files. The instance's own directory, and nothing wider, is what gets deleted.
pub struct InstanceRemoval {
    pub instance_id: String,
    pub unit_name: String,
    pub install_path: String,
    pub stage: RemovalStage,
    pub result: Result<String, String>,
}

pub open spec fn restart_timers_cleanup_text(unit: Seq<char>) -> Seq<char> {
    "for f in /etc/systemd/system/grimmnetz-restart-"@ + unit
        + "-*; do [ -e \"$f\" ] || continue; NAME=$(basename \"$f\" | sed -E 's/\\.(timer|service)$//'); sudo systemctl disable --now \"$NAME.timer\" 2>/dev/null; sudo rm -f \"$f\"; done"@
}

pub open spec fn install_unit_cleanup_text(instance_id: Seq<char>) -> Seq<char> {
    let n = "grimmnetz-install-"@ + instance_id;
    "sudo systemctl stop "@ + n + " 2>/dev/null; sudo systemctl disable "@ + n
        + " 2>/dev/null; sudo rm -f /etc/systemd/system/"@ + n + ".service"@
}

/// The next command of a removal that has just finished step `stage`.
pub open spec fn removal_command(stage: RemovalStage, id: Seq<char>, unit: Seq<char>, path: Seq<char>) -> Seq<char> {
    match stage {
        RemovalStage::Start => "sudo systemctl stop "@ + unit,
        RemovalStage::Stopped => "sudo systemctl disable "@ + unit,
        RemovalStage::Disabled => "sudo rm -f /etc/systemd/system/"@ + unit + ".service"@,
        RemovalStage::UnitRemoved => restart_timers_cleanup_text(unit),
        RemovalStage::TimersRemoved => install_unit_cleanup_text(id),
        RemovalStage::InstallUnitRemoved => "sudo docker rm -f "@ + unit + " 2>/dev/null"@,
        RemovalStage::ContainerRemoved => "sudo systemctl daemon-reload"@,
        RemovalStage::Reloaded => "sudo rm -rf "@ + path,
        _ => seq![],
    }
}

pub open spec fn next_stage(stage: RemovalStage) -> RemovalStage {
    match stage {
        RemovalStage::Start => RemovalStage::Stopped,
        RemovalStage::Stopped => RemovalStage::Disabled,
        RemovalStage::Disabled => RemovalStage::UnitRemoved,
        RemovalStage::UnitRemoved => RemovalStage::TimersRemoved,
        RemovalStage::TimersRemoved => RemovalStage::InstallUnitRemoved,
        RemovalStage::InstallUnitRemoved => RemovalStage::ContainerRemoved,
        RemovalStage::ContainerRemoved => RemovalStage::Reloaded,
        RemovalStage::Reloaded => RemovalStage::FilesRemoved,
        _ => RemovalStage::Done,
    }
}

/// A step whose failure the removal tolerates.
pub open spec fn best_effort(stage: RemovalStage) -> bool {
    stage == RemovalStage::InstallUnitRemoved || stage == RemovalStage::ContainerRemoved
}

fn clone_result(r: &Result<String, String>) -> (res: Result<String, String>)
    ensures
        res == *r,
{
    match r {
        Ok(s) => Ok(s.clone()),
        Err(e) => Err(e.clone()),
    }
}

impl InstanceRemoval {
    pub open spec fn wf(&self) -> bool {
        is_plain_instance_id(self.instance_id@) && self.install_path@ == instances_base()
            + self.instance_id@
    }

    /// Starts the removal of instance `instance_id`; `install_path` must be its own directory.
    pub fn new(instance_id: &str, unit_name: &str, install_path: &str) -> (res: Result<InstanceRemoval, String>)
        ensures
            res is Ok <==> (is_plain_instance_id(instance_id@) && install_path@ == instances_base()
                + instance_id@),
            res matches Ok(r) ==> r.wf() && r.stage == RemovalStage::Start && r.instance_id@
                == instance_id@ && r.unit_name@ == unit_name@ && r.install_path@ == install_path@,
            res matches Err(m) ==> m@ == instance_path_error(install_path@, instance_id@),
    {
        match validate_instance_path(install_path, instance_id) {
            Ok(()) => {},
            Err(e) => return Err(e),
        }
        Ok(
            InstanceRemoval {
                instance_id: String::from_str(instance_id),
                unit_name: String::from_str(unit_name),
                install_path: String::from_str(install_path),
                stage: RemovalStage::Start,
                result: Ok(String::new()),
            },
        )
    }

    fn finish(&mut self, r: Result<String, String>) -> (res: Action)
        ensures
            final(self).instance_id == old(self).instance_id,
            final(self).unit_name == old(self).unit_name,
            final(self).install_path == old(self).install_path,
            final(self).stage == RemovalStage::Done,
            final(self).result == r,
            res == Action::Finish(r),
    {
        self.stage = RemovalStage::Done;
        self.result = clone_result(&r);
        Action::Finish(r)
    }

    fn command(&self) -> (res: String)
        ensures
            res@ == removal_command(self.stage, self.instance_id@, self.unit_name@, self.install_path@),
    {
        let u = chars_of(self.unit_name.as_str());
        match self.stage {
            RemovalStage::Start => string_of(&concat2(&lit("sudo systemctl stop "), &u)),
            RemovalStage::Stopped => string_of(&concat2(&lit("sudo systemctl disable "), &u)),
            RemovalStage::Disabled => {
                let mut c = concat2(&lit("sudo rm -f /etc/systemd/system/"), &u);
                push_all(&mut c, &lit(".service"));
                string_of(&c)
            },
            RemovalStage::UnitRemoved => {
                let mut c = concat2(&lit("for f in /etc/systemd/system/grimmnetz-restart-"), &u);
                push_all(
                    &mut c,
                    &lit(
                        "-*; do [ -e \"$f\" ] || continue; NAME=$(basename \"$f\" | sed -E 's/\\.(timer|service)$//'); sudo systemctl disable --now \"$NAME.timer\" 2>/dev/null; sudo rm -f \"$f\"; done",
                    ),
                );
                string_of(&c)
            },
            RemovalStage::TimersRemoved => {
                let n = concat2(&lit("grimmnetz-install-"), &chars_of(self.instance_id.as_str()));
                let mut c = concat2(&lit("sudo systemctl stop "), &n);
                push_all(&mut c, &lit(" 2>/dev/null; sudo systemctl disable "));
                push_all(&mut c, &n);
                push_all(&mut c, &lit(" 2>/dev/null; sudo rm -f /etc/systemd/system/"));
                push_all(&mut c, &n);
                push_all(&mut c, &lit(".service"));
                string_of(&c)
            },
            RemovalStage::InstallUnitRemoved => {
                let mut c = concat2(&lit("sudo docker rm -f "), &u);
                push_all(&mut c, &lit(" 2>/dev/null"));
                string_of(&c)
            },
            RemovalStage::ContainerRemoved => String::from_str("sudo systemctl daemon-reload"),
            RemovalStage::Reloaded => string_of(
                &concat2(&lit("sudo rm -rf "), &chars_of(self.install_path.as_str())),
            ),
            _ => String::new(),
        }
    }

    /// Takes the outcome of the previous command (ignored on the first call) and says what to
    /// do next. A failed stop ends the run with `Konnte Dienst nicht stoppen: <error>`; the
    /// install-unit and container cleanups are best effort; any other failure ends the run
    /// with its error.
    pub fn next(&mut self, ev: ExecOutcome) -> (res: Action)
        requires
            old(self).wf(),
        ensures
            final(self).wf(),
            final(self).instance_id == old(self).instance_id,
            final(self).unit_name == old(self).unit_name,
            final(self).install_path == old(self).install_path,
            old(self).stage == RemovalStage::Start ==> (res matches Action::Run(c) && c@
                == removal_command(RemovalStage::Start, old(self).instance_id@, old(self).unit_name@, old(self).install_path@)
                && final(self).stage == RemovalStage::Stopped),
            old(self).stage != RemovalStage::Start && old(self).stage != RemovalStage::Done ==> match ev {
                ExecOutcome::Failed(e) => if best_effort(old(self).stage) {
                    res matches Action::Run(c) && c@ == removal_command(old(self).stage, old(self).instance_id@, old(self).unit_name@, old(self).install_path@)
                        && final(self).stage == next_stage(old(self).stage)
                } else if old(self).stage == RemovalStage::Stopped {
                    res matches Action::Finish(Err(m)) && m@ == "Konnte Dienst nicht stoppen: "@ + e@
                } else {
                    res matches Action::Finish(Err(m)) && m@ == e@
                },
                ExecOutcome::Output(_) => if old(self).stage == RemovalStage::FilesRemoved {
                    res matches Action::Finish(Ok(_))
                } else {
                    res matches Action::Run(c) && c@ == removal_command(old(self).stage, old(self).instance_id@, old(self).unit_name@, old(self).install_path@)
                        && final(self).stage == next_stage(old(self).stage)
                },
            },
            old(self).stage == RemovalStage::Done ==> res == Action::Finish(old(self).result),
            // The files are deleted last, only after every required step succeeded, and only
            // the instance's own directory.
            final(self).stage == RemovalStage::FilesRemoved ==> (old(self).stage
                == RemovalStage::Reloaded && (res matches Action::Run(c) && c@ == "sudo rm -rf "@
                + instances_base() + old(self).instance_id@)),
            res matches Action::Finish(r) ==> final(self).stage == RemovalStage::Done,
    {
        match self.stage {
            RemovalStage::Start => {
                let c = self.command();
                self.stage = RemovalStage::Stopped;
                Action::Run(c)
            },
            RemovalStage::Done => Action::Finish(clone_result(&self.result)),
            RemovalStage::FilesRemoved => match ev {
                ExecOutcome::Failed(e) => self.finish(Err(e)),
                ExecOutcome::Output(_) => self.finish(Ok(String::new())),
            },
            stage => {
                let tolerated = stage == RemovalStage::InstallUnitRemoved || stage
                    == RemovalStage::ContainerRemoved;
                match ev {
                    ExecOutcome::Failed(e) => {
                        if !tolerated {
                            if stage == RemovalStage::Stopped {
                                let mut m = lit("Konnte Dienst nicht stoppen: ");
                                push_all(&mut m, &chars_of(e.as_str()));
                                return self.finish(Err(string_of(&m)));
                            }
                            return self.finish(Err(e));
                        }
                    },
                    ExecOutcome::Output(_) => {},
                }
                let c = self.command();
                self.stage = match stage {
                    RemovalStage::Stopped => RemovalStage::Disabled,
                    RemovalStage::Disabled => RemovalStage::UnitRemoved,
                    RemovalStage::UnitRemoved => RemovalStage::TimersRemoved,
                    RemovalStage::TimersRemoved => RemovalStage::InstallUnitRemoved,
                    RemovalStage::InstallUnitRemoved => RemovalStage::ContainerRemoved,
                    RemovalStage::ContainerRemoved => RemovalStage::Reloaded,
                    _ => RemovalStage::FilesRemoved,
                };
                Action::Run(c)
            },
        }
    }
}

fn concat2(a: &Vec<char>, b: &Vec<char>) -> (res: Vec<char>)
    ensures
        res@ == a@ + b@,
{
    let mut c = crate::text::slice_of(a, 0, a.len());
    assert(c@ =~= a@);
    push_all(&mut c, b);
    c
}

} // verus!
