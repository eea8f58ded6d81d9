//! Finding the instances a server already runs that the local database does not know: their
//! units, their manifests, and the guess from a template's start command when there is none.
use vstd::prelude::*;

use crate::games::{shell_single_quote, single_quoted, GameTemplate};
use crate::json::{json_is_valid, json_parses, json_str_field, json_str_member, json_u64_field, json_u64_member};
use crate::paths::instances_base;
use crate::records::InstanceRecord;
use crate::text::{
    chars_of, ends_with, ends_with_exec, eq_exec, find, find_exec, is_first_occurrence, lines,
    lines_exec, lit, push_all, slice_of, split_whitespace, split_whitespace_exec, starts_with,
    starts_with_exec, string_of, strip_prefix, strip_prefix_exec, trim, trim_exec,
};

verus! {

/// The first whitespace-separated word of `s`.
pub open spec fn first_word(s: Seq<char>) -> Option<Seq<char>> {
    if split_whitespace(s).len() > 0 {
        Some(split_whitespace(s)[0])
    } else {
        None
    }
}

fn first_word_exec(s: &Vec<char>) -> (res: Option<Vec<char>>)
    ensures
        match first_word(s@) {
            Some(w) => res matches Some(x) && x@ == w,
            None => res is None,
        },
{
    let ws = split_whitespace_exec(s);
    if ws.len() > 0 {
        Some(slice_of(&ws[0], 0, ws[0].len()))
    } else {
        None
    }
}

/// The file a start command runs, relative to the install directory: the word after a
/// leading `./`, or the word after `-jar `.
pub open spec fn signature_path(start_command: Seq<char>) -> Option<Seq<char>> {
    match strip_prefix(start_command, "./"@) {
        Some(rest) => first_word(rest),
        None => match find(start_command, "-jar "@) {
            Some(i) => first_word(start_command.skip(i + 5)),
            None => None,
        },
    }
}

/// The file whose presence in an install directory betrays the game of template `t`, for
/// the discovery of instances without a manifest.
pub fn signature_path_for_template(t: &GameTemplate) -> (res: Option<String>)
    ensures
        match signature_path(t.start_command@) {
            Some(p) => res matches Some(x) && x@ == p,
            None => res is None,
        },
{
    let cmd = chars_of(t.start_command.as_str());
    let dot = lit("./");
    match strip_prefix_exec(&cmd, &dot) {
        Some(rest) => {
            return match first_word_exec(&rest) {
                Some(w) => Some(string_of(&w)),
                None => None,
            };
        },
        None => {},
    }
    let jar = lit("-jar ");
    proof {
        reveal_strlit("-jar ");
    }
    match find_exec(&cmd, &jar) {
        Some(i) => {
            let after = slice_of(&cmd, i + 5, cmd.len());
            assert(after@ =~= cmd@.skip(i + 5));
            match first_word_exec(&after) {
                Some(w) => Some(string_of(&w)),
                None => None,
            }
        },
        None => None,
    }
}

/// `str::trim_end_matches(p)`: every trailing copy of `p` removed.
pub open spec fn strip_suffixes(s: Seq<char>, p: Seq<char>) -> Seq<char>
    decreases s.len(),
{
    if p.len() > 0 && ends_with(s, p) {
        strip_suffixes(s.take(s.len() - p.len()), p)
    } else {
        s
    }
}

fn strip_suffixes_exec(s: &Vec<char>, p: &Vec<char>) -> (res: Vec<char>)
    ensures
        res@ == strip_suffixes(s@, p@),
{
    let mut cur = slice_of(s, 0, s.len());
    assert(cur@ =~= s@);
    while p.len() > 0 && ends_with_exec(&cur, p)
        invariant
            strip_suffixes(cur@, p@) == strip_suffixes(s@, p@),
        decreases cur.len(),
    {
        cur = slice_of(&cur, 0, cur.len() - p.len());
    }
    cur
}

/// A unit found on the server, as a candidate instance: its unit name (the listed file name
/// without `.service`) and the instance id in it, unless the unit is a restart timer's or an
/// install's, or the id is already known.
pub open spec fn discovery_candidate(line: Seq<char>, known: Seq<Seq<char>>) -> Option<
    (Seq<char>, Seq<char>),
> {
    let unit = strip_suffixes(trim(line), ".service"@);
    match strip_prefix(unit, "grimmnetz-"@) {
        Some(id) => if id.len() > 0 && !starts_with(id, "restart-"@) && !starts_with(
            id,
            "install-"@,
        ) && !known.contains(id) {
            Some((unit, id))
        } else {
            None
        },
        None => None,
    }
}

pub open spec fn discovery_candidates(ls: Seq<Seq<char>>, known: Seq<Seq<char>>) -> Seq<
    (Seq<char>, Seq<char>),
>
    decreases ls.len(),
{
    if ls.len() == 0 {
        seq![]
    } else {
        let r = discovery_candidates(ls.drop_last(), known);
        match discovery_candidate(ls.last(), known) {
            Some(c) => r.push(c),
            None => r,
        }
    }
}

/// Discovery only ever proposes game instances it does not know yet: every candidate's unit is
/// `grimmnetz-<id>` for a non-empty id that is neither a restart timer's nor an install's, and
/// that is not among the known ids.
pub proof fn lemma_discovery_candidates_are_new_instances(ls: Seq<Seq<char>>, known: Seq<Seq<char>>)
    ensures
        forall|k: int|
            0 <= k < discovery_candidates(ls, known).len() ==> {
                let (unit, id) = #[trigger] discovery_candidates(ls, known)[k];
                &&& unit == "grimmnetz-"@ + id
                &&& id.len() > 0
                &&& !starts_with(id, "restart-"@)
                &&& !starts_with(id, "install-"@)
                &&& !known.contains(id)
            },
    decreases ls.len(),
{
    reveal_strlit("grimmnetz-");
    if ls.len() > 0 {
        lemma_discovery_candidates_are_new_instances(ls.drop_last(), known);
        let r = discovery_candidates(ls.drop_last(), known);
        match discovery_candidate(ls.last(), known) {
            Some(c) => {
                let unit = strip_suffixes(trim(ls.last()), ".service"@);
                assert(starts_with(unit, "grimmnetz-"@));
                assert(unit.subrange(0, 10) == "grimmnetz-"@);
                assert(unit =~= "grimmnetz-"@ + unit.skip(10));
                assert forall|k: int| 0 <= k < r.push(c).len() implies {
                    let (u, id) = #[trigger] r.push(c)[k];
                    &&& u == "grimmnetz-"@ + id
                    &&& id.len() > 0
                    &&& !starts_with(id, "restart-"@)
                    &&& !starts_with(id, "install-"@)
                    &&& !known.contains(id)
                } by {
                    if k < r.len() {
                        assert(r.push(c)[k] == r[k]);
                    }
                }
            },
            None => {},
        }
    }
}

pub open spec fn strings_view(v: Seq<String>) -> Seq<Seq<char>> {
    v.map_values(|s: String| s@)
}

fn known_contains(known: &Vec<String>, id: &Vec<char>) -> (res: bool)
    ensures
        res == strings_view(known@).contains(id@),
{
    let mut i: usize = 0;
    while i < known.len()
        invariant
            i <= known.len(),
            forall|j: int| 0 <= j < i ==> known@[j]@ != id@,
        decreases known.len() - i,
    {
        if eq_exec(&chars_of(known[i].as_str()), id) {
            assert(strings_view(known@)[i as int] == id@);
            return true;
        }
        i += 1;
    }
    assert forall|j: int| 0 <= j < strings_view(known@).len() implies strings_view(known@)[j]
        != id@ by {
        assert(strings_view(known@)[j] == known@[j]@);
    }
    false
}

/// The command listing the GrimmNetz service units, one file name per line.
pub fn discovery_list_command() -> (res: String)
    ensures
        res@ == "find /etc/systemd/system -maxdepth 1 -name 'grimmnetz-*.service' -printf '%f\\n' 2>/dev/null"@,
{
    String::from_str(
        "find /etc/systemd/system -maxdepth 1 -name 'grimmnetz-*.service' -printf '%f\\n' 2>/dev/null",
    )
}

/// Reads the unit listing: the (unit name, instance id) pairs of instances that are neither
/// known nor restart or install units, in listing order.
pub fn parse_discovery_candidates(unit_list: &str, known: &Vec<String>) -> (res: Vec<
    (String, String),
>)
    ensures
        res@.map_values(|p: (String, String)| (p.0@, p.1@)) == discovery_candidates(
            lines(unit_list@),
            strings_view(known@),
        ),
{
    let ls = lines_exec(&chars_of(unit_list));
    let ghost lv = ls@.map_values(|v: Vec<char>| v@);
    let suffix = lit(".service");
    let pre = lit("grimmnetz-");
    let restart = lit("restart-");
    let install = lit("install-");
    let mut res: Vec<(String, String)> = Vec::new();
    let mut i: usize = 0;
    while i < ls.len()
        invariant
            i <= ls.len(),
            lv == ls@.map_values(|v: Vec<char>| v@),
            suffix@ == ".service"@,
            pre@ == "grimmnetz-"@,
            restart@ == "restart-"@,
            install@ == "install-"@,
            res@.map_values(|p: (String, String)| (p.0@, p.1@)) == discovery_candidates(
                lv.take(i as int),
                strings_view(known@),
            ),
        decreases ls.len() - i,
    {
        assert(lv.take(i + 1).drop_last() =~= lv.take(i as int));
        assert(lv.take(i + 1).last() == ls@[i as int]@);
        let unit = strip_suffixes_exec(&trim_exec(&ls[i]), &suffix);
        match strip_prefix_exec(&unit, &pre) {
            Some(id) => {
                if id.len() > 0 && !starts_with_exec(&id, &restart) && !starts_with_exec(
                    &id,
                    &install,
                ) && !known_contains(known, &id) {
                    let ghost before = res@;
                    let pair = (string_of(&unit), string_of(&id));
                    res.push(pair);
                    assert(res@.map_values(|p: (String, String)| (p.0@, p.1@)) =~= before.map_values(
                        |p: (String, String)| (p.0@, p.1@),
                    ).push((unit@, id@)));
                }
            },
            None => {},
        }
        i += 1;
    }
    assert(lv.take(ls.len() as int) =~= lv);
    assert(lv == lines(unit_list@));
    res
}

/// Where the instance `id` is installed.
pub open spec fn install_path_of(id: Seq<char>) -> Seq<char> {
    instances_base() + id
}

fn install_path_exec(id: &str) -> (res: String)
    ensures
        res@ == install_path_of(id@),
{
    let mut p = lit("/home/gameserver/instances/");
    push_all(&mut p, &chars_of(id));
    string_of(&p)
}

/// The command printing the instance's manifest.
pub open spec fn manifest_read_text(install_path: Seq<char>) -> Seq<char> {
    "sudo cat "@ + install_path + "/.grimmnetz-instance.json 2>/dev/null"@
}

pub fn manifest_read_command(instance_id: &str) -> (res: String)
    ensures
        res@ == manifest_read_text(install_path_of(instance_id@)),
{
    let mut c = lit("sudo cat ");
    push_all(&mut c, &chars_of(install_path_exec(instance_id).as_str()));
    push_all(&mut c, &lit("/.grimmnetz-instance.json 2>/dev/null"));
    string_of(&c)
}

/// The fields of an instance record.
pub open spec fn is_instance(
    r: InstanceRecord,
    id: Seq<char>,
    server_id: Seq<char>,
    game_id: Seq<char>,
    display_name: Seq<char>,
    install_path: Seq<char>,
    unit: Seq<char>,
    cpu: u32,
    ram: u32,
) -> bool {
    &&& r.id@ == id
    &&& r.server_id@ == server_id
    &&& r.game_id@ == game_id
    &&& r.display_name@ == display_name
    &&& r.install_path@ == install_path
    &&& r.systemd_unit@ == unit
    &&& r.cpu_limit_percent == cpu
    &&& r.ram_limit_mb == ram
}

pub open spec fn str_or(o: Option<Seq<char>>, d: Seq<char>) -> Seq<char> {
    match o {
        Some(s) => s,
        None => d,
    }
}

pub open spec fn u32_or(o: Option<u64>, d: u32) -> u32 {
    match o {
        Some(v) => v as u32,
        None => d,
    }
}

/// The record of a discovered instance from its manifest (`manifest_raw`), when that is JSON
/// at all; each missing field takes its default (`unknown`, the id, 100 %, 2048 MB), and the
/// limits are cut to `u32` as the manifest numbers are read as `u64`.
pub fn instance_from_manifest(
    server_id: &str,
    unit_name: &str,
    instance_id: &str,
    manifest_raw: &str,
) -> (res: Option<InstanceRecord>)
    ensures
        !json_parses(manifest_raw@) ==> res is None,
        json_parses(manifest_raw@) ==> (res matches Some(r) && is_instance(
            r,
            instance_id@,
            server_id@,
            str_or(json_str_member(manifest_raw@, "game_id"@), "unknown"@),
            str_or(json_str_member(manifest_raw@, "display_name"@), instance_id@),
            install_path_of(instance_id@),
            unit_name@,
            u32_or(json_u64_member(manifest_raw@, "cpu_limit_percent"@), 100),
            u32_or(json_u64_member(manifest_raw@, "ram_limit_mb"@), 2048),
        )),
{
    if !json_is_valid(manifest_raw) {
        return None;
    }
    let game_id = match json_str_field(manifest_raw, "game_id") {
        Some(g) => g,
        None => String::from_str("unknown"),
    };
    let display_name = match json_str_field(manifest_raw, "display_name") {
        Some(d) => d,
        None => String::from_str(instance_id),
    };
    let cpu: u32 = match json_u64_field(manifest_raw, "cpu_limit_percent") {
        Some(v) => v as u32,
        None => 100,
    };
    let ram: u32 = match json_u64_field(manifest_raw, "ram_limit_mb") {
        Some(v) => v as u32,
        None => 2048,
    };
    Some(
        InstanceRecord {
            id: String::from_str(instance_id),
            server_id: String::from_str(server_id),
            game_id,
            display_name,
            install_path: install_path_exec(instance_id),
            systemd_unit: String::from_str(unit_name),
            cpu_limit_percent: cpu,
            ram_limit_mb: ram,
        },
    )
}

/// The command that answers `yes` when `sig` exists in the install directory.
pub open spec fn signature_check_text(install_path: Seq<char>, sig: Seq<char>) -> Seq<char> {
    "sudo test -f "@ + single_quoted(install_path) + "/"@ + single_quoted(sig) + " && echo yes"@
}

pub fn signature_check_command(instance_id: &str, sig: &str) -> (res: String)
    ensures
        res@ == signature_check_text(install_path_of(instance_id@), sig@),
{
    let mut c = lit("sudo test -f ");
    push_all(&mut c, &chars_of(shell_single_quote(install_path_exec(instance_id).as_str()).as_str()));
    push_all(&mut c, &lit("/"));
    push_all(&mut c, &chars_of(shell_single_quote(sig).as_str()));
    push_all(&mut c, &lit(" && echo yes"));
    string_of(&c)
}

/// The next signature probe of a discovery without a manifest: from template `from` on, the
/// first template with a signature file, and the command that checks for that file in the
/// instance's directory. Templates without a signature file are skipped; `None` when no
/// template is left to probe.
pub fn next_signature_probe(templates: &Vec<GameTemplate>, from: usize, instance_id: &str) -> (res: Option<
    (usize, String),
>)
    ensures
        match res {
            Some((j, c)) => from <= j < templates.len() && (signature_path(
                templates@[j as int].start_command@,
            ) matches Some(sig) && c@ == signature_check_text(install_path_of(instance_id@), sig))
                && forall|k: int| from <= k < j ==> signature_path(#[trigger] templates@[k].start_command@) is None,
            None => forall|k: int|
                from <= k < templates.len() ==> signature_path(#[trigger] templates@[k].start_command@) is None,
        },
{
    let mut j = from;
    while j < templates.len()
        invariant
            from <= j,
            forall|k: int| from <= k < j && k < templates.len() ==> signature_path(#[trigger] templates@[k].start_command@) is None,
        decreases templates.len() - j,
    {
        match signature_path_for_template(&templates[j]) {
            Some(sig) => {
                return Some((j, signature_check_command(instance_id, sig.as_str())));
            },
            None => {},
        }
        j += 1;
    }
    None
}

/// Whether the signature check found the file.
pub fn signature_matched(output: &str) -> (res: bool)
    ensures
        res == (trim(output@) == "yes"@),
{
    let t = trim_exec(&chars_of(output));
    proof {
        reveal_strlit("yes");
    }
    eq_exec(&t, &lit("yes"))
}

/// The record of a discovered instance without a manifest: the game of the template whose
/// signature file was found, or `unknown` with default limits when none was.
pub fn instance_from_guess(
    server_id: &str,
    unit_name: &str,
    instance_id: &str,
    found: &Option<GameTemplate>,
) -> (res: InstanceRecord)
    ensures
        match found {
            Some(t) => is_instance(
                res,
                instance_id@,
                server_id@,
                t.id@,
                t.name@,
                install_path_of(instance_id@),
                unit_name@,
                t.default_cpu_limit_percent,
                t.default_ram_limit_mb,
            ),
            None => is_instance(
                res,
                instance_id@,
                server_id@,
                "unknown"@,
                instance_id@,
                install_path_of(instance_id@),
                unit_name@,
                100,
                2048,
            ),
        },
{
    let (game_id, name, cpu, ram) = match found {
        Some(t) => (t.id.clone(), t.name.clone(), t.default_cpu_limit_percent, t.default_ram_limit_mb),
        None => (String::from_str("unknown"), String::from_str(instance_id), 100u32, 2048u32),
    };
    InstanceRecord {
        id: String::from_str(instance_id),
        server_id: String::from_str(server_id),
        game_id,
        display_name: name,
        install_path: install_path_exec(instance_id),
        systemd_unit: String::from_str(unit_name),
        cpu_limit_percent: cpu,
        ram_limit_mb: ram,
    }
}

} // verus!
