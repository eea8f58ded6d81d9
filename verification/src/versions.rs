//! What an instance reports of itself: its installed and latest version, its Minecraft world
//! and port, and the commands that update it.
use vstd::prelude::*;

use crate::games::{find_template, render_step, rendered_step, shell_single_quote, single_quoted, GameTemplate};
use crate::json::{json_str_field, json_str_member};
use crate::records::VersionInfo;
use crate::text::{
    chars_of, eq_exec, find, find_exec, lines, lines_exec, lit, parse_unsigned, parse_unsigned_exec,
    push_all, rfind, rfind_exec, slice_of, split_once, split_once_exec, string_of, strip_prefix, occurs_at,
    strip_prefix_exec, trim, trim_by, trim_by_exec, trim_exec, Trimmed,
};

verus! {

/// The Steam build id in an `appmanifest_<app>.acf`: from the first line that reads
/// `"buildid"` after trimming, the rest trimmed and stripped of quotes.
pub open spec fn steam_build_id(ls: Seq<Seq<char>>) -> Option<Seq<char>>
    decreases ls.len(),
{
    if ls.len() == 0 {
        None
    } else {
        match strip_prefix(trim(ls[0]), "\"buildid\""@) {
            Some(rest) => Some(trim_by(trim(rest), Trimmed::Char('"'))),
            None => steam_build_id(ls.drop_first()),
        }
    }
}

/// Reads the installed build id out of a Steam app manifest.
pub fn parse_steam_build_id(raw: &str) -> (res: Option<String>)
    ensures
        match steam_build_id(lines(raw@)) {
            Some(b) => res matches Some(x) && x@ == b,
            None => res is None,
        },
{
    let ls = lines_exec(&chars_of(raw));
    let ghost lv = ls@.map_values(|v: Vec<char>| v@);
    let key = lit("\"buildid\"");
    assert(lv == lines(raw@));
    assert(lv.skip(0) =~= lv);
    let mut i: usize = 0;
    while i < ls.len()
        invariant
            i <= ls.len(),
            lv == ls@.map_values(|v: Vec<char>| v@),
            key@ == "\"buildid\""@,
            lv == lines(raw@),
            steam_build_id(lv) == steam_build_id(lv.skip(i as int)),
        decreases ls.len() - i,
    {
        assert(lv.skip(i as int)[0] == ls@[i as int]@);
        assert(lv.skip(i as int).drop_first() =~= lv.skip(i + 1));
        match strip_prefix_exec(&trim_exec(&ls[i]), &key) {
            Some(rest) => {
                let b = trim_by_exec(&trim_exec(&rest), Trimmed::Char('"'));
                assert(lv.skip(i as int).len() > 0);
                assert(steam_build_id(lv.skip(i as int)) == Some(b@));
                return Some(string_of(&b));
            },
            None => {},
        }
        i += 1;
    }
    assert(lv.skip(ls.len() as int) =~= Seq::<Seq<char>>::empty());
    None
}

/// The Minecraft version inside Paper's `currentVersion`: what stands between `MC: ` and the
/// next `)`, as in `26.2-92-0a99345 (MC: 26.2)`.
pub open spec fn minecraft_version_in(s: Seq<char>) -> Option<Seq<char>> {
    match find(s, "MC: "@) {
        None => None,
        Some(i) => match find(s.skip(i + 4), ")"@) {
            None => None,
            Some(j) => Some(s.subrange(i + 4, i + 4 + j)),
        },
    }
}

pub fn minecraft_version_of(s: &str) -> (res: Option<String>)
    ensures
        match minecraft_version_in(s@) {
            Some(v) => res matches Some(x) && x@ == v,
            None => res is None,
        },
{
    let c = chars_of(s);
    let mc = lit("MC: ");
    proof {
        reveal_strlit("MC: ");
    }
    let i = match find_exec(&c, &mc) {
        Some(i) => i,
        None => return None,
    };
    let after = slice_of(&c, i + 4, c.len());
    assert(after@ =~= c@.skip(i + 4));
    let j = match find_exec(&after, &lit(")")) {
        Some(j) => j,
        None => return None,
    };
    Some(string_of(&slice_of(&c, i + 4, i + 4 + j)))
}

/// The installed Minecraft version of a Paper instance, from `version_history.json`.
pub open spec fn paper_installed(raw: Seq<char>) -> Option<Seq<char>> {
    match json_str_member(raw, "currentVersion"@) {
        Some(cv) => minecraft_version_in(cv),
        None => None,
    }
}

pub fn parse_paper_installed(raw: &str) -> (res: Option<String>)
    ensures
        match paper_installed(raw@) {
            Some(v) => res matches Some(x) && x@ == v,
            None => res is None,
        },
{
    match json_str_field(raw, "currentVersion") {
        Some(cv) => minecraft_version_of(cv.as_str()),
        None => None,
    }
}

/// The latest version as the PaperMC API query printed it: the trimmed output, when the
/// query ran and printed anything.
pub fn latest_from_output(output: Option<String>) -> (res: Option<String>)
    ensures
        match output {
            Some(o) => if trim(o@).len() > 0 {
                res matches Some(x) && x@ == trim(o@)
            } else {
                res is None
            },
            None => res is None,
        },
{
    match output {
        Some(o) => {
            let t = trim_exec(&chars_of(o.as_str()));
            if t.len() > 0 {
                Some(string_of(&t))
            } else {
                None
            }
        },
        None => None,
    }
}

pub open spec fn opt_eq(a: Option<String>, b: Option<String>) -> bool {
    a is Some && b is Some && a->0@ == b->0@
}

/// The version report: up to date exactly when both versions are known and equal.
pub fn version_info(installed: Option<String>, latest: Option<String>) -> (res: VersionInfo)
    ensures
        res.installed == installed,
        res.latest == latest,
        res.up_to_date == opt_eq(installed, latest),
{
    let up = match (&installed, &latest) {
        (Some(i), Some(l)) => eq_exec(&chars_of(i.as_str()), &chars_of(l.as_str())),
        _ => false,
    };
    VersionInfo { installed, latest, up_to_date: up }
}

/// How the version of an instance is read.
pub enum VersionQuery {
    /// Read the build id out of the Steam app manifest with this command; that build is all
    /// that is reported, as up to date.
    SteamManifest(String),
    /// Read Paper's version history with the first command, the latest release with the second.
    Paper(String, String),
}

/// The command printing a file of an instance, its path shell-quoted.
pub open spec fn cat_text(path: Seq<char>) -> Seq<char> {
    "sudo cat "@ + single_quoted(path) + " 2>/dev/null"@
}

fn cat_exec(path: &Vec<char>) -> (res: String)
    ensures
        res@ == cat_text(path@),
{
    let mut c = lit("sudo cat ");
    push_all(&mut c, &chars_of(shell_single_quote(string_of(path).as_str()).as_str()));
    push_all(&mut c, &lit(" 2>/dev/null"));
    string_of(&c)
}

/// The query of the PaperMC API for the newest Minecraft version.
pub open spec fn paper_latest_text() -> Seq<char> {
    "curl -s https://fill.papermc.io/v3/projects/paper | jq -r '.versions | to_entries[0].value[0]'"@
}

pub open spec fn app_id_of(t: GameTemplate) -> Option<u32> {
    t.install.app_id
}

/// How to read the version of the instance of `game_id` installed at `install_path`: Paper
/// has its version history; other games need a template with a Steam app id.
pub fn version_query(templates: Vec<GameTemplate>, game_id: &str, install_path: &str) -> (res: Result<
    VersionQuery,
    String,
>)
    ensures
        game_id@ == "minecraft-paper"@ ==> (res matches Ok(VersionQuery::Paper(a, b)) && a@
            == cat_text(install_path@ + "/.paper/version_history.json"@) && b@
            == paper_latest_text()),
        game_id@ != "minecraft-paper"@ && (forall|i: int|
            0 <= i < templates@.len() ==> templates@[i].id@ != game_id@) ==> (res matches Err(m)
            && m@ == "Unbekanntes Spiel: "@ + game_id@),
        game_id@ != "minecraft-paper"@ && (exists|i: int|
            crate::games::first_with_id(templates@, game_id@, i) && app_id_of(templates@[i])
                is None) ==> (res matches Err(m) && m@
            == "Für dieses Spiel gibt es noch keine Versionsanzeige"@),
        game_id@ != "minecraft-paper"@ ==> forall|i: int|
            crate::games::first_with_id(templates@, game_id@, i) && app_id_of(templates@[i])
                is Some ==> (res matches Ok(VersionQuery::SteamManifest(c)) && c@ == cat_text(
                install_path@ + "/steamapps/appmanifest_"@ + crate::text::decimal(
                    app_id_of(templates@[i])->0 as nat,
                ) + ".acf"@,
            )),
{
    let g = chars_of(game_id);
    proof {
        reveal_strlit("minecraft-paper");
    }
    if eq_exec(&g, &lit("minecraft-paper")) {
        let mut p = chars_of(install_path);
        push_all(&mut p, &lit("/.paper/version_history.json"));
        return Ok(
            VersionQuery::Paper(
                cat_exec(&p),
                String::from_str(
                    "curl -s https://fill.papermc.io/v3/projects/paper | jq -r '.versions | to_entries[0].value[0]'",
                ),
            ),
        );
    }
    let ghost all = templates@;
    let t = match find_template(templates, game_id) {
        Some(t) => t,
        None => {
            let mut m = lit("Unbekanntes Spiel: ");
            push_all(&mut m, &g);
            return Err(string_of(&m));
        },
    };
    proof {
        let k = choose|k: int| crate::games::first_with_id(all, game_id@, k) && t == all[k];
        assert forall|i: int| crate::games::first_with_id(all, game_id@, i) implies i == k by {
            if i < k {
                assert(all[i].id@ != game_id@);
            }
            if k < i {
                assert(all[k].id@ != game_id@);
            }
        }
    }
    match t.install.app_id {
        Some(app_id) => {
            let mut p = chars_of(install_path);
            push_all(&mut p, &lit("/steamapps/appmanifest_"));
            push_all(&mut p, &crate::text::decimal_exec(app_id as u64));
            push_all(&mut p, &lit(".acf"));
            Ok(VersionQuery::SteamManifest(cat_exec(&p)))
        },
        None => Err(String::from_str("Für dieses Spiel gibt es noch keine Versionsanzeige")),
    }
}

/// The version report of a Steam game: the build id in its app manifest (`raw`), reported as
/// up to date, since no newer build is looked up.
pub fn steam_version_info(raw: &str) -> (res: VersionInfo)
    ensures
        match steam_build_id(lines(raw@)) {
            Some(b) => res.installed matches Some(x) && x@ == b,
            None => res.installed is None,
        },
        res.latest is None,
        res.up_to_date,
{
    VersionInfo { installed: parse_steam_build_id(raw), latest: None, up_to_date: true }
}

/// The command printing an instance's `server.properties`.
pub fn server_properties_command(install_path: &str) -> (res: String)
    ensures
        res@ == cat_text(install_path@ + "/server.properties"@),
{
    let mut p = chars_of(install_path);
    push_all(&mut p, &lit("/server.properties"));
    cat_exec(&p)
}

/// The world name and game port in `server.properties`: the last `level-name` and
/// `server-port` lines win; a port that does not parse as `u16` counts as 25565, the default.
pub open spec fn properties_state(ls: Seq<Seq<char>>) -> (Option<Seq<char>>, u16)
    decreases ls.len(),
{
    if ls.len() == 0 {
        (None, 25565)
    } else {
        let (world, port) = properties_state(ls.drop_last());
        match split_once(trim(ls.last()), "="@) {
            Some((k, v)) => if trim(k) == "level-name"@ {
                (Some(trim(v)), port)
            } else if trim(k) == "server-port"@ {
                (
                    world,
                    match parse_unsigned(trim(v), u16::MAX as nat) {
                        Some(p) => p as u16,
                        None => 25565,
                    },
                )
            } else {
                (world, port)
            },
            None => (world, port),
        }
    }
}

/// Reads the world name and port out of a Minecraft `server.properties`.
pub fn parse_server_properties(raw: &str) -> (res: (Option<String>, u16))
    ensures
        ({
            let (world, port) = properties_state(lines(raw@));
            &&& port == res.1
            &&& match world {
                Some(w) => res.0 matches Some(x) && x@ == w,
                None => res.0 is None,
            }
        }),
{
    let ls = lines_exec(&chars_of(raw));
    let ghost lv = ls@.map_values(|v: Vec<char>| v@);
    let eq = lit("=");
    let level = lit("level-name");
    let sport = lit("server-port");
    assert(lv == lines(raw@));
    let mut world: Option<String> = None;
    let mut port: u16 = 25565;
    let mut i: usize = 0;
    while i < ls.len()
        invariant
            i <= ls.len(),
            lv == ls@.map_values(|v: Vec<char>| v@),
            eq@ == "="@,
            level@ == "level-name"@,
            sport@ == "server-port"@,
            ({
                let (w, p) = properties_state(lv.take(i as int));
                &&& p == port
                &&& match w {
                    Some(x) => world matches Some(y) && y@ == x,
                    None => world is None,
                }
            }),
        decreases ls.len() - i,
    {
        assert(lv.take(i + 1).drop_last() =~= lv.take(i as int));
        assert(lv.take(i + 1).last() == ls@[i as int]@);
        match split_once_exec(&trim_exec(&ls[i]), &eq) {
            Some((k, v)) => {
                let kt = trim_exec(&k);
                if eq_exec(&kt, &level) {
                    world = Some(string_of(&trim_exec(&v)));
                } else if eq_exec(&kt, &sport) {
                    port = match parse_unsigned_exec(&trim_exec(&v), 65535) {
                        Some(p) => p as u16,
                        None => 25565,
                    };
                }
            },
            None => {},
        }
        i += 1;
    }
    assert(lv.take(ls.len() as int) =~= lv);
    (world, port)
}

/// The instance id at the end of an install path: what follows its last `/`.
pub open spec fn last_segment(path: Seq<char>) -> Seq<char> {
    match rfind(path, "/"@) {
        Some(i) => path.skip(i + 1),
        None => path,
    }
}

/// One update step, run as `gameserver`.
pub open spec fn update_step_text(step: Seq<char>, instance_id: Seq<char>, ram_limit_mb: nat) -> Seq<
    char,
> {
    "sudo -u gameserver bash -c "@ + single_quoted(rendered_step(step, instance_id, ram_limit_mb))
}

/// The commands that update an instance: its template's install steps rendered for it, in
/// order (stopping and starting it around them is the caller's).
pub fn update_step_commands(template: &GameTemplate, install_path: &str, ram_limit_mb: u32) -> (res:
    Vec<String>)
    ensures
        res@.len() == template.install.steps@.len(),
        forall|k: int|
            0 <= k < res@.len() ==> #[trigger] res@[k]@ == update_step_text(
                template.install.steps@[k]@,
                last_segment(install_path@),
                ram_limit_mb as nat,
            ),
{
    let p = chars_of(install_path);
    proof {
        reveal_strlit("/");
    }
    let slash = lit("/");
    let id = match rfind_exec(&p, &slash) {
        Some(i) => {
            assert(occurs_at(p@, i as int, slash@));
            assert(slash@.len() == 1);
            assert(i + 1 <= p@.len());
            assert(p@.len() == p.len());
            slice_of(&p, i + 1, p.len())
        },
        None => slice_of(&p, 0, p.len()),
    };
    assert(id@ =~= last_segment(install_path@));
    let ids = string_of(&id);
    let steps = &template.install.steps;
    let mut res: Vec<String> = Vec::new();
    let mut k: usize = 0;
    while k < steps.len()
        invariant
            k <= steps.len(),
            ids@ == last_segment(install_path@),
            steps == &template.install.steps,
            res@.len() == k,
            forall|j: int|
                0 <= j < k ==> #[trigger] res@[j]@ == update_step_text(
                    steps@[j]@,
                    ids@,
                    ram_limit_mb as nat,
                ),
        decreases steps.len() - k,
    {
        let rendered = render_step(steps[k].as_str(), ids.as_str(), ram_limit_mb);
        let mut c = lit("sudo -u gameserver bash -c ");
        push_all(&mut c, &chars_of(shell_single_quote(rendered.as_str()).as_str()));
        res.push(string_of(&c));
        k += 1;
    }
    res
}

} // verus!
