//! Directory listings, backups and the file browser below `/home/gameserver`: the commands
//! they run and how their output is read back and ordered.
use vstd::prelude::*;

use crate::games::{shell_single_quote, single_quoted};
use crate::paths::{
    backups_base, bad_instance_id_message, check_instance_id, is_safe_instance_id, is_sftp_path,
    backup_name_error, is_valid_backup_name, sftp_path_error, sftp_root, validate_backup_filename,
    validate_sftp_path,
};
use crate::records::{BackupEntry, DirEntry};
use crate::text::{
    chars_of, contains, contains_exec, ends_with, eq_exec, find, find_exec, is_digit, lines, lines_exec,
    lit, lowercase, lowercase_exec, occurs_at, parse_signed, parse_unsigned, parse_unsigned_exec,
    parse_i64_exec, push_all, slice_of, split_once, split_once_exec, splitn, splitn_exec, string_of,
    trim, trim_exec,
};

verus! {

/// `a` sorts strictly before `b` in `str`'s order (by code point, a proper prefix first).
pub open spec fn lex_lt(a: Seq<char>, b: Seq<char>) -> bool
    decreases a.len(),
{
    if a.len() == 0 {
        b.len() > 0
    } else if b.len() == 0 {
        false
    } else if a[0] < b[0] {
        true
    } else if a[0] > b[0] {
        false
    } else {
        lex_lt(a.drop_first(), b.drop_first())
    }
}

fn lex_lt_exec(a: &Vec<char>, b: &Vec<char>) -> (res: bool)
    ensures
        res == lex_lt(a@, b@),
{
    let mut i: usize = 0;
    assert(a@.skip(0) =~= a@ && b@.skip(0) =~= b@);
    while i < a.len() && i < b.len() && a[i] == b[i]
        invariant
            i <= a.len(),
            i <= b.len(),
            lex_lt(a@, b@) == lex_lt(a@.skip(i as int), b@.skip(i as int)),
        decreases a.len() - i,
    {
        assert(a@.skip(i as int).drop_first() =~= a@.skip(i + 1));
        assert(b@.skip(i as int).drop_first() =~= b@.skip(i + 1));
        i += 1;
    }
    if i == a.len() {
        assert(a@.skip(i as int).len() == 0);
        i < b.len()
    } else if i == b.len() {
        assert(b@.skip(i as int).len() == 0);
        assert(a@.skip(i as int).len() > 0);
        false
    } else {
        assert(a@.skip(i as int)[0] == a@[i as int] && b@.skip(i as int)[0] == b@[i as int]);
        a[i] < b[i]
    }
}

/// A directory entry as the contracts see it: name, whether it is a directory, size.
pub open spec fn entry_view(e: DirEntry) -> (Seq<char>, bool, u64) {
    (e.name@, e.is_dir, e.size_bytes)
}

/// Directories first, then by lower-cased name.
pub open spec fn dir_before(a: (Seq<char>, bool, u64), b: (Seq<char>, bool, u64)) -> bool {
    (a.1 && !b.1) || (a.1 == b.1 && lex_lt(lowercase(a.0), lowercase(b.0)))
}

/// Where a stable insertion puts `x`: after every entry that does not sort after it.
pub open spec fn dir_pos(s: Seq<(Seq<char>, bool, u64)>, x: (Seq<char>, bool, u64)) -> int
    decreases s.len(),
{
    if s.len() == 0 || dir_before(x, s[0]) {
        0
    } else {
        1 + dir_pos(s.drop_first(), x)
    }
}

/// `s` sorted stably: directories first, then by lower-cased name (`slice::sort_by`).
pub open spec fn dir_sorted(s: Seq<(Seq<char>, bool, u64)>) -> Seq<(Seq<char>, bool, u64)>
    decreases s.len(),
{
    if s.len() == 0 {
        seq![]
    } else {
        let r = dir_sorted(s.drop_last());
        r.insert(dir_pos(r, s.last()), s.last())
    }
}

proof fn lemma_dir_pos_bound(s: Seq<(Seq<char>, bool, u64)>, x: (Seq<char>, bool, u64))
    ensures
        0 <= dir_pos(s, x) <= s.len(),
    decreases s.len(),
{
    if s.len() > 0 && !dir_before(x, s[0]) {
        lemma_dir_pos_bound(s.drop_first(), x);
    }
}

proof fn lemma_dir_sorted_len(s: Seq<(Seq<char>, bool, u64)>)
    ensures
        dir_sorted(s).len() == s.len(),
    decreases s.len(),
{
    if s.len() > 0 {
        lemma_dir_sorted_len(s.drop_last());
        lemma_dir_pos_bound(dir_sorted(s.drop_last()), s.last());
    }
}

proof fn lemma_lex_irreflexive(a: Seq<char>)
    ensures
        !lex_lt(a, a),
    decreases a.len(),
{
    if a.len() > 0 {
        lemma_lex_irreflexive(a.drop_first());
    }
}

proof fn lemma_lex_transitive(a: Seq<char>, b: Seq<char>, c: Seq<char>)
    requires
        lex_lt(a, b),
        lex_lt(b, c),
    ensures
        lex_lt(a, c),
    decreases a.len(),
{
    if a.len() > 0 && b.len() > 0 && c.len() > 0 && a[0] == b[0] && b[0] == c[0] {
        lemma_lex_transitive(a.drop_first(), b.drop_first(), c.drop_first());
    }
}

proof fn lemma_dir_before_order(a: (Seq<char>, bool, u64), b: (Seq<char>, bool, u64), c: (Seq<char>, bool, u64))
    ensures
        !dir_before(a, a),
        dir_before(a, b) && dir_before(b, c) ==> dir_before(a, c),
{
    lemma_lex_irreflexive(lowercase(a.0));
    if dir_before(a, b) && dir_before(b, c) && a.1 == b.1 && b.1 == c.1 {
        lemma_lex_transitive(lowercase(a.0), lowercase(b.0), lowercase(c.0));
    }
}

proof fn lemma_dir_pos(s: Seq<(Seq<char>, bool, u64)>, x: (Seq<char>, bool, u64))
    ensures
        0 <= dir_pos(s, x) <= s.len(),
        forall|k: int| 0 <= k < dir_pos(s, x) ==> !dir_before(x, #[trigger] s[k]),
        dir_pos(s, x) < s.len() ==> dir_before(x, s[dir_pos(s, x)]),
    decreases s.len(),
{
    if s.len() > 0 && !dir_before(x, s[0]) {
        lemma_dir_pos(s.drop_first(), x);
        assert forall|k: int| 0 <= k < dir_pos(s, x) implies !dir_before(x, #[trigger] s[k]) by {
            if k > 0 {
                assert(s[k] == s.drop_first()[k - 1]);
            }
        }
    }
}

/// Listings show directories first, then by lower-cased name, none gained or lost: the sorted
/// entries are the given ones, each as often, and no entry sorts before one listed ahead of
/// it.
pub proof fn lemma_dir_sorted(s: Seq<(Seq<char>, bool, u64)>)
    ensures
        dir_sorted(s).to_multiset() == s.to_multiset(),
        forall|i: int, j: int|
            0 <= i < j < dir_sorted(s).len() ==> !dir_before(#[trigger] dir_sorted(s)[j], #[trigger] dir_sorted(s)[i]),
    decreases s.len(),
{
    if s.len() > 0 {
        let d = s.drop_last();
        let x = s.last();
        lemma_dir_sorted(d);
        let r = dir_sorted(d);
        lemma_dir_pos(r, x);
        let p = dir_pos(r, x);
        let t = r.insert(p, x);
        assert(dir_sorted(s) == t);
        vstd::seq_lib::to_multiset_insert(r, p, x);
        vstd::seq_lib::to_multiset_build(d, x);
        assert(d.push(x) =~= s);
        assert(t.to_multiset() == s.to_multiset());
        assert forall|i: int, j: int| 0 <= i < j < t.len() implies !dir_before(#[trigger] t[j], #[trigger] t[i]) by {
            if j < p {
                assert(t[i] == r[i] && t[j] == r[j]);
            } else if j == p {
                assert(t[i] == r[i]);
            } else if i < p {
                assert(t[i] == r[i] && t[j] == r[j - 1]);
            } else if i == p {
                assert(t[j] == r[j - 1]);
                lemma_dir_before_order(r[j - 1], x, r[p]);
                lemma_dir_before_order(r[p], x, r[p]);
                if j - 1 > p {
                    assert(!dir_before(r[j - 1], r[p]));
                }
            } else {
                assert(t[i] == r[i - 1] && t[j] == r[j - 1]);
            }
        }
    } else {
        assert(dir_sorted(s) =~= s);
    }
}

/// A listing shows directories before files, and within the directories (and within the
/// files) names in ascending order of their lower-cased form, case aside: for entries listed
/// at `i < j`, a directory never follows a file, and when both are directories or both files,
/// the lower-cased name at `j` is not smaller than the one at `i`.
pub proof fn lemma_dir_listing_order(s: Seq<(Seq<char>, bool, u64)>)
    ensures
        forall|i: int, j: int|
            0 <= i < j < dir_sorted(s).len() ==> !((#[trigger] dir_sorted(s)[j]).1 && !(#[trigger] dir_sorted(s)[i]).1)
                && (dir_sorted(s)[i].1 == dir_sorted(s)[j].1 ==> !lex_lt(
                lowercase(dir_sorted(s)[j].0),
                lowercase(dir_sorted(s)[i].0),
            )),
{
    lemma_dir_sorted(s);
}

pub open spec fn entries_view(v: Seq<DirEntry>) -> Seq<(Seq<char>, bool, u64)> {
    v.map_values(|e: DirEntry| entry_view(e))
}

fn copy_entry(e: &DirEntry) -> (res: DirEntry)
    ensures
        res == *e,
{
    DirEntry { name: e.name.clone(), is_dir: e.is_dir, size_bytes: e.size_bytes }
}

/// Sorts entries as listings show them: directories first, then by lower-cased name, equal
/// ones keeping their order.
pub fn sort_dir_entries(v: &Vec<DirEntry>) -> (res: Vec<DirEntry>)
    ensures
        entries_view(res@) == dir_sorted(entries_view(v@)),
{
    let mut res: Vec<DirEntry> = Vec::new();
    let mut keys: Vec<Vec<char>> = Vec::new();
    let ghost input = entries_view(v@);
    let mut i: usize = 0;
    while i < v.len()
        invariant
            i <= v.len(),
            input == entries_view(v@),
            entries_view(res@) == dir_sorted(input.take(i as int)),
            keys@.len() == res@.len(),
            forall|k: int| 0 <= k < keys@.len() ==> #[trigger] keys@[k]@ == lowercase(res@[k].name@),
        decreases v.len() - i,
    {
        let x = copy_entry(&v[i]);
        let ghost xv = entry_view(x);
        assert(input[i as int] == xv);
        let xk = lowercase_exec(&chars_of(x.name.as_str()));
        let ghost sorted = entries_view(res@);
        let mut j: usize = 0;
        assert(sorted.skip(0) =~= sorted);
        while j < res.len() && !((x.is_dir && !res[j].is_dir) || (x.is_dir == res[j].is_dir
            && lex_lt_exec(&xk, &keys[j])))
            invariant
                j <= res.len(),
                sorted == entries_view(res@),
                keys@.len() == res@.len(),
                forall|k: int| 0 <= k < keys@.len() ==> #[trigger] keys@[k]@ == lowercase(res@[k].name@),
                xk@ == lowercase(xv.0),
                xv == entry_view(x),
                dir_pos(sorted, xv) == j + dir_pos(sorted.skip(j as int), xv),
            decreases res.len() - j,
        {
            assert(sorted.skip(j as int)[0] == entry_view(res@[j as int]));
            assert(sorted.skip(j as int).drop_first() =~= sorted.skip(j + 1));
            j += 1;
        }
        proof {
            if j < res.len() {
                assert(sorted.skip(j as int)[0] == entry_view(res@[j as int]));
            }
        }
        assert(dir_pos(sorted, xv) == j);
        let ghost before_res = res@;
        let ghost before_keys = keys@;
        res.insert(j, x);
        keys.insert(j, xk);
        assert(input.take(i + 1).drop_last() =~= input.take(i as int));
        assert(entries_view(res@) =~= sorted.insert(j as int, xv));
        assert forall|k: int| 0 <= k < keys@.len() implies #[trigger] keys@[k]@ == lowercase(
            res@[k].name@,
        ) by {
            if k < j {
                assert(keys@[k] == before_keys[k] && res@[k] == before_res[k]);
            } else if k > j {
                assert(keys@[k] == before_keys[k - 1] && res@[k] == before_res[k - 1]);
            }
        }
        i += 1;
    }
    assert(input.take(v.len() as int) =~= input);
    res
}

/// One line of `find -printf '%y|%f|%s\n'`: type, name and size; lines without all three, or
/// with a size that is no `u64`, are skipped.
pub open spec fn dir_line(line: Seq<char>) -> Option<(Seq<char>, bool, u64)> {
    let ps = splitn(line, "|"@, 3);
    if ps.len() < 3 {
        None
    } else {
        match parse_unsigned(ps[2], u64::MAX as nat) {
            Some(sz) => Some((ps[1], ps[0] == "d"@, sz as u64)),
            None => None,
        }
    }
}

pub open spec fn dir_lines(ls: Seq<Seq<char>>) -> Seq<(Seq<char>, bool, u64)>
    decreases ls.len(),
{
    if ls.len() == 0 {
        seq![]
    } else {
        let r = dir_lines(ls.drop_last());
        match dir_line(ls.last()) {
            Some(e) => r.push(e),
            None => r,
        }
    }
}

/// Reads a directory listing: its entries, directories first, then by lower-cased name.
pub fn parse_dir_listing(raw: &str) -> (res: Vec<DirEntry>)
    ensures
        entries_view(res@) == dir_sorted(dir_lines(lines(raw@))),
{
    let ls = lines_exec(&chars_of(raw));
    let ghost lv = ls@.map_values(|v: Vec<char>| v@);
    assert(lv == lines(raw@));
    let bar = lit("|");
    let d = lit("d");
    let mut found: Vec<DirEntry> = Vec::new();
    let mut i: usize = 0;
    while i < ls.len()
        invariant
            i <= ls.len(),
            lv == ls@.map_values(|v: Vec<char>| v@),
            bar@ == "|"@,
            d@ == "d"@,
            entries_view(found@) == dir_lines(lv.take(i as int)),
        decreases ls.len() - i,
    {
        assert(lv.take(i + 1).drop_last() =~= lv.take(i as int));
        assert(lv.take(i + 1).last() == ls@[i as int]@);
        let ps = splitn_exec(&ls[i], &bar, 3);
        if ps.len() >= 3 {
            match parse_unsigned_exec(&ps[2], u64::MAX) {
                Some(sz) => {
                    let e = DirEntry {
                        name: string_of(&ps[1]),
                        is_dir: eq_exec(&ps[0], &d),
                        size_bytes: sz,
                    };
                    let ghost before = found@;
                    found.push(e);
                    assert(entries_view(found@) =~= entries_view(before).push(entry_view(e)));
                },
                None => {},
            }
        }
        i += 1;
    }
    assert(lv.take(ls.len() as int) =~= lv);
    sort_dir_entries(&found)
}

/// The listing of an instance's directory (`path` as `resolve_browsable_path` gives it).
pub open spec fn dir_listing_text(path: Seq<char>) -> Seq<char> {
    "sudo find "@ + path + " -mindepth 1 -maxdepth 1 -printf '%y|%f|%s\\n' 2>/dev/null"@
}

pub fn dir_listing_command(path: &str) -> (res: String)
    ensures
        res@ == dir_listing_text(path@),
{
    let mut c = lit("sudo find ");
    push_all(&mut c, &chars_of(path));
    push_all(&mut c, &lit(" -mindepth 1 -maxdepth 1 -printf '%y|%f|%s\\n' 2>/dev/null"));
    string_of(&c)
}

/// The listing of a file-browser directory, its path quoted.
pub open spec fn sftp_listing_text(path: Seq<char>) -> Seq<char> {
    "sudo find "@ + single_quoted(path) + " -mindepth 1 -maxdepth 1 -printf '%y|%f|%s\\n' 2>/dev/null"@
}

pub fn sftp_listing_command(path: &str) -> (res: Result<String, String>)
    ensures
        is_sftp_path(path@) ==> (res matches Ok(c) && c@ == sftp_listing_text(path@)),
        !is_sftp_path(path@) ==> (res matches Err(m) && m@ == sftp_path_error(path@)),
{
    match validate_sftp_path(path) {
        Ok(()) => {},
        Err(e) => return Err(e),
    }
    let mut c = lit("sudo find ");
    push_all(&mut c, &chars_of(shell_single_quote(path).as_str()));
    push_all(&mut c, &lit(" -mindepth 1 -maxdepth 1 -printf '%y|%f|%s\\n' 2>/dev/null"));
    Ok(string_of(&c))
}

/// A backup as the contracts see it: name, size, creation time.
pub open spec fn backup_view(b: BackupEntry) -> (Seq<char>, u64, i64) {
    (b.name@, b.size_bytes, b.created_at)
}

pub open spec fn backups_view(v: Seq<BackupEntry>) -> Seq<(Seq<char>, u64, i64)> {
    v.map_values(|b: BackupEntry| backup_view(b))
}

/// Where a stable insertion by creation time, newest first, puts `x`.
pub open spec fn backup_pos(s: Seq<(Seq<char>, u64, i64)>, x: (Seq<char>, u64, i64)) -> int
    decreases s.len(),
{
    if s.len() == 0 || s[0].2 < x.2 {
        0
    } else {
        1 + backup_pos(s.drop_first(), x)
    }
}

/// `s` sorted stably by creation time, newest first.
pub open spec fn backups_sorted(s: Seq<(Seq<char>, u64, i64)>) -> Seq<(Seq<char>, u64, i64)>
    decreases s.len(),
{
    if s.len() == 0 {
        seq![]
    } else {
        let r = backups_sorted(s.drop_last());
        r.insert(backup_pos(r, s.last()), s.last())
    }
}

proof fn lemma_backup_pos(s: Seq<(Seq<char>, u64, i64)>, x: (Seq<char>, u64, i64))
    ensures
        0 <= backup_pos(s, x) <= s.len(),
        forall|k: int| 0 <= k < backup_pos(s, x) ==> (#[trigger] s[k]).2 >= x.2,
        backup_pos(s, x) < s.len() ==> s[backup_pos(s, x)].2 < x.2,
    decreases s.len(),
{
    if s.len() > 0 && !(s[0].2 < x.2) {
        lemma_backup_pos(s.drop_first(), x);
        assert forall|k: int| 0 <= k < backup_pos(s, x) implies (#[trigger] s[k]).2 >= x.2 by {
            if k > 0 {
                assert(s[k] == s.drop_first()[k - 1]);
            }
        }
    }
}

/// Backups are listed newest first, none gained or lost: the sorted list holds the given
/// backups, each as often, ordered by creation time from newest to oldest.
pub proof fn lemma_backups_sorted(s: Seq<(Seq<char>, u64, i64)>)
    ensures
        backups_sorted(s).to_multiset() == s.to_multiset(),
        forall|i: int, j: int|
            0 <= i < j < backups_sorted(s).len() ==> (#[trigger] backups_sorted(s)[i]).2 >= (
            #[trigger] backups_sorted(s)[j]).2,
    decreases s.len(),
{
    if s.len() > 0 {
        let d = s.drop_last();
        let x = s.last();
        lemma_backups_sorted(d);
        let r = backups_sorted(d);
        lemma_backup_pos(r, x);
        let p = backup_pos(r, x);
        let t = r.insert(p, x);
        assert(backups_sorted(s) == t);
        vstd::seq_lib::to_multiset_insert(r, p, x);
        vstd::seq_lib::to_multiset_build(d, x);
        assert(d.push(x) =~= s);
        assert(t.to_multiset() == s.to_multiset());
        assert forall|i: int, j: int| 0 <= i < j < t.len() implies (#[trigger] t[i]).2 >= (#[trigger] t[j]).2 by {
            if j < p {
                assert(t[i] == r[i] && t[j] == r[j]);
            } else if j == p {
                assert(t[i] == r[i]);
            } else if i < p {
                assert(t[i] == r[i] && t[j] == r[j - 1]);
                assert(r[i].2 >= r[j - 1].2);
            } else if i == p {
                assert(t[j] == r[j - 1]);
                assert(r[p].2 >= r[j - 1].2);
            } else {
                assert(t[i] == r[i - 1] && t[j] == r[j - 1]);
            }
        }
    } else {
        assert(backups_sorted(s) =~= s);
    }
}

fn copy_backup(b: &BackupEntry) -> (res: BackupEntry)
    ensures
        res == *b,
{
    BackupEntry { name: b.name.clone(), size_bytes: b.size_bytes, created_at: b.created_at }
}

/// Sorts backups newest first, equal times keeping their order.
pub fn sort_backups(v: &Vec<BackupEntry>) -> (res: Vec<BackupEntry>)
    ensures
        backups_view(res@) == backups_sorted(backups_view(v@)),
{
    let mut res: Vec<BackupEntry> = Vec::new();
    let ghost input = backups_view(v@);
    let mut i: usize = 0;
    while i < v.len()
        invariant
            i <= v.len(),
            input == backups_view(v@),
            backups_view(res@) == backups_sorted(input.take(i as int)),
        decreases v.len() - i,
    {
        let x = copy_backup(&v[i]);
        let ghost xv = backup_view(x);
        assert(input[i as int] == xv);
        let ghost sorted = backups_view(res@);
        let mut j: usize = 0;
        assert(sorted.skip(0) =~= sorted);
        while j < res.len() && !(res[j].created_at < x.created_at)
            invariant
                j <= res.len(),
                sorted == backups_view(res@),
                xv == backup_view(x),
                backup_pos(sorted, xv) == j + backup_pos(sorted.skip(j as int), xv),
            decreases res.len() - j,
        {
            assert(sorted.skip(j as int)[0] == backup_view(res@[j as int]));
            assert(sorted.skip(j as int).drop_first() =~= sorted.skip(j + 1));
            j += 1;
        }
        proof {
            if j < res.len() {
                assert(sorted.skip(j as int)[0] == backup_view(res@[j as int]));
            }
        }
        assert(backup_pos(sorted, xv) == j);
        res.insert(j, x);
        assert(input.take(i + 1).drop_last() =~= input.take(i as int));
        assert(backups_view(res@) =~= sorted.insert(j as int, xv));
        i += 1;
    }
    assert(input.take(v.len() as int) =~= input);
    res
}

/// The whole-seconds part of `find`'s `%T@` time: what precedes its first `.`.
pub open spec fn before_dot(s: Seq<char>) -> Seq<char> {
    match find(s, "."@) {
        Some(i) => s.take(i),
        None => s,
    }
}

/// One line of the backup listing (`%f|%s|%T@`): name, size and whole-second time; lines
/// whose size or time does not parse are skipped.
pub open spec fn backup_line(line: Seq<char>) -> Option<(Seq<char>, u64, i64)> {
    let ps = splitn(line, "|"@, 3);
    if ps.len() < 3 {
        None
    } else {
        match (parse_unsigned(ps[1], u64::MAX as nat), parse_signed(before_dot(ps[2]), i64::MAX as nat)) {
            (Some(sz), Some(t)) => Some((ps[0], sz as u64, t as i64)),
            _ => None,
        }
    }
}

pub open spec fn backup_lines(ls: Seq<Seq<char>>) -> Seq<(Seq<char>, u64, i64)>
    decreases ls.len(),
{
    if ls.len() == 0 {
        seq![]
    } else {
        let r = backup_lines(ls.drop_last());
        match backup_line(ls.last()) {
            Some(e) => r.push(e),
            None => r,
        }
    }
}

/// Reads the backup listing: the backups, newest first.
pub fn parse_backup_listing(raw: &str) -> (res: Vec<BackupEntry>)
    ensures
        backups_view(res@) == backups_sorted(backup_lines(lines(raw@))),
{
    let ls = lines_exec(&chars_of(raw));
    let ghost lv = ls@.map_values(|v: Vec<char>| v@);
    assert(lv == lines(raw@));
    let bar = lit("|");
    let dot = lit(".");
    let mut found: Vec<BackupEntry> = Vec::new();
    let mut i: usize = 0;
    while i < ls.len()
        invariant
            i <= ls.len(),
            lv == ls@.map_values(|v: Vec<char>| v@),
            bar@ == "|"@,
            dot@ == "."@,
            backups_view(found@) == backup_lines(lv.take(i as int)),
        decreases ls.len() - i,
    {
        assert(lv.take(i + 1).drop_last() =~= lv.take(i as int));
        assert(lv.take(i + 1).last() == ls@[i as int]@);
        let ps = splitn_exec(&ls[i], &bar, 3);
        if ps.len() >= 3 {
            let secs = match find_exec(&ps[2], &dot) {
                Some(k) => slice_of(&ps[2], 0, k),
                None => slice_of(&ps[2], 0, ps[2].len()),
            };
            assert(secs@ =~= before_dot(ps[2]@));
            match (parse_unsigned_exec(&ps[1], u64::MAX), parse_i64_exec(&secs)) {
                (Some(sz), Some(t)) => {
                    let b = BackupEntry { name: string_of(&ps[0]), size_bytes: sz, created_at: t };
                    let ghost before = found@;
                    found.push(b);
                    assert(backups_view(found@) =~= backups_view(before).push(backup_view(b)));
                },
                _ => {},
            }
        }
        i += 1;
    }
    assert(lv.take(ls.len() as int) =~= lv);
    sort_backups(&found)
}

/// The directory holding the backups of `instance_id`.
pub open spec fn backup_dir_of(instance_id: Seq<char>) -> Seq<char> {
    backups_base() + instance_id
}

fn backup_dir_exec(instance_id: &str) -> (res: Vec<char>)
    ensures
        res@ == backup_dir_of(instance_id@),
{
    let mut d = lit("/home/gameserver/backups/");
    push_all(&mut d, &chars_of(instance_id));
    d
}

/// The command listing an instance's backups; refuses an unusable instance id.
pub fn backup_listing_command(instance_id: &str) -> (res: Result<String, String>)
    ensures
        is_safe_instance_id(instance_id@) ==> (res matches Ok(c) && c@ == "sudo find "@
            + backup_dir_of(instance_id@)
            + " -maxdepth 1 -name '*.tar.gz' -printf '%f|%s|%T@\\n' 2>/dev/null"@),
        !is_safe_instance_id(instance_id@) ==> (res matches Err(m) && m@ == bad_instance_id_message(
            instance_id@,
        )),
{
    match check_instance_id(instance_id) {
        Ok(()) => {},
        Err(e) => return Err(e),
    }
    let mut c = lit("sudo find ");
    push_all(&mut c, &backup_dir_exec(instance_id));
    push_all(&mut c, &lit(" -maxdepth 1 -name '*.tar.gz' -printf '%f|%s|%T@\\n' 2>/dev/null"));
    Ok(string_of(&c))
}

/// A UTC time stamp `YYYYMMDD-HHMMSS` by `chrono::Utc::now().format("%Y%m%d-%H%M%S")`. What
/// is stated is what every outcome shows: digits and dashes, and a sign when the year is
/// outside 0..=9999; the time itself is the clock's.
#[verifier::external_body]
fn utc_stamp() -> (res: String)
    ensures
        forall|i: int| 0 <= i < res@.len() ==> is_digit(#[trigger] res@[i]) || res@[i] == '-'
            || res@[i] == '+',
{
    chrono::Utc::now().format("%Y%m%d-%H%M%S").to_string()
}

/// The file name of a new backup taken at `stamp`.
pub open spec fn backup_name(stamp: Seq<char>) -> Seq<char> {
    "backup-"@ + stamp + ".tar.gz"@
}

/// A name made of digits, dashes and plus signs never holds a `/` or a `.`.
proof fn lemma_backup_name_valid(stamp: Seq<char>)
    requires
        forall|i: int| 0 <= i < stamp.len() ==> is_digit(#[trigger] stamp[i]) || stamp[i] == '-'
            || stamp[i] == '+',
    ensures
        is_valid_backup_name(backup_name(stamp)),
{
    reveal_strlit("backup-");
    reveal_strlit(".tar.gz");
    reveal_strlit("..");
    let n = backup_name(stamp);
    let k = 7 + stamp.len();
    assert forall|i: int| 0 <= i < n.len() implies n[i] != '/' && (n[i] == '.' ==> i == k || i
        == k + 4) by {
        if 7 <= i < k {
            assert(n[i] == stamp[i - 7]);
        }
    }
    assert(!n.contains('/'));
    assert forall|j: int| !occurs_at(n, j, ".."@) by {
        if occurs_at(n, j, ".."@) {
            assert(n.subrange(j, j + 2)[0] == n[j] && n.subrange(j, j + 2)[1] == n[j + 1]);
        }
    }
    assert(n.subrange(n.len() - 7, n.len() as int) =~= ".tar.gz"@);
}

/// The name of a backup taken now; it always passes `validate_backup_filename`, so every
/// backup the app creates can later be downloaded, restored and deleted.
pub fn new_backup_filename() -> (res: String)
    ensures
        is_valid_backup_name(res@),
        exists|stamp: Seq<char>| res@ == backup_name(stamp),
{
    let stamp = utc_stamp();
    proof {
        lemma_backup_name_valid(stamp@);
    }
    let mut n = lit("backup-");
    push_all(&mut n, &chars_of(stamp.as_str()));
    push_all(&mut n, &lit(".tar.gz"));
    string_of(&n)
}

/// The archiving command of a backup of the instance at `install_path` into `filename`.
pub open spec fn backup_archive_text(instance_id: Seq<char>, install_path: Seq<char>, filename: Seq<char>) -> Seq<char> {
    let dir = backup_dir_of(instance_id);
    "sudo mkdir -p "@ + dir + " && sudo chown gameserver:gameserver "@ + dir
        + " && sudo -u gameserver tar -czf "@ + dir + "/"@ + filename + " -C "@ + install_path
        + " ."@
}

pub fn backup_archive_command(instance_id: &str, install_path: &str, filename: &str) -> (res: String)
    ensures
        res@ == backup_archive_text(instance_id@, install_path@, filename@),
{
    let dir = backup_dir_exec(instance_id);
    let mut c = lit("sudo mkdir -p ");
    push_all(&mut c, &dir);
    push_all(&mut c, &lit(" && sudo chown gameserver:gameserver "));
    push_all(&mut c, &dir);
    push_all(&mut c, &lit(" && sudo -u gameserver tar -czf "));
    push_all(&mut c, &dir);
    push_all(&mut c, &lit("/"));
    push_all(&mut c, &chars_of(filename));
    push_all(&mut c, &lit(" -C "));
    push_all(&mut c, &chars_of(install_path));
    push_all(&mut c, &lit(" ."));
    string_of(&c)
}

/// The path of backup `filename` of `instance_id`.
pub open spec fn backup_path_of(instance_id: Seq<char>, filename: Seq<char>) -> Seq<char> {
    backup_dir_of(instance_id) + "/"@ + filename
}

fn backup_path_exec(instance_id: &str, filename: &str) -> (res: String)
    ensures
        res@ == backup_path_of(instance_id@, filename@),
{
    let mut p = backup_dir_exec(instance_id);
    push_all(&mut p, &lit("/"));
    push_all(&mut p, &chars_of(filename));
    string_of(&p)
}

/// `sudo stat -c '%s|%Y'` of a path, quoted.
pub open spec fn stat_text(path: Seq<char>) -> Seq<char> {
    "sudo stat -c '%s|%Y' "@ + single_quoted(path)
}

pub fn backup_stat_command(instance_id: &str, filename: &str) -> (res: String)
    ensures
        res@ == stat_text(backup_path_of(instance_id@, filename@)),
{
    let mut c = lit("sudo stat -c '%s|%Y' ");
    push_all(&mut c, &chars_of(shell_single_quote(backup_path_exec(instance_id, filename).as_str()).as_str()));
    string_of(&c)
}

/// Size and modification time out of the `stat` output; `error` when it does not read.
pub open spec fn stat_values(out: Seq<char>) -> Option<(u64, i64)> {
    match split_once(trim(out), "|"@) {
        Some((s, t)) => match (parse_unsigned(s, u64::MAX as nat), parse_signed(t, i64::MAX as nat)) {
            (Some(a), Some(b)) => Some((a as u64, b as i64)),
            _ => None,
        },
        None => None,
    }
}

/// The backup entry named `filename` from the `stat` of its archive, or `error`.
pub fn backup_entry_from_stat(filename: &str, stat: &str, error: &str) -> (res: Result<BackupEntry, String>)
    ensures
        match stat_values(stat@) {
            Some((size, time)) => res matches Ok(b) && backup_view(b) == (filename@, size, time),
            None => res matches Err(m) && m@ == error@,
        },
{
    let t = trim_exec(&chars_of(stat));
    match split_once_exec(&t, &lit("|")) {
        Some((s, tm)) => match (parse_unsigned_exec(&s, u64::MAX), parse_i64_exec(&tm)) {
            (Some(a), Some(b)) => Ok(
                BackupEntry { name: String::from_str(filename), size_bytes: a, created_at: b },
            ),
            _ => Err(String::from_str(error)),
        },
        None => Err(String::from_str(error)),
    }
}

/// The commands of uploading backup `filename` for `instance_id`: create the backup directory,
/// write the file (its bytes on stdin), and `stat` it. A bad file name is refused.
pub fn backup_upload_commands(instance_id: &str, filename: &str) -> (res: Result<(String, String, String), String>)
    ensures
        is_valid_backup_name(filename@) ==> (res matches Ok((a, b, c)) && a@ == "sudo mkdir -p "@
            + single_quoted(backup_dir_of(instance_id@)) + " && sudo chown gameserver:gameserver "@
            + single_quoted(backup_dir_of(instance_id@)) && b@ == "sudo -u gameserver tee "@
            + single_quoted(backup_path_of(instance_id@, filename@)) + " > /dev/null"@ && c@
            == stat_text(backup_path_of(instance_id@, filename@))),
        !is_valid_backup_name(filename@) ==> (res matches Err(m) && m@ == backup_name_error(filename@)),
{
    match validate_backup_filename(filename) {
        Ok(()) => {},
        Err(e) => return Err(e),
    }
    let dir = string_of(&backup_dir_exec(instance_id));
    let qdir = chars_of(shell_single_quote(dir.as_str()).as_str());
    let mut a = lit("sudo mkdir -p ");
    push_all(&mut a, &qdir);
    push_all(&mut a, &lit(" && sudo chown gameserver:gameserver "));
    push_all(&mut a, &qdir);
    let path = backup_path_exec(instance_id, filename);
    let mut b = lit("sudo -u gameserver tee ");
    push_all(&mut b, &chars_of(shell_single_quote(path.as_str()).as_str()));
    push_all(&mut b, &lit(" > /dev/null"));
    Ok((string_of(&a), string_of(&b), backup_stat_command(instance_id, filename)))
}

/// The command printing backup `filename` (to download it); a bad name is refused.
pub fn backup_download_command(instance_id: &str, filename: &str) -> (res: Result<String, String>)
    ensures
        is_valid_backup_name(filename@) ==> (res matches Ok(c) && c@ == "sudo cat "@ + single_quoted(
            backup_path_of(instance_id@, filename@),
        )),
        !is_valid_backup_name(filename@) ==> (res matches Err(m) && m@ == backup_name_error(filename@)),
{
    match validate_backup_filename(filename) {
        Ok(()) => {},
        Err(e) => return Err(e),
    }
    let mut c = lit("sudo cat ");
    push_all(&mut c, &chars_of(shell_single_quote(backup_path_exec(instance_id, filename).as_str()).as_str()));
    Ok(string_of(&c))
}

/// The command deleting backup `filename`; a bad name is refused.
pub fn backup_delete_command(instance_id: &str, filename: &str) -> (res: Result<String, String>)
    ensures
        is_valid_backup_name(filename@) ==> (res matches Ok(c) && c@ == "sudo rm -f "@ + single_quoted(
            backup_path_of(instance_id@, filename@),
        )),
        !is_valid_backup_name(filename@) ==> (res matches Err(m) && m@ == backup_name_error(filename@)),
{
    match validate_backup_filename(filename) {
        Ok(()) => {},
        Err(e) => return Err(e),
    }
    let mut c = lit("sudo rm -f ");
    push_all(&mut c, &chars_of(shell_single_quote(backup_path_exec(instance_id, filename).as_str()).as_str()));
    Ok(string_of(&c))
}

/// The command that replaces the install directory's contents with the archive's.
pub open spec fn restore_text(install_path: Seq<char>, backup_path: Seq<char>) -> Seq<char> {
    "sudo -u gameserver bash -c \"find "@ + single_quoted(install_path) + " -mindepth 1 -delete && tar -xzf "@
        + single_quoted(backup_path) + " -C "@ + single_quoted(install_path) + "\""@
}

pub fn restore_command(instance_id: &str, install_path: &str, filename: &str) -> (res: String)
    ensures
        res@ == restore_text(install_path@, backup_path_of(instance_id@, filename@)),
{
    let qi = chars_of(shell_single_quote(install_path).as_str());
    let mut c = lit("sudo -u gameserver bash -c \"find ");
    push_all(&mut c, &qi);
    push_all(&mut c, &lit(" -mindepth 1 -delete && tar -xzf "));
    push_all(&mut c, &chars_of(shell_single_quote(backup_path_exec(instance_id, filename).as_str()).as_str()));
    push_all(&mut c, &lit(" -C "));
    push_all(&mut c, &qi);
    push_all(&mut c, &lit("\""));
    string_of(&c)
}

/// The file-browser command that creates a directory.
pub fn sftp_mkdir_command(path: &str) -> (res: Result<String, String>)
    ensures
        is_sftp_path(path@) ==> (res matches Ok(c) && c@ == "sudo -u gameserver mkdir -p "@ + single_quoted(path@)),
        !is_sftp_path(path@) ==> (res matches Err(m) && m@ == sftp_path_error(path@)),
{
    match validate_sftp_path(path) {
        Ok(()) => {},
        Err(e) => return Err(e),
    }
    let mut c = lit("sudo -u gameserver mkdir -p ");
    push_all(&mut c, &chars_of(shell_single_quote(path).as_str()));
    Ok(string_of(&c))
}

/// The file-browser delete: never the base directory itself, and never through a symlink.
pub open spec fn sftp_delete_text(path: Seq<char>) -> Seq<char> {
    let q = single_quoted(path);
    "if [ -L "@ + q + " ]; then echo GRIMMNETZ_SYMLINK_REFUSED; else sudo rm -rf "@ + q + "; fi"@
}

pub fn sftp_delete_command(path: &str) -> (res: Result<String, String>)
    ensures
        is_sftp_path(path@) && path@ != sftp_root() ==> (res matches Ok(c) && c@ == sftp_delete_text(path@)),
        is_sftp_path(path@) && path@ == sftp_root() ==> (res matches Err(m) && m@
            == "Der Basisordner selbst kann nicht gelöscht werden"@),
        !is_sftp_path(path@) ==> (res matches Err(m) && m@ == sftp_path_error(path@)),
{
    match validate_sftp_path(path) {
        Ok(()) => {},
        Err(e) => return Err(e),
    }
    proof {
        reveal_strlit("/home/gameserver");
    }
    if eq_exec(&chars_of(path), &lit("/home/gameserver")) {
        return Err(String::from_str("Der Basisordner selbst kann nicht gelöscht werden"));
    }
    let q = chars_of(shell_single_quote(path).as_str());
    let mut c = lit("if [ -L ");
    push_all(&mut c, &q);
    push_all(&mut c, &lit(" ]; then echo GRIMMNETZ_SYMLINK_REFUSED; else sudo rm -rf "));
    push_all(&mut c, &q);
    push_all(&mut c, &lit("; fi"));
    Ok(string_of(&c))
}

pub open spec fn symlink_refused_text() -> Seq<char> {
    "Verweigert: Ziel ist ein symbolischer Link, kein echter Ordner/Datei"@
}

/// How a file-browser delete went: refused when the target was a symlink.
pub fn sftp_delete_outcome(output: &str) -> (res: Result<(), String>)
    ensures
        contains(output@, "GRIMMNETZ_SYMLINK_REFUSED"@) ==> (res matches Err(m) && m@ == symlink_refused_text()),
        !contains(output@, "GRIMMNETZ_SYMLINK_REFUSED"@) ==> res is Ok,
{
    if contains_exec(&chars_of(output), &lit("GRIMMNETZ_SYMLINK_REFUSED")) {
        Err(String::from_str("Verweigert: Ziel ist ein symbolischer Link, kein echter Ordner/Datei"))
    } else {
        Ok(())
    }
}

/// The file-browser move.
pub fn sftp_rename_command(from: &str, to: &str) -> (res: Result<String, String>)
    ensures
        is_sftp_path(from@) && is_sftp_path(to@) ==> (res matches Ok(c) && c@ == "sudo -u gameserver mv "@
            + single_quoted(from@) + " "@ + single_quoted(to@)),
        !is_sftp_path(from@) ==> (res matches Err(m) && m@ == sftp_path_error(from@)),
        is_sftp_path(from@) && !is_sftp_path(to@) ==> (res matches Err(m) && m@ == sftp_path_error(to@)),
{
    match validate_sftp_path(from) {
        Ok(()) => {},
        Err(e) => return Err(e),
    }
    match validate_sftp_path(to) {
        Ok(()) => {},
        Err(e) => return Err(e),
    }
    let mut c = lit("sudo -u gameserver mv ");
    push_all(&mut c, &chars_of(shell_single_quote(from).as_str()));
    push_all(&mut c, &lit(" "));
    push_all(&mut c, &chars_of(shell_single_quote(to).as_str()));
    Ok(string_of(&c))
}

/// The file-browser download: a symlink check, then the read.
pub fn sftp_download_commands(path: &str) -> (res: Result<(String, String), String>)
    ensures
        is_sftp_path(path@) ==> (res matches Ok((a, b)) && a@ == "[ -L "@ + single_quoted(path@)
            + " ] && echo yes || echo no"@ && b@ == "sudo cat "@ + single_quoted(path@)),
        !is_sftp_path(path@) ==> (res matches Err(m) && m@ == sftp_path_error(path@)),
{
    match validate_sftp_path(path) {
        Ok(()) => {},
        Err(e) => return Err(e),
    }
    let q = chars_of(shell_single_quote(path).as_str());
    let mut a = lit("[ -L ");
    push_all(&mut a, &q);
    push_all(&mut a, &lit(" ] && echo yes || echo no"));
    let mut b = lit("sudo cat ");
    push_all(&mut b, &q);
    Ok((string_of(&a), string_of(&b)))
}

/// Whether the download may go ahead: not when the target is a symlink.
pub fn sftp_download_allowed(symlink_check: &str) -> (res: Result<(), String>)
    ensures
        trim(symlink_check@) == "yes"@ ==> (res matches Err(m) && m@ == symlink_refused_text()),
        trim(symlink_check@) != "yes"@ ==> res is Ok,
{
    proof {
        reveal_strlit("yes");
    }
    if eq_exec(&trim_exec(&chars_of(symlink_check)), &lit("yes")) {
        Err(String::from_str("Verweigert: Ziel ist ein symbolischer Link, kein echter Ordner/Datei"))
    } else {
        Ok(())
    }
}

/// The file-browser upload of `filename` into `remote_dir` (the bytes go on stdin).
pub fn sftp_upload_command(remote_dir: &str, filename: &str) -> (res: Result<String, String>)
    ensures
        is_sftp_path(remote_dir@) ==> (res matches Ok(c) && c@ == "sudo -u gameserver tee "@
            + single_quoted(remote_dir@ + "/"@ + filename@) + " > /dev/null"@),
        !is_sftp_path(remote_dir@) ==> (res matches Err(m) && m@ == sftp_path_error(remote_dir@)),
{
    match validate_sftp_path(remote_dir) {
        Ok(()) => {},
        Err(e) => return Err(e),
    }
    let mut p = chars_of(remote_dir);
    push_all(&mut p, &lit("/"));
    push_all(&mut p, &chars_of(filename));
    let mut c = lit("sudo -u gameserver tee ");
    push_all(&mut c, &chars_of(shell_single_quote(string_of(&p).as_str()).as_str()));
    push_all(&mut c, &lit(" > /dev/null"));
    Ok(string_of(&c))
}

} // verus!
