//! Text primitives over sequences of characters, each with the meaning that the
//! corresponding `str` operation has, stated over `Seq<char>`.
use vstd::prelude::*;

verus! {

/// `p` occurs in `s` starting at position `i`.
pub open spec fn occurs_at(s: Seq<char>, i: int, p: Seq<char>) -> bool {
    0 <= i && i + p.len() <= s.len() && s.subrange(i, i + p.len()) == p
}

/// `i` is the first position at which `p` occurs in `s`.
pub open spec fn is_first_occurrence(s: Seq<char>, p: Seq<char>, i: int) -> bool {
    occurs_at(s, i, p) && forall|j: int| 0 <= j < i ==> !occurs_at(s, j, p)
}

/// `i` is the last position at which `p` occurs in `s`.
pub open spec fn is_last_occurrence(s: Seq<char>, p: Seq<char>, i: int) -> bool {
    occurs_at(s, i, p) && forall|j: int| i < j <= s.len() ==> !occurs_at(s, j, p)
}

/// The position of the first occurrence of `p` in `s` (`str::find`), in characters.
pub open spec fn find(s: Seq<char>, p: Seq<char>) -> Option<int> {
    if exists|i: int| is_first_occurrence(s, p, i) {
        Some(choose|i: int| is_first_occurrence(s, p, i))
    } else {
        None
    }
}

/// The position of the last occurrence of `p` in `s` (`str::rfind`), in characters.
pub open spec fn rfind(s: Seq<char>, p: Seq<char>) -> Option<int> {
    if exists|i: int| is_last_occurrence(s, p, i) {
        Some(choose|i: int| is_last_occurrence(s, p, i))
    } else {
        None
    }
}

/// `p` occurs somewhere in `s` (`str::contains`).
pub open spec fn contains(s: Seq<char>, p: Seq<char>) -> bool {
    exists|i: int| occurs_at(s, i, p)
}

/// `s` begins with `p` (`str::starts_with`).
pub open spec fn starts_with(s: Seq<char>, p: Seq<char>) -> bool {
    occurs_at(s, 0, p)
}

/// `s` ends with `p` (`str::ends_with`).
pub open spec fn ends_with(s: Seq<char>, p: Seq<char>) -> bool {
    occurs_at(s, s.len() - p.len(), p)
}

/// Two occurrences of a pattern that both start before the other ends are ordered
/// by where they start: used to show that the first occurrence is unique.
pub proof fn lemma_first_occurrence_unique(s: Seq<char>, p: Seq<char>, i: int, k: int)
    requires
        is_first_occurrence(s, p, i),
        is_first_occurrence(s, p, k),
    ensures
        i == k,
{
    if i < k {
        assert(!occurs_at(s, i, p));
    } else if k < i {
        assert(!occurs_at(s, k, p));
    }
}

pub proof fn lemma_find_is(s: Seq<char>, p: Seq<char>, i: int)
    requires
        is_first_occurrence(s, p, i),
    ensures
        find(s, p) == Some(i),
{
    let k = choose|k: int| is_first_occurrence(s, p, k);
    lemma_first_occurrence_unique(s, p, i, k);
}

/// Whenever `p` occurs in `s`, `find` finds an occurrence (the first one).
pub proof fn lemma_occurs_find_some(s: Seq<char>, p: Seq<char>, j: int)
    requires
        occurs_at(s, j, p),
    ensures
        find(s, p) is Some,
        exists|i: int| is_first_occurrence(s, p, i),
    decreases j,
{
    if forall|k: int| 0 <= k < j ==> !occurs_at(s, k, p) {
        assert(is_first_occurrence(s, p, j));
    } else {
        let k = choose|k: int| 0 <= k < j && occurs_at(s, k, p);
        lemma_occurs_find_some(s, p, k);
    }
}

pub proof fn lemma_find_none(s: Seq<char>, p: Seq<char>)
    requires
        forall|j: int| !occurs_at(s, j, p),
    ensures
        find(s, p) == None::<int>,
        !contains(s, p),
{
}

pub proof fn lemma_rfind_is(s: Seq<char>, p: Seq<char>, i: int)
    requires
        is_last_occurrence(s, p, i),
    ensures
        rfind(s, p) == Some(i),
{
    let k = choose|k: int| is_last_occurrence(s, p, k);
    if i < k {
        assert(!occurs_at(s, k, p));
    } else if k < i {
        assert(!occurs_at(s, i, p));
    }
}

/// The characters of `s`, in order.
pub fn chars_of(s: &str) -> (res: Vec<char>)
    ensures
        res@ == s@,
{
    let mut res: Vec<char> = Vec::new();
    for c in it: s.chars()
        invariant
            res@ == it.seq().take(it.index() as int),
    {
        res.push(c);
    }
    res
}

/// `String::push`: appends `c` to `s`.
#[verifier::external_body]
fn push_char(s: &mut String, c: char)
    ensures
        final(s)@ == old(s)@.push(c),
{
    s.push(c)
}

/// Builds a `String` from its characters.
pub fn string_of(chars: &Vec<char>) -> (res: String)
    ensures
        res@ == chars@,
{
    let mut s = String::new();
    let mut i: usize = 0;
    while i < chars.len()
        invariant
            i <= chars.len(),
            s@ == chars@.take(i as int),
        decreases chars.len() - i,
    {
        push_char(&mut s, chars[i]);
        assert(chars@.take(i + 1) =~= chars@.take(i as int).push(chars@[i as int]));
        i += 1;
    }
    assert(chars@.take(chars.len() as int) =~= chars@);
    s
}

/// The characters of a string literal, known to Verus by its view.
pub fn lit(s: &str) -> (res: Vec<char>)
    ensures
        res@ == s@,
{
    chars_of(s)
}

/// Copies `s[from..to]`.
pub fn slice_of(s: &Vec<char>, from: usize, to: usize) -> (res: Vec<char>)
    requires
        from <= to <= s.len(),
    ensures
        res@ == s@.subrange(from as int, to as int),
{
    let mut res: Vec<char> = Vec::new();
    let mut i = from;
    while i < to
        invariant
            from <= i <= to <= s.len(),
            res@ == s@.subrange(from as int, i as int),
        decreases to - i,
    {
        res.push(s[i]);
        i += 1;
    }
    res
}

/// Appends `b` to `a`.
pub fn push_all(a: &mut Vec<char>, b: &Vec<char>)
    ensures
        final(a)@ == old(a)@ + b@,
{
    let mut i: usize = 0;
    let ghost a0 = a@;
    while i < b.len()
        invariant
            i <= b.len(),
            a@ == a0 + b@.subrange(0, i as int),
        decreases b.len() - i,
    {
        a.push(b[i]);
        i += 1;
    }
    assert(b@.subrange(0, b.len() as int) == b@);
}

/// `a + b` as a new sequence.
pub fn concat(a: &Vec<char>, b: &Vec<char>) -> (res: Vec<char>)
    ensures
        res@ == a@ + b@,
{
    let mut res = a.clone();
    push_all(&mut res, b);
    res
}

/// Whether `p` occurs in `s` at position `i`.
pub fn occurs_at_exec(s: &Vec<char>, i: usize, p: &Vec<char>) -> (res: bool)
    ensures
        res == occurs_at(s@, i as int, p@),
{
    if i > s.len() || p.len() > s.len() - i {
        return false;
    }
    let mut k: usize = 0;
    while k < p.len()
        invariant
            i + p.len() <= s.len(),
            k <= p.len(),
            forall|m: int| 0 <= m < k ==> s@[i + m] == p@[m],
        decreases p.len() - k,
    {
        if s[i + k] != p[k] {
            assert(s@.subrange(i as int, i + p.len())[k as int] != p@[k as int]);
            return false;
        }
        k += 1;
    }
    assert(s@.subrange(i as int, i + p.len()) =~= p@);
    true
}

/// The first occurrence of `p` in `s` (`str::find`).
pub fn find_exec(s: &Vec<char>, p: &Vec<char>) -> (res: Option<usize>)
    ensures
        res matches Some(i) ==> find(s@, p@) == Some(i as int) && is_first_occurrence(
            s@,
            p@,
            i as int,
        ) && i + p.len() <= s.len(),
        res is None ==> find(s@, p@) == None::<int> && !contains(s@, p@),
{
    if p.len() > s.len() {
        proof {
            lemma_find_none(s@, p@);
        }
        return None;
    }
    let last = s.len() - p.len();
    let mut i: usize = 0;
    loop
        invariant
            i <= last,
            last + p.len() == s.len(),
            forall|j: int| 0 <= j < i ==> !occurs_at(s@, j, p@),
        ensures
            forall|j: int| 0 <= j <= last ==> !occurs_at(s@, j, p@),
        decreases last - i,
    {
        if occurs_at_exec(s, i, p) {
            proof {
                lemma_find_is(s@, p@, i as int);
            }
            return Some(i);
        }
        if i == last {
            break;
        }
        i += 1;
    }
    proof {
        lemma_find_none(s@, p@);
    }
    None
}

/// The last occurrence of `p` in `s` (`str::rfind`).
pub fn rfind_exec(s: &Vec<char>, p: &Vec<char>) -> (res: Option<usize>)
    ensures
        res matches Some(i) ==> rfind(s@, p@) == Some(i as int) && occurs_at(s@, i as int, p@),
        res is None ==> rfind(s@, p@) == None::<int> && !contains(s@, p@),
{
    if p.len() > s.len() {
        assert forall|j: int| !occurs_at(s@, j, p@) by {}
        return None;
    }
    let mut i: usize = s.len() - p.len();
    loop
        invariant
            i + p.len() <= s.len(),
            forall|j: int| i < j <= s.len() ==> !occurs_at(s@, j, p@),
        ensures
            forall|j: int| 0 <= j <= s.len() ==> !occurs_at(s@, j, p@),
        decreases i,
    {
        if occurs_at_exec(s, i, p) {
            proof {
                lemma_rfind_is(s@, p@, i as int);
            }
            return Some(i);
        }
        if i == 0 {
            break;
        }
        i -= 1;
    }
    assert forall|j: int| !occurs_at(s@, j, p@) by {
        if 0 <= j <= s.len() {
        }
    }
    None
}

/// Whether `p` occurs in `s` (`str::contains`).
pub fn contains_exec(s: &Vec<char>, p: &Vec<char>) -> (res: bool)
    ensures
        res == contains(s@, p@),
{
    match find_exec(s, p) {
        Some(i) => {
            assert(occurs_at(s@, i as int, p@));
            true
        },
        None => false,
    }
}

/// Whether `s` starts with `p`.
pub fn starts_with_exec(s: &Vec<char>, p: &Vec<char>) -> (res: bool)
    ensures
        res == starts_with(s@, p@),
{
    occurs_at_exec(s, 0, p)
}

/// Whether `s` ends with `p`.
pub fn ends_with_exec(s: &Vec<char>, p: &Vec<char>) -> (res: bool)
    ensures
        res == ends_with(s@, p@),
{
    if p.len() > s.len() {
        false
    } else {
        occurs_at_exec(s, s.len() - p.len(), p)
    }
}

/// Sequence equality.
pub fn eq_exec(a: &Vec<char>, b: &Vec<char>) -> (res: bool)
    ensures
        res == (a@ == b@),
{
    if a.len() != b.len() {
        return false;
    }
    let mut i: usize = 0;
    while i < a.len()
        invariant
            a.len() == b.len(),
            i <= a.len(),
            forall|k: int| 0 <= k < i ==> a@[k] == b@[k],
        decreases a.len() - i,
    {
        if a[i] != b[i] {
            return false;
        }
        i += 1;
    }
    assert(a@ =~= b@);
    true
}


/// `char::is_whitespace`: the Unicode `White_Space` property.
pub open spec fn is_ws(c: char) -> bool {
    let n = c as u32;
    (9 <= n <= 13) || n == 32 || n == 0x85 || n == 0xA0 || n == 0x1680 || (0x2000 <= n <= 0x200A)
        || n == 0x2028 || n == 0x2029 || n == 0x202F || n == 0x205F || n == 0x3000
}

pub fn is_ws_exec(c: char) -> (res: bool)
    ensures
        res == is_ws(c),
{
    let n = c as u32;
    (9 <= n && n <= 13) || n == 32 || n == 0x85 || n == 0xA0 || n == 0x1680 || (0x2000 <= n && n
        <= 0x200A) || n == 0x2028 || n == 0x2029 || n == 0x202F || n == 0x205F || n == 0x3000
}

/// What a trim removes: whitespace, or every copy of one character.
#[derive(Clone, Copy)]
pub enum Trimmed {
    Whitespace,
    Char(char),
}

pub open spec fn trimmed_char(w: Trimmed, c: char) -> bool {
    match w {
        Trimmed::Whitespace => is_ws(c),
        Trimmed::Char(x) => c == x,
    }
}

pub fn trimmed_char_exec(w: Trimmed, c: char) -> (res: bool)
    ensures
        res == trimmed_char(w, c),
{
    match w {
        Trimmed::Whitespace => is_ws_exec(c),
        Trimmed::Char(x) => c == x,
    }
}

/// `i` is the first position of `s` holding a character that is not trimmed.
pub open spec fn is_first_kept(s: Seq<char>, w: Trimmed, i: int) -> bool {
    0 <= i < s.len() && !trimmed_char(w, s[i]) && forall|j: int|
        0 <= j < i ==> trimmed_char(w, #[trigger] s[j])
}

/// `i` is the last position of `s` holding a character that is not trimmed.
pub open spec fn is_last_kept(s: Seq<char>, w: Trimmed, i: int) -> bool {
    0 <= i < s.len() && !trimmed_char(w, s[i]) && forall|j: int|
        i < j < s.len() ==> trimmed_char(w, #[trigger] s[j])
}

/// Number of trimmed characters at the start of `s`.
pub open spec fn lead_len(s: Seq<char>, w: Trimmed) -> int {
    if exists|i: int| is_first_kept(s, w, i) {
        choose|i: int| is_first_kept(s, w, i)
    } else {
        s.len() as int
    }
}

/// Length of `s` once the trimmed characters at its end are removed.
pub open spec fn kept_end(s: Seq<char>, w: Trimmed) -> int {
    if exists|i: int| is_last_kept(s, w, i) {
        (choose|i: int| is_last_kept(s, w, i)) + 1
    } else {
        0
    }
}

/// `str::trim_start_matches` / `str::trim_start`.
pub open spec fn trim_start_by(s: Seq<char>, w: Trimmed) -> Seq<char> {
    s.skip(lead_len(s, w))
}

/// `str::trim_end_matches` / `str::trim_end`.
pub open spec fn trim_end_by(s: Seq<char>, w: Trimmed) -> Seq<char> {
    s.take(kept_end(s, w))
}

/// `str::trim_matches` / `str::trim`.
pub open spec fn trim_by(s: Seq<char>, w: Trimmed) -> Seq<char> {
    trim_end_by(trim_start_by(s, w), w)
}

/// `str::trim`.
pub open spec fn trim(s: Seq<char>) -> Seq<char> {
    trim_by(s, Trimmed::Whitespace)
}

pub fn trim_start_exec(s: &Vec<char>, w: Trimmed) -> (res: Vec<char>)
    ensures
        res@ == trim_start_by(s@, w),
{
    let mut i: usize = 0;
    while i < s.len()
        invariant
            i <= s.len(),
            forall|j: int| 0 <= j < i ==> trimmed_char(w, #[trigger] s@[j]),
        decreases s.len() - i,
    {
        if !trimmed_char_exec(w, s[i]) {
            proof {
                let k = choose|k: int| is_first_kept(s@, w, k);
                assert(is_first_kept(s@, w, i as int));
                if k < i {
                    assert(trimmed_char(w, s@[k]));
                } else if i < k {
                    assert(trimmed_char(w, s@[i as int]));
                }
            }
            return slice_of(s, i, s.len());
        }
        i += 1;
    }
    assert(!exists|k: int| is_first_kept(s@, w, k));
    slice_of(s, s.len(), s.len())
}

pub fn trim_end_exec(s: &Vec<char>, w: Trimmed) -> (res: Vec<char>)
    ensures
        res@ == trim_end_by(s@, w),
{
    let mut i: usize = s.len();
    while i > 0
        invariant
            i <= s.len(),
            forall|j: int| i <= j < s.len() ==> trimmed_char(w, #[trigger] s@[j]),
        decreases i,
    {
        if !trimmed_char_exec(w, s[i - 1]) {
            proof {
                let k = choose|k: int| is_last_kept(s@, w, k);
                assert(is_last_kept(s@, w, i - 1));
                if k < i - 1 {
                    assert(trimmed_char(w, s@[i - 1]));
                } else if i - 1 < k {
                    assert(trimmed_char(w, s@[k]));
                }
            }
            return slice_of(s, 0, i);
        }
        i -= 1;
    }
    assert(!exists|k: int| is_last_kept(s@, w, k));
    slice_of(s, 0, 0)
}

pub fn trim_by_exec(s: &Vec<char>, w: Trimmed) -> (res: Vec<char>)
    ensures
        res@ == trim_by(s@, w),
{
    let a = trim_start_exec(s, w);
    trim_end_exec(&a, w)
}

/// `str::trim`.
pub fn trim_exec(s: &Vec<char>) -> (res: Vec<char>)
    ensures
        res@ == trim(s@),
{
    trim_by_exec(s, Trimmed::Whitespace)
}

/// `l` without one trailing carriage return.
pub open spec fn strip_cr(l: Seq<char>) -> Seq<char> {
    if l.len() > 0 && l.last() == '\r' {
        l.drop_last()
    } else {
        l
    }
}

pub open spec fn newline() -> Seq<char> {
    seq!['\n']
}

/// `str::lines`: split at each `\n`, dropping a `\r` just before it; no final empty line.
pub open spec fn lines(s: Seq<char>) -> Seq<Seq<char>>
    decreases s.len(),
{
    if s.len() == 0 {
        seq![]
    } else {
        match find(s, newline()) {
            Some(i) => if 0 <= i < s.len() {
                seq![strip_cr(s.take(i))] + lines(s.skip(i + 1))
            } else {
                seq![s]
            },
            None => seq![s],
        }
    }
}

pub fn lines_exec(s: &Vec<char>) -> (res: Vec<Vec<char>>)
    ensures
        res@.len() == lines(s@).len(),
        forall|k: int| 0 <= k < res@.len() ==> #[trigger] res@[k]@ == lines(s@)[k],
{
    let nl = vec!['\n'];
    assert(nl@ == newline());
    let mut res: Vec<Vec<char>> = Vec::new();
    let mut rest = s.clone();
    let ghost done: Seq<Seq<char>> = seq![];
    while rest.len() > 0
        invariant
            nl@ == newline(),
            res@.len() == done.len(),
            forall|k: int| 0 <= k < res@.len() ==> #[trigger] res@[k]@ == done[k],
            lines(s@) == done + lines(rest@),
        decreases rest.len(),
    {
        match find_exec(&rest, &nl) {
            Some(i) => {
                assert(occurs_at(rest@, i as int, nl@));
                let mut line = slice_of(&rest, 0, i);
                if line.len() > 0 && line[line.len() - 1] == '\r' {
                    line.pop();
                }
                assert(line@ == strip_cr(rest@.take(i as int)));
                let next = slice_of(&rest, i + 1, rest.len());
                assert(next@ == rest@.skip(i + 1));
                proof {
                    done = done.push(line@);
                }
                res.push(line);
                rest = next;
            },
            None => {
                proof {
                    done = done.push(rest@);
                }
                res.push(rest);
                rest = Vec::new();
                assert(lines(rest@) == Seq::<Seq<char>>::empty());
            },
        }
    }
    assert(lines(rest@) == Seq::<Seq<char>>::empty());
    assert(done + Seq::<Seq<char>>::empty() == done);
    res
}


/// `str::replace` with a non-empty pattern: every non-overlapping occurrence of `p`,
/// scanning from the left, becomes `r`.
#[verifier::opaque]
pub open spec fn replace(s: Seq<char>, p: Seq<char>, r: Seq<char>) -> Seq<char>
    decreases s.len(),
{
    if p.len() == 0 {
        s
    } else {
        match find(s, p) {
            Some(i) => if 0 <= i && i + p.len() <= s.len() {
                s.take(i) + r + replace(s.skip(i + p.len()), p, r)
            } else {
                s
            },
            None => s,
        }
    }
}

pub fn replace_exec(s: &Vec<char>, p: &Vec<char>, r: &Vec<char>) -> (res: Vec<char>)
    requires
        p.len() > 0,
    ensures
        res@ == replace(s@, p@, r@),
{
    reveal(replace);
    let mut res: Vec<char> = Vec::new();
    let mut rest = s.clone();
    loop
        invariant
            p.len() > 0,
            replace(s@, p@, r@) == res@ + replace(rest@, p@, r@),
        decreases rest.len(),
    {
        reveal(replace);
        match find_exec(&rest, p) {
            Some(i) => {
                assert(occurs_at(rest@, i as int, p@));
                let head = slice_of(&rest, 0, i);
                push_all(&mut res, &head);
                push_all(&mut res, r);
                let next = slice_of(&rest, i + p.len(), rest.len());
                assert(next@ == rest@.skip(i + p.len()));
                rest = next;
            },
            None => {
                push_all(&mut res, &rest);
                return res;
            },
        }
    }
}

/// An occurrence of `q` in `a + r + b` lies within `a`, within `r` or within `b`, or it
/// covers the first or the last character of `r`.
proof fn lemma_occurrence_around(a: Seq<char>, r: Seq<char>, b: Seq<char>, q: Seq<char>, j: int)
    requires
        r.len() > 0,
        q.len() > 0,
        occurs_at(a + r + b, j, q),
    ensures
        occurs_at(a, j, q) || occurs_at(b, j - a.len() - r.len(), q) || contains(r, q) || q.contains(
            r[0],
        ) || q.contains(r.last()),
{
    let w = a + r + b;
    let n = a.len() as int;
    let m = r.len() as int;
    let e = j + q.len();
    assert(w.subrange(j, e) == q);
    if e <= n {
        assert(a.subrange(j, e) =~= w.subrange(j, e));
    } else if j < n {
        assert(w[n] == r[0]);
        assert(q[n - j] == w.subrange(j, e)[n - j]);
    } else if e <= n + m {
        assert(r.subrange(j - n, e - n) =~= w.subrange(j, e));
        assert(occurs_at(r, j - n, q));
    } else if j < n + m {
        assert(w[n + m - 1] == r.last());
        assert(q[n + m - 1 - j] == w.subrange(j, e)[n + m - 1 - j]);
    } else {
        assert(b.subrange(j - n - m, e - n - m) =~= w.subrange(j, e));
    }
}

pub proof fn lemma_find_some_first(s: Seq<char>, p: Seq<char>)
    requires
        find(s, p) is Some,
    ensures
        is_first_occurrence(s, p, find(s, p)->0),
{
}

/// Replacing `p` by a text `r` that cannot help form `p` (no occurrence of `p` inside `r`,
/// and neither end character of `r` in `p`) leaves no occurrence of `p`.
pub proof fn lemma_replace_removes(s: Seq<char>, p: Seq<char>, r: Seq<char>)
    requires
        p.len() > 0,
        r.len() > 0,
        !contains(r, p),
        !p.contains(r[0]),
        !p.contains(r.last()),
    ensures
        !contains(replace(s, p, r), p),
    decreases s.len(),
{
    reveal(replace);
    match find(s, p) {
        Some(i) => {
            lemma_find_some_first(s, p);
            let a = s.take(i);
            let rest = s.skip(i + p.len());
            let b = replace(rest, p, r);
            lemma_replace_removes(rest, p, r);
            assert(replace(s, p, r) == a + r + b);
            if contains(a + r + b, p) {
                let j = choose|j: int| occurs_at(a + r + b, j, p);
                lemma_occurrence_around(a, r, b, p, j);
                if occurs_at(a, j, p) {
                    assert(s.subrange(j, j + p.len()) =~= a.subrange(j, j + p.len()));
                    assert(occurs_at(s, j, p));
                }
            }
        },
        None => {
            if contains(s, p) {
                let j = choose|j: int| occurs_at(s, j, p);
                lemma_occurs_find_some(s, p, j);
            }
        },
    }
}

/// The same replacement never creates an occurrence of a pattern `q` that `s` lacks, when
/// `r` cannot help form `q` either.
pub proof fn lemma_replace_keeps_absent(s: Seq<char>, p: Seq<char>, r: Seq<char>, q: Seq<char>)
    requires
        p.len() > 0,
        r.len() > 0,
        q.len() > 0,
        !contains(s, q),
        !contains(r, q),
        !q.contains(r[0]),
        !q.contains(r.last()),
    ensures
        !contains(replace(s, p, r), q),
    decreases s.len(),
{
    reveal(replace);
    match find(s, p) {
        Some(i) => {
            lemma_find_some_first(s, p);
            let a = s.take(i);
            let k = i + p.len();
            let rest = s.skip(k);
            let b = replace(rest, p, r);
            if contains(rest, q) {
                let j = choose|j: int| occurs_at(rest, j, q);
                assert(s.subrange(j + k, j + k + q.len()) =~= rest.subrange(j, j + q.len()));
                assert(occurs_at(s, j + k, q));
            }
            lemma_replace_keeps_absent(rest, p, r, q);
            assert(replace(s, p, r) == a + r + b);
            if contains(a + r + b, q) {
                let j = choose|j: int| occurs_at(a + r + b, j, q);
                lemma_occurrence_around(a, r, b, q, j);
                if occurs_at(a, j, q) {
                    assert(s.subrange(j, j + q.len()) =~= a.subrange(j, j + q.len()));
                    assert(occurs_at(s, j, q));
                }
            }
        },
        None => {},
    }
}

/// `str::split_once`: the parts before and after the first occurrence of `p`.
pub open spec fn split_once(s: Seq<char>, p: Seq<char>) -> Option<(Seq<char>, Seq<char>)> {
    match find(s, p) {
        Some(i) => Some((s.take(i), s.skip(i + p.len()))),
        None => None,
    }
}

pub fn split_once_exec(s: &Vec<char>, p: &Vec<char>) -> (res: Option<(Vec<char>, Vec<char>)>)
    ensures
        match split_once(s@, p@) {
            Some((a, b)) => res matches Some((x, y)) && x@ == a && y@ == b,
            None => res is None,
        },
{
    match find_exec(s, p) {
        Some(i) => {
            assert(occurs_at(s@, i as int, p@));
            Some((slice_of(s, 0, i), slice_of(s, i + p.len(), s.len())))
        },
        None => None,
    }
}

/// `str::strip_prefix`.
pub open spec fn strip_prefix(s: Seq<char>, p: Seq<char>) -> Option<Seq<char>> {
    if starts_with(s, p) {
        Some(s.skip(p.len() as int))
    } else {
        None
    }
}

pub fn strip_prefix_exec(s: &Vec<char>, p: &Vec<char>) -> (res: Option<Vec<char>>)
    ensures
        match strip_prefix(s@, p@) {
            Some(a) => res matches Some(x) && x@ == a,
            None => res is None,
        },
{
    if starts_with_exec(s, p) {
        Some(slice_of(s, p.len(), s.len()))
    } else {
        None
    }
}

/// `parts.join(sep)`.
pub open spec fn join(parts: Seq<Seq<char>>, sep: Seq<char>) -> Seq<char>
    decreases parts.len(),
{
    if parts.len() == 0 {
        seq![]
    } else if parts.len() == 1 {
        parts[0]
    } else {
        join(parts.drop_last(), sep) + sep + parts.last()
    }
}

/// A join of at least two parts is the first part, the separator, and the join of the rest.
pub proof fn lemma_join_front_sep(r: Seq<Seq<char>>, sep: Seq<char>)
    requires
        r.len() >= 2,
    ensures
        join(r, sep) == r[0] + sep + join(r.drop_first(), sep),
    decreases r.len(),
{
    if r.len() == 2 {
        assert(join(r.drop_last(), sep) == r.drop_last()[0]);
        assert(r.drop_first().len() == 1);
        assert(join(r.drop_first(), sep) == r.drop_first()[0]);
        assert(join(r, sep) == join(r.drop_last(), sep) + sep + r.last());
        assert(join(r, sep) =~= r[0] + sep + join(r.drop_first(), sep));
    } else {
        lemma_join_front_sep(r.drop_last(), sep);
        assert(r.drop_last().drop_first() =~= r.drop_first().drop_last());
        assert(r.drop_first().last() == r.last());
        assert(join(r.drop_first(), sep) == join(r.drop_first().drop_last(), sep) + sep
            + r.drop_first().last());
        assert(join(r, sep) == join(r.drop_last(), sep) + sep + r.last());
        assert(join(r, sep) =~= r[0] + sep + join(r.drop_first(), sep));
    }
}

/// `str::split(p)` for a non-empty `p`: the pieces between the occurrences of `p`, in order.
pub open spec fn split_on(s: Seq<char>, p: Seq<char>) -> Seq<Seq<char>>
    decreases s.len(),
{
    if p.len() == 0 {
        seq![s]
    } else {
        match find(s, p) {
            Some(i) => if 0 <= i && i + p.len() <= s.len() {
                seq![s.take(i)] + split_on(s.skip(i + p.len()), p)
            } else {
                seq![s]
            },
            None => seq![s],
        }
    }
}

/// Splitting commands joined by ` ; ` gives them back, when none holds ` ; ` and none but the
/// last ends with ` ;` (which would let a separator start one character early).
pub proof fn lemma_split_join_commands(parts: Seq<Seq<char>>)
    requires
        parts.len() > 0,
        forall|j: int| 0 <= j < parts.len() ==> !contains(#[trigger] parts[j], " ; "@),
        forall|j: int| 0 <= j < parts.len() - 1 ==> !ends_with(#[trigger] parts[j], " ;"@),
    ensures
        split_on(join(parts, " ; "@), " ; "@) == parts,
    decreases parts.len(),
{
    reveal_strlit(" ; ");
    reveal_strlit(" ;");
    let p = " ; "@;
    let a = parts[0];
    if parts.len() == 1 {
        let s = join(parts, p);
        assert(s == a);
        assert(!contains(s, p));
        lemma_find_none(s, p);
        assert(split_on(s, p) =~= parts);
    } else {
        let rest = parts.drop_first();
        lemma_join_front_sep(parts, p);
        let jr = join(rest, p);
        let s = a + p + jr;
        assert(join(parts, p) == s);
        let n = a.len() as int;
        assert(s.subrange(n, n + 3) =~= p);
        assert(!ends_with(a, " ;"@));
        assert forall|j: int| 0 <= j < n implies !occurs_at(s, j, p) by {
            if occurs_at(s, j, p) {
                assert(s.subrange(j, j + 3)[0] == s[j]);
                assert(s.subrange(j, j + 3)[1] == s[j + 1]);
                assert(s.subrange(j, j + 3)[2] == s[j + 2]);
                if j + 3 <= n {
                    assert(a.subrange(j, j + 3) =~= s.subrange(j, j + 3));
                    assert(occurs_at(a, j, p));
                } else if j == n - 1 {
                    assert(s[j + 1] == p[0]);
                } else {
                    assert(j == n - 2);
                    assert(a.subrange(n - 2, n) =~= " ;"@);
                }
            }
        }
        assert(is_first_occurrence(s, p, n));
        lemma_find_is(s, p, n);
        assert(s.take(n) =~= a);
        assert(s.skip(n + 3) =~= jr);
        assert forall|j: int| 0 <= j < rest.len() implies !contains(#[trigger] rest[j], " ; "@) by {
            assert(rest[j] == parts[j + 1]);
        }
        assert forall|j: int| 0 <= j < rest.len() - 1 implies !ends_with(#[trigger] rest[j], " ;"@) by {
            assert(rest[j] == parts[j + 1]);
        }
        lemma_split_join_commands(rest);
        assert(seq![a] + rest =~= parts);
    }
}

pub fn join_exec(parts: &Vec<Vec<char>>, sep: &Vec<char>) -> (res: Vec<char>)
    ensures
        res@ == join(parts@.map_values(|v: Vec<char>| v@), sep@),
{
    let ghost views = parts@.map_values(|v: Vec<char>| v@);
    let mut res: Vec<char> = Vec::new();
    let mut i: usize = 0;
    while i < parts.len()
        invariant
            i <= parts.len(),
            views == parts@.map_values(|v: Vec<char>| v@),
            res@ == join(views.take(i as int), sep@),
        decreases parts.len() - i,
    {
        assert(views.take(i + 1).drop_last() =~= views.take(i as int));
        if i > 0 {
            push_all(&mut res, sep);
        }
        push_all(&mut res, &parts[i]);
        i += 1;
    }
    assert(views.take(parts.len() as int) =~= views);
    res
}

/// `str::splitn(n, p)`: at most `n` pieces, the last one holding the rest.
pub open spec fn splitn(s: Seq<char>, p: Seq<char>, n: nat) -> Seq<Seq<char>>
    decreases n,
{
    if n == 0 {
        seq![]
    } else if n == 1 {
        seq![s]
    } else {
        match split_once(s, p) {
            Some((a, b)) => seq![a] + splitn(b, p, (n - 1) as nat),
            None => seq![s],
        }
    }
}

pub fn splitn_exec(s: &Vec<char>, p: &Vec<char>, n: usize) -> (res: Vec<Vec<char>>)
    ensures
        res@.len() == splitn(s@, p@, n as nat).len(),
        forall|k: int| 0 <= k < res@.len() ==> #[trigger] res@[k]@ == splitn(s@, p@, n as nat)[k],
{
    let mut res: Vec<Vec<char>> = Vec::new();
    let ghost done: Seq<Seq<char>> = seq![];
    let mut rest = s.clone();
    let mut left = n;
    while left > 0
        invariant
            res@.len() == done.len(),
            forall|k: int| 0 <= k < res@.len() ==> #[trigger] res@[k]@ == done[k],
            splitn(s@, p@, n as nat) == done + splitn(rest@, p@, left as nat),
        decreases left,
    {
        if left == 1 {
            proof {
                done = done.push(rest@);
            }
            res.push(rest);
            rest = Vec::new();
            left = 0;
        } else {
            match split_once_exec(&rest, p) {
                Some((a, b)) => {
                    proof {
                        done = done.push(a@);
                    }
                    res.push(a);
                    rest = b;
                    left = left - 1;
                },
                None => {
                    proof {
                        done = done.push(rest@);
                    }
                    res.push(rest);
                    rest = Vec::new();
                    left = 0;
                },
            }
        }
    }
    assert(done + Seq::<Seq<char>>::empty() == done);
    res
}


pub open spec fn is_digit(c: char) -> bool {
    '0' <= c <= '9'
}

pub open spec fn digit_value(c: char) -> nat {
    (c as u32 - '0' as u32) as nat
}

/// The number written by a sequence of decimal digits (most significant first).
pub open spec fn digits_value(s: Seq<char>) -> nat
    decreases s.len(),
{
    if s.len() == 0 {
        0
    } else {
        digits_value(s.drop_last()) * 10 + digit_value(s.last())
    }
}

pub open spec fn all_digits(s: Seq<char>) -> bool {
    forall|i: int| 0 <= i < s.len() ==> is_digit(#[trigger] s[i])
}

/// `str::parse` for an unsigned integer type whose largest value is `max`: an optional `+`,
/// then at least one decimal digit, and nothing else.
pub open spec fn parse_unsigned(s: Seq<char>, max: nat) -> Option<nat> {
    let d = if s.len() > 0 && s[0] == '+' {
        s.drop_first()
    } else {
        s
    };
    if d.len() > 0 && all_digits(d) && digits_value(d) <= max {
        Some(digits_value(d))
    } else {
        None
    }
}

/// `str::parse` for a signed integer type with range `[-max - 1, max]`.
pub open spec fn parse_signed(s: Seq<char>, max: nat) -> Option<int> {
    if s.len() > 0 && s[0] == '-' {
        let d = s.drop_first();
        if d.len() > 0 && all_digits(d) && digits_value(d) <= max + 1 {
            Some(-(digits_value(d) as int))
        } else {
            None
        }
    } else {
        match parse_unsigned(s, max) {
            Some(v) => Some(v as int),
            None => None,
        }
    }
}

proof fn lemma_digits_value_prefix(s: Seq<char>, k: int)
    requires
        0 <= k <= s.len(),
    ensures
        digits_value(s.take(k)) <= digits_value(s),
    decreases s.len(),
{
    if k < s.len() {
        assert(s.drop_last().take(k) =~= s.take(k));
        lemma_digits_value_prefix(s.drop_last(), k);
    } else {
        assert(s.take(k) =~= s);
    }
}

/// Value of the decimal digits `d`, or `None` when a character is no digit, `d` is empty or
/// the value exceeds `max`.
fn digits_exec(d: &Vec<char>, max: u64) -> (res: Option<u64>)
    ensures
        match res {
            Some(v) => d@.len() > 0 && all_digits(d@) && digits_value(d@) <= max && v
                == digits_value(d@),
            None => !(d@.len() > 0 && all_digits(d@) && digits_value(d@) <= max),
        },
{
    if d.len() == 0 {
        return None;
    }
    let mut v: u128 = 0;
    let mut i: usize = 0;
    while i < d.len()
        invariant
            i <= d.len(),
            all_digits(d@.take(i as int)),
            v == digits_value(d@.take(i as int)),
            v <= max,
        decreases d.len() - i,
    {
        let c = d[i];
        assert(d@.take(i + 1).drop_last() =~= d@.take(i as int));
        if !('0' <= c && c <= '9') {
            assert(!is_digit(d@[i as int]));
            return None;
        }
        let dv = (c as u32 - '0' as u32) as u128;
        v = v * 10 + dv;
        if v > max as u128 {
            proof {
                lemma_digits_value_prefix(d@, i + 1);
            }
            return None;
        }
        i += 1;
    }
    assert(d@.take(d.len() as int) =~= d@);
    Some(v as u64)
}

/// `str::parse::<u64>`-style parsing with an upper bound `max` (`u16::MAX`, `u32::MAX`, ...).
pub fn parse_unsigned_exec(s: &Vec<char>, max: u64) -> (res: Option<u64>)
    ensures
        match parse_unsigned(s@, max as nat) {
            Some(v) => res == Some(v as u64),
            None => res is None,
        },
{
    let d = if s.len() > 0 && s[0] == '+' {
        slice_of(s, 1, s.len())
    } else {
        slice_of(s, 0, s.len())
    };
    assert(s.len() > 0 ==> s@.drop_first() =~= s@.subrange(1, s.len() as int));
    assert(s@.subrange(0, s.len() as int) =~= s@);
    digits_exec(&d, max)
}

/// `str::parse::<i64>`.
pub fn parse_i64_exec(s: &Vec<char>) -> (res: Option<i64>)
    ensures
        match parse_signed(s@, i64::MAX as nat) {
            Some(v) => res == Some(v as i64),
            None => res is None,
        },
{
    if s.len() > 0 && s[0] == '-' {
        let d = slice_of(s, 1, s.len());
        assert(s@.drop_first() =~= d@);
        match digits_exec(&d, 9223372036854775808u64) {
            Some(v) => {
                if v == 9223372036854775808u64 {
                    Some(i64::MIN)
                } else {
                    Some(-(v as i64))
                }
            },
            None => None,
        }
    } else {
        match parse_unsigned_exec(s, i64::MAX as u64) {
            Some(v) => Some(v as i64),
            None => None,
        }
    }
}

pub open spec fn digit_char(d: nat) -> char {
    (('0' as u32) + d) as char
}

/// Decimal representation of `n` (`Display` for unsigned integers).
pub open spec fn decimal(n: nat) -> Seq<char>
    decreases n,
{
    if n < 10 {
        seq![digit_char(n)]
    } else {
        decimal(n / 10).push(digit_char(n % 10))
    }
}

pub fn decimal_exec(n: u64) -> (res: Vec<char>)
    ensures
        res@ == decimal(n as nat),
    decreases n,
{
    let d = ((n % 10) as u32 + '0' as u32) as u8 as char;
    assert(d == digit_char((n % 10) as nat)) by {
        assert(((n % 10) as u32 + '0' as u32) < 128);
    }
    if n < 10 {
        vec![d]
    } else {
        let mut v = decimal_exec(n / 10);
        v.push(d);
        v
    }
}

/// Two-digit zero-padded decimal (`format!("{:02}", n)`) for `n < 100`.
pub open spec fn two_digits(n: nat) -> Seq<char> {
    seq![digit_char(n / 10), digit_char(n % 10)]
}

pub fn two_digits_exec(n: u32) -> (res: Vec<char>)
    requires
        n < 100,
    ensures
        res@ == two_digits(n as nat),
        n >= 10 ==> res@ == decimal(n as nat),
{
    let a = ((n / 10) + '0' as u32) as u8 as char;
    let b = ((n % 10) + '0' as u32) as u8 as char;
    assert(a == digit_char((n / 10) as nat));
    assert(b == digit_char((n % 10) as nat));
    let r = vec![a, b];
    proof {
        if n >= 10 {
            assert(decimal((n / 10) as nat) == seq![digit_char((n / 10) as nat)]);
            assert(r@ =~= decimal(n as nat));
        }
    }
    r
}

/// `str::split_whitespace`: the non-empty runs of non-whitespace characters.
pub open spec fn split_whitespace(s: Seq<char>) -> Seq<Seq<char>>
    decreases s.len(),
{
    let t = trim_start_by(s, Trimmed::Whitespace);
    if t.len() == 0 || t.len() > s.len() {
        seq![]
    } else {
        let k = lead_run(t);
        if 0 < k <= t.len() {
            seq![t.take(k)] + split_whitespace(t.skip(k))
        } else {
            seq![]
        }
    }
}

/// `i` is the first whitespace position of `s`.
pub open spec fn is_first_ws(s: Seq<char>, i: int) -> bool {
    0 <= i < s.len() && is_ws(s[i]) && forall|j: int| 0 <= j < i ==> !is_ws(#[trigger] s[j])
}

/// Length of the leading run of non-whitespace characters of `s`.
pub open spec fn lead_run(s: Seq<char>) -> int {
    if exists|i: int| is_first_ws(s, i) {
        choose|i: int| is_first_ws(s, i)
    } else {
        s.len() as int
    }
}

fn lead_run_exec(s: &Vec<char>) -> (res: usize)
    ensures
        res == lead_run(s@),
        res <= s.len(),
        forall|j: int| 0 <= j < res ==> !is_ws(#[trigger] s@[j]),
{
    let mut i: usize = 0;
    while i < s.len()
        invariant
            i <= s.len(),
            forall|j: int| 0 <= j < i ==> !is_ws(#[trigger] s@[j]),
        decreases s.len() - i,
    {
        if is_ws_exec(s[i]) {
            proof {
                let k = choose|k: int| is_first_ws(s@, k);
                assert(is_first_ws(s@, i as int));
                if k < i {
                    assert(!is_ws(s@[k]));
                } else if i < k {
                    assert(!is_ws(s@[i as int]));
                }
            }
            return i;
        }
        i += 1;
    }
    assert(!exists|k: int| is_first_ws(s@, k));
    i
}

pub proof fn lemma_lead_len_bound(s: Seq<char>, w: Trimmed)
    ensures
        0 <= lead_len(s, w) <= s.len(),
        0 <= kept_end(s, w) <= s.len(),
{
    if exists|i: int| is_first_kept(s, w, i) {
        let k = choose|i: int| is_first_kept(s, w, i);
    }
    if exists|i: int| is_last_kept(s, w, i) {
        let k = choose|i: int| is_last_kept(s, w, i);
    }
}

pub fn split_whitespace_exec(s: &Vec<char>) -> (res: Vec<Vec<char>>)
    ensures
        res@.len() == split_whitespace(s@).len(),
        forall|k: int| 0 <= k < res@.len() ==> #[trigger] res@[k]@ == split_whitespace(s@)[k],
{
    let mut res: Vec<Vec<char>> = Vec::new();
    let ghost done: Seq<Seq<char>> = seq![];
    let mut rest = s.clone();
    loop
        invariant
            res@.len() == done.len(),
            forall|k: int| 0 <= k < res@.len() ==> #[trigger] res@[k]@ == done[k],
            split_whitespace(s@) == done + split_whitespace(rest@),
        decreases rest.len(),
    {
        let t = trim_start_exec(&rest, Trimmed::Whitespace);
        proof {
            lemma_lead_len_bound(rest@, Trimmed::Whitespace);
        }
        if t.len() == 0 {
            assert(split_whitespace(rest@) == Seq::<Seq<char>>::empty());
            assert(done + Seq::<Seq<char>>::empty() == done);
            return res;
        }
        let k = lead_run_exec(&t);
        if k == 0 {
            proof {
                assert(exists|i: int| is_first_kept(rest@, Trimmed::Whitespace, i));
                let i = choose|i: int| is_first_kept(rest@, Trimmed::Whitespace, i);
                assert(t@[0] == rest@[i]);
                assert(exists|j: int| is_first_ws(t@, j));
                let j = choose|j: int| is_first_ws(t@, j);
                assert(j == 0);
            }
            return res;
        }
        let word = slice_of(&t, 0, k);
        let next = slice_of(&t, k, t.len());
        proof {
            done = done.push(word@);
        }
        res.push(word);
        rest = next;
    }
}

/// `str::to_lowercase`, named: its Unicode case tables are not restated here.
pub uninterp spec fn lowercase(s: Seq<char>) -> Seq<char>;

/// Lower-cases `s` with `str::to_lowercase`.
#[verifier::external_body]
pub(crate) fn to_lowercase_exec(s: &str) -> (res: String)
    ensures
        res@ == lowercase(s@),
{
    s.to_lowercase()
}

/// Lower-cases a character sequence.
pub fn lowercase_exec(s: &Vec<char>) -> (res: Vec<char>)
    ensures
        res@ == lowercase(s@),
{
    let st = string_of(s);
    let lower = to_lowercase_exec(st.as_str());
    chars_of(lower.as_str())
}

pub open spec fn is_ascii_alnum(c: char) -> bool {
    ('0' <= c <= '9') || ('a' <= c <= 'z') || ('A' <= c <= 'Z')
}

pub fn is_ascii_alnum_exec(c: char) -> (res: bool)
    ensures
        res == is_ascii_alnum(c),
{
    ('0' <= c && c <= '9') || ('a' <= c && c <= 'z') || ('A' <= c && c <= 'Z')
}

/// Whether `c` occurs in `s`.
pub fn has_char(s: &Vec<char>, c: char) -> (res: bool)
    ensures
        res == s@.contains(c),
{
    let mut i: usize = 0;
    while i < s.len()
        invariant
            i <= s.len(),
            forall|j: int| 0 <= j < i ==> s@[j] != c,
        decreases s.len() - i,
    {
        if s[i] == c {
            assert(s@[i as int] == c);
            return true;
        }
        i += 1;
    }
    false
}

/// The number of bytes of `c` in UTF-8.
pub open spec fn utf8_len(c: char) -> nat {
    if (c as u32) < 0x80 {
        1
    } else if (c as u32) < 0x800 {
        2
    } else if (c as u32) < 0x10000 {
        3
    } else {
        4
    }
}

/// The index of the character that starts at byte offset `b` of the UTF-8 encoding of `s`
/// (`s.len()` at its end), or `None` when `b` falls inside a character or past the end.
pub open spec fn char_index_at(s: Seq<char>, b: nat) -> Option<int>
    decreases s.len(),
{
    if b == 0 {
        Some(0)
    } else if s.len() == 0 || b < utf8_len(s[0]) {
        None
    } else {
        match char_index_at(s.drop_first(), (b - utf8_len(s[0])) as nat) {
            Some(i) => Some(i + 1),
            None => None,
        }
    }
}

/// `str::get(from..to)` with byte offsets: the characters between them when both fall on
/// character boundaries and `from <= to`.
pub open spec fn byte_slice(s: Seq<char>, from: nat, to: nat) -> Option<Seq<char>> {
    if from > to {
        None
    } else {
        match (char_index_at(s, from), char_index_at(s, to)) {
            (Some(i), Some(j)) => Some(s.subrange(i, j)),
            _ => None,
        }
    }
}

pub open spec fn opt_str_view(o: Option<String>) -> Option<Seq<char>> {
    match o {
        Some(x) => Some(x@),
        None => None,
    }
}

fn utf8_len_exec(c: char) -> (res: usize)
    ensures
        res == utf8_len(c),
{
    let v = c as u32;
    if v < 0x80 {
        1
    } else if v < 0x800 {
        2
    } else if v < 0x10000 {
        3
    } else {
        4
    }
}

/// An index found at an offset, moved `i` characters on.
pub open spec fn shifted(o: Option<int>, i: int) -> Option<int> {
    match o {
        Some(x) => Some(x + i),
        None => None,
    }
}

proof fn lemma_char_index_bound(s: Seq<char>, b: nat)
    ensures
        char_index_at(s, b) matches Some(i) ==> 0 <= i <= s.len(),
    decreases s.len(),
{
    if b > 0 && s.len() > 0 && b >= utf8_len(s[0]) {
        lemma_char_index_bound(s.drop_first(), (b - utf8_len(s[0])) as nat);
    }
}

proof fn lemma_char_index_monotone(s: Seq<char>, a: nat, b: nat)
    requires
        a <= b,
        char_index_at(s, a) is Some,
        char_index_at(s, b) is Some,
    ensures
        char_index_at(s, a)->0 <= char_index_at(s, b)->0,
    decreases s.len(),
{
    lemma_char_index_bound(s, b);
    if a > 0 {
        lemma_char_index_monotone(s.drop_first(), (a - utf8_len(s[0])) as nat, (b - utf8_len(s[0])) as nat);
    }
}

/// The character index at byte offset `b` of `s`, as `char_index_at` gives it.
fn char_index_exec(s: &Vec<char>, b: usize) -> (res: Option<usize>)
    ensures
        match char_index_at(s@, b as nat) {
            Some(i) => res matches Some(x) && x == i,
            None => res is None,
        },
{
    proof {
        lemma_char_index_bound(s@, b as nat);
        assert(s@.skip(0) =~= s@);
    }
    let mut i: usize = 0;
    let mut off: usize = 0;
    while off < b && i < s.len()
        invariant
            i <= s.len(),
            off <= b,
            char_index_at(s@, b as nat) == shifted(char_index_at(s@.skip(i as int), (b - off) as nat), i as int),
        decreases s.len() - i,
    {
        let w = utf8_len_exec(s[i]);
        let ghost rest = s@.skip(i as int);
        assert(rest[0] == s@[i as int]);
        assert(rest.drop_first() =~= s@.skip(i + 1));
        if b - off < w {
            return None;
        }
        off = off + w;
        i = i + 1;
    }
    if off == b {
        Some(i)
    } else {
        assert(s@.skip(i as int).len() == 0);
        None
    }
}

/// `str::get(from..to)` on byte offsets, copied into a `String`: the characters between
/// them when both offsets lie on character boundaries of `s` and `from <= to`.
pub(crate) fn str_get(s: &str, from: usize, to: usize) -> (res: Option<String>)
    ensures
        opt_str_view(res) == byte_slice(s@, from as nat, to as nat),
{
    if from > to {
        return None;
    }
    let cs = chars_of(s);
    match (char_index_exec(&cs, from), char_index_exec(&cs, to)) {
        (Some(i), Some(j)) => {
            proof {
                lemma_char_index_bound(s@, to as nat);
                lemma_char_index_monotone(s@, from as nat, to as nat);
            }
            Some(string_of(&slice_of(&cs, i, j)))
        },
        _ => None,
    }
}

/// Over an ASCII prefix, byte offsets are character indices.
pub proof fn lemma_char_index_ascii(s: Seq<char>, b: nat)
    requires
        b <= s.len(),
        forall|k: int| 0 <= k < b ==> (#[trigger] s[k] as u32) < 0x80,
    ensures
        char_index_at(s, b) == Some(b as int),
    decreases b,
{
    if b > 0 {
        assert forall|k: int| 0 <= k < b - 1 implies (#[trigger] s.drop_first()[k] as u32) < 0x80 by {
            assert(s.drop_first()[k] == s[k + 1]);
        }
        assert((s[0] as u32) < 0x80);
        lemma_char_index_ascii(s.drop_first(), (b - 1) as nat);
    }
}

} // verus!
