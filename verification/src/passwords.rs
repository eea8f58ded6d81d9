//! Random passwords for the forced password change, drawn with the `rand` crate.
use vstd::prelude::*;

use crate::text::{lit, string_of};

verus! {

/// Upper-case letters without the easily confused `I` and `O`.
pub open spec fn upper_class() -> Seq<char> {
    "ABCDEFGHJKLMNPQRSTUVWXYZ"@
}

/// Lower-case letters without `l` and `o`.
pub open spec fn lower_class() -> Seq<char> {
    "abcdefghijkmnpqrstuvwxyz"@
}

/// Digits without `0` and `1`.
pub open spec fn digit_class() -> Seq<char> {
    "23456789"@
}

/// Symbols that need no quoting care in the shell commands the password ends up in (no `'`,
/// backquote, `$`, `\` or `"`).
pub open spec fn symbol_class() -> Seq<char> {
    "!@#%^&*-_=+"@
}

/// Every character a password may hold.
pub open spec fn password_pool() -> Seq<char> {
    upper_class() + lower_class() + digit_class() + symbol_class()
}

/// Whether `p` is a password as `generate_random_password` makes them: 24 characters of the
/// pool, with at least one of each class.
pub open spec fn is_generated_password(p: Seq<char>) -> bool {
    &&& p.len() == 24
    &&& forall|i: int| 0 <= i < p.len() ==> password_pool().contains(#[trigger] p[i])
    &&& exists|i: int| 0 <= i < p.len() && upper_class().contains(#[trigger] p[i])
    &&& exists|i: int| 0 <= i < p.len() && lower_class().contains(#[trigger] p[i])
    &&& exists|i: int| 0 <= i < p.len() && digit_class().contains(#[trigger] p[i])
    &&& exists|i: int| 0 <= i < p.len() && symbol_class().contains(#[trigger] p[i])
}

/// `rand::Rng::gen_range(0..bound)` on the thread-local generator: some index below `bound`
/// (which one is random). `gen_range` panics on an empty range, hence `bound > 0`.
#[verifier::external_body]
fn random_below(bound: usize) -> (res: usize)
    requires
        bound > 0,
    ensures
        res < bound,
{
    rand::Rng::gen_range(&mut rand::thread_rng(), 0..bound)
}

/// `rand::seq::SliceRandom::shuffle` with the thread-local generator: a random permutation,
/// so the same characters with the same multiplicities.
#[verifier::external_body]
fn shuffle_chars(v: &mut Vec<char>)
    ensures
        final(v)@.to_multiset() == old(v)@.to_multiset(),
{
    rand::seq::SliceRandom::shuffle(v.as_mut_slice(), &mut rand::thread_rng())
}

/// A random character of `class`.
fn pick(class: &Vec<char>) -> (res: char)
    requires
        class.len() > 0,
    ensures
        class@.contains(res),
{
    let i = random_below(class.len());
    assert(class@[i as int] == class[i as int]);
    class[i]
}

proof fn lemma_class_in_pool(c: char, class: Seq<char>, k: int)
    requires
        class.contains(c),
        0 <= k <= 3,
        class == (if k == 0 {
            upper_class()
        } else if k == 1 {
            lower_class()
        } else if k == 2 {
            digit_class()
        } else {
            symbol_class()
        }),
    ensures
        password_pool().contains(c),
{
    let j = choose|j: int| 0 <= j < class.len() && class[j] == c;
    let u = upper_class().len() as int;
    let l = lower_class().len() as int;
    let d = digit_class().len() as int;
    let pool = password_pool();
    if k == 0 {
        assert(pool[j] == c);
    } else if k == 1 {
        assert(pool[u + j] == c);
    } else if k == 2 {
        assert(pool[u + l + j] == c);
    } else {
        assert(pool[u + l + d + j] == c);
    }
}

/// An internal random password for the forced password change: 24 characters drawn from
/// upper- and lower-case letters, digits and a few shell-safe symbols, with at least one of
/// each, in random order.
pub fn generate_random_password() -> (res: String)
    ensures
        is_generated_password(res@),
{
    let upper = lit("ABCDEFGHJKLMNPQRSTUVWXYZ");
    let lower = lit("abcdefghijkmnpqrstuvwxyz");
    let digit = lit("23456789");
    let symbol = lit("!@#%^&*-_=+");
    let mut pool = lit("ABCDEFGHJKLMNPQRSTUVWXYZ");
    crate::text::push_all(&mut pool, &lower);
    crate::text::push_all(&mut pool, &digit);
    crate::text::push_all(&mut pool, &symbol);
    proof {
        reveal_strlit("ABCDEFGHJKLMNPQRSTUVWXYZ");
        reveal_strlit("abcdefghijkmnpqrstuvwxyz");
        reveal_strlit("23456789");
        reveal_strlit("!@#%^&*-_=+");
    }
    assert(pool@ == password_pool());
    let c0 = pick(&upper);
    let c1 = pick(&lower);
    let c2 = pick(&digit);
    let c3 = pick(&symbol);
    proof {
        lemma_class_in_pool(c0, upper@, 0);
        lemma_class_in_pool(c1, lower@, 1);
        lemma_class_in_pool(c2, digit@, 2);
        lemma_class_in_pool(c3, symbol@, 3);
    }
    let mut chars: Vec<char> = vec![c0, c1, c2, c3];
    while chars.len() < 24
        invariant
            4 <= chars.len() <= 24,
            pool@ == password_pool(),
            chars@[0] == c0 && chars@[1] == c1 && chars@[2] == c2 && chars@[3] == c3,
            forall|i: int| 0 <= i < chars.len() ==> password_pool().contains(#[trigger] chars@[i]),
        decreases 24 - chars.len(),
    {
        let c = pick(&pool);
        chars.push(c);
    }
    let ghost before = chars@;
    shuffle_chars(&mut chars);
    proof {
        before.to_multiset_ensures();
        chars@.to_multiset_ensures();
        assert(chars@.len() == 24) by {
            assert(chars@.to_multiset().len() == before.to_multiset().len());
        }
        assert forall|i: int| 0 <= i < chars@.len() implies password_pool().contains(
            #[trigger] chars@[i],
        ) by {
            assert(chars@.contains(chars@[i]));
            assert(chars@.to_multiset().count(chars@[i]) > 0);
            assert(before.to_multiset().count(chars@[i]) > 0);
            assert(before.contains(chars@[i]));
        }
        assert(before.contains(c0) && before.contains(c1) && before.contains(c2) && before.contains(
            c3,
        )) by {
            assert(before[0] == c0 && before[1] == c1 && before[2] == c2 && before[3] == c3);
        }
        assert(before.to_multiset().count(c0) > 0 && before.to_multiset().count(c1) > 0
            && before.to_multiset().count(c2) > 0 && before.to_multiset().count(c3) > 0);
        assert(chars@.to_multiset().count(c0) > 0 && chars@.to_multiset().count(c1) > 0
            && chars@.to_multiset().count(c2) > 0 && chars@.to_multiset().count(c3) > 0);
        assert(chars@.contains(c0) && chars@.contains(c1) && chars@.contains(c2)
            && chars@.contains(c3));
    }
    string_of(&chars)
}

} // verus!
