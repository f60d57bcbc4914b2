//! Allocation of two-letter operating initials.

use vstd::prelude::*;

verus! {

/// The capital letters, in order.
pub open spec fn upper_letters() -> Seq<char> {
    "ABCDEFGHIJKLMNOPQRSTUVWXYZ"@
}

/// The small letters, in order.
pub open spec fn lower_letters() -> Seq<char> {
    "abcdefghijklmnopqrstuvwxyz"@
}

/// The position in the alphabet of `c`, searching from `k`, in either case.
pub open spec fn letter_from(c: char, k: int) -> Option<int>
    decreases 26 - k,
{
    if k < 0 || k >= 26 {
        None
    } else if upper_letters()[k] == c || lower_letters()[k] == c {
        Some(k)
    } else {
        letter_from(c, k + 1)
    }
}

/// The position in the alphabet of the letter `c`, if it is one.
pub open spec fn letter_index(c: char) -> Option<int> {
    letter_from(c, 0)
}

/// The initials made of the `i`-th and the `j`-th capital letters.
pub open spec fn pair_text(i: int, j: int) -> Seq<char> {
    seq![upper_letters()[i], upper_letters()[j]]
}

/// The `k`-th initials in alphabetical order, from "AA" to "ZZ".
pub open spec fn candidate(k: int) -> Seq<char> {
    pair_text(k / 26, k % 26)
}

/// The first initials, at or after the `k`-th, that `used` does not hold.
pub open spec fn first_free(used: Seq<Seq<char>>, k: int) -> Option<Seq<char>>
    decreases 676 - k,
{
    if k < 0 || k >= 676 {
        None
    } else if !used.contains(candidate(k)) {
        Some(candidate(k))
    } else {
        first_free(used, k + 1)
    }
}

/// The initials that a name suggests: the first letters of the first and
/// the last name, in capitals, when both are letters.
pub open spec fn preferred(first: Seq<char>, last: Seq<char>) -> Option<Seq<char>> {
    if first.len() > 0 && last.len() > 0 {
        match (letter_index(first[0]), letter_index(last[0])) {
            (Some(i), Some(j)) => Some(pair_text(i, j)),
            _ => None,
        }
    } else {
        None
    }
}

/// The initials given to a person: the suggested ones where they are free,
/// otherwise the first free ones in alphabetical order.
pub open spec fn allocation(used: Seq<Seq<char>>, first: Seq<char>, last: Seq<char>) -> Option<
    Seq<char>,
> {
    match preferred(first, last) {
        Some(p) => if !used.contains(p) {
            Some(p)
        } else {
            first_free(used, 0)
        },
        None => first_free(used, 0),
    }
}

/// The texts of a list of strings.
pub open spec fn texts(v: Seq<String>) -> Seq<Seq<char>> {
    v.map_values(|s: String| s@)
}

/// Why no initials could be given.
#[derive(Clone, Copy, PartialEq, Eq, Structural, Debug)]
pub enum InitialsError {
    /// Every two-letter combination is in use.
    Exhausted,
}

/// The position in the alphabet of `c`, if it is a letter.
fn letter_position(c: char) -> (r: Option<usize>)
    ensures
        match r {
            Some(i) => letter_index(c) == Some(i as int) && i < 26,
            None => letter_index(c) is None,
        },
{
    let upper = "ABCDEFGHIJKLMNOPQRSTUVWXYZ";
    let lower = "abcdefghijklmnopqrstuvwxyz";
    proof {
        reveal_strlit("ABCDEFGHIJKLMNOPQRSTUVWXYZ");
        reveal_strlit("abcdefghijklmnopqrstuvwxyz");
    }
    let mut k: usize = 0;
    while k < 26
        invariant
            k <= 26,
            upper@.len() == 26,
            lower@.len() == 26,
            upper@ == upper_letters(),
            lower@ == lower_letters(),
            letter_index(c) == letter_from(c, k as int),
        decreases 26 - k,
    {
        if upper.get_char(k) == c || lower.get_char(k) == c {
            assert(letter_from(c, k as int) == Some(k as int));
            return Some(k);
        }
        assert(letter_from(c, k as int) == letter_from(c, k + 1));
        k = k + 1;
    }
    None
}

/// The initials of the `i`-th and `j`-th capital letters, as a string.
fn pair_string(i: usize, j: usize) -> (r: String)
    requires
        i < 26,
        j < 26,
    ensures
        r@ == pair_text(i as int, j as int),
{
    let upper = "ABCDEFGHIJKLMNOPQRSTUVWXYZ";
    proof {
        reveal_strlit("ABCDEFGHIJKLMNOPQRSTUVWXYZ");
    }
    let mut r = String::from_str(upper.substring_char(i, i + 1));
    r.append(upper.substring_char(j, j + 1));
    assert(r@ =~= pair_text(i as int, j as int));
    r
}

/// Whether no entry of `in_use` reads `t`.
fn is_free(in_use: &Vec<String>, t: &String) -> (r: bool)
    ensures
        r == !texts(in_use@).contains(t@),
{
    let mut k: usize = 0;
    while k < in_use.len()
        invariant
            k <= in_use@.len(),
            forall|m: int| 0 <= m < k ==> (#[trigger] in_use@[m])@ != t@,
        decreases in_use@.len() - k,
    {
        if crate::text::same_text(in_use[k].as_str(), t.as_str()) {
            assert(texts(in_use@)[k as int] == t@);
            return false;
        }
        k = k + 1;
    }
    proof {
        if texts(in_use@).contains(t@) {
            let m = choose|m: int| 0 <= m < texts(in_use@).len() && texts(in_use@)[m] == t@;
            assert(in_use@[m]@ == t@);
        }
    }
    true
}

/// Allocate operating initials that no one holds, for the person with the
/// given names.
pub fn generate_operating_initials_for(
    in_use: &Vec<String>,
    first_name: &str,
    last_name: &str,
) -> (r: Result<String, InitialsError>)
    ensures
        match r {
            Ok(s) => allocation(texts(in_use@), first_name@, last_name@) == Some(s@),
            Err(_) => allocation(texts(in_use@), first_name@, last_name@) is None,
        },
{
    let ghost used = texts(in_use@);
    if first_name.unicode_len() > 0 && last_name.unicode_len() > 0 {
        let a = letter_position(first_name.get_char(0));
        let b = letter_position(last_name.get_char(0));
        match (a, b) {
            (Some(i), Some(j)) => {
                let p = pair_string(i, j);
                if is_free(in_use, &p) {
                    return Ok(p);
                }
            },
            _ => {},
        }
    }
    assert(allocation(used, first_name@, last_name@) == first_free(used, 0));
    let mut k: usize = 0;
    while k < 676
        invariant
            k <= 676,
            used == texts(in_use@),
            allocation(used, first_name@, last_name@) == first_free(used, 0),
            first_free(used, 0) == first_free(used, k as int),
        decreases 676 - k,
    {
        let i = k / 26;
        let j = k % 26;
        assert(i < 26 && j < 26) by (nonlinear_arith)
            requires
                k < 676,
                i == k / 26,
                j == k % 26,
        ;
        let p = pair_string(i, j);
        assert(candidate(k as int) == p@);
        if is_free(in_use, &p) {
            assert(first_free(used, k as int) == Some(p@));
            return Ok(p);
        }
        assert(first_free(used, k as int) == first_free(used, k + 1));
        k = k + 1;
    }
    Err(InitialsError::Exhausted)
}

} // verus!
