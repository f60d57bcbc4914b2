//! Weather parsing and wind arithmetic.

use vstd::prelude::*;
use crate::initials::texts;
use crate::text::{
    ends_with, has_prefix, has_suffix, is_digit, parse_unsigned, same_text, starts_with,
    unsigned_value,
};

verus! {

/// Derived weather conditions.
#[derive(Clone, Copy, PartialEq, Eq, Structural, Debug)]
pub enum WeatherConditions {
    VFR,
    MVFR,
    IFR,
    LIFR,
}

/// Parsed weather information for an airport.
#[derive(Debug)]
pub struct AirportWeather {
    pub name: String,
    pub conditions: WeatherConditions,
    pub visibility: u16,
    pub ceiling: u16,
    pub wind: (u16, u8, u8),
    pub raw: String,
}

/// The compass angle of `v`, folded into `[0, 360)`.
pub open spec fn heading(v: u16) -> int {
    (v as int) % 360
}

/// Whether `val` lies on the arc that runs clockwise from `min` to `max`,
/// both ends included.
pub open spec fn on_arc(val: int, min: int, max: int) -> bool {
    if min <= max {
        min <= val && val <= max
    } else {
        min <= val || val <= max
    }
}

/// Check if the value is at or after `min`, clockwise to at or before `max`.
pub fn wind_between(val: u16, min: u16, max: u16) -> (r: bool)
    ensures
        r == on_arc(heading(val), heading(min), heading(max)),
{
    let val = val % 360;
    let min = min % 360;
    let max = max % 360;

    if min <= max {
        min <= val && val <= max
    } else {
        min <= val || val <= max
    }
}

/// The pieces of `s` between single spaces; consecutive spaces give empty
/// pieces, and there is always at least one piece.
pub open spec fn split_spaces(s: Seq<char>) -> Seq<Seq<char>>
    decreases s.len(),
{
    if s.len() == 0 {
        seq![Seq::<char>::empty()]
    } else {
        let p = split_spaces(s.drop_last());
        if s.last() == ' ' {
            p.push(Seq::empty())
        } else {
            p.update(p.len() - 1, p.last().push(s.last()))
        }
    }
}

proof fn lemma_split_nonempty(s: Seq<char>)
    ensures
        split_spaces(s).len() >= 1,
    decreases s.len(),
{
    if s.len() > 0 {
        lemma_split_nonempty(s.drop_last());
    }
}

/// Split a line at every space.
fn split_line(line: &str) -> (r: Vec<String>)
    ensures
        texts(r@) == split_spaces(line@),
        r@.len() >= 1,
{
    let n = line.unicode_len();
    let mut done: Vec<String> = Vec::new();
    let mut cur = String::new();
    let mut i: usize = 0;
    while i < n
        invariant
            i <= n,
            n == line@.len(),
            texts(done@).push(cur@) == split_spaces(line@.take(i as int)),
        decreases n - i,
    {
        let c = line.get_char(i);
        let ghost pre = line@.take(i as int);
        assert(line@.take(i + 1).drop_last() =~= pre);
        assert(line@.take(i + 1).last() == c);
        proof {
            lemma_split_nonempty(pre);
        }
        if c == ' ' {
            let ghost old_done = texts(done@);
            let ghost old_cur = cur@;
            done.push(cur);
            cur = String::new();
            assert(texts(done@) =~= old_done.push(old_cur));
            assert(texts(done@).push(cur@) =~= split_spaces(line@.take(i + 1)));
        } else {
            let ghost old_cur = cur@;
            cur.append(line.substring_char(i, i + 1));
            assert(cur@ =~= old_cur.push(c));
            assert(texts(done@).push(cur@) =~= split_spaces(line@.take(i + 1)));
        }
        i = i + 1;
    }
    assert(line@.take(n as int) =~= line@);
    let ghost before = texts(done@);
    done.push(cur);
    assert(texts(done@) =~= before.push(cur@));
    done
}

/// Whether `c` is an ASCII letter.
pub open spec fn is_letter(c: char) -> bool {
    ('A' <= c <= 'Z') || ('a' <= c <= 'z')
}

/// The end of the run of letters of `p` that starts at `k`.
pub open spec fn letters_end(p: Seq<char>, k: int) -> int
    decreases p.len() - k,
{
    if 0 <= k < p.len() && is_letter(p[k]) {
        letters_end(p, k + 1)
    } else {
        k
    }
}

/// The end of the run of digits of `p` that starts at `k`.
pub open spec fn digits_end(p: Seq<char>, k: int) -> int
    decreases p.len() - k,
{
    if 0 <= k < p.len() && is_digit(p[k]) {
        digits_end(p, k + 1)
    } else {
        k
    }
}

/// Whether the character at `i` is of the kind asked for: a letter, or else
/// a digit.
fn char_is(p: &str, i: usize, letter: bool) -> (r: bool)
    requires
        i < p@.len(),
    ensures
        r == if letter {
            is_letter(p@[i as int])
        } else {
            is_digit(p@[i as int])
        },
{
    let c = p.get_char(i);
    if letter {
        ('A' <= c && c <= 'Z') || ('a' <= c && c <= 'z')
    } else {
        '0' <= c && c <= '9'
    }
}

/// The end of the run of letters of `p` from `k`.
fn letters_end_at(p: &str, k: usize) -> (r: usize)
    requires
        k <= p@.len(),
    ensures
        r as int == letters_end(p@, k as int),
        k <= r <= p@.len(),
{
    let n = p.unicode_len();
    let mut i = k;
    while i < n && char_is(p, i, true)
        invariant
            k <= i <= n,
            n == p@.len(),
            letters_end(p@, k as int) == letters_end(p@, i as int),
        decreases n - i,
    {
        i = i + 1;
    }
    i
}

/// The end of the run of digits of `p` from `k`.
fn digits_end_at(p: &str, k: usize) -> (r: usize)
    requires
        k <= p@.len(),
    ensures
        r as int == digits_end(p@, k as int),
        k <= r <= p@.len(),
{
    let n = p.unicode_len();
    let mut i = k;
    while i < n && char_is(p, i, false)
        invariant
            k <= i <= n,
            n == p@.len(),
            digits_end(p@, k as int) == digits_end(p@, i as int),
        decreases n - i,
    {
        i = i + 1;
    }
    i
}

/// The first piece, at or after `k`, that reports a broken or overcast
/// layer.
pub open spec fn ceiling_from(ps: Seq<Seq<char>>, k: int) -> Option<int>
    decreases ps.len() - k,
{
    if k < 0 || k >= ps.len() {
        None
    } else if has_prefix(ps[k], "BKN"@) || has_prefix(ps[k], "OVC"@) {
        Some(k)
    } else {
        ceiling_from(ps, k + 1)
    }
}

/// The digits of a layer group: those that follow its leading letters.
pub open spec fn layer_digits(p: Seq<char>) -> Seq<char> {
    p.subrange(letters_end(p, 0), digits_end(p, letters_end(p, 0)))
}

/// The ceiling in feet: the height of the first broken or overcast layer,
/// or 3456 where there is none; none where the height cannot be read.
pub open spec fn ceiling_value(ps: Seq<Seq<char>>) -> Option<int> {
    match ceiling_from(ps, 0) {
        None => Some(3456),
        Some(i) => match unsigned_value(layer_digits(ps[i]), 65535) {
            Some(v) => if v * 100 <= 65535 {
                Some(v * 100)
            } else {
                None
            },
            None => None,
        },
    }
}

/// Whether a piece reports visibility: it begins with a digit and ends
/// with "SM".
pub open spec fn is_visibility(p: Seq<char>) -> bool {
    p.len() > 0 && is_digit(p[0]) && has_suffix(p, "SM"@)
}

/// The first piece, at or after `k`, that reports visibility.
pub open spec fn visibility_from(ps: Seq<Seq<char>>, k: int) -> Option<int>
    decreases ps.len() - k,
{
    if k < 0 || k >= ps.len() {
        None
    } else if is_visibility(ps[k]) {
        Some(k)
    } else {
        visibility_from(ps, k + 1)
    }
}

/// The visibility in whole statute miles: the number before "SM", 0 for a
/// fraction or where none is reported; none where it cannot be read.
pub open spec fn visibility_value(ps: Seq<Seq<char>>) -> Option<int> {
    match visibility_from(ps, 0) {
        None => Some(0),
        Some(i) => {
            let t = ps[i].take(ps[i].len() - 2);
            if t.contains('/') {
                Some(0)
            } else {
                unsigned_value(t, 65535)
            }
        },
    }
}

/// The first piece, at or after `k`, that reports wind.
pub open spec fn wind_from(ps: Seq<Seq<char>>, k: int) -> Option<int>
    decreases ps.len() - k,
{
    if k < 0 || k >= ps.len() {
        None
    } else if has_suffix(ps[k], "KT"@) {
        Some(k)
    } else {
        wind_from(ps, k + 1)
    }
}

/// The wind group: the first piece ending in "KT", or a calm wind.
pub open spec fn wind_group(ps: Seq<Seq<char>>) -> Seq<char> {
    match wind_from(ps, 0) {
        Some(i) => ps[i],
        None => "00000KT"@,
    }
}

/// `n`, or `len` where that is smaller.
pub open spec fn clamp(n: int, len: int) -> int {
    if n < len {
        n
    } else {
        len
    }
}

/// Direction, speed and gust of a wind group: three characters of
/// direction ("VRB" reads as 0), two of speed, and the digits after the
/// sixth character as gust (0 where there are none).
pub open spec fn wind_value(w: Seq<char>) -> Option<(u16, u8, u8)> {
    let d = w.take(clamp(3, w.len() as int));
    let dir = if d == "VRB"@ {
        Some(0int)
    } else {
        unsigned_value(d, 65535)
    };
    let mag = unsigned_value(w.subrange(clamp(3, w.len() as int), clamp(5, w.len() as int)), 255);
    let g0 = clamp(6, w.len() as int);
    let gs = w.subrange(g0, digits_end(w, g0));
    let gust = if gs.len() == 0 {
        Some(0int)
    } else {
        unsigned_value(gs, 255)
    };
    match (dir, mag, gust) {
        (Some(a), Some(b), Some(c)) => Some((a as u16, b as u8, c as u8)),
        _ => None,
    }
}

/// The flight conditions that visibility and ceiling give.
pub open spec fn conditions_of(vis: int, ceil: int) -> WeatherConditions {
    if vis > 5 && ceil > 3000 {
        WeatherConditions::VFR
    } else if vis >= 3 && ceil > 1000 {
        WeatherConditions::MVFR
    } else if vis >= 1 && ceil > 500 {
        WeatherConditions::IFR
    } else {
        WeatherConditions::LIFR
    }
}

/// The airport of a report: its first piece, without the leading letter
/// of a four-letter code.
pub open spec fn airport_of(ps: Seq<Seq<char>>) -> Seq<char> {
    if ps[0].len() == 4 {
        ps[0].drop_first()
    } else {
        ps[0]
    }
}

/// Why a report could not be read.
#[derive(Clone, Copy, PartialEq, Eq, Structural, Debug)]
pub enum MetarError {
    /// The ceiling height is not a number, or too large.
    BadCeiling,
    /// The visibility is not a number.
    BadVisibility,
    /// The wind group cannot be read.
    BadWind,
}

/// The first field of a report that cannot be read, in the order ceiling,
/// visibility, wind.
pub open spec fn metar_error(ps: Seq<Seq<char>>) -> Option<MetarError> {
    if ceiling_value(ps) is None {
        Some(MetarError::BadCeiling)
    } else if visibility_value(ps) is None {
        Some(MetarError::BadVisibility)
    } else if wind_value(wind_group(ps)) is None {
        Some(MetarError::BadWind)
    } else {
        None
    }
}

/// The first piece that `pick` looks for: 0 for a ceiling, 1 for
/// visibility, 2 for wind.
pub open spec fn found(t: Seq<Seq<char>>, pick: u8, k: int) -> Option<int> {
    if pick == 0 {
        ceiling_from(t, k)
    } else if pick == 1 {
        visibility_from(t, k)
    } else {
        wind_from(t, k)
    }
}

/// What a search finds lies in range and is of the kind looked for.
proof fn lemma_found(t: Seq<Seq<char>>, pick: u8, k: int)
    requires
        0 <= k,
    ensures
        match found(t, pick, k) {
            Some(i) => k <= i < t.len() && (pick == 1 ==> is_visibility(t[i])),
            None => true,
        },
    decreases t.len() - k,
{
    if k < t.len() {
        lemma_found(t, pick, k + 1);
    }
}

/// The index of the first piece that `pick` looks for.
fn find_piece(ps: &Vec<String>, pick: u8) -> (r: Option<usize>)
    requires
        pick <= 2,
    ensures
        match r {
            Some(i) => found(texts(ps@), pick, 0) == Some(i as int),
            None => found(texts(ps@), pick, 0) is None,
        },
{
    let ghost t = texts(ps@);
    let mut k: usize = 0;
    while k < ps.len()
        invariant
            k <= ps@.len(),
            pick <= 2,
            t == texts(ps@),
            found(t, pick, 0) == found(t, pick, k as int),
        decreases ps@.len() - k,
    {
        let p = ps[k].as_str();
        assert(p@ == t[k as int]);
        let hit = if pick == 0 {
            starts_with(p, "BKN") || starts_with(p, "OVC")
        } else if pick == 1 {
            p.unicode_len() > 0 && char_is(p, 0, false) && ends_with(p, "SM")
        } else {
            ends_with(p, "KT")
        };
        if hit {
            assert(found(t, pick, k as int) == Some(k as int));
            return Some(k);
        }
        assert(found(t, pick, k as int) == found(t, pick, k + 1));
        k = k + 1;
    }
    None
}

/// Whether `p` holds the character `c`.
fn has_char(p: &str, c: char) -> (r: bool)
    ensures
        r == p@.contains(c),
{
    let n = p.unicode_len();
    let mut i: usize = 0;
    while i < n
        invariant
            i <= n,
            n == p@.len(),
            forall|k: int| 0 <= k < i ==> p@[k] != c,
        decreases n - i,
    {
        if p.get_char(i) == c {
            assert(p@[i as int] == c);
            return true;
        }
        i = i + 1;
    }
    false
}

/// Read the wind group.
fn read_wind(w: &str) -> (r: Option<(u16, u8, u8)>)
    ensures
        r == wind_value(w@),
{
    let n = w.unicode_len();
    let c3 = if 3 < n {
        3
    } else {
        n
    };
    let c5 = if 5 < n {
        5
    } else {
        n
    };
    let c6 = if 6 < n {
        6
    } else {
        n
    };
    let d = w.substring_char(0, c3);
    assert(d@ =~= w@.take(c3 as int));
    let dir: Option<u64> = if same_text(d, "VRB") {
        Some(0)
    } else {
        parse_unsigned(d, 65535)
    };
    let m = w.substring_char(c3, c5);
    let mag = parse_unsigned(m, 255);
    let g_end = digits_end_at(w, c6);
    let g = w.substring_char(c6, g_end);
    let gust: Option<u64> = if g_end == c6 {
        Some(0)
    } else {
        parse_unsigned(g, 255)
    };
    match (dir, mag, gust) {
        (Some(a), Some(b), Some(c)) => Some((a as u16, b as u8, c as u8)),
        _ => None,
    }
}

/// Parse a METAR into a struct of data.
pub fn parse_metar(line: &str) -> (r: Result<AirportWeather, MetarError>)
    ensures
        match r {
            Ok(w) => {
                let ps = split_spaces(line@);
                &&& metar_error(ps) is None
                &&& w.name@ == airport_of(ps)
                &&& w.ceiling as int == ceiling_value(ps).unwrap()
                &&& w.visibility as int == visibility_value(ps).unwrap()
                &&& w.wind == wind_value(wind_group(ps)).unwrap()
                &&& w.conditions == conditions_of(w.visibility as int, w.ceiling as int)
                &&& w.raw@ == line@
            },
            Err(e) => metar_error(split_spaces(line@)) == Some(e),
        },
{
    let parts = split_line(line);
    let ghost ps = split_spaces(line@);
    assert(texts(parts@) == ps);
    let first = parts[0].as_str();
    assert(first@ == ps[0]);
    let name = if first.unicode_len() == 4 {
        String::from_str(first.substring_char(1, 4))
    } else {
        String::from_str(first)
    };
    assert(name@ =~= airport_of(ps));

    let mut ceiling: u16 = 3456;
    proof {
        lemma_found(ps, 0, 0);
        lemma_found(ps, 1, 0);
        lemma_found(ps, 2, 0);
    }
    match find_piece(&parts, 0) {
        Some(i) => {
            let p = parts[i].as_str();
            assert(p@ == ps[i as int]);
            let a = letters_end_at(p, 0);
            let b = digits_end_at(p, a);
            let digits = p.substring_char(a, b);
            assert(digits@ =~= layer_digits(ps[i as int]));
            match parse_unsigned(digits, 65535) {
                Some(v) => {
                    if v > 655 {
                        return Err(MetarError::BadCeiling);
                    }
                    ceiling = (v * 100) as u16;
                },
                None => {
                    return Err(MetarError::BadCeiling);
                },
            }
        },
        None => {},
    }
    assert(ceiling_value(ps) == Some(ceiling as int));

    let mut visibility: u16 = 0;
    match find_piece(&parts, 1) {
        Some(i) => {
            let p = parts[i].as_str();
            assert(p@ == ps[i as int]);
            let n = p.unicode_len();
            proof {
                reveal_strlit("SM");
                assert(is_visibility(ps[i as int]));
            }
            let t = p.substring_char(0, n - 2);
            assert(t@ =~= ps[i as int].take(ps[i as int].len() - 2));
            if !has_char(t, '/') {
                match parse_unsigned(t, 65535) {
                    Some(v) => {
                        visibility = v as u16;
                    },
                    None => {
                        return Err(MetarError::BadVisibility);
                    },
                }
            }
        },
        None => {},
    }
    assert(visibility_value(ps) == Some(visibility as int));

    let calm = String::from_str("00000KT");
    let wind = match find_piece(&parts, 2) {
        Some(i) => {
            assert(parts[i as int]@ == ps[i as int]);
            read_wind(parts[i].as_str())
        },
        None => read_wind(calm.as_str()),
    };
    let wind = match wind {
        Some(w) => w,
        None => {
            return Err(MetarError::BadWind);
        },
    };

    let conditions = if visibility > 5 && ceiling > 3_000 {
        WeatherConditions::VFR
    } else if visibility >= 3 && ceiling > 1_000 {
        WeatherConditions::MVFR
    } else if visibility >= 1 && ceiling > 500 {
        WeatherConditions::IFR
    } else {
        WeatherConditions::LIFR
    };

    Ok(AirportWeather {
        name,
        conditions,
        visibility,
        ceiling,
        wind,
        raw: String::from_str(line),
    })
}

} // verus!
