//! Textual pattern notation: parsing `"HexPattern(EAST aqaa)"` or
//! `"EAST aqaa"` into a pattern, rendering a pattern back to text, and
//! splitting a comma-separated list of such tokens.

use vstd::prelude::*;

use crate::pattern::{Pattern, PatternParseError};
use crate::pattern_utils::{Angle, Direction, DirectionParseError};
use crate::MAX_PATTERN_STEPS;

verus! {

/// ASCII lowercasing of one character.
pub open spec fn spec_fold_char(c: char) -> char {
    match c {
        'A' => 'a',
        'B' => 'b',
        'C' => 'c',
        'D' => 'd',
        'E' => 'e',
        'F' => 'f',
        'G' => 'g',
        'H' => 'h',
        'I' => 'i',
        'J' => 'j',
        'K' => 'k',
        'L' => 'l',
        'M' => 'm',
        'N' => 'n',
        'O' => 'o',
        'P' => 'p',
        'Q' => 'q',
        'R' => 'r',
        'S' => 's',
        'T' => 't',
        'U' => 'u',
        'V' => 'v',
        'W' => 'w',
        'X' => 'x',
        'Y' => 'y',
        'Z' => 'z',
        _ => c,
    }
}

/// ASCII lowercasing of one character.
pub fn fold_char(c: char) -> (r: char)
    ensures
        r == spec_fold_char(c),
{
    match c {
        'A' => 'a',
        'B' => 'b',
        'C' => 'c',
        'D' => 'd',
        'E' => 'e',
        'F' => 'f',
        'G' => 'g',
        'H' => 'h',
        'I' => 'i',
        'J' => 'j',
        'K' => 'k',
        'L' => 'l',
        'M' => 'm',
        'N' => 'n',
        'O' => 'o',
        'P' => 'p',
        'Q' => 'q',
        'R' => 'r',
        'S' => 's',
        'T' => 't',
        'U' => 'u',
        'V' => 'v',
        'W' => 'w',
        'X' => 'x',
        'Y' => 'y',
        'Z' => 'z',
        _ => c,
    }
}

/// ASCII whitespace, as the tokenizer strips it.
pub open spec fn spec_is_space(c: char) -> bool {
    c == ' ' || c == '\t' || c == '\n' || c == '\r'
}

/// ASCII whitespace test.
pub fn is_space(c: char) -> (r: bool)
    ensures
        r == spec_is_space(c),
{
    c == ' ' || c == '\t' || c == '\n' || c == '\r'
}

/// `s` without its leading whitespace.
pub open spec fn spec_trim_front(s: Seq<char>) -> Seq<char>
    decreases s.len(),
{
    if s.len() > 0 && spec_is_space(s[0]) {
        spec_trim_front(s.drop_first())
    } else {
        s
    }
}

/// `s` without its trailing whitespace.
pub open spec fn spec_trim_back(s: Seq<char>) -> Seq<char>
    decreases s.len(),
{
    if s.len() > 0 && spec_is_space(s[s.len() - 1]) {
        spec_trim_back(s.drop_last())
    } else {
        s
    }
}

/// `s` without leading and trailing whitespace.
pub open spec fn spec_trim(s: Seq<char>) -> Seq<char> {
    spec_trim_back(spec_trim_front(s))
}

/// How many times `c` occurs in `s`.
pub open spec fn count_char(s: Seq<char>, c: char) -> nat
    decreases s.len(),
{
    if s.len() == 0 {
        0
    } else {
        count_char(s.drop_last(), c) + if s.last() == c {
            1nat
        } else {
            0nat
        }
    }
}

/// Index of the first occurrence of `c` in `s` (equals `s.len()` if none).
pub open spec fn find_char(s: Seq<char>, c: char) -> int
    decreases s.len(),
{
    if s.len() == 0 {
        0
    } else if s[0] == c {
        0
    } else {
        1 + find_char(s.drop_first(), c)
    }
}

/// The characters of a &str, as a vector.
pub fn str_chars(s: &str) -> (r: Vec<char>)
    ensures
        r@ == s@,
{
    let n = s.unicode_len();
    let mut out: Vec<char> = Vec::new();
    let mut k: usize = 0;
    while k < n
        invariant
            k <= n,
            n == s@.len(),
            out@ =~= s@.subrange(0, k as int),
        decreases n - k,
    {
        out.push(s.get_char(k));
        proof {
            assert(out@ =~= s@.subrange(0, k + 1));
        }
        k = k + 1;
    }
    proof {
        assert(out@ =~= s@);
    }
    out
}


/// The canonical (uppercase) name of a heading.
pub open spec fn spec_dir_name(d: Direction) -> Seq<char> {
    match d {
        Direction::East => seq!['E', 'A', 'S', 'T'],
        Direction::SouthEast => seq!['S', 'O', 'U', 'T', 'H', '_', 'E', 'A', 'S', 'T'],
        Direction::SouthWest => seq!['S', 'O', 'U', 'T', 'H', '_', 'W', 'E', 'S', 'T'],
        Direction::West => seq!['W', 'E', 'S', 'T'],
        Direction::NorthWest => seq!['N', 'O', 'R', 'T', 'H', '_', 'W', 'E', 'S', 'T'],
        Direction::NorthEast => seq!['N', 'O', 'R', 'T', 'H', '_', 'E', 'A', 'S', 'T'],
    }
}

/// Case-folded copy of a character sequence.
pub open spec fn spec_fold_seq(s: Seq<char>) -> Seq<char> {
    s.map_values(|c: char| spec_fold_char(c))
}

/// The heading a name denotes, case-insensitively: full names with or
/// without the underscore, or the one- and two-letter abbreviations.
pub open spec fn spec_dir_from(s: Seq<char>) -> Option<Direction> {
    let l = spec_fold_seq(s);
    if l == seq!['e', 'a', 's', 't'] || l == seq!['e'] {
        Some(Direction::East)
    } else if l == seq!['s', 'o', 'u', 't', 'h', 'e', 'a', 's', 't'] || l == seq![
        's',
        'o',
        'u',
        't',
        'h',
        '_',
        'e',
        'a',
        's',
        't',
    ] || l == seq!['s', 'e'] {
        Some(Direction::SouthEast)
    } else if l == seq!['s', 'o', 'u', 't', 'h', 'w', 'e', 's', 't'] || l == seq![
        's',
        'o',
        'u',
        't',
        'h',
        '_',
        'w',
        'e',
        's',
        't',
    ] || l == seq!['s', 'w'] {
        Some(Direction::SouthWest)
    } else if l == seq!['w', 'e', 's', 't'] || l == seq!['w'] {
        Some(Direction::West)
    } else if l == seq!['n', 'o', 'r', 't', 'h', 'w', 'e', 's', 't'] || l == seq![
        'n',
        'o',
        'r',
        't',
        'h',
        '_',
        'w',
        'e',
        's',
        't',
    ] || l == seq!['n', 'w'] {
        Some(Direction::NorthWest)
    } else if l == seq!['n', 'o', 'r', 't', 'h', 'e', 'a', 's', 't'] || l == seq![
        'n',
        'o',
        'r',
        't',
        'h',
        '_',
        'e',
        'a',
        's',
        't',
    ] || l == seq!['n', 'e'] {
        Some(Direction::NorthEast)
    } else {
        None
    }
}

/// Whether the case-folded slice `v[lo..hi]` equals the literal `lit`.
fn folded_eq_lit(v: &Vec<char>, lo: usize, hi: usize, lit: &str) -> (r: bool)
    requires
        lo <= hi <= v@.len(),
    ensures
        r <==> spec_fold_seq(v@.subrange(lo as int, hi as int)) == lit@,
{
    let n = lit.unicode_len();
    if hi - lo != n {
        proof {
            assert(spec_fold_seq(v@.subrange(lo as int, hi as int)).len() == hi - lo);
        }
        return false;
    }
    let mut k: usize = 0;
    while k < n
        invariant
            k <= n,
            n == lit@.len(),
            lo <= hi <= v@.len(),
            hi - lo == n,
            forall|m: int|
                0 <= m < k ==> spec_fold_char(v@.subrange(lo as int, hi as int)[m]) == lit@[m],
        decreases n - k,
    {
        if fold_char(v[lo + k]) != lit.get_char(k) {
            proof {
                assert(spec_fold_seq(v@.subrange(lo as int, hi as int))[k as int] != lit@[
                k as int]);
            }
            return false;
        }
        k = k + 1;
    }
    proof {
        assert(spec_fold_seq(v@.subrange(lo as int, hi as int)) =~= lit@);
    }
    true
}

/// Parses the heading named by `v[lo..hi]`, case-insensitively.
pub fn dir_from_chars(v: &Vec<char>, lo: usize, hi: usize) -> (r: Option<Direction>)
    requires
        lo <= hi <= v@.len(),
    ensures
        r == spec_dir_from(v@.subrange(lo as int, hi as int)),
{
    proof {
        reveal_strlit("east");
        reveal_strlit("e");
        reveal_strlit("southeast");
        reveal_strlit("south_east");
        reveal_strlit("se");
        reveal_strlit("southwest");
        reveal_strlit("south_west");
        reveal_strlit("sw");
        reveal_strlit("west");
        reveal_strlit("w");
        reveal_strlit("northwest");
        reveal_strlit("north_west");
        reveal_strlit("nw");
        reveal_strlit("northeast");
        reveal_strlit("north_east");
        reveal_strlit("ne");
        assert("east"@ =~= seq!['e', 'a', 's', 't']);
        assert("e"@ =~= seq!['e']);
        assert("southeast"@ =~= seq!['s', 'o', 'u', 't', 'h', 'e', 'a', 's', 't']);
        assert("south_east"@ =~= seq!['s', 'o', 'u', 't', 'h', '_', 'e', 'a', 's', 't']);
        assert("se"@ =~= seq!['s', 'e']);
        assert("southwest"@ =~= seq!['s', 'o', 'u', 't', 'h', 'w', 'e', 's', 't']);
        assert("south_west"@ =~= seq!['s', 'o', 'u', 't', 'h', '_', 'w', 'e', 's', 't']);
        assert("sw"@ =~= seq!['s', 'w']);
        assert("west"@ =~= seq!['w', 'e', 's', 't']);
        assert("w"@ =~= seq!['w']);
        assert("northwest"@ =~= seq!['n', 'o', 'r', 't', 'h', 'w', 'e', 's', 't']);
        assert("north_west"@ =~= seq!['n', 'o', 'r', 't', 'h', '_', 'w', 'e', 's', 't']);
        assert("nw"@ =~= seq!['n', 'w']);
        assert("northeast"@ =~= seq!['n', 'o', 'r', 't', 'h', 'e', 'a', 's', 't']);
        assert("north_east"@ =~= seq!['n', 'o', 'r', 't', 'h', '_', 'e', 'a', 's', 't']);
        assert("ne"@ =~= seq!['n', 'e']);
    }
    if folded_eq_lit(v, lo, hi, "east") || folded_eq_lit(v, lo, hi, "e") {
        Some(Direction::East)
    } else if folded_eq_lit(v, lo, hi, "southeast") || folded_eq_lit(v, lo, hi, "south_east")
        || folded_eq_lit(v, lo, hi, "se") {
        Some(Direction::SouthEast)
    } else if folded_eq_lit(v, lo, hi, "southwest") || folded_eq_lit(v, lo, hi, "south_west")
        || folded_eq_lit(v, lo, hi, "sw") {
        Some(Direction::SouthWest)
    } else if folded_eq_lit(v, lo, hi, "west") || folded_eq_lit(v, lo, hi, "w") {
        Some(Direction::West)
    } else if folded_eq_lit(v, lo, hi, "northwest") || folded_eq_lit(v, lo, hi, "north_west")
        || folded_eq_lit(v, lo, hi, "nw") {
        Some(Direction::NorthWest)
    } else if folded_eq_lit(v, lo, hi, "northeast") || folded_eq_lit(v, lo, hi, "north_east")
        || folded_eq_lit(v, lo, hi, "ne") {
        Some(Direction::NorthEast)
    } else {
        None
    }
}


impl Direction {
    /// Parses a heading from its name, case-insensitively: the full name
    /// with or without the underscore, or the one- or two-letter
    /// abbreviation. The error carries the rejected text.
    pub fn from_name(value: &str) -> (r: Result<Direction, DirectionParseError>)
        ensures
            match r {
                Ok(d) => spec_dir_from(value@) == Some(d),
                Err(e) => spec_dir_from(value@) is None && (e matches
                    DirectionParseError::InvalidStr(t) && t@ == value@),
            },
    {
        let chars = str_chars(value);
        let n = chars.len();
        proof {
            assert(chars@.subrange(0, n as int) =~= value@);
        }
        match dir_from_chars(&chars, 0, n) {
            Some(d) => Ok(d),
            None => Err(DirectionParseError::InvalidStr(value.to_owned())),
        }
    }
}

/// Parses a run of turn characters; `Err` carries the first bad character.
pub open spec fn spec_parse_angles(s: Seq<char>) -> Result<Seq<Angle>, char>
    decreases s.len(),
{
    if s.len() == 0 {
        Ok(Seq::empty())
    } else {
        match spec_parse_angles(s.drop_last()) {
            Ok(r) => match Angle::spec_from_char(s.last()) {
                Ok(a) => Ok(r.push(a)),
                Err(_) => Err(s.last()),
            },
            Err(c) => Err(c),
        }
    }
}

/// Parses the turn characters `v[lo..hi]`.
fn parse_angles(v: &Vec<char>, lo: usize, hi: usize) -> (r: Result<Vec<Angle>, char>)
    requires
        lo <= hi <= v@.len(),
    ensures
        match r {
            Ok(a) => spec_parse_angles(v@.subrange(lo as int, hi as int)) == Ok::<
                Seq<Angle>,
                char,
            >(a@) && a@.len() == hi - lo,
            Err(c) => spec_parse_angles(v@.subrange(lo as int, hi as int)) == Err::<
                Seq<Angle>,
                char,
            >(c),
        },
{
    let mut out: Vec<Angle> = Vec::new();
    let mut k: usize = lo;
    while k < hi
        invariant
            lo <= k <= hi <= v@.len(),
            out@.len() == k - lo,
            spec_parse_angles(v@.subrange(lo as int, k as int)) == Ok::<Seq<Angle>, char>(out@),
        decreases hi - k,
    {
        proof {
            assert(v@.subrange(lo as int, k + 1).drop_last() =~= v@.subrange(lo as int, k as int));
        }
        match Angle::try_from(v[k]) {
            Ok(a) => {
                out.push(a);
            },
            Err(_) => {
                proof {
                    lemma_angles_err_extends(v@, lo as int, k + 1, hi as int, v@[k as int]);
                }
                return Err(v[k]);
            },
        }
        k = k + 1;
    }
    Ok(out)
}

/// Once a prefix of the turn characters fails, the whole run fails with the
/// same first bad character.
proof fn lemma_angles_err_extends(v: Seq<char>, lo: int, mid: int, hi: int, c: char)
    requires
        0 <= lo <= mid <= hi <= v.len(),
        spec_parse_angles(v.subrange(lo, mid)) == Err::<Seq<Angle>, char>(c),
    ensures
        spec_parse_angles(v.subrange(lo, hi)) == Err::<Seq<Angle>, char>(c),
    decreases hi - mid,
{
    if mid < hi {
        assert(v.subrange(lo, mid + 1).drop_last() =~= v.subrange(lo, mid));
        lemma_angles_err_extends(v, lo, mid + 1, hi, c);
    }
}


/// The case-folded opener of the wrapped notation form.
pub open spec fn hexpattern_prefix() -> Seq<char> {
    seq!['h', 'e', 'x', 'p', 'a', 't', 't', 'e', 'r', 'n', '(']
}

/// If a character occurs before `j` nowhere and at `j`, it is first found
/// at `j`.
proof fn lemma_find_char_at(s: Seq<char>, c: char, j: int)
    requires
        0 <= j < s.len(),
        s[j] == c,
        forall|m: int| 0 <= m < j ==> s[m] != c,
    ensures
        find_char(s, c) == j,
    decreases j,
{
    if j > 0 {
        lemma_find_char_at(s.drop_first(), c, j - 1);
    }
}


/// A sequence with no occurrences of `c` has none at any index.
proof fn lemma_count_zero(s: Seq<char>, c: char)
    requires
        count_char(s, c) == 0,
    ensures
        forall|m: int| 0 <= m < s.len() ==> s[m] != c,
    decreases s.len(),
{
    if s.len() > 0 {
        lemma_count_zero(s.drop_last(), c);
        assert forall|m: int| 0 <= m < s.len() implies s[m] != c by {
            if m < s.len() - 1 {
                assert(s.drop_last()[m] == s[m]);
            }
        }
    }
}

/// A token fails to split when its trimmed text does not hold exactly one
/// space.
pub open spec fn spec_invalid_parts(s: Seq<char>) -> bool {
    count_char(spec_trim(s), ' ') != 1
}

/// The raw two parts of a trimmed token, before the opener is stripped.
pub open spec fn spec_raw_parts(s: Seq<char>) -> (Seq<char>, Seq<char>) {
    let t = spec_trim(s);
    let p = find_char(t, ' ');
    (t.subrange(0, p), t.subrange(p + 1, t.len() as int))
}

/// Whether the first part opens with `HexPattern(`, case-insensitively.
pub open spec fn spec_has_opener(s: Seq<char>) -> bool {
    let p0 = spec_raw_parts(s).0;
    p0.len() >= 11 && spec_fold_seq(p0.subrange(0, 11)) == hexpattern_prefix()
}

/// A token hangs when it opens with `HexPattern(` but its second part does
/// not close the parenthesis.
pub open spec fn spec_hanging(s: Seq<char>) -> bool {
    let p1 = spec_raw_parts(s).1;
    !spec_invalid_parts(s) && spec_has_opener(s) && !(p1.len() > 0 && p1.last() == ')')
}

/// The direction part and the angle part of a token, after stripping the
/// optional `HexPattern( ... )` wrapper.
pub open spec fn spec_parts(s: Seq<char>) -> (Seq<char>, Seq<char>) {
    let (p0, p1) = spec_raw_parts(s);
    if spec_has_opener(s) {
        (p0.subrange(11, p0.len() as int), p1.drop_last())
    } else {
        (p0, p1)
    }
}

/// What a token denotes: a start direction and a turn sequence, or nothing
/// when any stage of the grammar rejects it.
pub open spec fn spec_token_parse(s: Seq<char>) -> Option<(Direction, Seq<Angle>)> {
    if spec_invalid_parts(s) || spec_hanging(s) {
        None
    } else {
        let (p0, p1) = spec_parts(s);
        match spec_dir_from(p0) {
            None => None,
            Some(d) => match spec_parse_angles(p1) {
                Ok(a) => Some((d, a)),
                Err(_) => None,
            },
        }
    }
}

impl Pattern {
    /// Parses one token: `"DIRECTION ANGLES"` or
    /// `"HexPattern(DIRECTION ANGLES)"`, case-insensitive, with surrounding
    /// whitespace ignored. Each rejection names its stage: a token that
    /// does not split into two parts, a hanging `HexPattern(`, an unknown
    /// direction name, or a character that is no turn.
    #[verifier::rlimit(100)]
    pub fn try_from(value: &str) -> (r: Result<Pattern, PatternParseError>)
        requires
            value@.len() <= MAX_PATTERN_STEPS,
        ensures
            spec_invalid_parts(value@) ==> (r matches Err(PatternParseError::InvalidParts(t))
                && t@ == value@),
            spec_hanging(value@) ==> (r matches Err(PatternParseError::HangingHexPattern(t)) && t@
                == value@),
            !spec_invalid_parts(value@) && !spec_hanging(value@) && spec_dir_from(
                spec_parts(value@).0,
            ) is None ==> (r matches Err(PatternParseError::InvalidStartDirection {
                input,
                direction,
            }) && input@ == value@ && direction@ == spec_parts(value@).0),
            (!spec_invalid_parts(value@) && !spec_hanging(value@) && spec_dir_from(
                spec_parts(value@).0,
            ) is Some && (spec_parse_angles(spec_parts(value@).1) matches Err(c))) ==> (r matches
                Err(PatternParseError::InvalidAngle { input, angle }) && input@ == value@ && angle
                == spec_parse_angles(spec_parts(value@).1)->Err_0),
            spec_token_parse(value@) matches Some((d, a)) ==> (r matches Ok(p) && p.valid()
                && p.angles@ == a && p.path@.len() == a.len() + 2 && (forall|k: int|
                0 <= k < p.path@.len() ==> ((#[trigger] p.path@[k]).0 as int,
                p.path@[k].1 as int) == crate::pattern::spec_path_point(d, a, k))),
    {
        let chars = str_chars(value);
        let n = chars.len();
        let ghost s = value@;
        proof {
            assert(s.subrange(0, n as int) =~= s);
        }

        // Trim surrounding whitespace, keeping track of the window.
        let mut lo: usize = 0;
        while lo < n && is_space(chars[lo])
            invariant
                lo <= n,
                n == chars@.len(),
                chars@ == s,
                spec_trim_front(s) == spec_trim_front(s.subrange(lo as int, n as int)),
            decreases n - lo,
        {
            proof {
                assert(s.subrange(lo as int, n as int).drop_first() =~= s.subrange(
                    lo + 1,
                    n as int,
                ));
            }
            lo = lo + 1;
        }
        proof {
            assert(spec_trim_front(s) =~= s.subrange(lo as int, n as int));
        }
        let mut hi: usize = n;
        while hi > lo && is_space(chars[hi - 1])
            invariant
                lo <= hi <= n,
                n == chars@.len(),
                chars@ == s,
                spec_trim_front(s) == s.subrange(lo as int, n as int),
                spec_trim_back(s.subrange(lo as int, n as int)) == spec_trim_back(
                    s.subrange(lo as int, hi as int),
                ),
            decreases hi,
        {
            proof {
                assert(s.subrange(lo as int, hi as int).drop_last() =~= s.subrange(
                    lo as int,
                    hi - 1,
                ));
            }
            hi = hi - 1;
        }
        proof {
            assert(spec_trim(s) =~= s.subrange(lo as int, hi as int));
        }
        let ghost t = spec_trim(s);

        // Count the spaces and find the first one.
        let mut cnt: usize = 0;
        let mut fst: usize = lo;
        let mut k: usize = lo;
        while k < hi
            invariant
                lo <= k <= hi <= n,
                n == chars@.len(),
                chars@ == s,
                t == s.subrange(lo as int, hi as int),
                cnt == count_char(s.subrange(lo as int, k as int), ' '),
                cnt <= k - lo,
                cnt >= 1 ==> lo <= fst < k && s[fst as int] == ' ' && (forall|m: int|
                    lo <= m < fst ==> s[m] != ' '),
            decreases hi - k,
        {
            proof {
                assert(s.subrange(lo as int, k + 1).drop_last() =~= s.subrange(
                    lo as int,
                    k as int,
                ));
                if s[k as int] == ' ' && cnt == 0 {
                    lemma_count_zero(s.subrange(lo as int, k as int), ' ');
                    assert forall|m: int| lo <= m < k implies s[m] != ' ' by {
                        assert(s.subrange(lo as int, k as int)[m - lo] == s[m]);
                    }
                }
            }
            if chars[k] == ' ' {
                if cnt == 0 {
                    fst = k;
                }
                cnt = cnt + 1;
            }
            k = k + 1;
        }
        if cnt != 1 {
            return Err(PatternParseError::InvalidParts(value.to_owned()));
        }
        proof {
            lemma_find_char_at(t, ' ', fst - lo);
        }
        let ghost p0 = t.subrange(0, fst - lo);
        let ghost p1 = t.subrange(fst - lo + 1, t.len() as int);
        proof {
            assert(p0 =~= s.subrange(lo as int, fst as int));
            assert(p1 =~= s.subrange(fst + 1, hi as int));
        }

        // Strip the optional case-insensitive HexPattern( ... ) wrapper.
        let mut d_lo: usize = lo;
        let d_hi: usize = fst;
        let a_lo: usize = fst + 1;
        let mut a_hi: usize = hi;
        let opener = fst - lo >= 11 && folded_eq_lit(&chars, lo, lo + 11, "hexpattern(");
        proof {
            reveal_strlit("hexpattern(");
            assert("hexpattern("@ =~= hexpattern_prefix());
            if fst - lo >= 11 {
                assert(p0.subrange(0, 11) =~= s.subrange(lo as int, lo + 11));
            }
            assert(opener == spec_has_opener(s));
        }
        if opener {
            if a_hi > a_lo && chars[a_hi - 1] == ')' {
                d_lo = lo + 11;
                a_hi = a_hi - 1;
                proof {
                    assert(p0.subrange(11, p0.len() as int) =~= s.subrange(
                        d_lo as int,
                        d_hi as int,
                    ));
                    assert(p1.drop_last() =~= s.subrange(a_lo as int, a_hi as int));
                }
            } else {
                proof {
                    if p1.len() > 0 {
                        assert(p1.last() == s[hi - 1]);
                    }
                }
                return Err(PatternParseError::HangingHexPattern(value.to_owned()));
            }
        } else {
            proof {
                assert(s.subrange(d_lo as int, d_hi as int) == p0);
                assert(s.subrange(a_lo as int, a_hi as int) =~= p1);
            }
        }
        proof {
            assert(!spec_hanging(s));
            assert(spec_parts(s).0 == s.subrange(d_lo as int, d_hi as int));
            assert(spec_parts(s).1 =~= s.subrange(a_lo as int, a_hi as int));
        }

        let direction = match dir_from_chars(&chars, d_lo, d_hi) {
            Some(d) => d,
            None => {
                return Err(
                    PatternParseError::InvalidStartDirection {
                        input: value.to_owned(),
                        direction: value.substring_char(d_lo, d_hi).to_owned(),
                    },
                );
            },
        };
        let angles = match parse_angles(&chars, a_lo, a_hi) {
            Ok(a) => a,
            Err(c) => {
                return Err(PatternParseError::InvalidAngle { input: value.to_owned(), angle: c });
            },
        };
        Ok(Pattern::new(direction, angles))
    }
}


/// The notation character of one turn.
pub open spec fn spec_angle_char(a: Angle) -> char {
    match a {
        Angle::Forward => 'w',
        Angle::Right => 'e',
        Angle::BackRight => 'd',
        Angle::Back => 's',
        Angle::BackLeft => 'a',
        Angle::Left => 'q',
    }
}

/// The `HexPattern(` opener as it is written out.
pub open spec fn opener_text() -> Seq<char> {
    seq!['H', 'e', 'x', 'P', 'a', 't', 't', 'e', 'r', 'n', '(']
}

/// The canonical text of a pattern: `HexPattern(DIRECTION ANGLES)`.
pub open spec fn spec_to_text(d: Direction, a: Seq<Angle>) -> Seq<char> {
    opener_text() + spec_dir_name(d) + seq![' '] + a.map_values(|x: Angle| spec_angle_char(x))
        + seq![')']
}

/// Renders a pattern's start direction and turns in canonical notation.
pub fn to_text(direction: Direction, angles: &Vec<Angle>) -> (r: String)
    ensures
        r@ == spec_to_text(direction, angles@),
{
    proof {
        reveal_strlit("HexPattern(");
        reveal_strlit("EAST");
        reveal_strlit("SOUTH_EAST");
        reveal_strlit("SOUTH_WEST");
        reveal_strlit("WEST");
        reveal_strlit("NORTH_WEST");
        reveal_strlit("NORTH_EAST");
        reveal_strlit(" ");
        reveal_strlit("w");
        reveal_strlit("e");
        reveal_strlit("d");
        reveal_strlit("s");
        reveal_strlit("a");
        reveal_strlit("q");
        reveal_strlit(")");
        assert("HexPattern("@ =~= opener_text());
        assert("EAST"@ =~= spec_dir_name(Direction::East));
        assert("SOUTH_EAST"@ =~= spec_dir_name(Direction::SouthEast));
        assert("SOUTH_WEST"@ =~= spec_dir_name(Direction::SouthWest));
        assert("WEST"@ =~= spec_dir_name(Direction::West));
        assert("NORTH_WEST"@ =~= spec_dir_name(Direction::NorthWest));
        assert("NORTH_EAST"@ =~= spec_dir_name(Direction::NorthEast));
        assert(" "@ =~= seq![' ']);
        assert("w"@ =~= seq![spec_angle_char(Angle::Forward)]);
        assert("e"@ =~= seq![spec_angle_char(Angle::Right)]);
        assert("d"@ =~= seq![spec_angle_char(Angle::BackRight)]);
        assert("s"@ =~= seq![spec_angle_char(Angle::Back)]);
        assert("a"@ =~= seq![spec_angle_char(Angle::BackLeft)]);
        assert("q"@ =~= seq![spec_angle_char(Angle::Left)]);
        assert(")"@ =~= seq![')']);
    }
    let mut out = String::new();
    out.append("HexPattern(");
    match direction {
        Direction::East => out.append("EAST"),
        Direction::SouthEast => out.append("SOUTH_EAST"),
        Direction::SouthWest => out.append("SOUTH_WEST"),
        Direction::West => out.append("WEST"),
        Direction::NorthWest => out.append("NORTH_WEST"),
        Direction::NorthEast => out.append("NORTH_EAST"),
    }
    out.append(" ");
    let ghost head = opener_text() + spec_dir_name(direction) + seq![' '];
    proof {
        assert(out@ =~= head);
    }
    let mut k: usize = 0;
    while k < angles.len()
        invariant
            k <= angles@.len(),
            out@ =~= head + angles@.subrange(0, k as int).map_values(
                |x: Angle| spec_angle_char(x),
            ),
        decreases angles@.len() - k,
    {
        proof {
            reveal_strlit("w");
            reveal_strlit("e");
            reveal_strlit("d");
            reveal_strlit("s");
            reveal_strlit("a");
            reveal_strlit("q");
            assert("w"@ =~= seq![spec_angle_char(Angle::Forward)]);
            assert("e"@ =~= seq![spec_angle_char(Angle::Right)]);
            assert("d"@ =~= seq![spec_angle_char(Angle::BackRight)]);
            assert("s"@ =~= seq![spec_angle_char(Angle::Back)]);
            assert("a"@ =~= seq![spec_angle_char(Angle::BackLeft)]);
            assert("q"@ =~= seq![spec_angle_char(Angle::Left)]);
        }
        match angles[k] {
            Angle::Forward => out.append("w"),
            Angle::Right => out.append("e"),
            Angle::BackRight => out.append("d"),
            Angle::Back => out.append("s"),
            Angle::BackLeft => out.append("a"),
            Angle::Left => out.append("q"),
        }
        proof {
            assert(out@ =~= head + angles@.subrange(0, k + 1).map_values(
                |x: Angle| spec_angle_char(x),
            ));
        }
        k = k + 1;
    }
    out.append(")");
    proof {
        assert(angles@.subrange(0, angles@.len() as int) =~= angles@);
        assert(out@ =~= spec_to_text(direction, angles@));
    }
    out
}


/// Occurrences of a character add up over concatenation.
proof fn lemma_count_concat(x: Seq<char>, y: Seq<char>, c: char)
    ensures
        count_char(x + y, c) == count_char(x, c) + count_char(y, c),
    decreases y.len(),
{
    if y.len() == 0 {
        assert(x + y =~= x);
    } else {
        lemma_count_concat(x, y.drop_last(), c);
        assert((x + y).drop_last() =~= x + y.drop_last());
    }
}

/// A sequence without a character counts zero of it.
proof fn lemma_count_zero_of_absent(s: Seq<char>, c: char)
    requires
        forall|m: int| 0 <= m < s.len() ==> s[m] != c,
    ensures
        count_char(s, c) == 0,
    decreases s.len(),
{
    if s.len() > 0 {
        lemma_count_zero_of_absent(s.drop_last(), c);
    }
}

/// The turn characters of a turn sequence parse back to that sequence.
proof fn lemma_angles_round_trip(a: Seq<Angle>)
    ensures
        spec_parse_angles(a.map_values(|x: Angle| spec_angle_char(x))) == Ok::<Seq<Angle>, char>(
            a,
        ),
    decreases a.len(),
{
    let m = a.map_values(|x: Angle| spec_angle_char(x));
    if a.len() == 0 {
        assert(m.len() == 0);
        assert(a =~= Seq::<Angle>::empty());
        assert(spec_parse_angles(m) == Ok::<Seq<Angle>, char>(Seq::empty()));
    } else {
        lemma_angles_round_trip(a.drop_last());
        assert(m.drop_last() =~= a.drop_last().map_values(|x: Angle| spec_angle_char(x)));
        assert(m.last() == spec_angle_char(a.last()));
        assert(a.drop_last().push(a.last()) =~= a);
    }
}

/// Round-trip law: the canonical text of any start direction and turn
/// sequence parses back to exactly that direction and turn sequence.
#[verifier::rlimit(100)]
pub proof fn lemma_text_round_trip(d: Direction, a: Seq<Angle>)
    ensures
        spec_token_parse(spec_to_text(d, a)) == Some((d, a)),
{
    let s = spec_to_text(d, a);
    let name = spec_dir_name(d);
    let amap = a.map_values(|x: Angle| spec_angle_char(x));
    let head = opener_text() + name;
    let tail = amap + seq![')'];

    // Pieces around the single space.
    assert(s =~= head + seq![' '] + tail);
    assert(s[0] == 'H');
    assert(s.last() == ')');

    // The text carries no surrounding whitespace.
    assert(spec_trim_front(s) == s);
    assert(spec_trim_back(s) == s);
    assert(spec_trim(s) == s);

    // Exactly one space, at index `head.len()`.
    assert forall|m: int| 0 <= m < head.len() implies head[m] != ' ' by {
        if m >= 11 {
            assert(head[m] == name[m - 11]);
        }
    }
    assert forall|m: int| 0 <= m < tail.len() implies tail[m] != ' ' by {
        if m < amap.len() {
            assert(tail[m] == spec_angle_char(a[m]));
        }
    }
    lemma_count_zero_of_absent(head, ' ');
    lemma_count_zero_of_absent(tail, ' ');
    lemma_count_concat(head, seq![' '], ' ');
    lemma_count_concat(head + seq![' '], tail, ' ');
    assert(count_char(seq![' '], ' ') == 1) by {
        let one = seq![' '];
        assert(one.drop_last() =~= Seq::<char>::empty());
        assert(one.drop_last() == Seq::<char>::empty());
        assert(count_char(Seq::<char>::empty(), ' ') == 0);
        assert(one.last() == ' ');
        assert(count_char(one, ' ') == count_char(one.drop_last(), ' ') + 1);
    }
    assert(count_char(s, ' ') == 1);
    assert(!spec_invalid_parts(s));

    assert(s[head.len() as int] == ' ');
    lemma_find_char_at(s, ' ', head.len() as int);

    let p0 = spec_raw_parts(s).0;
    let p1 = spec_raw_parts(s).1;
    assert(p0 =~= head);
    assert(p1 =~= tail);

    // The opener is recognized and stripped.
    assert(p0.subrange(0, 11) =~= opener_text());
    assert(spec_fold_seq(p0.subrange(0, 11)) =~= hexpattern_prefix());
    assert(spec_has_opener(s));
    assert(p1.last() == ')');
    assert(!spec_hanging(s));

    let parts = spec_parts(s);
    assert(parts.0 =~= name);
    assert(parts.1 =~= amap);

    // The direction name parses back to the direction.
    assert(spec_fold_seq(name).len() == name.len());
    match d {
        Direction::East => {
            assert(spec_fold_seq(name) =~= seq!['e', 'a', 's', 't']);
        },
        Direction::SouthEast => {
            assert(spec_fold_seq(name) =~= seq!['s', 'o', 'u', 't', 'h', '_', 'e', 'a', 's', 't']);
        },
        Direction::SouthWest => {
            assert(spec_fold_seq(name) =~= seq!['s', 'o', 'u', 't', 'h', '_', 'w', 'e', 's', 't']);
        },
        Direction::West => {
            assert(spec_fold_seq(name) =~= seq!['w', 'e', 's', 't']);
        },
        Direction::NorthWest => {
            assert(spec_fold_seq(name) =~= seq!['n', 'o', 'r', 't', 'h', '_', 'w', 'e', 's', 't']);
        },
        Direction::NorthEast => {
            assert(spec_fold_seq(name) =~= seq!['n', 'o', 'r', 't', 'h', '_', 'e', 'a', 's', 't']);
        },
    }
    assert(spec_dir_from(name) == Some(d));

    // The turn characters parse back to the turns.
    lemma_angles_round_trip(a);
    assert(spec_token_parse(s) == Some((d, a)));
}



/// The comma-separated tokens of `s` from position `k` on, the current
/// token having started at `start`.
pub open spec fn spec_tokens_from(s: Seq<char>, start: int, k: int) -> Seq<Seq<char>>
    decreases s.len() - k,
{
    if k < 0 || k >= s.len() {
        seq![s.subrange(start, s.len() as int)]
    } else if s[k] == ',' {
        seq![s.subrange(start, k)] + spec_tokens_from(s, k + 1, k + 1)
    } else {
        spec_tokens_from(s, start, k + 1)
    }
}

/// The comma-separated tokens of `s`; one (possibly empty) token between
/// any two commas, plus the leading and trailing ones.
pub open spec fn spec_tokens(s: Seq<char>) -> Seq<Seq<char>> {
    spec_tokens_from(s, 0, 0)
}

/// The outcome of parsing the first `n` tokens: the parses of the tokens
/// that parse, and the trimmed text of the non-blank tokens that do not.
pub open spec fn spec_outcomes(tokens: Seq<Seq<char>>, n: int) -> (
    Seq<(Direction, Seq<Angle>)>,
    Seq<Seq<char>>,
)
    decreases n,
{
    if n <= 0 {
        (Seq::empty(), Seq::empty())
    } else {
        let (vs, is) = spec_outcomes(tokens, n - 1);
        let t = tokens[n - 1];
        if spec_trim(t).len() == 0 {
            (vs, is)
        } else {
            match spec_token_parse(t) {
                Some(p) => (vs.push(p), is),
                None => (vs, is.push(spec_trim(t))),
            }
        }
    }
}

/// Outcomes depend only on the tokens actually folded over.
proof fn lemma_outcomes_prefix(ts1: Seq<Seq<char>>, ts2: Seq<Seq<char>>, n: int)
    requires
        forall|i: int| 0 <= i < n ==> ts1[i] == ts2[i],
    ensures
        spec_outcomes(ts1, n) == spec_outcomes(ts2, n),
    decreases n,
{
    if n > 0 {
        lemma_outcomes_prefix(ts1, ts2, n - 1);
    }
}

/// A sequence of nothing but whitespace trims to nothing, and one with any
/// other character keeps a non-space first character.
proof fn lemma_trim_blank(s: Seq<char>)
    ensures
        (forall|i: int| 0 <= i < s.len() ==> spec_is_space(s[i])) ==> spec_trim(s).len() == 0,
        (exists|i: int| 0 <= i < s.len() && !spec_is_space(s[i])) ==> spec_trim(s).len() > 0,
    decreases s.len(),
{
    if s.len() > 0 {
        lemma_trim_blank(s.drop_first());
        if forall|i: int| 0 <= i < s.len() ==> spec_is_space(s[i]) {
            assert(spec_is_space(s[0]));
            assert(forall|i: int|
                0 <= i < s.drop_first().len() ==> spec_is_space(#[trigger] s.drop_first()[i]));
        } else {
            let f = spec_trim_front(s);
            lemma_trim_front_keeps_head(s);
            lemma_trim_back_keeps_head(f);
        }
    }
}

/// Front trimming stops at the first non-space character, which some
/// position must hold.
proof fn lemma_trim_front_keeps_head(s: Seq<char>)
    requires
        exists|i: int| 0 <= i < s.len() && !spec_is_space(s[i]),
    ensures
        spec_trim_front(s).len() > 0,
        !spec_is_space(spec_trim_front(s)[0]),
    decreases s.len(),
{
    if s.len() > 0 && spec_is_space(s[0]) {
        let i = choose|i: int| 0 <= i < s.len() && !spec_is_space(s[i]);
        assert(s.drop_first()[i - 1] == s[i]);
        lemma_trim_front_keeps_head(s.drop_first());
    }
}

/// Back trimming never removes a non-space first character.
proof fn lemma_trim_back_keeps_head(s: Seq<char>)
    requires
        s.len() > 0,
        !spec_is_space(s[0]),
    ensures
        spec_trim_back(s).len() > 0,
        spec_trim_back(s)[0] == s[0],
    decreases s.len(),
{
    if s.len() > 0 && spec_is_space(s[s.len() - 1]) {
        lemma_trim_back_keeps_head(s.drop_last());
    }
}

/// The outcome of parsing a comma-separated list of pattern tokens: the
/// patterns of the tokens that parsed, in order, and the text of those that
/// did not.
#[derive(Debug, Clone)]
pub struct PatternParseResults {
    pub valid: Vec<Pattern>,
    pub invalid: Vec<String>,
}

/// Parses one comma-delimited token of the input: a token of only
/// whitespace is skipped, a token that parses joins `valid`, any other
/// token's trimmed text joins `invalid`.
fn push_token(
    src: &str,
    lo: usize,
    hi: usize,
    valid: &mut Vec<Pattern>,
    invalid: &mut Vec<String>,
)
    requires
        lo <= hi <= src@.len(),
        src@.len() <= MAX_PATTERN_STEPS,
    ensures
        ({
            let tok = src@.subrange(lo as int, hi as int);
            let vs0 = old(valid)@;
            let is0 = old(invalid)@;
            let vs = final(valid)@;
            let is = final(invalid)@;
            if spec_trim(tok).len() == 0 {
                vs == vs0 && is == is0
            } else {
                match spec_token_parse(tok) {
                    Some(p) => {
                        &&& is == is0
                        &&& vs.len() == vs0.len() + 1
                        &&& (forall|i: int| 0 <= i < vs0.len() ==> vs[i] == vs0[i])
                        &&& vs.last().valid()
                        &&& vs.last().angles@ == p.1
                        &&& vs.last().path@.len() == p.1.len() + 2
                        &&& (forall|m: int|
                            0 <= m < vs.last().path@.len() ==> ((#[trigger] vs.last().path@[m]).0
                                as int, vs.last().path@[m].1 as int)
                                == crate::pattern::spec_path_point(p.0, p.1, m))
                    },
                    None => {
                        &&& vs == vs0
                        &&& is.len() == is0.len() + 1
                        &&& (forall|i: int| 0 <= i < is0.len() ==> is[i] == is0[i])
                        &&& is.last()@ == spec_trim(tok)
                    },
                }
            }
        }),
{
    let token = src.substring_char(lo, hi);
    let tchars = str_chars(token);
    let n = tchars.len();
    let ghost t = src@.subrange(lo as int, hi as int);
    proof {
        assert(tchars@ == t);
        assert(t.subrange(0, n as int) =~= t);
    }

    // Trim window within the token.
    let mut lo2: usize = 0;
    while lo2 < n && is_space(tchars[lo2])
        invariant
            lo2 <= n,
            n == t.len(),
            tchars@ == t,
            spec_trim_front(t) == spec_trim_front(t.subrange(lo2 as int, n as int)),
        decreases n - lo2,
    {
        proof {
            assert(t.subrange(lo2 as int, n as int).drop_first() =~= t.subrange(
                lo2 + 1,
                n as int,
            ));
        }
        lo2 = lo2 + 1;
    }
    proof {
        assert(spec_trim_front(t) =~= t.subrange(lo2 as int, n as int));
    }
    if lo2 == n {
        proof {
            assert(spec_trim(t).len() == 0);
        }
        return ;
    }
    let mut hi2: usize = n;
    while hi2 > lo2 && is_space(tchars[hi2 - 1])
        invariant
            lo2 <= hi2 <= n,
            n == t.len(),
            tchars@ == t,
            spec_trim_front(t) == t.subrange(lo2 as int, n as int),
            spec_trim_back(t.subrange(lo2 as int, n as int)) == spec_trim_back(
                t.subrange(lo2 as int, hi2 as int),
            ),
        decreases hi2,
    {
        proof {
            assert(t.subrange(lo2 as int, hi2 as int).drop_last() =~= t.subrange(
                lo2 as int,
                hi2 - 1,
            ));
        }
        hi2 = hi2 - 1;
    }
    proof {
        assert(!spec_is_space(t[lo2 as int]));
        assert(t.subrange(lo2 as int, n as int)[0] == t[lo2 as int]);
        lemma_trim_back_keeps_head(t.subrange(lo2 as int, n as int));
        if hi2 == lo2 {
            assert(t.subrange(lo2 as int, hi2 as int).len() == 0);
            assert(spec_trim_back(t.subrange(lo2 as int, hi2 as int)).len() == 0);
            assert(false);
        }
        assert(spec_trim(t) =~= t.subrange(lo2 as int, hi2 as int));
        assert(spec_trim(t).len() > 0);
    }

    match Pattern::try_from(token) {
        Ok(p) => {
            proof {
                if !(spec_token_parse(t) is Some) {
                    assert(spec_invalid_parts(t) || spec_hanging(t) || spec_dir_from(
                        spec_parts(t).0,
                    ) is None || spec_parse_angles(spec_parts(t).1) is Err);
                    assert(false);
                }
            }
            valid.push(p);
        },
        Err(_) => {
            proof {
                if spec_token_parse(t) is Some {
                    assert(false);
                }
            }
            invalid.push(token.substring_char(lo2, hi2).to_owned());
            proof {
                assert(token@.subrange(lo2 as int, hi2 as int) == spec_trim(t));
            }
        },
    }
}

/// Splits a comma-separated list of pattern tokens (`spec_tokens`) and
/// parses each one: the patterns of the tokens that parse come back in
/// `valid`, in input order, and the trimmed text of every other non-blank
/// token in `invalid` (`spec_outcomes`).
pub fn parse_str(patterns_str: &str) -> (r: PatternParseResults)
    requires
        patterns_str@.len() <= MAX_PATTERN_STEPS,
    ensures
        ({
            let toks = spec_tokens(patterns_str@);
            let outcome = spec_outcomes(toks, toks.len() as int);
            &&& r.valid@.len() == outcome.0.len()
            &&& (forall|i: int|
                0 <= i < r.valid@.len() ==> (#[trigger] r.valid@[i]).valid() && r.valid@[i].angles@
                    == outcome.0[i].1 && r.valid@[i].path@.len() == outcome.0[i].1.len() + 2 && (
                forall|m: int|
                    0 <= m < r.valid@[i].path@.len() ==> ((#[trigger] r.valid@[i].path@[m]).0
                        as int, r.valid@[i].path@[m].1 as int)
                        == crate::pattern::spec_path_point(outcome.0[i].0, outcome.0[i].1, m)))
            &&& r.invalid@.len() == outcome.1.len()
            &&& (forall|i: int| 0 <= i < r.invalid@.len() ==> (#[trigger] r.invalid@[i])@
                == outcome.1[i])
        }),
{
    let chars = str_chars(patterns_str);
    let n = chars.len();
    let ghost s = patterns_str@;
    let mut valid: Vec<Pattern> = Vec::new();
    let mut invalid: Vec<String> = Vec::new();
    let ghost mut done: Seq<Seq<char>> = Seq::empty();
    proof {
        assert(spec_tokens(s) =~= done + spec_tokens_from(s, 0, 0));
        assert(spec_outcomes(done, 0) == (Seq::<(Direction, Seq<Angle>)>::empty(), Seq::<
            Seq<char>,
        >::empty()));
    }
    let mut start: usize = 0;
    let mut k: usize = 0;
    while k < n
        invariant
            start <= k <= n,
            n == s.len(),
            s == patterns_str@,
            chars@ == s,
            s.len() <= MAX_PATTERN_STEPS,
            spec_tokens(s) == done + spec_tokens_from(s, start as int, k as int),
            parse_fold_ok(valid@, invalid@, done),
        decreases n - k,
    {
        if chars[k] == ',' {
            let ghost t = s.subrange(start as int, k as int);
            let ghost vs0 = valid@;
            let ghost is0 = invalid@;
            push_token(patterns_str, start, k, &mut valid, &mut invalid);
            proof {
                lemma_parse_fold_step(vs0, is0, valid@, invalid@, done, t);
                done = done.push(t);
                assert(spec_tokens_from(s, start as int, k as int) == seq![t]
                    + spec_tokens_from(s, k + 1, k + 1));
                assert(spec_tokens(s) =~= done + spec_tokens_from(s, k + 1, k + 1));
            }
            start = k + 1;
        } else {
            proof {
                assert(spec_tokens_from(s, start as int, k as int) == spec_tokens_from(
                    s,
                    start as int,
                    k + 1,
                ));
            }
        }
        k = k + 1;
    }
    let ghost t = s.subrange(start as int, s.len() as int);
    let ghost vs0 = valid@;
    let ghost is0 = invalid@;
    push_token(patterns_str, start, n, &mut valid, &mut invalid);
    proof {
        lemma_parse_fold_step(vs0, is0, valid@, invalid@, done, t);
        done = done.push(t);
        assert(spec_tokens_from(s, start as int, n as int) == seq![t]);
        assert(spec_tokens(s) =~= done);
    }
    PatternParseResults { valid, invalid }
}

/// The parse results so far match the outcome fold over the tokens handled
/// so far.
pub open spec fn parse_fold_ok(
    valid: Seq<Pattern>,
    invalid: Seq<String>,
    done: Seq<Seq<char>>,
) -> bool {
    let outcome = spec_outcomes(done, done.len() as int);
    &&& valid.len() == outcome.0.len()
    &&& (forall|i: int|
        0 <= i < valid.len() ==> (#[trigger] valid[i]).valid() && valid[i].angles@
            == outcome.0[i].1 && valid[i].path@.len() == outcome.0[i].1.len() + 2 && (forall|
        m: int,
    |
            0 <= m < valid[i].path@.len() ==> ((#[trigger] valid[i].path@[m]).0 as int,
            valid[i].path@[m].1 as int) == crate::pattern::spec_path_point(
                outcome.0[i].0,
                outcome.0[i].1,
                m,
            )))
    &&& invalid.len() == outcome.1.len()
    &&& (forall|i: int| 0 <= i < invalid.len() ==> (#[trigger] invalid[i])@ == outcome.1[i])
}

/// Handling one more token extends the outcome fold by that token.
proof fn lemma_parse_fold_step(
    vs0: Seq<Pattern>,
    is0: Seq<String>,
    vs: Seq<Pattern>,
    is: Seq<String>,
    done: Seq<Seq<char>>,
    t: Seq<char>,
)
    requires
        parse_fold_ok(vs0, is0, done),
        ({
            if spec_trim(t).len() == 0 {
                vs == vs0 && is == is0
            } else {
                match spec_token_parse(t) {
                    Some(p) => {
                        &&& is == is0
                        &&& vs.len() == vs0.len() + 1
                        &&& (forall|i: int| 0 <= i < vs0.len() ==> vs[i] == vs0[i])
                        &&& vs.last().valid()
                        &&& vs.last().angles@ == p.1
                        &&& vs.last().path@.len() == p.1.len() + 2
                        &&& (forall|m: int|
                            0 <= m < vs.last().path@.len() ==> ((#[trigger] vs.last().path@[m]).0
                                as int, vs.last().path@[m].1 as int)
                                == crate::pattern::spec_path_point(p.0, p.1, m))
                    },
                    None => {
                        &&& vs == vs0
                        &&& is.len() == is0.len() + 1
                        &&& (forall|i: int| 0 <= i < is0.len() ==> is[i] == is0[i])
                        &&& is.last()@ == spec_trim(t)
                    },
                }
            }
        }),
    ensures
        parse_fold_ok(vs, is, done.push(t)),
{
    let done2 = done.push(t);
    lemma_outcomes_prefix(done2, done, done.len() as int);
    assert(spec_outcomes(done2, done2.len() as int) == ({
        let prev = spec_outcomes(done2, done.len() as int);
        if spec_trim(t).len() == 0 {
            prev
        } else {
            match spec_token_parse(t) {
                Some(p) => (prev.0.push(p), prev.1),
                None => (prev.0, prev.1.push(spec_trim(t))),
            }
        }
    }));
    if spec_trim(t).len() != 0 {
        match spec_token_parse(t) {
            Some(p) => {
                assert(vs.last() == vs[vs.len() - 1]);
                assert forall|i: int| 0 <= i < vs.len() implies (#[trigger] vs[i]).valid() by {
                    if i < vs0.len() {
                        assert(vs[i] == vs0[i]);
                    }
                }
            },
            None => {
                assert(is.last() == is[is.len() - 1]);
            },
        }
    }
}

/// The numeric value of a run of decimal digits, or nothing when the run is
/// empty, holds a non-digit, or overflows the machine's word.
pub open spec fn spec_parse_usize(s: Seq<char>) -> Option<int>
    decreases s.len(),
{
    if s.len() == 0 {
        None
    } else if s.len() == 1 {
        spec_digit(s[0])
    } else {
        match spec_parse_usize(s.drop_last()) {
            None => None,
            Some(hi) => match spec_digit(s.last()) {
                None => None,
                Some(d) => {
                    let v = hi * 10 + d;
                    if v > usize::MAX {
                        None
                    } else {
                        Some(v)
                    }
                },
            },
        }
    }
}

/// The value of one decimal digit character.
pub open spec fn spec_digit(c: char) -> Option<int> {
    match c {
        '0' => Some(0),
        '1' => Some(1),
        '2' => Some(2),
        '3' => Some(3),
        '4' => Some(4),
        '5' => Some(5),
        '6' => Some(6),
        '7' => Some(7),
        '8' => Some(8),
        '9' => Some(9),
        _ => None,
    }
}

/// The value of one decimal digit character.
fn digit(c: char) -> (r: Option<usize>)
    ensures
        match r {
            Some(v) => spec_digit(c) == Some(v as int),
            None => spec_digit(c) is None,
        },
{
    match c {
        '0' => Some(0),
        '1' => Some(1),
        '2' => Some(2),
        '3' => Some(3),
        '4' => Some(4),
        '5' => Some(5),
        '6' => Some(6),
        '7' => Some(7),
        '8' => Some(8),
        '9' => Some(9),
        _ => None,
    }
}

/// Parses a decimal count that must not be zero. `Ok` exactly when the
/// whole string is a digit run whose value fits the machine's word and is
/// positive; the error names which of the two checks failed.
pub fn not_zero(s: &str) -> (r: Result<usize, String>)
    ensures
        match r {
            Ok(v) => spec_parse_usize(s@) == Some(v as int) && v != 0,
            Err(_) => spec_parse_usize(s@) is None || spec_parse_usize(s@) == Some(0int),
        },
{
    let chars = str_chars(s);
    if chars.len() == 0 {
        return Err("not a positive integer".to_owned());
    }
    let mut value: usize = 0;
    let mut k: usize = 0;
    while k < chars.len()
        invariant
            k <= chars@.len(),
            chars@ == s@,
            k > 0 ==> spec_parse_usize(s@.subrange(0, k as int)) == Some(value as int),
            k == 0 ==> value == 0,
        decreases chars@.len() - k,
    {
        proof {
            assert(s@.subrange(0, k + 1).drop_last() =~= s@.subrange(0, k as int));
            assert(s@.subrange(0, k + 1).last() == s@[k as int]);
        }
        let d = match digit(chars[k]) {
            Some(d) => d,
            None => {
                proof {
                    lemma_parse_usize_none_extends(s@, k + 1, s@.len() as int);
                    assert(s@.subrange(0, s@.len() as int) =~= s@);
                }
                return Err("not a positive integer".to_owned());
            },
        };
        if k > 0 {
            if value > usize::MAX / 10 || 10 * value > usize::MAX - d {
                proof {
                    assert(value * 10 + d > usize::MAX) by (nonlinear_arith)
                        requires
                            value > usize::MAX / 10 || 10 * value > usize::MAX - d,
                            usize::MAX == 10 * (usize::MAX / 10) + (usize::MAX % 10),
                            usize::MAX % 10 < 10,
                            0 <= d < 10,
                            value >= 0,
                    ;
                    lemma_parse_usize_none_extends(s@, k + 1, s@.len() as int);
                    assert(s@.subrange(0, s@.len() as int) =~= s@);
                }
                return Err("not a positive integer".to_owned());
            }
            value = 10 * value + d;
        } else {
            value = d;
        }
        k = k + 1;
    }
    proof {
        assert(s@.subrange(0, s@.len() as int) =~= s@);
    }
    if value == 0 {
        return Err("value cannot be zero".to_owned());
    }
    Ok(value)
}

/// Once a digit-run prefix fails to parse, every extension fails too.
proof fn lemma_parse_usize_none_extends(s: Seq<char>, mid: int, hi: int)
    requires
        1 <= mid <= hi <= s.len(),
        spec_parse_usize(s.subrange(0, mid)) is None,
    ensures
        spec_parse_usize(s.subrange(0, hi)) is None,
    decreases hi - mid,
{
    if mid < hi {
        assert(s.subrange(0, mid + 1).drop_last() =~= s.subrange(0, mid));
        lemma_parse_usize_none_extends(s, mid + 1, hi);
    }
}

} // verus!
