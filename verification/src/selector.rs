//! The interactive selector: one line of input, trimmed and lower-cased,
//! picks one of the two reconciliation branches, and anything else is
//! rejected so the prompt can repeat.

use vstd::prelude::*;

verus! {

/// The two reconciliation branches a user can pick.
#[derive(Clone, Copy, Debug, PartialEq, Eq, Structural)]
pub enum Choice {
    Original,
    Modded,
}

/// The whitespace trimmed from the read line.
pub open spec fn is_space(c: char) -> bool {
    c == ' ' || c == '\t' || c == '\r' || c == '\n'
}

pub open spec fn trim_front(s: Seq<char>) -> Seq<char>
    decreases s.len(),
{
    if s.len() > 0 && is_space(s[0]) {
        trim_front(s.subrange(1, s.len() as int))
    } else {
        s
    }
}

pub open spec fn trim_back(s: Seq<char>) -> Seq<char>
    decreases s.len(),
{
    if s.len() > 0 && is_space(s[s.len() - 1]) {
        trim_back(s.subrange(0, s.len() - 1))
    } else {
        s
    }
}

/// Lower-casing of the Latin letters; every other character stays itself.
pub open spec fn to_lower(c: char) -> char {
    if c == 'A' {
        'a'
    } else if c == 'B' {
        'b'
    } else if c == 'C' {
        'c'
    } else if c == 'D' {
        'd'
    } else if c == 'E' {
        'e'
    } else if c == 'F' {
        'f'
    } else if c == 'G' {
        'g'
    } else if c == 'H' {
        'h'
    } else if c == 'I' {
        'i'
    } else if c == 'J' {
        'j'
    } else if c == 'K' {
        'k'
    } else if c == 'L' {
        'l'
    } else if c == 'M' {
        'm'
    } else if c == 'N' {
        'n'
    } else if c == 'O' {
        'o'
    } else if c == 'P' {
        'p'
    } else if c == 'Q' {
        'q'
    } else if c == 'R' {
        'r'
    } else if c == 'S' {
        's'
    } else if c == 'T' {
        't'
    } else if c == 'U' {
        'u'
    } else if c == 'V' {
        'v'
    } else if c == 'W' {
        'w'
    } else if c == 'X' {
        'x'
    } else if c == 'Y' {
        'y'
    } else if c == 'Z' {
        'z'
    } else {
        c
    }
}

/// The line as the selector sees it: trimmed, then lower-cased.
pub open spec fn normalize(s: Seq<char>) -> Seq<char> {
    trim_back(trim_front(s)).map_values(|c: char| to_lower(c))
}

/// Which branch a line of input selects: `1`, `o` and `original` pick the
/// original game; `2`, `m`, `mod` and `modded` pick the modded one.
pub open spec fn choice_of(line: Seq<char>) -> Option<Choice> {
    let n = normalize(line);
    if n == "1"@ || n == "o"@ || n == "original"@ {
        Some(Choice::Original)
    } else if n == "2"@ || n == "m"@ || n == "mod"@ || n == "modded"@ {
        Some(Choice::Modded)
    } else {
        None
    }
}

fn to_lower_char(c: char) -> (r: char)
    ensures
        r == to_lower(c),
{
    match c {
        'A' => 'a',
        'B' => 'b',
        'C' => 'c',
        'D' => 'd',
        'E' => 'e',
        'F' => 'f',
        'G' => 'g',
        'H' => 'h',
        'I' => 'i',
        'J' => 'j',
        'K' => 'k',
        'L' => 'l',
        'M' => 'm',
        'N' => 'n',
        'O' => 'o',
        'P' => 'p',
        'Q' => 'q',
        'R' => 'r',
        'S' => 's',
        'T' => 't',
        'U' => 'u',
        'V' => 'v',
        'W' => 'w',
        'X' => 'x',
        'Y' => 'y',
        'Z' => 'z',
        _ => c,
    }
}

fn is_space_char(c: char) -> (r: bool)
    ensures
        r == is_space(c),
{
    c == ' ' || c == '\t' || c == '\r' || c == '\n'
}

/// Where the trimmed region of `s` lies: `trim_back(trim_front(s@))` is
/// exactly `s@.subrange(r.0, r.1)`.
fn trim_bounds(s: &str) -> (r: (usize, usize))
    ensures
        r.0 <= r.1 <= s@.len(),
        trim_back(trim_front(s@)) == s@.subrange(r.0 as int, r.1 as int),
{
    let n: usize = s.unicode_len();
    proof {
        assert(s@.skip(0) =~= s@);
    }
    let mut start: usize = 0;
    while start < n && is_space_char(s.get_char(start))
        invariant
            start <= n,
            n == s@.len(),
            trim_front(s@) == trim_front(s@.skip(start as int)),
        decreases n - start,
    {
        proof {
            let t = s@.skip(start as int);
            assert(is_space(t[0]));
            assert(t.subrange(1, t.len() as int) =~= s@.skip(start + 1));
        }
        start = start + 1;
    }
    proof {
        let t = s@.skip(start as int);
        if start < n {
            assert(!is_space(t[0]));
        }
        assert(trim_front(t) == t);
    }
    let mut end: usize = n;
    while end > start && is_space_char(s.get_char(end - 1))
        invariant
            start <= end <= n,
            n == s@.len(),
            trim_front(s@) == s@.skip(start as int),
            trim_back(s@.skip(start as int)) == trim_back(s@.subrange(start as int, end as int)),
        decreases end,
    {
        proof {
            let u = s@.subrange(start as int, end as int);
            assert(is_space(u[u.len() - 1]));
            assert(u.subrange(0, u.len() - 1) =~= s@.subrange(start as int, end - 1));
        }
        end = end - 1;
    }
    proof {
        let u = s@.subrange(start as int, end as int);
        if end > start {
            assert(!is_space(u[u.len() - 1]));
        }
        assert(trim_back(u) == u);
        assert(s@.skip(start as int) =~= s@.subrange(start as int, n as int));
    }
    (start, end)
}

/// Compares the lower-cased region `s[start..end]` with `tok`.
fn region_eq_lower(s: &str, start: usize, end: usize, tok: &str) -> (r: bool)
    requires
        start <= end <= s@.len(),
    ensures
        r == (s@.subrange(start as int, end as int).map_values(|c: char| to_lower(c)) == tok@),
{
    let ghost u = s@.subrange(start as int, end as int);
    let ghost w = u.map_values(|c: char| to_lower(c));
    let m: usize = tok.unicode_len();
    if end - start != m {
        proof {
            assert(w.len() != tok@.len());
        }
        return false;
    }
    let mut j: usize = 0;
    while j < m
        invariant
            j <= m,
            m == tok@.len(),
            start + m == end,
            end <= s@.len(),
            u == s@.subrange(start as int, end as int),
            w == u.map_values(|c: char| to_lower(c)),
            forall|k: int| 0 <= k < j ==> w[k] == tok@[k],
        decreases m - j,
    {
        let c = to_lower_char(s.get_char(start + j));
        if c != tok.get_char(j) {
            proof {
                assert(u[j as int] == s@[start + j]);
                assert(w[j as int] == to_lower(u[j as int]));
            }
            return false;
        }
        proof {
            assert(u[j as int] == s@[start + j]);
            assert(w[j as int] == to_lower(u[j as int]));
        }
        j = j + 1;
    }
    proof {
        assert(w =~= tok@);
    }
    true
}

/// Maps one read line to a branch, or to nothing when the input is not a
/// recognized token and the prompt must repeat.
pub fn interpret_input(line: &str) -> (r: Option<Choice>)
    ensures
        r == choice_of(line@),
{
    let (start, end) = trim_bounds(line);
    if region_eq_lower(line, start, end, "1") || region_eq_lower(line, start, end, "o")
        || region_eq_lower(line, start, end, "original") {
        Some(Choice::Original)
    } else if region_eq_lower(line, start, end, "2") || region_eq_lower(line, start, end, "m")
        || region_eq_lower(line, start, end, "mod") || region_eq_lower(line, start, end, "modded") {
        Some(Choice::Modded)
    } else {
        None
    }
}

/// The selector loop over a whole input sequence: the first recognized line
/// wins, every line before it having been rejected; with no recognized line
/// the loop never selects.
pub fn select_from_lines(lines: &Vec<String>) -> (r: Option<(usize, Choice)>)
    ensures
        match r {
            Some(p) => p.0 < lines@.len() && choice_of(lines@[p.0 as int]@) == Some(p.1)
                && (forall|j: int| 0 <= j < p.0 ==> choice_of(lines@[j]@) is None),
            None => forall|j: int| 0 <= j < lines@.len() ==> choice_of(lines@[j]@) is None,
        },
{
    let n = lines.len();
    let mut i: usize = 0;
    while i < n
        invariant
            i <= n,
            n == lines@.len(),
            forall|j: int| 0 <= j < i ==> choice_of(lines@[j]@) is None,
        decreases n - i,
    {
        match interpret_input(lines[i].as_str()) {
            Some(c) => {
                return Some((i, c));
            },
            None => {},
        }
        i = i + 1;
    }
    None
}

} // verus!
