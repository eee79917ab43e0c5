//! The configuration store: three filesystem paths kept in a small text file,
//! one `key = "value"` line per path, with backslashes doubled inside the
//! quotes.  Rendering and parsing are exact inverses of each other on
//! well-formed values, which is proved below.

use vstd::prelude::*;

verus! {

/// The three paths the launcher needs: where the mod payload files live,
/// where the game is installed, and which executable starts a modded session.
#[derive(Debug, Clone)]
pub struct AppConfig {
    pub mods_folder: String,
    pub game_folder: String,
    pub modded_launcher: String,
}

/// A character that may appear in a stored value.  A quote would end the
/// value early and a line break would end the line, so neither can be
/// represented by the file format; backslashes are fine (they are escaped).
pub open spec fn value_char_ok(c: char) -> bool {
    c != '"' && c != '\n'
}

/// A value the file format can represent.
pub open spec fn value_ok(s: Seq<char>) -> bool {
    forall|i: int| 0 <= i < s.len() ==> value_char_ok(s[i])
}

pub open spec fn config_ok(c: AppConfig) -> bool {
    value_ok(c.mods_folder@) && value_ok(c.game_folder@) && value_ok(c.modded_launcher@)
}

/// How one character is written inside the quotes: backslashes are doubled.
pub open spec fn escape_char(c: char) -> Seq<char> {
    if c == '\\' {
        seq!['\\', '\\']
    } else {
        seq![c]
    }
}

/// How a whole value is written inside the quotes.
pub open spec fn escape_value(s: Seq<char>) -> Seq<char>
    decreases s.len(),
{
    if s.len() == 0 {
        Seq::empty()
    } else {
        escape_char(s[0]) + escape_value(s.subrange(1, s.len() as int))
    }
}

/// The text before the first value.
pub open spec fn lit_mods() -> Seq<char> {
    "mods_folder = \""@
}

/// The text between the first and the second value: the closing line break
/// and the second key.
pub open spec fn lit_game() -> Seq<char> {
    "\ngame_folder = \""@
}

/// The text between the second and the third value.
pub open spec fn lit_launcher() -> Seq<char> {
    "\nmodded_launcher = \""@
}

/// The whole file for the three given values.
pub open spec fn render_spec(m: Seq<char>, g: Seq<char>, l: Seq<char>) -> Seq<char> {
    lit_mods() + escape_value(m) + "\""@ + lit_game() + escape_value(g) + "\""@ + lit_launcher()
        + escape_value(l) + "\""@ + "\n"@
}

pub proof fn lemma_escape_value_add(a: Seq<char>, b: Seq<char>)
    ensures
        escape_value(a + b) == escape_value(a) + escape_value(b),
    decreases a.len(),
{
    if a.len() == 0 {
        assert(a + b =~= b);
        assert(escape_value(a) + escape_value(b) =~= escape_value(b));
    } else {
        let t = a.subrange(1, a.len() as int);
        assert((a + b).subrange(1, (a + b).len() as int) =~= t + b);
        lemma_escape_value_add(t, b);
        assert((a + b)[0] == a[0]);
        assert(escape_char(a[0]) + (escape_value(t) + escape_value(b)) =~= (escape_char(a[0])
            + escape_value(t)) + escape_value(b));
    }
}

pub proof fn lemma_escape_value_push(s: Seq<char>, c: char)
    ensures
        escape_value(s.push(c)) == escape_value(s) + escape_char(c),
{
    assert(s.push(c) =~= s + seq![c]);
    lemma_escape_value_add(s, seq![c]);
    assert(seq![c].subrange(1, 1) =~= Seq::<char>::empty());
    assert(escape_value(Seq::<char>::empty()) =~= Seq::<char>::empty());
    assert(escape_value(seq![c]) =~= escape_char(c) + escape_value(seq![c].subrange(1, 1)));
    assert(escape_value(seq![c]) =~= escape_char(c));
}

/// Appends `escape_value(v@)` to `out`.
fn append_escaped(out: &mut String, v: &str)
    ensures
        final(out)@ == old(out)@ + escape_value(v@),
{
    let ghost orig: Seq<char> = out@;
    let n: usize = v.unicode_len();
    let mut i: usize = 0;
    while i < n
        invariant
            i <= n,
            n == v@.len(),
            out@ == orig + escape_value(v@.take(i as int)),
        decreases n - i,
    {
        let c = v.get_char(i);
        if c == '\\' {
            out.append("\\\\");
            proof {
                reveal_strlit("\\\\");
                assert(("\\\\")@ =~= escape_char(c));
            }
        } else {
            out.append(v.substring_char(i, i + 1));
            proof {
                assert(v@.subrange(i as int, i + 1) =~= seq![v@[i as int]]);
                assert(seq![v@[i as int]] =~= escape_char(c));
            }
        }
        proof {
            assert(v@.take(i + 1) =~= v@.take(i as int).push(v@[i as int]));
            lemma_escape_value_push(v@.take(i as int), v@[i as int]);
            assert(orig + (escape_value(v@.take(i as int)) + escape_char(v@[i as int])) =~= (orig
                + escape_value(v@.take(i as int))) + escape_char(v@[i as int]));
        }
        i = i + 1;
    }
    proof {
        assert(v@.take(n as int) =~= v@);
    }
}

/// Reads one quoted value: the text up to the first quote, with doubled
/// backslashes folded back into single ones.  Returns the value and what
/// follows the closing quote, or nothing if the text is not of that shape
/// (a stray single backslash, a line break inside the quotes, or no closing
/// quote at all).
pub open spec fn scan_value(s: Seq<char>) -> Option<(Seq<char>, Seq<char>)>
    decreases s.len(),
{
    if s.len() == 0 {
        None
    } else if s[0] == '"' {
        Some((Seq::empty(), s.subrange(1, s.len() as int)))
    } else if s[0] == '\n' {
        None
    } else if s[0] == '\\' {
        if s.len() >= 2 && s[1] == '\\' {
            match scan_value(s.subrange(2, s.len() as int)) {
                Some(p) => Some((seq!['\\'] + p.0, p.1)),
                None => None,
            }
        } else {
            None
        }
    } else {
        match scan_value(s.subrange(1, s.len() as int)) {
            Some(p) => Some((seq![s[0]] + p.0, p.1)),
            None => None,
        }
    }
}

pub open spec fn starts_with(s: Seq<char>, p: Seq<char>) -> bool {
    p.len() <= s.len() && s.subrange(0, p.len() as int) == p
}

/// The meaning of a config file: the three values, if the text is exactly a
/// rendering of some configuration, and nothing otherwise.
pub open spec fn parse_spec(s: Seq<char>) -> Option<(Seq<char>, Seq<char>, Seq<char>)> {
    if !starts_with(s, lit_mods()) {
        None
    } else {
        match scan_value(s.skip(lit_mods().len() as int)) {
            None => None,
            Some((m, r1)) => if !starts_with(r1, lit_game()) {
                None
            } else {
                match scan_value(r1.skip(lit_game().len() as int)) {
                    None => None,
                    Some((g, r2)) => if !starts_with(r2, lit_launcher()) {
                        None
                    } else {
                        match scan_value(r2.skip(lit_launcher().len() as int)) {
                            None => None,
                            Some((l, r3)) => if r3 == "\n"@ {
                                Some((m, g, l))
                            } else {
                                None
                            },
                        }
                    },
                }
            },
        }
    }
}

/// Checks that `lit` stands at position `pos` of `s` and steps over it.
fn eat_literal(s: &str, pos: usize, n: usize, lit: &str) -> (r: Option<usize>)
    requires
        n == s@.len(),
        pos <= n,
    ensures
        match r {
            Some(p) => pos <= p <= n && p == pos + lit@.len() && starts_with(
                s@.skip(pos as int),
                lit@,
            ),
            None => !starts_with(s@.skip(pos as int), lit@),
        },
{
    let m: usize = lit.unicode_len();
    if n - pos < m {
        return None;
    }
    let mut j: usize = 0;
    while j < m
        invariant
            j <= m,
            m == lit@.len(),
            n == s@.len(),
            pos + m <= n,
            forall|k: int| 0 <= k < j ==> s@[pos + k] == lit@[k],
        decreases m - j,
    {
        if s.get_char(pos + j) != lit.get_char(j) {
            proof {
                assert(s@.skip(pos as int).subrange(0, m as int)[j as int] == s@[pos + j]);
            }
            return None;
        }
        j = j + 1;
    }
    proof {
        assert(s@.skip(pos as int).subrange(0, m as int) =~= lit@);
    }
    Some(pos + m)
}

/// Reads one quoted value of `s` starting at `start`, as `scan_value` does
/// on the suffix.
fn scan_value_at(s: &str, start: usize, n: usize) -> (r: Option<(String, usize)>)
    requires
        n == s@.len(),
        start <= n,
    ensures
        match r {
            Some(p) => start < p.1 <= n && scan_value(s@.skip(start as int)) == Some(
                (p.0@, s@.skip(p.1 as int)),
            ),
            None => scan_value(s@.skip(start as int)) is None,
        },
{
    let mut pos: usize = start;
    let mut acc = String::new();
    loop
        invariant
            start <= pos <= n,
            n == s@.len(),
            match scan_value(s@.skip(pos as int)) {
                Some(p) => scan_value(s@.skip(start as int)) == Some::<(Seq<char>, Seq<char>)>(
                    (acc@ + p.0, p.1),
                ),
                None => scan_value(s@.skip(start as int)) is None,
            },
        decreases n - pos,
    {
        let ghost t = s@.skip(pos as int);
        if pos == n {
            proof {
                assert(t.len() == 0);
            }
            return None;
        }
        let c = s.get_char(pos);
        proof {
            assert(t[0] == s@[pos as int]);
        }
        if c == '"' {
            proof {
                assert(t.subrange(1, t.len() as int) =~= s@.skip(pos + 1));
                assert(scan_value(t) == Some::<(Seq<char>, Seq<char>)>(
                    (Seq::empty(), s@.skip(pos + 1)),
                ));
                assert(acc@ + Seq::<char>::empty() =~= acc@);
            }
            return Some((acc, pos + 1));
        }
        if c == '\n' {
            return None;
        }
        if c == '\\' {
            if pos + 1 < n && s.get_char(pos + 1) == '\\' {
                proof {
                    assert(t[1] == s@[pos + 1]);
                    assert(t.subrange(2, t.len() as int) =~= s@.skip(pos + 2));
                }
                let ghost acc0 = acc@;
                acc.append("\\");
                proof {
                    reveal_strlit("\\");
                    assert(("\\")@ =~= seq!['\\']);
                    match scan_value(s@.skip(pos + 2)) {
                        Some(p) => {
                            assert(scan_value(t) == Some::<(Seq<char>, Seq<char>)>(
                                (seq!['\\'] + p.0, p.1),
                            ));
                            assert(acc@ + p.0 =~= acc0 + (seq!['\\'] + p.0));
                        },
                        None => {},
                    }
                }
                pos = pos + 2;
            } else {
                proof {
                    if t.len() >= 2 {
                        assert(t[1] == s@[pos + 1]);
                    }
                }
                return None;
            }
        } else {
            let ghost acc0 = acc@;
            acc.append(s.substring_char(pos, pos + 1));
            proof {
                assert(s@.subrange(pos as int, pos + 1) =~= seq![s@[pos as int]]);
                assert(t.subrange(1, t.len() as int) =~= s@.skip(pos + 1));
                match scan_value(s@.skip(pos + 1)) {
                    Some(p) => {
                        assert(scan_value(t) == Some::<(Seq<char>, Seq<char>)>(
                            (seq![t[0]] + p.0, p.1),
                        ));
                        assert(acc@ + p.0 =~= acc0 + (seq![t[0]] + p.0));
                    },
                    None => {},
                }
            }
            pos = pos + 1;
        }
    }
}

impl AppConfig {
    /// Serializes the configuration in the on-disk form: one `key = "value"`
    /// line per field, backslashes doubled.
    pub fn render(&self) -> (r: String)
        ensures
            r@ == render_spec(self.mods_folder@, self.game_folder@, self.modded_launcher@),
    {
        let mut out = String::new();
        out.append("mods_folder = \"");
        append_escaped(&mut out, self.mods_folder.as_str());
        out.append("\"");
        out.append("\ngame_folder = \"");
        append_escaped(&mut out, self.game_folder.as_str());
        out.append("\"");
        out.append("\nmodded_launcher = \"");
        append_escaped(&mut out, self.modded_launcher.as_str());
        out.append("\"");
        out.append("\n");
        proof {
            assert(out@ =~= render_spec(
                self.mods_folder@,
                self.game_folder@,
                self.modded_launcher@,
            ));
        }
        out
    }

    /// Parses a config file: returns the configuration whose rendering the
    /// text is, and nothing if the text is not such a rendering.
    pub fn parse(s: &str) -> (r: Option<AppConfig>)
        ensures
            match r {
                Some(c) => parse_spec(s@) == Some(
                    (c.mods_folder@, c.game_folder@, c.modded_launcher@),
                ),
                None => parse_spec(s@) is None,
            },
    {
        let n: usize = s.unicode_len();
        proof {
            assert(s@.skip(0) =~= s@);
        }
        let p0 = match eat_literal(s, 0, n, "mods_folder = \"") {
            Some(p) => p,
            None => {
                return None;
            },
        };
        let (m, p1) = match scan_value_at(s, p0, n) {
            Some(x) => x,
            None => {
                return None;
            },
        };
        let p2 = match eat_literal(s, p1, n, "\ngame_folder = \"") {
            Some(p) => p,
            None => {
                return None;
            },
        };
        proof {
            assert(s@.skip(p1 as int).skip(lit_game().len() as int) =~= s@.skip(p2 as int));
        }
        let (g, p3) = match scan_value_at(s, p2, n) {
            Some(x) => x,
            None => {
                return None;
            },
        };
        let p4 = match eat_literal(s, p3, n, "\nmodded_launcher = \"") {
            Some(p) => p,
            None => {
                return None;
            },
        };
        proof {
            assert(s@.skip(p3 as int).skip(lit_launcher().len() as int) =~= s@.skip(p4 as int));
        }
        let (l, p5) = match scan_value_at(s, p4, n) {
            Some(x) => x,
            None => {
                return None;
            },
        };
        let p6 = match eat_literal(s, p5, n, "\n") {
            Some(p) => p,
            None => {
                proof {
                    let r3 = s@.skip(p5 as int);
                    if r3 == ("\n")@ {
                        assert(r3.subrange(0, r3.len() as int) =~= r3);
                    }
                }
                return None;
            },
        };
        if p6 != n {
            proof {
                let r3 = s@.skip(p5 as int);
                assert(r3.len() == n - p5);
                assert(("\n")@.len() == p6 - p5);
            }
            return None;
        }
        proof {
            let r3 = s@.skip(p5 as int);
            assert(r3.len() == ("\n")@.len());
            assert(r3.subrange(0, ("\n")@.len() as int) =~= r3);
        }
        Some(
            AppConfig {
                mods_folder: m,
                game_folder: g,
                modded_launcher: l,
            },
        )
    }
}

proof fn lemma_scan_escaped(v: Seq<char>, rest: Seq<char>)
    requires
        value_ok(v),
    ensures
        scan_value(escape_value(v) + seq!['"'] + rest) == Some((v, rest)),
    decreases v.len(),
{
    let s = escape_value(v) + seq!['"'] + rest;
    if v.len() == 0 {
        assert(s =~= seq!['"'] + rest);
        assert(s[0] == '"');
        assert(s.subrange(1, s.len() as int) =~= rest);
        assert(v =~= Seq::<char>::empty());
    } else {
        let c = v[0];
        let t = v.subrange(1, v.len() as int);
        assert(value_ok(t));
        assert(escape_value(v) == escape_char(c) + escape_value(t));
        if c == '\\' {
            assert(s[0] == '\\');
            assert(s[1] == '\\');
            assert(s.subrange(2, s.len() as int) =~= escape_value(t) + seq!['"'] + rest);
            lemma_scan_escaped(t, rest);
            assert(seq!['\\'] + t =~= v);
        } else {
            assert(value_char_ok(c));
            assert(s[0] == c);
            assert(s.subrange(1, s.len() as int) =~= escape_value(t) + seq!['"'] + rest);
            lemma_scan_escaped(t, rest);
            assert(seq![c] + t =~= v);
        }
    }
}

proof fn lemma_scan_inverse(s: Seq<char>)
    ensures
        scan_value(s) matches Some(p) ==> value_ok(p.0) && s == escape_value(p.0) + seq!['"']
            + p.1,
    decreases s.len(),
{
    if s.len() == 0 {
    } else if s[0] == '"' {
        let rest = s.subrange(1, s.len() as int);
        assert(escape_value(Seq::<char>::empty()) =~= Seq::<char>::empty());
        assert(s =~= escape_value(Seq::<char>::empty()) + seq!['"'] + rest);
    } else if s[0] == '\n' {
    } else if s[0] == '\\' {
        if s.len() >= 2 && s[1] == '\\' {
            let u = s.subrange(2, s.len() as int);
            lemma_scan_inverse(u);
            match scan_value(u) {
                Some(p) => {
                    let w = seq!['\\'] + p.0;
                    assert(value_ok(w)) by {
                        assert(forall|i: int|
                            0 <= i < w.len() ==> w[i] == (if i == 0 {
                                '\\'
                            } else {
                                p.0[i - 1]
                            }));
                    }
                    assert(escape_value(w) == escape_char('\\') + escape_value(p.0)) by {
                        assert(w[0] == '\\');
                        assert(w.subrange(1, w.len() as int) =~= p.0);
                    }
                    assert(s =~= seq!['\\', '\\'] + u);
                    assert(escape_value(w) + seq!['"'] + p.1 =~= seq!['\\', '\\'] + (escape_value(
                        p.0,
                    ) + seq!['"'] + p.1));
                    assert(s =~= escape_value(w) + seq!['"'] + p.1);
                },
                None => {},
            }
        }
    } else {
        let u = s.subrange(1, s.len() as int);
        lemma_scan_inverse(u);
        match scan_value(u) {
            Some(p) => {
                let w = seq![s[0]] + p.0;
                assert(value_ok(w)) by {
                    assert(forall|i: int|
                        0 <= i < w.len() ==> w[i] == (if i == 0 {
                            s[0]
                        } else {
                            p.0[i - 1]
                        }));
                }
                assert(escape_value(w) == escape_char(s[0]) + escape_value(p.0)) by {
                    assert(w[0] == s[0]);
                    assert(w.subrange(1, w.len() as int) =~= p.0);
                }
                assert(s =~= seq![s[0]] + u);
                assert(escape_value(w) + seq!['"'] + p.1 =~= seq![s[0]] + (escape_value(p.0)
                    + seq!['"'] + p.1));
                assert(s =~= escape_value(w) + seq!['"'] + p.1);
            },
            None => {},
        }
    }
}

/// Round trip, one direction: a rendered configuration always parses, and
/// parses back to the very values that were rendered.  With `render` and
/// `parse` tied to these spec functions, `Load` after `Save` yields the
/// configuration that was saved.
pub proof fn lemma_render_then_parse(m: Seq<char>, g: Seq<char>, l: Seq<char>)
    requires
        value_ok(m),
        value_ok(g),
        value_ok(l),
    ensures
        parse_spec(render_spec(m, g, l)) == Some((m, g, l)),
{
    let s = render_spec(m, g, l);
    reveal_strlit("\"");
    assert(("\"")@ =~= seq!['"']);
    let r1 = lit_game() + escape_value(g) + ("\"")@ + lit_launcher() + escape_value(l) + ("\"")@
        + ("\n")@;
    let r2 = lit_launcher() + escape_value(l) + ("\"")@ + ("\n")@;
    let r3 = ("\n")@;
    assert(s =~= lit_mods() + (escape_value(m) + seq!['"'] + (lit_game() + (escape_value(g)
        + seq!['"'] + (lit_launcher() + (escape_value(l) + seq!['"'] + r3))))));
    assert(s.subrange(0, lit_mods().len() as int) =~= lit_mods());
    assert(s.skip(lit_mods().len() as int) =~= escape_value(m) + seq!['"'] + (lit_game()
        + (escape_value(g) + seq!['"'] + (lit_launcher() + (escape_value(l) + seq!['"'] + r3)))));
    lemma_scan_escaped(m, lit_game() + (escape_value(g) + seq!['"'] + (lit_launcher() + (
    escape_value(l) + seq!['"'] + r3))));
    let t1 = lit_game() + (escape_value(g) + seq!['"'] + (lit_launcher() + (escape_value(l)
        + seq!['"'] + r3)));
    assert(t1.subrange(0, lit_game().len() as int) =~= lit_game());
    assert(t1.skip(lit_game().len() as int) =~= escape_value(g) + seq!['"'] + (lit_launcher() + (
    escape_value(l) + seq!['"'] + r3)));
    lemma_scan_escaped(g, lit_launcher() + (escape_value(l) + seq!['"'] + r3));
    let t2 = lit_launcher() + (escape_value(l) + seq!['"'] + r3);
    assert(t2.subrange(0, lit_launcher().len() as int) =~= lit_launcher());
    assert(t2.skip(lit_launcher().len() as int) =~= escape_value(l) + seq!['"'] + r3);
    lemma_scan_escaped(l, r3);
}

/// The round trip at the configuration level: a well-formed configuration,
/// saved and loaded again, is read back with exactly the fields it was
/// saved with.
pub proof fn lemma_config_round_trip(c: AppConfig)
    requires
        config_ok(c),
    ensures
        parse_spec(render_spec(c.mods_folder@, c.game_folder@, c.modded_launcher@)) == Some(
            (c.mods_folder@, c.game_folder@, c.modded_launcher@),
        ),
{
    lemma_render_then_parse(c.mods_folder@, c.game_folder@, c.modded_launcher@);
}

/// Round trip, the other direction: any text that parses is exactly the
/// rendering of what it parsed to, whose values are in turn well formed.
/// So a parsed file, saved again, is written back byte for byte.
pub proof fn lemma_parse_then_render(s: Seq<char>)
    ensures
        parse_spec(s) matches Some(t) ==> value_ok(t.0) && value_ok(t.1) && value_ok(t.2)
            && render_spec(t.0, t.1, t.2) == s,
{
    reveal_strlit("\"");
    assert(("\"")@ =~= seq!['"']);
    if parse_spec(s) is Some {
        let u1 = s.skip(lit_mods().len() as int);
        lemma_scan_inverse(u1);
        let (m, r1) = scan_value(u1)->Some_0;
        let u2 = r1.skip(lit_game().len() as int);
        lemma_scan_inverse(u2);
        let (g, r2) = scan_value(u2)->Some_0;
        let u3 = r2.skip(lit_launcher().len() as int);
        lemma_scan_inverse(u3);
        let (l, r3) = scan_value(u3)->Some_0;
        assert(s =~= s.subrange(0, lit_mods().len() as int) + u1);
        assert(r1 =~= r1.subrange(0, lit_game().len() as int) + u2);
        assert(r2 =~= r2.subrange(0, lit_launcher().len() as int) + u3);
        assert(render_spec(m, g, l) =~= s);
    }
}

/// What `Load` found: a configuration, no file at all (the trigger for
/// interactive creation), or a file that did not parse.
pub enum LoadOutcome {
    Loaded(AppConfig),
    Missing,
    Corrupt,
}

/// Interprets what was (or was not) read from the config file.  The second
/// component says whether the file may stay on disk: a corrupt file never
/// survives a load, so it is `true` only when the text parsed.
pub fn load(file: Option<String>) -> (r: (LoadOutcome, bool))
    ensures
        match file {
            None => r.0 is Missing && r.1 == false,
            Some(s) => match parse_spec(s@) {
                Some(t) => (r.0 matches LoadOutcome::Loaded(c) && c.mods_folder@ == t.0
                    && c.game_folder@ == t.1 && c.modded_launcher@ == t.2) && r.1 == true,
                None => r.0 is Corrupt && r.1 == false,
            },
        },
        !(r.0 is Loaded) ==> r.1 == false,
{
    match file {
        None => (LoadOutcome::Missing, false),
        Some(s) => match AppConfig::parse(s.as_str()) {
            Some(c) => (LoadOutcome::Loaded(c), true),
            None => (LoadOutcome::Corrupt, false),
        },
    }
}

} // verus!
