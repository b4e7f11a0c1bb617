//! The command line: which commands there are, which of them run, and the
//! configuration file that records where the catalogue's database is.
//!
//! The configuration file is a sequence of lines. A line holding only white
//! space (in the Unicode sense of `str::trim`) is ignored; any other line
//! must be an entry `db_location: <path>` (white space around the key, the
//! colon and the path is ignored, and the path must not be empty). A later entry overrides an earlier one; anything else makes the
//! file unreadable.

pub mod init;
pub mod mount;
pub mod scan;

use vstd::prelude::*;

use crate::text::{chars_of, is_white_space, is_white_space_char, string_of};

verus! {

/// The reason a command could not run.
#[derive(Debug, PartialEq, Eq, Structural)]
pub enum CommandError {
    NoSuchCommand,
    BadConfigPush,
}

/// The commands of the command line.
#[derive(Debug)]
pub enum CommandManager {
    Init { dir: Option<String> },
    Scan { dir: Option<String> },
    Pull,
    AddTags,
    RmTags,
    RmImage,
    Mount { dir: Option<String> },
}

/// A command that runs, with its directory argument.
#[derive(Debug)]
pub enum CommandStep {
    Scan { dir: Option<String> },
    Init { dir: Option<String> },
}

impl CommandManager {
    /// The command to run for the command line's choice: `Scan` and `Init`
    /// run; no command, or any other command, is `NoSuchCommand`.
    pub fn parse_command(inp: Option<CommandManager>) -> (res: Result<CommandStep, CommandError>)
        ensures
            match inp {
                Some(CommandManager::Scan { dir }) => res matches Ok(CommandStep::Scan { dir: d })
                    && d == dir,
                Some(CommandManager::Init { dir }) => res matches Ok(CommandStep::Init { dir: d })
                    && d == dir,
                _ => res == Err::<CommandStep, CommandError>(CommandError::NoSuchCommand),
            },
    {
        match inp {
            Some(CommandManager::Scan { dir }) => Ok(CommandStep::Scan { dir }),
            Some(CommandManager::Init { dir }) => Ok(CommandStep::Init { dir }),
            None => Err(CommandError::NoSuchCommand),
            _ => Err(CommandError::NoSuchCommand),
        }
    }
}

/// What the configuration file records.
#[derive(Debug)]
pub struct ConfigData {
    pub db_location: Option<String>,
}

// ---------------------------------------------------------------------------
// The configuration file format
// ---------------------------------------------------------------------------

/// `s` without its leading white space.
pub open spec fn trim_start(s: Seq<char>) -> Seq<char>
    decreases s.len(),
{
    if s.len() > 0 && is_white_space(s[0]) {
        trim_start(s.drop_first())
    } else {
        s
    }
}

/// `s` without its trailing white space.
pub open spec fn trim_end(s: Seq<char>) -> Seq<char>
    decreases s.len(),
{
    if s.len() > 0 && is_white_space(s.last()) {
        trim_end(s.drop_last())
    } else {
        s
    }
}

/// `s` without its leading and trailing white space.
pub open spec fn trim(s: Seq<char>) -> Seq<char> {
    trim_end(trim_start(s))
}

/// The key of the one entry the file knows.
pub open spec fn config_key() -> Seq<char> {
    "db_location"@
}

/// What one line of the file says.
pub enum ConfigLine {
    Blank,
    Entry(Seq<char>),
    Bad,
}

pub open spec fn config_line(l: Seq<char>) -> ConfigLine {
    let t = trim(l);
    let k = config_key();
    if t.len() == 0 {
        ConfigLine::Blank
    } else if t.len() >= k.len() && t.take(k.len() as int) == k {
        let r = trim_start(t.skip(k.len() as int));
        if r.len() > 0 && r[0] == ':' {
            let v = trim(r.skip(1));
            if v.len() > 0 {
                ConfigLine::Entry(v)
            } else {
                ConfigLine::Bad
            }
        } else {
            ConfigLine::Bad
        }
    } else {
        ConfigLine::Bad
    }
}

/// The end of the line that starts at `i`: the next line feed, or the end.
pub open spec fn line_end(s: Seq<char>, i: int) -> int
    decreases s.len() - i,
{
    if 0 <= i < s.len() && s[i] != '\n' {
        line_end(s, i + 1)
    } else {
        i
    }
}

/// What the lines of `s` from position `i` on record, given that the lines
/// before record `cur`; `None` where a line is neither blank nor an entry.
pub open spec fn config_from(s: Seq<char>, i: int, cur: Option<Seq<char>>) -> Option<
    Option<Seq<char>>,
>
    decreases s.len() - i + 1,
{
    if i < 0 || i > s.len() {
        Some(cur)
    } else {
        let e: int = line_end(s, i);
        if e < i || e > s.len() {
            None
        } else {
            match config_line(s.subrange(i, e)) {
                ConfigLine::Blank => config_from(s, e + 1, cur),
                ConfigLine::Entry(v) => config_from(s, e + 1, Some(v)),
                ConfigLine::Bad => None,
            }
        }
    }
}

/// The database location that a configuration text records (`Some(None)`
/// where it records none), or `None` where the text is not a configuration.
pub open spec fn config_of_text(s: Seq<char>) -> Option<Option<Seq<char>>> {
    config_from(s, 0, None)
}

/// The configuration text that records the database location `path`.
pub open spec fn config_text(path: Seq<char>) -> Seq<char> {
    "db_location: "@ + path
}

pub open spec fn opt_view(o: Option<String>) -> Option<Seq<char>> {
    match o {
        Some(s) => Some(s@),
        None => None,
    }
}

proof fn lemma_line_end_bounds(s: Seq<char>, i: int)
    requires
        0 <= i <= s.len(),
    ensures
        i <= line_end(s, i) <= s.len(),
        line_end(s, i) < s.len() ==> s[line_end(s, i)] == '\n',
        forall|k: int| i <= k < line_end(s, i) ==> s[k] != '\n',
    decreases s.len() - i,
{
    if i < s.len() && s[i] != '\n' {
        lemma_line_end_bounds(s, i + 1);
    }
}

/// The first position in `lo..hi` that does not hold white space (`hi` if
/// none).
fn skip_white_space(cs: &Vec<char>, lo: usize, hi: usize) -> (a: usize)
    requires
        lo <= hi <= cs.len(),
    ensures
        lo <= a <= hi,
        trim_start(cs@.subrange(lo as int, hi as int)) == cs@.subrange(a as int, hi as int),
{
    let mut a: usize = lo;
    while a < hi && is_white_space_char(cs[a])
        invariant
            lo <= a <= hi <= cs.len(),
            trim_start(cs@.subrange(lo as int, hi as int)) == trim_start(
                cs@.subrange(a as int, hi as int),
            ),
        decreases hi - a,
    {
        assert(cs@.subrange(a as int, hi as int).drop_first() =~= cs@.subrange(a + 1, hi as int));
        a = a + 1;
    }
    a
}

/// The end of `lo..hi` without its trailing white space.
fn drop_trailing_white_space(cs: &Vec<char>, lo: usize, hi: usize) -> (b: usize)
    requires
        lo <= hi <= cs.len(),
    ensures
        lo <= b <= hi,
        trim_end(cs@.subrange(lo as int, hi as int)) == cs@.subrange(lo as int, b as int),
        b > lo ==> !is_white_space(cs@[b - 1]),
{
    let mut b: usize = hi;
    while b > lo && is_white_space_char(cs[b - 1])
        invariant
            lo <= b <= hi <= cs.len(),
            trim_end(cs@.subrange(lo as int, hi as int)) == trim_end(
                cs@.subrange(lo as int, b as int),
            ),
        decreases b - lo,
    {
        assert(cs@.subrange(lo as int, b as int).drop_last() =~= cs@.subrange(lo as int, b - 1));
        b = b - 1;
    }
    b
}

/// What the line `cs[lo..hi]` says: `Ok(None)` for an empty line, `Ok(Some)`
/// for an entry, `Err` otherwise.
fn read_config_line(cs: &Vec<char>, key: &Vec<char>, lo: usize, hi: usize) -> (res: Result<
    Option<String>,
    (),
>)
    requires
        lo <= hi <= cs.len(),
        key@ == config_key(),
    ensures
        match config_line(cs@.subrange(lo as int, hi as int)) {
            ConfigLine::Blank => res == Ok::<Option<String>, ()>(None),
            ConfigLine::Entry(v) => res matches Ok(Some(s)) && s@ == v,
            ConfigLine::Bad => res is Err,
        },
{
    let ghost l = cs@.subrange(lo as int, hi as int);
    let a: usize = skip_white_space(cs, lo, hi);
    let b: usize = drop_trailing_white_space(cs, a, hi);
    let ghost t = cs@.subrange(a as int, b as int);
    assert(trim(l) == t);
    if a == b {
        assert(t.len() == 0);
        return Ok(None);
    }
    let n: usize = key.len();
    if b - a < n {
        return Err(());
    }
    let mut k: usize = 0;
    while k < n
        invariant
            n == key.len(),
            k <= n,
            a + n <= b <= cs.len(),
            key@ == config_key(),
            t == cs@.subrange(a as int, b as int),
            trim(cs@.subrange(lo as int, hi as int)) == t,
            t.len() > 0,
            forall|m: int| 0 <= m < k ==> cs@[a + m] == key@[m],
        decreases n - k,
    {
        if cs[a + k] != key[k] {
            assert(t.take(n as int)[k as int] == cs@[a + k]);
            assert(t.take(n as int)[k as int] != config_key()[k as int]);
            return Err(());
        }
        k = k + 1;
    }
    assert(t.take(n as int) =~= config_key());
    let r: usize = skip_white_space(cs, a + n, b);
    assert(t.skip(n as int) =~= cs@.subrange(a + n, b as int));
    if r >= b || cs[r] != ':' {
        return Err(());
    }
    assert(trim_start(t.skip(n as int)).skip(1) =~= cs@.subrange(r + 1, b as int));
    let va: usize = skip_white_space(cs, r + 1, b);
    let vb: usize = drop_trailing_white_space(cs, va, b);
    if va == vb {
        return Err(());
    }
    Ok(Some(string_of(cs, va, vb)))
}

impl ConfigData {
    /// Reads a configuration text; `None` where it is not one.
    pub fn parse_config(text: &str) -> (res: Option<ConfigData>)
        ensures
            match config_of_text(text@) {
                Some(loc) => res matches Some(d) && opt_view(d.db_location) == loc,
                None => res is None,
            },
    {
        let cs = chars_of(text);
        let key = chars_of("db_location");
        let ghost s = cs@;
        let mut cur: Option<String> = None;
        let mut i: usize = 0;
        loop
            invariant
                s == cs@,
                s == text@,
                key@ == config_key(),
                i <= cs.len(),
                config_of_text(s) == config_from(s, i as int, opt_view(cur)),
            decreases cs.len() - i,
        {
            proof {
                lemma_line_end_bounds(s, i as int);
            }
            let mut e: usize = i;
            while e < cs.len() && cs[e] != '\n'
                invariant
                    s == cs@,
                    i <= e <= cs.len(),
                    line_end(s, i as int) == line_end(s, e as int),
                decreases cs.len() - e,
            {
                e = e + 1;
            }
            assert(line_end(s, e as int) == e);
            match read_config_line(&cs, &key, i, e) {
                Ok(None) => {},
                Ok(Some(v)) => {
                    cur = Some(v);
                },
                Err(()) => {
                    return None;
                },
            }
            if e == cs.len() {
                return Some(ConfigData { db_location: cur });
            }
            i = e + 1;
        }
    }

}

impl CommandManager {
    /// The configuration that the text of a configuration file records; the
    /// text must be a configuration (`ConfigData::parse_config` tells).
    pub fn get_config(file: &str) -> (res: ConfigData)
        requires
            config_of_text(file@) is Some,
        ensures
            config_of_text(file@) == Some(opt_view(res.db_location)),
    {
        match ConfigData::parse_config(file) {
            Some(d) => d,
            None => {
                assert(false);
                ConfigData { db_location: None }
            },
        }
    }

    /// The text of the configuration file that records `d`, which must
    /// record a database location.
    pub fn set_config(d: &ConfigData) -> (res: String)
        requires
            d.db_location is Some,
        ensures
            res@ == config_text(d.db_location.unwrap()@),
    {
        let mut res = String::new();
        res.append("db_location: ");
        match &d.db_location {
            Some(p) => res.append(p.as_str()),
            None => {},
        }
        res
    }
}

/// What `set_config` writes, `get_config` reads back: the configuration text
/// of a database location records exactly that location, for every location
/// that is not empty, holds no line feed, and neither starts nor ends with
/// white space.
pub proof fn lemma_config_text_read_back(path: Seq<char>)
    requires
        path.len() > 0,
        !is_white_space(path[0]),
        !is_white_space(path.last()),
        forall|i: int| 0 <= i < path.len() ==> path[i] != '\n',
    ensures
        config_of_text(config_text(path)) == Some(Some(path)),
{
    reveal_strlit("db_location: ");
    reveal_strlit("db_location");
    let s = config_text(path);
    let k = config_key();
    assert(s.len() == 13 + path.len());
    assert forall|i: int| 0 <= i < s.len() implies s[i] != '\n' by {
        if i >= 13 {
            assert(s[i] == path[i - 13]);
        }
    }
    lemma_line_end_bounds(s, 0);
    let e: int = line_end(s, 0);
    assert(e == s.len());
    assert(s.subrange(0, e) =~= s);
    assert(trim_start(s) == s);
    assert(s.last() == path.last());
    assert(trim_end(s) == s);
    let t = trim(s);
    assert(t == s);
    assert(t.take(11) =~= k);
    let r = t.skip(11);
    assert(r =~= seq![':', ' '] + path);
    assert(trim_start(r) == r);
    let r1 = r.skip(1);
    assert(r1 =~= seq![' '] + path);
    assert(r1.drop_first() =~= path);
    assert(trim_start(path) == path);
    assert(trim_start(r1) == path);
    assert(trim_end(path) == path);
    assert(trim(r1) == path);
    assert(config_line(s) == ConfigLine::Entry(path));
    assert(config_from(s, s.len() as int + 1, Some(path)) == Some(Some(path)));
    assert(config_from(s, 0, None) == config_from(s, e + 1, Some(path)));
}

} // verus!
