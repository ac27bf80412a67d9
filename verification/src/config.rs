//! Repository settings (`yukicoder.toml`), the problems found in a
//! repository, and where the API token comes from.
//!
//! The token is never taken from the command line; it comes from the
//! environment or from `.env`, so that it stays out of CI logs and process
//! listings.

use vstd::prelude::*;

use crate::text::{
    chars_of, decimal, has_prefix, i64_to_string, is_blank, lines, push_str, split_lines,
    string_of, trim, trim_str, views,
};

verus! {

pub const CONFIG_FILE: &'static str = "yukicoder.toml";
pub const DOTENV_FILE: &'static str = ".env";
pub const DEFAULT_BASE_URL: &'static str = "https://yukicoder.me/api";

/// `yukicoder.toml` at the root of the repository. The managed problems are
/// not listed here: they are found by their `problem.toml` files.
pub struct Config {
    /// Where the problem directories are; `problems` by default.
    pub problems_dir: String,
    /// The API's base URL; `https://yukicoder.me/api` by default.
    pub base_url: String,
}

pub fn default_problems_dir() -> (r: String)
    ensures
        r@ == "problems"@,
{
    "problems".to_string()
}

pub fn default_base_url() -> (r: String)
    ensures
        r@ == DEFAULT_BASE_URL@,
{
    DEFAULT_BASE_URL.to_string()
}

impl Config {
    pub fn default() -> (r: Config)
        ensures
            r.problems_dir@ == "problems"@,
            r.base_url@ == DEFAULT_BASE_URL@,
    {
        Config { problems_dir: default_problems_dir(), base_url: default_base_url() }
    }
}

/// A problem found in the repository.
#[derive(Debug, PartialEq, Eq)]
pub struct Problem {
    pub id: i64,
    pub dir: String,
    /// `false` when its `problem.toml` says `sync = false`: `--all` leaves it
    /// out (an explicit id still works on it).
    pub sync: bool,
}

/// The settings file and the directory it is in.
pub struct Repo {
    pub root: String,
    pub config: Config,
}

/// What went wrong with the repository's files or the token.
#[derive(Debug, PartialEq, Eq)]
pub enum ConfigError {
    /// Line `line` (from 1) of `.env` is not `KEY=VALUE`.
    DotenvLine { line: usize },
    /// `.env` is there but could not be read.
    DotenvUnreadable,
    /// No token under any of `keys`.
    NoToken { keys: Vec<String> },
    /// `problem.toml` has no `problemId` and the directory name is no number.
    MissingProblemId,
    /// Problem `id` is in both directories.
    Duplicate { id: i64, first: String, second: String },
    /// The default directory of a problem holds another problem.
    OtherProblemDir { dir: String, problem_id: i64 },
    /// `--all` and a problem id were both given.
    AllWithId,
    /// `--all` was given but `dir` holds no problem.
    NoProblems { dir: String },
    /// No problem id was given and the repository holds none.
    NoTarget,
    /// No problem id was given and the repository holds several.
    Ambiguous,
}

// ---------------------------------------------------------------------------
// Integers

/// The value of a sequence of decimal digits (0 for an empty one).
pub open spec fn digits_value(s: Seq<char>) -> nat
    decreases s.len(),
{
    if s.len() == 0 {
        0
    } else {
        digits_value(s.drop_last()) * 10 + digit_value(s.last())
    }
}

pub open spec fn is_digit(c: char) -> bool {
    '0' <= c && c <= '9'
}

pub open spec fn digit_value(c: char) -> nat {
    ((c as int) - ('0' as int)) as nat
}

pub open spec fn all_digits(s: Seq<char>) -> bool {
    forall|i: int| 0 <= i < s.len() ==> is_digit(#[trigger] s[i])
}

/// `i64::from_str`: an optional sign, then at least one digit, in range.
pub open spec fn parse_i64_spec(s: Seq<char>) -> Option<i64> {
    let neg = s.len() > 0 && s[0] == '-';
    let signed = s.len() > 0 && (s[0] == '-' || s[0] == '+');
    let ds = if signed {
        s.drop_first()
    } else {
        s
    };
    if ds.len() == 0 || !all_digits(ds) {
        None
    } else if neg {
        if digits_value(ds) <= 9223372036854775808 {
            Some((-digits_value(ds)) as i64)
        } else {
            None
        }
    } else if digits_value(ds) <= 9223372036854775807 {
        Some(digits_value(ds) as i64)
    } else {
        None
    }
}

proof fn lemma_digits_next(pre: Seq<char>, next: Seq<char>, d: int)
    requires
        next.len() > 0,
        next.drop_last() == pre,
        d == digit_value(next.last()),
    ensures
        digits_value(next) == digits_value(pre) * 10 + d,
        digits_value(pre) > 9223372036854775808 ==> digits_value(next) > 9223372036854775808,
{
    let v = digits_value(pre);
    assert(v > 9223372036854775808 ==> v * 10 + d > 9223372036854775808) by (nonlinear_arith)
        requires
            d >= 0,
    ;
}

/// `s.parse::<i64>()`.
#[verifier::rlimit(40)]
pub fn parse_i64(s: &str) -> (r: Option<i64>)
    ensures
        r == parse_i64_spec(s@),
{
    let cs = chars_of(s);
    let n = cs.len();
    let neg = n > 0 && cs[0] == '-';
    let signed = n > 0 && (cs[0] == '-' || cs[0] == '+');
    let start: usize = if signed { 1 } else { 0 };
    let ghost ds = if signed { s@.drop_first() } else { s@ };
    assert(ds == cs@.subrange(start as int, n as int));
    if start >= n {
        return None;
    }
    let mut mag: u128 = 0;
    let mut over = false;
    let mut i: usize = start;
    while i < n
        invariant
            start <= i <= n,
            n == cs.len(),
            cs@ == s@,
            signed == (s@.len() > 0 && (s@[0] == '-' || s@[0] == '+')),
            ds == (if signed {
                s@.drop_first()
            } else {
                s@
            }),
            ds == cs@.subrange(start as int, n as int),
            !over ==> mag == digits_value(ds.subrange(0, i - start)),
            over ==> digits_value(ds.subrange(0, i - start)) > 9223372036854775808,
            mag <= 9223372036854775808,
            forall|k: int| 0 <= k < i - start ==> is_digit(#[trigger] ds[k]),
        decreases n - i,
    {
        let c = cs[i];
        if !('0' <= c && c <= '9') {
            assert(ds[i - start] == c);
            assert(!is_digit(ds[i - start]));
            assert(!all_digits(ds));
            return None;
        }
        let d: u128 = if c == '0' {
            0
        } else if c == '1' {
            1
        } else if c == '2' {
            2
        } else if c == '3' {
            3
        } else if c == '4' {
            4
        } else if c == '5' {
            5
        } else if c == '6' {
            6
        } else if c == '7' {
            7
        } else if c == '8' {
            8
        } else {
            9
        };
        assert(d == digit_value(c));
        let ghost pre = ds.subrange(0, i - start);
        let ghost next = ds.subrange(0, i + 1 - start);
        assert(next.drop_last() == pre);
        assert(next.last() == c);
        proof {
            lemma_digits_next(pre, next, d as int);
        }
        if !over {
            let m = mag * 10 + d;
            if m > 9223372036854775808 {
                over = true;
            } else {
                mag = m;
            }
        }
        i = i + 1;
    }
    assert(ds.subrange(0, n - start) == ds);
    assert(all_digits(ds));
    if over {
        None
    } else if neg {
        if mag == 9223372036854775808 {
            Some(i64::MIN)
        } else {
            Some(-(mag as i64))
        }
    } else if mag <= 9223372036854775807 {
        Some(mag as i64)
    } else {
        None
    }
}


// ---------------------------------------------------------------------------
// .env

/// The first position of `c` in `s` at or after `i`.
pub open spec fn index_from(s: Seq<char>, c: char, i: int) -> Option<int>
    decreases s.len() - i,
{
    if i < 0 || i >= s.len() {
        None
    } else if s[i] == c {
        Some(i)
    } else {
        index_from(s, c, i + 1)
    }
}

/// A value without one pair of enclosing `"` or `'`.
pub open spec fn unquote(v: Seq<char>) -> Seq<char> {
    if v.len() >= 2 && v[0] == '"' && v.last() == '"' {
        v.subrange(1, v.len() - 1)
    } else if v.len() >= 2 && v[0] == '\'' && v.last() == '\'' {
        v.subrange(1, v.len() - 1)
    } else {
        v
    }
}

/// What a line of `.env` says: `Some(None)` for a blank or comment line,
/// `Some(Some((key, value)))` for `KEY=VALUE` (with an optional `export `),
/// `None` for anything else.
pub open spec fn dotenv_line(raw: Seq<char>) -> Option<Option<(Seq<char>, Seq<char>)>> {
    let line = trim(raw);
    if line.len() == 0 || line[0] == '#' {
        Some(None)
    } else {
        let l = if has_prefix(line, "export "@) {
            line.subrange("export "@.len() as int, line.len() as int)
        } else {
            line
        };
        match index_from(l, '=', 0) {
            None => None,
            Some(k) => Some(
                Some((trim(l.subrange(0, k)), unquote(trim(l.subrange(k + 1, l.len() as int))))),
            ),
        }
    }
}

/// The entries of the lines from number `i` on, or the number (from 1) of the
/// first line that is not `KEY=VALUE`.
pub open spec fn dotenv_from(ls: Seq<Seq<char>>, i: int) -> Result<Seq<(Seq<char>, Seq<char>)>, int>
    decreases ls.len() - i,
{
    if i < 0 || i >= ls.len() {
        Ok(seq![])
    } else {
        match dotenv_line(ls[i]) {
            None => Err(i + 1),
            Some(None) => dotenv_from(ls, i + 1),
            Some(Some(kv)) => match dotenv_from(ls, i + 1) {
                Ok(rest) => Ok(seq![kv] + rest),
                Err(n) => Err(n),
            },
        }
    }
}

/// The entries of a `.env` text, in order, or the first bad line number.
pub open spec fn dotenv_spec(text: Seq<char>) -> Result<Seq<(Seq<char>, Seq<char>)>, int> {
    dotenv_from(lines(text), 0)
}

/// The views of key / value pairs.
pub open spec fn kv_views(v: Seq<(String, String)>) -> Seq<(Seq<char>, Seq<char>)> {
    Seq::new(v.len(), |i: int| (v[i].0@, v[i].1@))
}

fn first_index(cs: &Vec<char>, c: char) -> (r: Option<usize>)
    ensures
        match r {
            Some(k) => k < cs@.len() && index_from(cs@, c, 0) == Some(k as int),
            None => index_from(cs@, c, 0) is None,
        },
{
    let mut i: usize = 0;
    while i < cs.len()
        invariant
            i <= cs.len(),
            index_from(cs@, c, 0) == index_from(cs@, c, i as int),
        decreases cs.len() - i,
    {
        if cs[i] == c {
            return Some(i);
        }
        i = i + 1;
    }
    None
}

fn slice_chars(cs: &Vec<char>, a: usize, b: usize) -> (r: String)
    requires
        a <= b <= cs.len(),
    ensures
        r@ == cs@.subrange(a as int, b as int),
{
    let mut out: Vec<char> = Vec::new();
    let mut i = a;
    while i < b
        invariant
            a <= i <= b <= cs.len(),
            out@ == cs@.subrange(a as int, i as int),
        decreases b - i,
    {
        out.push(cs[i]);
        i = i + 1;
    }
    string_of(&out)
}

fn unquote_str(v: &str) -> (r: String)
    ensures
        r@ == unquote(v@),
{
    let cs = chars_of(v);
    let n = cs.len();
    if n >= 2 && cs[0] == '"' && cs[n - 1] == '"' {
        slice_chars(&cs, 1, n - 1)
    } else if n >= 2 && cs[0] == '\'' && cs[n - 1] == '\'' {
        slice_chars(&cs, 1, n - 1)
    } else {
        string_of(&cs)
    }
}

/// Reads one line of `.env` (see [`dotenv_line`]).
pub fn parse_dotenv_line(raw: &str) -> (r: Result<Option<(String, String)>, ()>)
    ensures
        match dotenv_line(raw@) {
            None => r is Err,
            Some(None) => r == Ok::<Option<(String, String)>, ()>(None),
            Some(Some(kv)) => r matches Ok(Some(p)) && p.0@ == kv.0 && p.1@ == kv.1,
        },
{
    let line = trim_str(raw);
    let cs = chars_of(line.as_str());
    if cs.len() == 0 || cs[0] == '#' {
        return Ok(None);
    }
    let prefix = chars_of("export ");
    proof {
        reveal_strlit("export ");
    }
    let l: Vec<char> = if crate::text::starts_with(line.as_str(), "export ") {
        let s = slice_chars(&cs, prefix.len(), cs.len());
        chars_of(s.as_str())
    } else {
        cs
    };
    match first_index(&l, '=') {
        None => Err(()),
        Some(k) => {
            let key = slice_chars(&l, 0, k);
            let value = slice_chars(&l, k + 1, l.len());
            let key = trim_str(key.as_str());
            let value = trim_str(value.as_str());
            Ok(Some((key, unquote_str(value.as_str()))))
        },
    }
}

/// Reads `.env` in a minimal format: blank lines and lines starting with `#`
/// are skipped, `export ` before a key is allowed, spaces around keys and
/// values are dropped and so is one pair of quotes around a value. The first
/// line of another shape is reported by its number (from 1).
pub fn parse_dotenv(text: &str) -> (r: Result<Vec<(String, String)>, ConfigError>)
    ensures
        match dotenv_spec(text@) {
            Ok(entries) => r matches Ok(v) && kv_views(v@) == entries,
            Err(n) => r matches Err(e) && e == (ConfigError::DotenvLine { line: n as usize }),
        },
{
    let ls = split_lines(text);
    let ghost lv = lines(text@);
    let mut out: Vec<(String, String)> = Vec::new();
    let mut i: usize = 0;
    while i < ls.len()
        invariant
            i <= ls.len(),
            ls@.len() == lv.len(),
            lv == lines(text@),
            forall|k: int| 0 <= k < ls@.len() ==> #[trigger] ls@[k]@ == lv[k],
            match dotenv_from(lv, i as int) {
                Ok(rest) => dotenv_spec(text@) == Ok::<Seq<(Seq<char>, Seq<char>)>, int>(
                    kv_views(out@) + rest,
                ),
                Err(n) => dotenv_spec(text@) == Err::<Seq<(Seq<char>, Seq<char>)>, int>(n),
            },
        decreases ls.len() - i,
    {
        match parse_dotenv_line(ls[i].as_str()) {
            Err(()) => {
                return Err(ConfigError::DotenvLine { line: i + 1 });
            },
            Ok(None) => {},
            Ok(Some(kv)) => {
                let ghost before = kv_views(out@);
                out.push(kv);
                proof {
                    assert(kv_views(out@) == before.push((kv.0@, kv.1@)));
                    match dotenv_from(lv, i + 1) {
                        Ok(rest) => {
                            assert(before + (seq![(kv.0@, kv.1@)] + rest) == before.push(
                                (kv.0@, kv.1@),
                            ) + rest);
                        },
                        Err(_) => {},
                    }
                }
            },
        }
        i = i + 1;
    }
    assert(kv_views(out@) + seq![] == kv_views(out@));
    Ok(out)
}

/// The value `entries` gives `key`: the last entry for it wins, as when the
/// entries are inserted into a map one after the other.
pub open spec fn lookup(entries: Seq<(Seq<char>, Seq<char>)>, key: Seq<char>) -> Option<Seq<char>>
    decreases entries.len(),
{
    if entries.len() == 0 {
        None
    } else if entries.last().0 == key {
        Some(entries.last().1)
    } else {
        lookup(entries.drop_last(), key)
    }
}

/// The value of `key` in the entries read from `.env`.
pub fn dotenv_get(entries: &Vec<(String, String)>, key: &str) -> (r: Option<String>)
    ensures
        match lookup(kv_views(entries@), key@) {
            Some(v) => r matches Some(s) && s@ == v,
            None => r is None,
        },
{
    let mut i: usize = entries.len();
    assert(entries@.subrange(0, i as int) == entries@);
    while i > 0
        invariant
            i <= entries.len(),
            lookup(kv_views(entries@), key@) == lookup(kv_views(entries@.subrange(0, i as int)), key@),
        decreases i,
    {
        let ghost pre = kv_views(entries@.subrange(0, i as int));
        assert(pre.drop_last() == kv_views(entries@.subrange(0, i - 1)));
        if crate::text::str_eq(entries[i - 1].0.as_str(), key) {
            return Some(entries[i - 1].1.clone());
        }
        i = i - 1;
    }
    None
}

// ---------------------------------------------------------------------------
// Token

/// The keys a token is looked up under, in order: the problem's own edit
/// token, the shared token, the account's API key.
pub open spec fn token_keys_spec(problem_id: i64) -> Seq<Seq<char>> {
    seq!["YUKICODER_TOKEN_"@ + decimal(problem_id as int), "YUKICODER_TOKEN"@, "YUKICODER_API_KEY"@]
}

/// The keys a token is looked up under. The problem's own key comes first,
/// so that the edit tokens of several problems can stand side by side.
pub fn token_keys(problem_id: i64) -> (r: Vec<String>)
    ensures
        views(r@) == token_keys_spec(problem_id),
{
    let mut k: Vec<char> = chars_of("YUKICODER_TOKEN_");
    let id = i64_to_string(problem_id);
    push_str(&mut k, id.as_str());
    let mut v: Vec<String> = Vec::new();
    v.push(string_of(&k));
    v.push("YUKICODER_TOKEN".to_string());
    v.push("YUKICODER_API_KEY".to_string());
    assert(views(v@) =~= token_keys_spec(problem_id));
    v
}

/// The views of optional strings.
pub open spec fn opt_views(v: Seq<Option<String>>) -> Seq<Option<Seq<char>>> {
    Seq::new(v.len(), |i: int| match v[i] {
        Some(s) => Some(s@),
        None => None,
    })
}

/// A value that is set: present and not blank.
pub open spec fn is_set(v: Option<Seq<char>>) -> bool {
    v matches Some(s) && trim(s).len() > 0
}

/// The token from key number `i` on: for each key, the environment's value
/// first, then `.env`'s; the first one that is set wins, trimmed.
pub open spec fn select_from(
    keys: Seq<Seq<char>>,
    env: Seq<Option<Seq<char>>>,
    dotenv: Seq<(Seq<char>, Seq<char>)>,
    i: int,
) -> Option<Seq<char>>
    decreases keys.len() - i,
{
    if i < 0 || i >= keys.len() {
        None
    } else if is_set(env[i]) {
        Some(trim(env[i]->0))
    } else if is_set(lookup(dotenv, keys[i])) {
        Some(trim(lookup(dotenv, keys[i])->0))
    } else {
        select_from(keys, env, dotenv, i + 1)
    }
}

/// The value of key number `i`: the environment's when it is set, else
/// `.env`'s when that one is set (trimmed).
pub open spec fn key_value(
    keys: Seq<Seq<char>>,
    env: Seq<Option<Seq<char>>>,
    dotenv: Seq<(Seq<char>, Seq<char>)>,
    i: int,
) -> Option<Seq<char>> {
    if is_set(env[i]) {
        Some(trim(env[i]->0))
    } else if is_set(lookup(dotenv, keys[i])) {
        Some(trim(lookup(dotenv, keys[i])->0))
    } else {
        None
    }
}

/// The token of a problem is the value of the first of its keys that is
/// set: `YUKICODER_TOKEN_<id>`, then `YUKICODER_TOKEN`, then
/// `YUKICODER_API_KEY`; for each key the environment wins over `.env`, and a
/// blank value counts as unset.
pub proof fn lemma_token_order(problem_id: i64, env: Seq<Option<Seq<char>>>, dotenv: Seq<(Seq<char>, Seq<char>)>)
    requires
        env.len() == 3,
    ensures
        ({
            let keys = token_keys_spec(problem_id);
            select_from(keys, env, dotenv, 0) == if key_value(keys, env, dotenv, 0) is Some {
                key_value(keys, env, dotenv, 0)
            } else if key_value(keys, env, dotenv, 1) is Some {
                key_value(keys, env, dotenv, 1)
            } else {
                key_value(keys, env, dotenv, 2)
            }
        }),
{
    let keys = token_keys_spec(problem_id);
    assert(keys.len() == 3);
    reveal_with_fuel(select_from, 4);
}

/// Chooses the token: the keys in order, and for each key the environment
/// (`env[i]` is the environment's value of `keys[i]`) before `.env`, so that
/// CI secrets win. Blank values count as unset.
pub fn select_token(keys: &Vec<String>, env: &Vec<Option<String>>, dotenv: &Vec<(String, String)>) -> (r: Option<String>)
    requires
        env@.len() == keys@.len(),
    ensures
        match select_from(views(keys@), opt_views(env@), kv_views(dotenv@), 0) {
            Some(t) => r matches Some(s) && s@ == t,
            None => r is None,
        },
{
    let ghost ks = views(keys@);
    let ghost ev = opt_views(env@);
    let ghost dv = kv_views(dotenv@);
    let mut i: usize = 0;
    while i < keys.len()
        invariant
            i <= keys.len(),
            env@.len() == keys@.len(),
            ks == views(keys@),
            ev == opt_views(env@),
            dv == kv_views(dotenv@),
            select_from(ks, ev, dv, 0) == select_from(ks, ev, dv, i as int),
        decreases keys.len() - i,
    {
        assert(ks[i as int] == keys@[i as int]@);
        match &env[i] {
            Some(v) => {
                assert(ev[i as int] == Some(v@));
                if !is_blank(v.as_str()) {
                    return Some(trim_str(v.as_str()));
                }
            },
            None => {
                assert(ev[i as int] is None);
            },
        }
        match dotenv_get(dotenv, keys[i].as_str()) {
            Some(v) => {
                if !is_blank(v.as_str()) {
                    return Some(trim_str(v.as_str()));
                }
            },
            None => {},
        }
        i = i + 1;
    }
    None
}

/// Decides the token from the environment's values of `keys` and what was
/// read from `.env`. A broken `.env` does not stop a token that the
/// environment gives (it is passed back as a warning); otherwise its error
/// is the result. Without any token, the keys are reported.
pub fn choose_token(
    keys: Vec<String>,
    env: &Vec<Option<String>>,
    dotenv: Result<Vec<(String, String)>, ConfigError>,
) -> (r: Result<(String, Option<ConfigError>), ConfigError>)
    requires
        env@.len() == keys@.len(),
    ensures
        ({
            let entries = match dotenv {
                Ok(v) => kv_views(v@),
                Err(_) => seq![],
            };
            match select_from(views(keys@), opt_views(env@), entries, 0) {
                Some(t) => r matches Ok((s, w)) && s@ == t && match dotenv {
                    Ok(_) => w is None,
                    Err(e) => w == Some(e),
                },
                None => match dotenv {
                    Err(e) => r == Err::<(String, Option<ConfigError>), ConfigError>(e),
                    Ok(_) => r matches Err(ConfigError::NoToken { keys: k }) && views(k@)
                        == views(keys@),
                },
            }
        }),
{
    let (vars, err) = match dotenv {
        Ok(v) => (v, None),
        Err(e) => (Vec::new(), Some(e)),
    };
    assert(err is Some ==> kv_views(vars@) =~= seq![]);
    match select_token(&keys, env, &vars) {
        Some(t) => Ok((t, err)),
        None => match err {
            Some(e) => Err(e),
            None => Err(ConfigError::NoToken { keys }),
        },
    }
}


// ---------------------------------------------------------------------------
// Problems in the repository

/// The id of the problem in a directory: the `problemId` of its
/// `problem.toml`, or else (the older layout) the directory's name read as a
/// number.
pub open spec fn problem_id_spec(file_id: Option<i64>, dir_name: Option<Seq<char>>) -> Option<i64> {
    match file_id {
        Some(id) => Some(id),
        None => match dir_name {
            Some(n) => parse_i64_spec(n),
            None => None,
        },
    }
}

/// The id of the problem in a directory (see [`problem_id_spec`]).
pub fn problem_id_for(file_id: Option<i64>, dir_name: Option<&str>) -> (r: Result<i64, ConfigError>)
    ensures
        match problem_id_spec(
            file_id,
            match dir_name {
                Some(n) => Some(n@),
                None => None,
            },
        ) {
            Some(id) => r == Ok::<i64, ConfigError>(id),
            None => r == Err::<i64, ConfigError>(ConfigError::MissingProblemId),
        },
{
    match file_id {
        Some(id) => Ok(id),
        None => match dir_name {
            Some(n) => match parse_i64(n) {
                Some(id) => Ok(id),
                None => Err(ConfigError::MissingProblemId),
            },
            None => Err(ConfigError::MissingProblemId),
        },
    }
}

/// The problem of a directory that holds a `problem.toml` (`file_id` and
/// `sync` as the file gives them): its id as [`problem_id_for`] finds it, and
/// it is synchronised unless the file says `sync = false`.
pub fn problem_in(dir: String, dir_name: Option<&str>, file_id: Option<i64>, sync: Option<bool>) -> (r: Result<Problem, ConfigError>)
    ensures
        match problem_id_spec(
            file_id,
            match dir_name {
                Some(n) => Some(n@),
                None => None,
            },
        ) {
            Some(id) => r matches Ok(p) && p.id == id && p.dir == dir && p.sync == (sync != Some(false)),
            None => r == Err::<Problem, ConfigError>(ConfigError::MissingProblemId),
        },
{
    let id = problem_id_for(file_id, dir_name)?;
    let synced = match sync {
        Some(false) => false,
        _ => true,
    };
    Ok(Problem { id, dir, sync: synced })
}

/// `i` is the first position of its id in `s`.
pub open spec fn first_of_id(s: Seq<Problem>, i: int) -> bool {
    forall|k: int| 0 <= k < i ==> s[k].id != s[i].id
}

/// `j` is the second position of the id found first at `i`.
pub open spec fn second_of_id(s: Seq<Problem>, i: int, j: int) -> bool {
    &&& 0 <= i < j < s.len()
    &&& first_of_id(s, i)
    &&& s[j].id == s[i].id
    &&& forall|k: int| i < k < j ==> s[k].id != s[i].id
}

/// Two problems of `s` share an id.
pub open spec fn has_duplicate(s: Seq<Problem>) -> bool {
    exists|i: int, j: int| 0 <= i < j < s.len() && s[i].id == s[j].id
}

/// The report for the smallest shared id, naming its first two directories
/// in the order they were found.
pub open spec fn duplicate_report(s: Seq<Problem>, i: int, j: int) -> bool {
    &&& second_of_id(s, i, j)
    &&& forall|a: int, b: int| 0 <= a < b < s.len() && s[a].id == s[b].id ==> s[i].id <= s[a].id
}

/// The ids of `s` strictly increase.
pub open spec fn strictly_sorted(s: Seq<Problem>) -> bool {
    forall|i: int, j: int| 0 <= i < j < s.len() ==> s[i].id < s[j].id
}

fn copy_problem(p: &Problem) -> (r: Problem)
    ensures
        r == *p,
{
    Problem { id: p.id, dir: p.dir.clone(), sync: p.sync }
}

proof fn lemma_second_exists(s: Seq<Problem>, a: int, b: int)
    requires
        0 <= a < b < s.len(),
        s[a].id == s[b].id,
    ensures
        exists|i: int, j: int| second_of_id(s, i, j) && s[i].id == s[a].id,
    decreases a + b,
{
    if !first_of_id(s, a) {
        let k = choose|k: int| 0 <= k < a && s[k].id == s[a].id;
        lemma_second_exists(s, k, b);
    } else {
        let mut j = b;
        if exists|k: int| a < k < b && s[k].id == s[a].id {
            let k = choose|k: int| a < k < b && s[k].id == s[a].id;
            lemma_second_exists(s, a, k);
        } else {
            assert(second_of_id(s, a, b));
        }
    }
}

/// Finds the smallest shared id and its first two positions.
fn find_duplicate(s: &Vec<Problem>) -> (r: Option<(usize, usize)>)
    ensures
        match r {
            Some((i, j)) => duplicate_report(s@, i as int, j as int),
            None => !has_duplicate(s@),
        },
{
    let n = s.len();
    let mut best: Option<(usize, usize)> = None;
    let mut i: usize = 0;
    while i < n
        invariant
            i <= n,
            n == s@.len(),
            match best {
                Some((a, b)) => second_of_id(s@, a as int, b as int) && a < i && forall|x: int|
                    0 <= x < i && (exists|y: int| second_of_id(s@, x, y)) ==> s@[a as int].id
                        <= #[trigger] s@[x].id,
                None => forall|x: int, y: int| 0 <= x < i ==> !second_of_id(s@, x, y),
            },
        decreases n - i,
    {
        let id = s[i].id;
        let mut first = true;
        let mut k: usize = 0;
        while k < i
            invariant
                k <= i < n,
                n == s@.len(),
                id == s@[i as int].id,
                first == (forall|m: int| 0 <= m < k ==> s@[m].id != id),
            decreases i - k,
        {
            if s[k].id == id {
                first = false;
            }
            k = k + 1;
        }
        if first {
            let mut j: usize = i + 1;
            let mut found = false;
            while j < n && !found
                invariant
                    i < j <= n,
                    n == s@.len(),
                    id == s@[i as int].id,
                    forall|m: int| 0 <= m < i ==> s@[m].id != id,
                    found ==> j >= i + 2,
                    found ==> s@[j - 1].id == id && forall|m: int| i < m < j - 1 ==> s@[m].id != id,
                    !found ==> forall|m: int| i < m < j ==> s@[m].id != id,
                decreases n - j + (if found { 0int } else { 1int }),
            {
                if s[j].id == id {
                    found = true;
                }
                j = j + 1;
            }
            if found {
                assert(second_of_id(s@, i as int, j - 1));
                let better = match best {
                    Some((a, _)) => id < s[a].id,
                    None => true,
                };
                if better {
                    best = Some((i, j - 1));
                }
            } else {
                assert forall|y: int| !second_of_id(s@, i as int, y) by {}
            }
        } else {
            assert forall|y: int| !second_of_id(s@, i as int, y) by {}
        }
        proof {
            match best {
                Some((a, b)) => {
                    assert forall|x: int|
                        0 <= x < i + 1 && (exists|y: int| second_of_id(s@, x, y)) implies s@[a as int].id
                        <= #[trigger] s@[x].id by {
                        if x == i {
                            let y = choose|y: int| second_of_id(s@, x, y);
                        }
                    }
                },
                None => {},
            }
        }
        i = i + 1;
    }
    proof {
        match best {
            Some((a, b)) => {
                assert forall|x: int, y: int|
                    0 <= x < y < s@.len() && s@[x].id == s@[y].id implies s@[a as int].id <= s@[x].id by {
                    lemma_second_exists(s@, x, y);
                    let (p, q) = choose|p: int, q: int| second_of_id(s@, p, q) && s@[p].id == s@[x].id;
                    assert(s@[a as int].id <= s@[p].id);
                }
            },
            None => {
                if has_duplicate(s@) {
                    let (x, y) = choose|x: int, y: int| 0 <= x < y < s@.len() && s@[x].id == s@[y].id;
                    lemma_second_exists(s@, x, y);
                    let (p, q) = choose|p: int, q: int| second_of_id(s@, p, q) && s@[p].id == s@[x].id;
                    assert(!second_of_id(s@, p, q));
                }
            },
        }
    }
    best
}

/// Every element of `out` is one of the first `k` elements of `found`.
#[verifier::opaque]
pub open spec fn drawn_from(out: Seq<Problem>, found: Seq<Problem>, k: int) -> bool {
    forall|i: int| 0 <= i < out.len() ==> exists|j: int| 0 <= j < k && #[trigger] out[i] == #[trigger] found[j]
}

/// Each of the first `k` elements of `found` is in `out`.
#[verifier::opaque]
pub open spec fn covers(out: Seq<Problem>, found: Seq<Problem>, k: int) -> bool {
    forall|j: int| 0 <= j < k ==> exists|i: int| 0 <= i < out.len() && #[trigger] out[i] == #[trigger] found[j]
}

proof fn lemma_insert_keeps_order(old: Seq<Problem>, pos: int, p: Problem)
    requires
        0 <= pos <= old.len(),
        strictly_sorted(old),
        forall|i: int| 0 <= i < pos ==> old[i].id < p.id,
        pos < old.len() ==> old[pos].id > p.id,
    ensures
        strictly_sorted(old.insert(pos, p)),
{
    let n = old.insert(pos, p);
    assert forall|i: int, j: int| 0 <= i < j < n.len() implies n[i].id < n[j].id by {
        if j < pos {
            assert(n[i] == old[i] && n[j] == old[j]);
        } else if j == pos {
            assert(n[i] == old[i]);
        } else if i < pos {
            assert(n[i] == old[i] && n[j] == old[j - 1]);
            assert(old[i].id < p.id);
            assert(old[pos].id > p.id);
            assert(old[j - 1].id >= old[pos].id);
        } else if i == pos {
            assert(n[j] == old[j - 1]);
            assert(old[j - 1].id >= old[pos].id);
        } else {
            assert(n[i] == old[i - 1] && n[j] == old[j - 1]);
        }
    }
}

proof fn lemma_insert_keeps_members(old: Seq<Problem>, pos: int, found: Seq<Problem>, k: int)
    requires
        0 <= pos <= old.len(),
        0 <= k < found.len(),
        drawn_from(old, found, k),
        covers(old, found, k),
    ensures
        drawn_from(old.insert(pos, found[k]), found, k + 1),
        covers(old.insert(pos, found[k]), found, k + 1),
{
    reveal(drawn_from);
    reveal(covers);
    let n = old.insert(pos, found[k]);
    assert forall|i: int| 0 <= i < n.len() implies exists|j: int| 0 <= j < k + 1 && #[trigger] n[i] == #[trigger] found[j] by {
        if i < pos {
            assert(n[i] == old[i]);
            let j = choose|j: int| 0 <= j < k && old[i] == found[j];
            assert(n[i] == found[j]);
        } else if i == pos {
            assert(n[i] == found[k]);
        } else {
            assert(n[i] == old[i - 1]);
            let j = choose|j: int| 0 <= j < k && old[i - 1] == found[j];
            assert(n[i] == found[j]);
        }
    }
    assert forall|j: int| 0 <= j < k + 1 implies exists|i: int| 0 <= i < n.len() && #[trigger] n[i] == #[trigger] found[j] by {
        if j == k {
            assert(n[pos] == found[j]);
        } else {
            let i = choose|i: int| 0 <= i < old.len() && old[i] == found[j];
            if i < pos {
                assert(n[i] == found[j]);
            } else {
                assert(n[i + 1] == found[j]);
            }
        }
    }
}

proof fn lemma_fresh_id(out: Seq<Problem>, found: Seq<Problem>, k: int)
    requires
        0 <= k < found.len(),
        !has_duplicate(found),
        drawn_from(out, found, k),
    ensures
        forall|i: int| 0 <= i < out.len() ==> out[i].id != found[k].id,
{
    reveal(drawn_from);
    assert forall|i: int| 0 <= i < out.len() implies out[i].id != found[k].id by {
        let j = choose|j: int| 0 <= j < k && out[i] == found[j];
        assert(found[j].id != found[k].id);
    }
}

/// Inserting the next problem where the ids around it are smaller and
/// larger keeps the sorted copy sorted and made of the problems seen so far.
proof fn lemma_insert_step(old: Seq<Problem>, pos: int, found: Seq<Problem>, k: int)
    requires
        0 <= k < found.len(),
        old.len() == k,
        strictly_sorted(old),
        drawn_from(old, found, k),
        covers(old, found, k),
        0 <= pos <= old.len(),
        forall|i: int| 0 <= i < pos ==> old[i].id < found[k].id,
        pos < old.len() ==> old[pos].id > found[k].id,
    ensures
        old.insert(pos, found[k]).len() == k + 1,
        strictly_sorted(old.insert(pos, found[k])),
        drawn_from(old.insert(pos, found[k]), found, k + 1),
        covers(old.insert(pos, found[k]), found, k + 1),
{
    lemma_insert_keeps_order(old, pos, found[k]);
    lemma_insert_keeps_members(old, pos, found, k);
}

/// Sorts problems whose ids are all different by id.
fn sort_by_id(found: &Vec<Problem>) -> (r: Vec<Problem>)
    requires
        !has_duplicate(found@),
    ensures
        r@.len() == found@.len(),
        strictly_sorted(r@),
        drawn_from(r@, found@, found@.len() as int),
        covers(r@, found@, found@.len() as int),
{
    let mut out: Vec<Problem> = Vec::new();
    let mut k: usize = 0;
    assert(drawn_from(out@, found@, 0) && covers(out@, found@, 0)) by {
        reveal(drawn_from);
        reveal(covers);
    }
    while k < found.len()
        invariant
            k <= found@.len(),
            !has_duplicate(found@),
            out@.len() == k,
            strictly_sorted(out@),
            drawn_from(out@, found@, k as int),
            covers(out@, found@, k as int),
        decreases found@.len() - k,
    {
        let p = copy_problem(&found[k]);
        let mut pos: usize = 0;
        while pos < out.len() && out[pos].id < p.id
            invariant
                pos <= out@.len(),
                forall|i: int| 0 <= i < pos ==> out@[i].id < p.id,
            decreases out@.len() - pos,
        {
            pos = pos + 1;
        }
        proof {
            lemma_fresh_id(out@, found@, k as int);
            if pos < out@.len() {
                assert(out@[pos as int].id != found@[k as int].id);
            }
            lemma_insert_step(out@, pos as int, found@, k as int);
        }
        out.insert(pos, p);
        k = k + 1;
    }
    out
}


/// The ids of the problems that are synchronised (`sync` is not off), in
/// order.
pub open spec fn synced_ids(s: Seq<Problem>) -> Seq<i64>
    decreases s.len(),
{
    if s.len() == 0 {
        seq![]
    } else if s.last().sync {
        synced_ids(s.drop_last()).push(s.last().id)
    } else {
        synced_ids(s.drop_last())
    }
}

proof fn synced_indices(s: Seq<Problem>, m: int) -> (idx: Seq<int>)
    requires
        0 <= m <= s.len(),
    ensures
        crate::text::picks(idx, m, |i: int| s[i].sync),
        idx.len() == synced_ids(s.subrange(0, m)).len(),
        forall|k: int| 0 <= k < idx.len() ==> #[trigger] synced_ids(s.subrange(0, m))[k] == s[idx[k]].id,
    decreases m,
{
    let a = s.subrange(0, m);
    if m == 0 {
        seq![]
    } else {
        let prev = synced_indices(s, m - 1);
        assert(a.drop_last() == s.subrange(0, m - 1));
        let r0 = synced_ids(s.subrange(0, m - 1));
        let keep = |i: int| s[i].sync;
        if s[m - 1].sync {
            let idx = prev.push(m - 1);
            assert forall|k: int| 0 <= k < idx.len() implies #[trigger] synced_ids(a)[k] == s[idx[k]].id by {
                if k < prev.len() {
                    assert(synced_ids(a)[k] == r0[k]);
                }
            }
            assert forall|i: int| 0 <= i < m && #[trigger] keep(i) implies idx.contains(i) by {
                if i < m - 1 {
                    let k = choose|k: int| 0 <= k < prev.len() && prev[k] == i;
                    assert(idx[k] == i);
                } else {
                    assert(idx[idx.len() - 1] == i);
                }
            }
            assert forall|k: int, l: int| 0 <= k < l < idx.len() implies #[trigger] idx[k] < #[trigger] idx[l] by {
                if l < idx.len() - 1 {
                    assert(prev[k] < prev[l]);
                } else {
                    assert(0 <= prev[k] < m - 1);
                }
            }
            idx
        } else {
            assert forall|i: int| 0 <= i < m && #[trigger] keep(i) implies prev.contains(i) by {
                assert(i < m - 1);
            }
            prev
        }
    }
}

/// `--all` takes exactly the synchronised problems: the result lists, in
/// order, the ids of exactly the problems whose `sync` is on, so a problem
/// with `sync = false` is left out and every other one is in.
pub proof fn lemma_synced_ids_leave_out_unsynced(s: Seq<Problem>)
    ensures
        forall|i: int| 0 <= i < s.len() && s[i].sync ==> synced_ids(s).contains(s[i].id),
        forall|x: i64| #[trigger] synced_ids(s).contains(x) ==> exists|i: int|
            0 <= i < s.len() && s[i].sync && #[trigger] s[i].id == x,
        exists|idx: Seq<int>|
            crate::text::picks(idx, s.len() as int, |i: int| s[i].sync) && #[trigger] idx.len()
                == synced_ids(s).len() && forall|k: int|
                0 <= k < idx.len() ==> #[trigger] synced_ids(s)[k] == s[idx[k]].id,
{
    let idx = synced_indices(s, s.len() as int);
    assert(s.subrange(0, s.len() as int) == s);
    assert forall|i: int| 0 <= i < s.len() && s[i].sync implies synced_ids(s).contains(s[i].id) by {
        let keep = |i: int| s[i].sync;
        assert(keep(i));
        let k = choose|k: int| 0 <= k < idx.len() && idx[k] == i;
        assert(synced_ids(s)[k] == s[i].id);
    }
    assert forall|x: i64| #[trigger] synced_ids(s).contains(x) implies exists|i: int|
        0 <= i < s.len() && s[i].sync && #[trigger] s[i].id == x by {
        let k = choose|k: int| 0 <= k < synced_ids(s).len() && synced_ids(s)[k] == x;
        let i = idx[k];
        assert(0 <= i < s.len() && s[i].sync && s[i].id == x);
    }
}

fn synced(problems: &Vec<Problem>) -> (r: Vec<i64>)
    ensures
        r@ == synced_ids(problems@),
{
    let mut out: Vec<i64> = Vec::new();
    let mut i: usize = 0;
    while i < problems.len()
        invariant
            i <= problems@.len(),
            out@ == synced_ids(problems@.subrange(0, i as int)),
        decreases problems@.len() - i,
    {
        assert(problems@.subrange(0, i + 1).drop_last() == problems@.subrange(0, i as int));
        if problems[i].sync {
            out.push(problems[i].id);
        }
        i = i + 1;
    }
    assert(problems@.subrange(0, problems@.len() as int) == problems@);
    out
}

/// What the target arguments decide before the repository is scanned:
/// `Some` when they decide it alone (an explicit id), `None` when the
/// problems of the repository are needed.
pub fn plan_targets(explicit: Option<i64>, all: bool) -> (r: Option<Result<Vec<i64>, ConfigError>>)
    ensures
        match explicit {
            Some(id) => if all {
                r == Some(Err::<Vec<i64>, ConfigError>(ConfigError::AllWithId))
            } else {
                r matches Some(Ok(v)) && v@ == seq![id]
            },
            None => r is None,
        },
{
    match explicit {
        Some(id) => {
            if all {
                Some(Err(ConfigError::AllWithId))
            } else {
                let mut v: Vec<i64> = Vec::new();
                v.push(id);
                Some(Ok(v))
            }
        },
        None => None,
    }
}

/// The directory of the first problem with id `problem_id` in `problems`.
pub open spec fn dir_of(problems: Seq<Problem>, problem_id: i64) -> Option<Seq<char>>
    decreases problems.len(),
{
    if problems.len() == 0 {
        None
    } else if problems[0].id == problem_id {
        Some(problems[0].dir@)
    } else {
        dir_of(problems.drop_first(), problem_id)
    }
}

impl Repo {
    /// The problems of the repository (`found`: those found below the problems
    /// directory), ordered by id; an id found in two directories is refused
    /// (both would be pushed and would overwrite each other).
    pub fn problems(&self, found: &Vec<Problem>) -> (r: Result<Vec<Problem>, ConfigError>)
        ensures
            match r {
                Ok(v) => {
                    &&& !has_duplicate(found@)
                    &&& v@.len() == found@.len()
                    &&& strictly_sorted(v@)
                    &&& drawn_from(v@, found@, found@.len() as int)
                    &&& covers(v@, found@, found@.len() as int)
                },
                Err(e) => has_duplicate(found@) && exists|i: int, j: int|
                    duplicate_report(found@, i, j) && e == (ConfigError::Duplicate {
                        id: found@[i].id,
                        first: found@[i].dir,
                        second: found@[j].dir,
                    }),
            },
    {
        match find_duplicate(found) {
            Some((i, j)) => {
                proof {
                    assert(found@[i as int].id == found@[j as int].id);
                }
                Err(ConfigError::Duplicate { id: found[i].id, first: found[i].dir.clone(), second: found[j].dir.clone() })
            },
            None => Ok(sort_by_id(found)),
        }
    }

    /// `<root>/<problems_dir>`.
    pub fn problems_root(&self) -> (r: String)
        ensures
            r@ == crate::local::join_path(self.root@, self.config.problems_dir@),
    {
        crate::local::path_join(self.root.as_str(), self.config.problems_dir.as_str())
    }

    /// `<root>/<problems_dir>/<problem_id>`: where a problem that is not in the
    /// repository yet goes.
    pub fn fallback_dir(&self, problem_id: i64) -> (r: String)
        ensures
            r@ == crate::local::join_path(
                crate::local::join_path(self.root@, self.config.problems_dir@),
                decimal(problem_id as int),
            ),
    {
        let base = self.problems_root();
        let id = i64_to_string(problem_id);
        crate::local::path_join(base.as_str(), id.as_str())
    }

    /// `<root>/<problems_dir>/<problem_id>`.
    pub open spec fn fallback_spec(&self, problem_id: i64) -> Seq<char> {
        crate::local::join_path(
            crate::local::join_path(self.root@, self.config.problems_dir@),
            decimal(problem_id as int),
        )
    }

    /// The directory of problem `problem_id`: the first directory that
    /// `problems` has for it, or else the fallback directory unless that one
    /// is `claimed` by another problem (then there is none).
    pub open spec fn dir_for(&self, problems: Seq<Problem>, problem_id: i64, claimed: bool) -> Option<Seq<char>> {
        match dir_of(problems, problem_id) {
            Some(d) => Some(d),
            None => if claimed {
                None
            } else {
                Some(self.fallback_spec(problem_id))
            },
        }
    }

    /// The directory of a problem: where `problems` (the repository's
    /// problems) has it, or else [`Repo::fallback_dir`]. When that directory
    /// already holds a `problem.toml` (`fallback_claimed`), it belongs to
    /// another problem and is refused.
    pub fn problem_dir(&self, problems: &Vec<Problem>, problem_id: i64, fallback_claimed: bool) -> (r: Result<String, ConfigError>)
        ensures
            match r {
                Ok(d) => self.dir_for(problems@, problem_id, fallback_claimed) == Some(d@),
                Err(e) => self.dir_for(problems@, problem_id, fallback_claimed) is None
                    && (e matches ConfigError::OtherProblemDir { dir, problem_id: id }
                    && dir@ == self.fallback_spec(problem_id) && id == problem_id),
            },
    {
        let mut i: usize = 0;
        assert(problems@.subrange(0, problems@.len() as int) == problems@);
        while i < problems.len()
            invariant
                i <= problems@.len(),
                dir_of(problems@, problem_id) == dir_of(problems@.subrange(i as int, problems@.len() as int), problem_id),
            decreases problems@.len() - i,
        {
            let ghost rest = problems@.subrange(i as int, problems@.len() as int);
            assert(rest.drop_first() == problems@.subrange(i + 1, problems@.len() as int));
            if problems[i].id == problem_id {
                return Ok(problems[i].dir.clone());
            }
            i = i + 1;
        }
        assert(problems@.subrange(i as int, problems@.len() as int).len() == 0);
        let fallback = self.fallback_dir(problem_id);
        if fallback_claimed {
            Err(ConfigError::OtherProblemDir { dir: fallback, problem_id })
        } else {
            Ok(fallback)
        }
    }

    /// The target problems when no id was given: with `all`, every problem of
    /// the repository that is synchronised (the repository must hold a
    /// problem); without it, the only one.
    pub fn targets_from(&self, problems: &Vec<Problem>, all: bool) -> (r: Result<Vec<i64>, ConfigError>)
        ensures
            all && problems@.len() == 0 ==> (r matches Err(ConfigError::NoProblems { dir }) && dir@
                == crate::local::join_path(self.root@, self.config.problems_dir@)),
            all && problems@.len() > 0 ==> (r matches Ok(v) && v@ == synced_ids(problems@)),
            !all && problems@.len() == 1 ==> (r matches Ok(v) && v@ == seq![problems@[0].id]),
            !all && problems@.len() == 0 ==> r == Err::<Vec<i64>, ConfigError>(ConfigError::NoTarget),
            !all && problems@.len() > 1 ==> r == Err::<Vec<i64>, ConfigError>(ConfigError::Ambiguous),
    {
        if all {
            if problems.len() == 0 {
                return Err(ConfigError::NoProblems { dir: self.problems_root() });
            }
            return Ok(synced(problems));
        }
        if problems.len() == 1 {
            let mut v: Vec<i64> = Vec::new();
            v.push(problems[0].id);
            Ok(v)
        } else if problems.len() == 0 {
            Err(ConfigError::NoTarget)
        } else {
            Err(ConfigError::Ambiguous)
        }
    }

    /// The problems a command works on: an explicit id (not together with
    /// `all`), every synchronised problem with `all`, or else the only problem
    /// of the repository.
    pub fn target_problems(&self, explicit: Option<i64>, all: bool, problems: &Vec<Problem>) -> (r: Result<Vec<i64>, ConfigError>)
        ensures
            explicit matches Some(id) ==> if all {
                r == Err::<Vec<i64>, ConfigError>(ConfigError::AllWithId)
            } else {
                r matches Ok(v) && v@ == seq![id]
            },
            explicit is None && all && problems@.len() == 0 ==> r matches Err(ConfigError::NoProblems { .. }),
            explicit is None && all && problems@.len() > 0 ==> (r matches Ok(v) && v@ == synced_ids(problems@)),
            explicit is None && !all && problems@.len() == 1 ==> (r matches Ok(v) && v@ == seq![problems@[0].id]),
            explicit is None && !all && problems@.len() == 0 ==> r == Err::<Vec<i64>, ConfigError>(ConfigError::NoTarget),
            explicit is None && !all && problems@.len() > 1 ==> r == Err::<Vec<i64>, ConfigError>(ConfigError::Ambiguous),
    {
        match plan_targets(explicit, all) {
            Some(r) => r,
            None => self.targets_from(problems, all),
        }
    }
}

} // verus!
