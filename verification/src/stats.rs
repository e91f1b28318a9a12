//! Statistics data as the handheld's viewer consumes it: a lightweight
//! scrape of the usage file the desktop syncs over, plus duration
//! formatting for display.

use vstd::prelude::*;

verus! {

use vstd::string::StrSliceExecFns;
use crate::strutil::{push_char, push_decimal, spec_decimal};

/// Whether `pat` occurs in `s` starting at position `i`.
pub open spec fn matches_at(s: Seq<char>, pat: Seq<char>, i: int) -> bool {
    0 <= i && i + pat.len() <= s.len() && s.subrange(i, i + pat.len()) == pat
}

/// The first position where `pat` occurs in `s`, or -1.
pub open spec fn spec_find(s: Seq<char>, pat: Seq<char>) -> int
    decreases s.len(),
{
    if pat.len() == 0 {
        0
    } else if s.len() < pat.len() {
        -1
    } else if s.take(pat.len() as int) == pat {
        0
    } else {
        let r = spec_find(s.drop_first(), pat);
        if r < 0 {
            -1
        } else {
            r + 1
        }
    }
}

/// Where a found pattern sits, it matches; where none was found, nothing
/// matches anywhere.
pub proof fn lemma_spec_find(s: Seq<char>, pat: Seq<char>)
    ensures
        spec_find(s, pat) >= 0 ==> matches_at(s, pat, spec_find(s, pat)),
        spec_find(s, pat) < 0 ==> forall|i: int| !matches_at(s, pat, i),
    decreases s.len(),
{
    if pat.len() == 0 {
        assert(s.subrange(0, 0) =~= pat);
    } else if s.len() < pat.len() {
        assert forall|i: int| !matches_at(s, pat, i) by {}
    } else if s.take(pat.len() as int) == pat {
        assert(s.subrange(0, pat.len() as int) =~= s.take(pat.len() as int));
    } else {
        assert(pat.len() > 0) by {
            if pat.len() == 0 {
                assert(s.take(0) =~= pat);
            }
        }
        let t = s.drop_first();
        lemma_spec_find(t, pat);
        let r = spec_find(t, pat);
        if r >= 0 {
            assert(matches_at(t, pat, r));
            assert(s.subrange(r + 1, r + 1 + pat.len()) =~= t.subrange(r, r + pat.len()));
        } else {
            assert forall|i: int| !matches_at(s, pat, i) by {
                if 0 <= i && i + pat.len() <= s.len() {
                    if i == 0 {
                        assert(s.subrange(0, pat.len() as int) =~= s.take(pat.len() as int));
                    } else {
                        assert(t.subrange(i - 1, i - 1 + pat.len()) =~= s.subrange(
                            i,
                            i + pat.len(),
                        ));
                        assert(!matches_at(t, pat, i - 1));
                    }
                }
            }
        }
    }
}

/// Whether `pat` occurs at position `i` of `s`, checked character by
/// character.
fn check_match(s: &str, n: usize, pat: &str, m: usize, i: usize) -> (r: bool)
    requires
        n == s@.len(),
        m == pat@.len(),
        i + m <= n,
    ensures
        r == matches_at(s@, pat@, i as int),
{
    let mut k: usize = 0;
    let mut ok = true;
    while k < m
        invariant
            k <= m,
            n == s@.len(),
            m == pat@.len(),
            i + m <= n,
            ok == (forall|t: int| 0 <= t < k ==> s@[i + t] == pat@[t]),
        decreases m - k,
    {
        if s.get_char(i + k) != pat.get_char(k) {
            ok = false;
        }
        k += 1;
    }
    proof {
        if ok {
            assert(s@.subrange(i as int, i + m) =~= pat@);
        } else {
            assert(s@.subrange(i as int, i + m) != pat@) by {
                let t = choose|t: int| 0 <= t < m && s@[i + t] != pat@[t];
                assert(s@.subrange(i as int, i + m)[t] != pat@[t]);
            }
        }
    }
    ok
}

/// The first occurrence of `pat` in `s`, if any.
pub fn find_sub(s: &str, pat: &str) -> (r: Option<usize>)
    ensures
        match r {
            Some(i) => spec_find(s@, pat@) == i as int,
            None => spec_find(s@, pat@) < 0,
        },
{
    let n = s.unicode_len();
    let m = pat.unicode_len();
    if m > n {
        proof {
            lemma_spec_find(s@, pat@);
            if spec_find(s@, pat@) >= 0 {
                assert(matches_at(s@, pat@, spec_find(s@, pat@)));
            }
        }
        return None;
    }
    if m == 0 {
        proof {
            assert(s@.take(0) =~= pat@);
        }
        return Some(0);
    }
    let mut i: usize = 0;
    proof {
        assert(s@.skip(0) =~= s@);
    }
    while i <= n - m
        invariant
            1 <= m <= n,
            i <= n - m + 1,
            n == s@.len(),
            m == pat@.len(),
            spec_find(s@, pat@) == if spec_find(s@.skip(i as int), pat@) < 0 {
                -1int
            } else {
                i + spec_find(s@.skip(i as int), pat@)
            },
        decreases n - i,
    {
        let here = check_match(s, n, pat, m, i);
        proof {
            assert(s@.skip(i as int).take(m as int) =~= s@.subrange(i as int, i + m));
        }
        if here {
            proof {
                assert(spec_find(s@.skip(i as int), pat@) == 0);
            }
            return Some(i);
        }
        proof {
            assert(pat@.len() > 0) by {
                if pat@.len() == 0 {
                    assert(s@.subrange(i as int, i as int) =~= pat@);
                }
            }
            assert(s@.skip(i as int).drop_first() =~= s@.skip(i + 1));
        }
        i += 1;
    }
    proof {
        assert(s@.skip(i as int).len() < pat@.len());
    }
    None
}

/// The length of the leading whitespace of `s`.
pub open spec fn spec_ws_prefix(s: Seq<char>) -> int
    decreases s.len(),
{
    if s.len() == 0 {
        0
    } else if s[0] == ' ' || s[0] == '\t' || s[0] == '\n' || s[0] == '\r' {
        1 + spec_ws_prefix(s.drop_first())
    } else {
        0
    }
}

/// How many whitespace characters `s` starts with, from position `from`.
fn ws_prefix_len(s: &str, from: usize) -> (r: usize)
    requires
        from <= s@.len(),
    ensures
        from + r <= s@.len(),
        r as int == spec_ws_prefix(s@.skip(from as int)),
{
    let n = s.unicode_len();
    let mut i = from;
    proof {
        assert(s@.skip(from as int).skip(0) =~= s@.skip(from as int));
    }
    while i < n
        invariant
            from <= i <= n,
            n == s@.len(),
            spec_ws_prefix(s@.skip(from as int)) == (i - from) + spec_ws_prefix(s@.skip(i as int)),
        decreases n - i,
    {
        let c = s.get_char(i);
        proof {
            assert(s@.skip(i as int)[0] == s@[i as int]);
            assert(s@.skip(i as int).drop_first() =~= s@.skip(i + 1));
        }
        if c == ' ' || c == '\t' || c == '\n' || c == '\r' {
            i += 1;
        } else {
            proof {
                assert(spec_ws_prefix(s@.skip(i as int)) == 0);
            }
            return i - from;
        }
    }
    proof {
        assert(s@.skip(n as int).len() == 0);
    }
    i - from
}

/// The first position of `c` in `s`, or -1.
pub open spec fn spec_find_char(s: Seq<char>, c: char) -> int
    decreases s.len(),
{
    if s.len() == 0 {
        -1
    } else if s[0] == c {
        0
    } else {
        let r = spec_find_char(s.drop_first(), c);
        if r < 0 {
            -1
        } else {
            r + 1
        }
    }
}

/// The JSON key pattern searched for: the key in quotes, followed by a
/// colon.
pub open spec fn spec_key_pattern(key: Seq<char>) -> Seq<char> {
    seq!['"'] + key + seq!['"', ':']
}

fn key_pattern(key: &str) -> (r: String)
    ensures
        r@ == spec_key_pattern(key@),
{
    let mut pat = String::new();
    push_char(&mut pat, '"');
    pat.append(key);
    push_char(&mut pat, '"');
    push_char(&mut pat, ':');
    proof {
        assert(pat@ =~= spec_key_pattern(key@));
    }
    pat
}

/// The quoted string value of a key: the characters between the quote
/// after the key (whitespace allowed) and the next quote.
pub open spec fn spec_extract_string_value(json: Seq<char>, key: Seq<char>) -> Option<Seq<char>> {
    let pat = spec_key_pattern(key);
    let p = spec_find(json, pat);
    if p < 0 {
        None
    } else {
        let after = json.skip(p + pat.len());
        let t = after.skip(spec_ws_prefix(after));
        if t.len() > 0 && t[0] == '"' {
            let content = t.skip(1);
            let e = spec_find_char(content, '"');
            if e < 0 {
                None
            } else {
                Some(content.take(e))
            }
        } else {
            None
        }
    }
}

/// Reads the quoted string value of a key out of a JSON fragment.
pub fn extract_string_value(json: &str, key: &str) -> (r: Option<String>)
    ensures
        match r {
            Some(v) => spec_extract_string_value(json@, key@) == Some(v@),
            None => spec_extract_string_value(json@, key@) is None,
        },
{
    let pat = key_pattern(key);
    let p = match find_sub(json, pat.as_str()) {
        Some(p) => p,
        None => {
            return None;
        },
    };
    let n = json.unicode_len();
    proof {
        lemma_spec_find(json@, pat@);
        assert(matches_at(json@, pat@, p as int));
        assert(p + pat@.len() <= n);
    }
    let after_pos = p + pat.as_str().unicode_len();
    let ws = ws_prefix_len(json, after_pos);
    let t_pos = after_pos + ws;
    proof {
        assert(json@.skip(after_pos as int).skip(ws as int) =~= json@.skip(t_pos as int));
    }
    if t_pos >= n {
        return None;
    }
    proof {
        assert(json@.skip(t_pos as int)[0] == json@[t_pos as int]);
    }
    if json.get_char(t_pos) != '"' {
        return None;
    }
    let content_pos = t_pos + 1;
    proof {
        assert(json@.skip(t_pos as int).skip(1) =~= json@.skip(content_pos as int));
    }
    match find_char_from(json, '"', content_pos) {
        Some(e) => {
            let v = json.substring_char(content_pos, e);
            proof {
                assert(v@ =~= json@.skip(content_pos as int).take(e - content_pos));
            }
            Some(v.to_owned())
        },
        None => None,
    }
}

/// How many decimal digits `s` starts with.
pub open spec fn spec_digit_prefix(s: Seq<char>) -> int
    decreases s.len(),
{
    if s.len() == 0 {
        0
    } else if '0' <= s[0] && s[0] <= '9' {
        1 + spec_digit_prefix(s.drop_first())
    } else {
        0
    }
}

/// The value of an all-digit character sequence.
pub open spec fn spec_digits_val(s: Seq<char>) -> nat
    decreases s.len(),
{
    if s.len() == 0 {
        0
    } else {
        spec_digits_val(s.drop_last()) * 10 + ((s.last() as u8) - 0x30) as nat
    }
}

/// The number value of a key: the digits after the key (whitespace
/// allowed), absent if there are none or they overflow.
pub open spec fn spec_extract_number_value(json: Seq<char>, key: Seq<char>) -> Option<u64> {
    let pat = spec_key_pattern(key);
    let p = spec_find(json, pat);
    if p < 0 {
        None
    } else {
        let after = json.skip(p + pat.len());
        let t = after.skip(spec_ws_prefix(after));
        let d = spec_digit_prefix(t);
        if d == 0 || spec_digits_val(t.take(d)) > u64::MAX {
            None
        } else {
            Some(spec_digits_val(t.take(d)) as u64)
        }
    }
}

/// A longer digit prefix never has a smaller value.
proof fn lemma_digits_val_grows(s: Seq<char>, j: int)
    requires
        0 <= j < s.len(),
    ensures
        spec_digits_val(s.take(j + 1)) >= spec_digits_val(s.take(j)),
{
    assert(s.take(j + 1).drop_last() =~= s.take(j));
}

/// Reads the number value of a key out of a JSON fragment.
pub fn extract_number_value(json: &str, key: &str) -> (r: Option<u64>)
    ensures
        r == spec_extract_number_value(json@, key@),
{
    let pat = key_pattern(key);
    let p = match find_sub(json, pat.as_str()) {
        Some(p) => p,
        None => {
            return None;
        },
    };
    let n = json.unicode_len();
    proof {
        lemma_spec_find(json@, pat@);
        assert(matches_at(json@, pat@, p as int));
        assert(p + pat@.len() <= n);
    }
    let after_pos = p + pat.as_str().unicode_len();
    let ws = ws_prefix_len(json, after_pos);
    let t_pos = after_pos + ws;
    let ghost t = json@.skip(t_pos as int);
    proof {
        assert(json@.skip(after_pos as int).skip(ws as int) =~= t);
    }
    let mut k: usize = 0;
    let mut acc: u64 = 0;
    let mut overflow = false;
    proof {
        assert(t.take(0) =~= Seq::<char>::empty());
        assert(t.skip(0) =~= t);
    }
    let mut done = false;
    while t_pos + k < n && !done
        invariant
            t_pos + k <= n,
            n == json@.len(),
            t == json@.skip(t_pos as int),
            !done ==> spec_digit_prefix(t) == k + spec_digit_prefix(t.skip(k as int)),
            done ==> spec_digit_prefix(t) == k,
            !overflow ==> acc as nat == spec_digits_val(t.take(k as int)),
            overflow ==> spec_digits_val(t.take(k as int)) > u64::MAX,
        decreases (n - t_pos - k) + (if done {
            0int
        } else {
            1int
        }),
    {
        let c = json.get_char(t_pos + k);
        proof {
            assert(t.skip(k as int)[0] == t[k as int]);
            assert(t[k as int] == json@[t_pos + k]);
            assert(t.skip(k as int).drop_first() =~= t.skip(k + 1));
            assert(t.take(k + 1).drop_last() =~= t.take(k as int));
            assert(t.take(k + 1).last() == t[k as int]);
        }
        if '0' <= c && c <= '9' {
            let d = (c as u8) - 0x30;
            if !overflow {
                if acc > (u64::MAX - d as u64) / 10 {
                    overflow = true;
                    proof {
                        assert(spec_digits_val(t.take(k + 1)) == acc as nat * 10 + d);
                        assert(acc as nat * 10 + d > u64::MAX) by (nonlinear_arith)
                            requires
                                acc > (u64::MAX - d as u64) / 10,
                                d < 10,
                        ;
                    }
                } else {
                    proof {
                        assert(acc * 10 + d as u64 <= u64::MAX) by (nonlinear_arith)
                            requires
                                acc <= (u64::MAX - d as u64) / 10,
                                d < 10,
                        ;
                    }
                    acc = acc * 10 + d as u64;
                }
            } else {
                proof {
                    lemma_digits_val_grows(t, k as int);
                }
            }
            k += 1;
        } else {
            proof {
                assert(spec_digit_prefix(t.skip(k as int)) == 0);
            }
            done = true;
        }
    }
    proof {
        if !done {
            assert(t.skip(k as int).len() == 0);
        }
        assert(spec_digit_prefix(t) == k);
    }
    if k == 0 || overflow {
        None
    } else {
        Some(acc)
    }
}

/// The boolean value of a key: a literal `true` or `false` after the key
/// (whitespace allowed).
pub open spec fn spec_extract_bool_value(json: Seq<char>, key: Seq<char>) -> Option<bool> {
    let pat = spec_key_pattern(key);
    let p = spec_find(json, pat);
    if p < 0 {
        None
    } else {
        let after = json.skip(p + pat.len());
        let t = after.skip(spec_ws_prefix(after));
        if t.len() >= 4 && t[0] == 't' && t[1] == 'r' && t[2] == 'u' && t[3] == 'e' {
            Some(true)
        } else if t.len() >= 5 && t[0] == 'f' && t[1] == 'a' && t[2] == 'l' && t[3] == 's' && t[4]
            == 'e' {
            Some(false)
        } else {
            None
        }
    }
}

/// Reads the boolean value of a key out of a JSON fragment.
pub fn extract_bool_value(json: &str, key: &str) -> (r: Option<bool>)
    ensures
        r == spec_extract_bool_value(json@, key@),
{
    let pat = key_pattern(key);
    let p = match find_sub(json, pat.as_str()) {
        Some(p) => p,
        None => {
            return None;
        },
    };
    let n = json.unicode_len();
    proof {
        lemma_spec_find(json@, pat@);
        assert(matches_at(json@, pat@, p as int));
        assert(p + pat@.len() <= n);
    }
    let after_pos = p + pat.as_str().unicode_len();
    let ws = ws_prefix_len(json, after_pos);
    let t_pos = after_pos + ws;
    let ghost t = json@.skip(t_pos as int);
    proof {
        assert(json@.skip(after_pos as int).skip(ws as int) =~= t);
        assert(forall|i: int| 0 <= i < t.len() ==> t[i] == json@[t_pos + i]);
    }
    if n - t_pos >= 4 && json.get_char(t_pos) == 't' && json.get_char(t_pos + 1) == 'r'
        && json.get_char(t_pos + 2) == 'u' && json.get_char(t_pos + 3) == 'e' {
        Some(true)
    } else if n - t_pos >= 5 && json.get_char(t_pos) == 'f' && json.get_char(t_pos + 1) == 'a'
        && json.get_char(t_pos + 2) == 'l' && json.get_char(t_pos + 3) == 's' && json.get_char(
        t_pos + 4,
    ) == 'e' {
        Some(false)
    } else {
        None
    }
}

/// Statistics of one game as the viewer shows them.
#[derive(Debug, Clone, PartialEq, Eq)]
pub struct GameStats {
    pub title: String,
    pub game_id: String,
    /// The full key the usage file stores the game under.
    pub game_key: String,
    pub total_seconds: u64,
    pub session_count: u32,
    pub last_played: String,
    pub hidden: bool,
}

/// The mathematical value of a [`GameStats`].
#[verifier::ext_equal]
pub struct GameStatsView {
    pub title: Seq<char>,
    pub game_id: Seq<char>,
    pub game_key: Seq<char>,
    pub total_seconds: u64,
    pub session_count: u32,
    pub last_played: Seq<char>,
    pub hidden: bool,
}

impl View for GameStats {
    type V = GameStatsView;

    open spec fn view(&self) -> GameStatsView {
        GameStatsView {
            title: self.title@,
            game_id: self.game_id@,
            game_key: self.game_key@,
            total_seconds: self.total_seconds,
            session_count: self.session_count,
            last_played: self.last_played@,
            hidden: self.hidden,
        }
    }
}

/// Everything the viewer loads: the games and their grand totals.
pub struct StatsData {
    pub games: Vec<GameStats>,
    pub total_playtime: u64,
    pub total_sessions: u32,
}

impl Default for StatsData {
    /// No games and zero totals.
    fn default() -> (r: StatsData)
        ensures
            r.games@.len() == 0,
            r.total_playtime == 0,
            r.total_sessions == 0,
    {
        StatsData { games: Vec::new(), total_playtime: 0, total_sessions: 0 }
    }
}

/// One game entry scraped out of a JSON fragment: present when a quoted
/// title is, with number fields read under their current names first and
/// their legacy names second, and everything else defaulted.
pub open spec fn spec_parse_game_entry(json: Seq<char>, game_key: Seq<char>) -> Option<
    GameStatsView,
> {
    match spec_extract_string_value(json, "title"@) {
        None => None,
        Some(title) => Some(
            GameStatsView {
                title,
                game_id: match spec_extract_string_value(json, "game_id"@) {
                    Some(v) => v,
                    None => Seq::empty(),
                },
                game_key,
                total_seconds: match spec_extract_number_value(json, "seconds"@) {
                    Some(v) => v,
                    None => match spec_extract_number_value(json, "total_seconds"@) {
                        Some(v) => v,
                        None => 0,
                    },
                },
                session_count: (match spec_extract_number_value(json, "sessions"@) {
                    Some(v) => v,
                    None => match spec_extract_number_value(json, "session_count"@) {
                        Some(v) => v,
                        None => 0,
                    },
                }) as u32,
                last_played: match spec_extract_string_value(json, "last_played"@) {
                    Some(v) => v,
                    None => Seq::empty(),
                },
                hidden: match spec_extract_bool_value(json, "hidden"@) {
                    Some(v) => v,
                    None => false,
                },
            },
        ),
    }
}

/// Parses one game entry out of a JSON fragment.
pub fn parse_game_entry(json: &str, game_key: String) -> (r: Option<GameStats>)
    ensures
        match r {
            Some(g) => spec_parse_game_entry(json@, game_key@) == Some(g@),
            None => spec_parse_game_entry(json@, game_key@) is None,
        },
{
    let title = match extract_string_value(json, "title") {
        Some(t) => t,
        None => {
            return None;
        },
    };
    let game_id = match extract_string_value(json, "game_id") {
        Some(v) => v,
        None => String::new(),
    };
    let total_seconds = match extract_number_value(json, "seconds") {
        Some(v) => v,
        None => match extract_number_value(json, "total_seconds") {
            Some(v) => v,
            None => 0,
        },
    };
    let session_count = (match extract_number_value(json, "sessions") {
        Some(v) => v,
        None => match extract_number_value(json, "session_count") {
            Some(v) => v,
            None => 0,
        },
    }) as u32;
    let last_played = match extract_string_value(json, "last_played") {
        Some(v) => v,
        None => String::new(),
    };
    let hidden = match extract_bool_value(json, "hidden") {
        Some(v) => v,
        None => false,
    };
    Some(GameStats { title, game_id, game_key, total_seconds, session_count, last_played, hidden })
}

/// The display form of a duration: hours, minutes and seconds, with the
/// leading zero parts dropped.
pub open spec fn spec_format_duration(total_secs: u64) -> Seq<char> {
    let h = total_secs / 3600;
    let m = (total_secs % 3600) / 60;
    let s = total_secs % 60;
    if h > 0 {
        spec_decimal(h as nat) + "h "@ + spec_decimal(m as nat) + "m "@ + spec_decimal(s as nat)
            + "s"@
    } else if m > 0 {
        spec_decimal(m as nat) + "m "@ + spec_decimal(s as nat) + "s"@
    } else {
        spec_decimal(s as nat) + "s"@
    }
}

/// Formats a duration as hours, minutes and seconds.
pub fn format_duration(total_secs: u64) -> (r: String)
    ensures
        r@ == spec_format_duration(total_secs),
{
    let hours = total_secs / 3600;
    let mins = (total_secs % 3600) / 60;
    let secs = total_secs % 60;
    let mut out = String::new();
    if hours > 0 {
        push_decimal(&mut out, hours);
        out.append("h ");
        push_decimal(&mut out, mins);
        out.append("m ");
        push_decimal(&mut out, secs);
        out.append("s");
    } else if mins > 0 {
        push_decimal(&mut out, mins);
        out.append("m ");
        push_decimal(&mut out, secs);
        out.append("s");
    } else {
        push_decimal(&mut out, secs);
        out.append("s");
    }
    proof {
        assert(out@ =~= spec_format_duration(total_secs));
    }
    out
}

/// The short display form of a duration: whole hours, else whole minutes,
/// else a less-than-a-minute marker.
pub open spec fn spec_format_duration_short(total_secs: u64) -> Seq<char> {
    let h = total_secs / 3600;
    let m = (total_secs % 3600) / 60;
    if h > 0 {
        spec_decimal(h as nat) + "h"@
    } else if m > 0 {
        spec_decimal(m as nat) + "m"@
    } else {
        "<1m"@
    }
}

/// Formats a duration as whole hours or minutes.
pub fn format_duration_short(total_secs: u64) -> (r: String)
    ensures
        r@ == spec_format_duration_short(total_secs),
{
    let hours = total_secs / 3600;
    let mins = (total_secs % 3600) / 60;
    let mut out = String::new();
    if hours > 0 {
        push_decimal(&mut out, hours);
        out.append("h");
    } else if mins > 0 {
        push_decimal(&mut out, mins);
        out.append("m");
    } else {
        out.append("<1m");
    }
    proof {
        assert(out@ =~= spec_format_duration_short(total_secs));
    }
    out
}

/// Fixed example data shown when neither a cache nor a desktop is
/// reachable.
pub fn sample_stats() -> (r: StatsData)
    ensures
        r.games@.len() == 6,
        r.total_playtime == 98700,
        r.total_sessions == 26,
        r.games@[0]@.title == "WipEout Pulse"@ && r.games@[0]@.game_id == "UCUS98712"@
            && r.games@[0]@.total_seconds == 66480 && r.games@[0]@.session_count == 16,
        r.games@[1]@.title == "Corpse Party"@ && r.games@[1]@.game_id == "ULUS10566"@
            && r.games@[1]@.total_seconds == 21660 && r.games@[1]@.session_count == 4,
        r.games@[2]@.title == "Secret Agent Clank"@ && r.games@[2]@.game_id == "UCUS98694"@
            && r.games@[2]@.total_seconds == 3120 && r.games@[2]@.session_count == 2,
        r.games@[3]@.title == "Manhunt 2"@ && r.games@[3]@.game_id == "ULUS10280"@
            && r.games@[3]@.total_seconds == 3120 && r.games@[3]@.session_count == 2,
        r.games@[4]@.title == "NFS Carbon OTC"@ && r.games@[4]@.game_id == "ULUS10168"@
            && r.games@[4]@.total_seconds == 960 && r.games@[4]@.session_count == 1,
        r.games@[5]@.title == "MGS Portable Ops"@ && r.games@[5]@.game_id == "ULUS10202"@
            && r.games@[5]@.total_seconds == 3360 && r.games@[5]@.session_count == 1,
        forall|i: int| 0 <= i < 6 ==> !(#[trigger] r.games@[i])@.hidden,
{
    let mut games: Vec<GameStats> = Vec::new();
    games.push(
        GameStats {
            title: String::from_str("WipEout Pulse"),
            game_id: String::from_str("UCUS98712"),
            game_key: String::from_str("UCUS98712:1"),
            total_seconds: 3600 * 18 + 60 * 28,
            session_count: 16,
            last_played: String::from_str("01-31 23:04"),
            hidden: false,
        },
    );
    games.push(
        GameStats {
            title: String::from_str("Corpse Party"),
            game_id: String::from_str("ULUS10566"),
            game_key: String::from_str("ULUS10566:1"),
            total_seconds: 3600 * 6 + 60 * 1,
            session_count: 4,
            last_played: String::from_str("01-31 23:18"),
            hidden: false,
        },
    );
    games.push(
        GameStats {
            title: String::from_str("Secret Agent Clank"),
            game_id: String::from_str("UCUS98694"),
            game_key: String::from_str("UCUS98694:1"),
            total_seconds: 60 * 52,
            session_count: 2,
            last_played: String::from_str("02-01 01:16"),
            hidden: false,
        },
    );
    games.push(
        GameStats {
            title: String::from_str("Manhunt 2"),
            game_id: String::from_str("ULUS10280"),
            game_key: String::from_str("ULUS10280:1"),
            total_seconds: 60 * 52,
            session_count: 2,
            last_played: String::from_str("02-01 01:16"),
            hidden: false,
        },
    );
    games.push(
        GameStats {
            title: String::from_str("NFS Carbon OTC"),
            game_id: String::from_str("ULUS10168"),
            game_key: String::from_str("ULUS10168:1"),
            total_seconds: 60 * 16,
            session_count: 1,
            last_played: String::from_str("02-01 01:46"),
            hidden: false,
        },
    );
    games.push(
        GameStats {
            title: String::from_str("MGS Portable Ops"),
            game_id: String::from_str("ULUS10202"),
            game_key: String::from_str("ULUS10202:1"),
            total_seconds: 60 * 56,
            session_count: 1,
            last_played: String::from_str("01-21 21:18"),
            hidden: false,
        },
    );
    StatsData { games, total_playtime: 98700, total_sessions: 26 }
}

/// The length of the trailing whitespace of `s`.
pub open spec fn spec_ws_suffix(s: Seq<char>) -> int
    decreases s.len(),
{
    if s.len() == 0 {
        0
    } else if s.last() == ' ' || s.last() == '\t' || s.last() == '\n' || s.last() == '\r' {
        1 + spec_ws_suffix(s.drop_last())
    } else {
        0
    }
}

/// Trailing whitespace never exceeds the length.
pub proof fn lemma_ws_suffix_le(s: Seq<char>)
    ensures
        0 <= spec_ws_suffix(s) <= s.len(),
    decreases s.len(),
{
    if s.len() > 0 {
        lemma_ws_suffix_le(s.drop_last());
    }
}

/// How many whitespace characters end the prefix `s[..upto]`.
fn ws_suffix_len(s: &str, upto: usize) -> (r: usize)
    requires
        upto <= s@.len(),
    ensures
        r <= upto,
        r as int == spec_ws_suffix(s@.take(upto as int)),
{
    let mut i = upto;
    while i > 0
        invariant
            0 <= i <= upto <= s@.len(),
            spec_ws_suffix(s@.take(upto as int)) == (upto - i) + spec_ws_suffix(s@.take(i as int)),
        decreases i,
    {
        let c = s.get_char(i - 1);
        proof {
            assert(s@.take(i as int).last() == s@[i - 1]);
            assert(s@.take(i as int).drop_last() =~= s@.take(i - 1));
        }
        if c == ' ' || c == '\t' || c == '\n' || c == '\r' {
            i -= 1;
        } else {
            proof {
                assert(spec_ws_suffix(s@.take(i as int)) == 0);
            }
            return upto - i;
        }
    }
    proof {
        assert(s@.take(0).len() == 0);
    }
    upto - i
}

/// The last position of `c` in `s`, or -1.
pub open spec fn spec_rfind_char(s: Seq<char>, c: char) -> int
    decreases s.len(),
{
    if s.len() == 0 {
        -1
    } else if s.last() == c {
        s.len() - 1
    } else {
        spec_rfind_char(s.drop_last(), c)
    }
}

/// The last occurrence of `c` in the prefix `s[..upto]`, if any.
fn rfind_char_before(s: &str, c: char, upto: usize) -> (r: Option<usize>)
    requires
        upto <= s@.len(),
    ensures
        match r {
            Some(i) => i < upto && i as int == spec_rfind_char(s@.take(upto as int), c),
            None => spec_rfind_char(s@.take(upto as int), c) < 0,
        },
{
    let mut i = upto;
    while i > 0
        invariant
            0 <= i <= upto <= s@.len(),
            spec_rfind_char(s@.take(upto as int), c) == spec_rfind_char(s@.take(i as int), c),
        decreases i,
    {
        proof {
            assert(s@.take(i as int).last() == s@[i - 1]);
            assert(s@.take(i as int).drop_last() =~= s@.take(i - 1));
        }
        if s.get_char(i - 1) == c {
            return Some(i - 1);
        }
        i -= 1;
    }
    proof {
        assert(s@.take(0).len() == 0);
    }
    None
}

/// The key a game object sits under, read backwards from just before its
/// opening brace: trailing whitespace, a colon, more whitespace, and the
/// quoted key; empty when that shape is not there.
pub open spec fn spec_extract_game_key(s: Seq<char>) -> Seq<char> {
    let t = s.take(s.len() - spec_ws_suffix(s));
    if t.len() == 0 || t.last() != ':' {
        Seq::empty()
    } else {
        let u0 = t.take(t.len() - 1);
        let u = u0.take(u0.len() - spec_ws_suffix(u0));
        if u.len() == 0 || u.last() != '"' {
            Seq::empty()
        } else {
            let body = u.take(u.len() - 1);
            let ks = spec_rfind_char(body, '"');
            if ks < 0 {
                Seq::empty()
            } else {
                body.subrange(ks + 1, body.len() as int)
            }
        }
    }
}

/// Reads the key a game object sits under out of the text before its
/// opening brace.
pub fn extract_game_key(before_brace: &str) -> (r: String)
    ensures
        r@ == spec_extract_game_key(before_brace@),
{
    let n = before_brace.unicode_len();
    proof {
        lemma_ws_suffix_le(before_brace@);
        assert(before_brace@.take(n as int) =~= before_brace@);
    }
    let ws1 = ws_suffix_len(before_brace, n);
    let t_end = n - ws1;
    let ghost t = before_brace@.take(t_end as int);
    proof {
        assert(before_brace@.take(n as int).take(t_end as int) =~= t);
    }
    if t_end == 0 {
        return String::new();
    }
    proof {
        assert(t.last() == before_brace@[t_end - 1]);
    }
    if before_brace.get_char(t_end - 1) != ':' {
        return String::new();
    }
    let u0_end = t_end - 1;
    let ghost u0 = before_brace@.take(u0_end as int);
    proof {
        assert(t.take(u0_end as int) =~= u0);
        lemma_ws_suffix_le(u0);
    }
    let ws2 = ws_suffix_len(before_brace, u0_end);
    let u_end = u0_end - ws2;
    let ghost u = before_brace@.take(u_end as int);
    proof {
        assert(u0.take(u_end as int) =~= u);
    }
    if u_end == 0 {
        return String::new();
    }
    proof {
        assert(u.last() == before_brace@[u_end - 1]);
    }
    if before_brace.get_char(u_end - 1) != '"' {
        return String::new();
    }
    let body_end = u_end - 1;
    let ghost body = before_brace@.take(body_end as int);
    proof {
        assert(u.take(body_end as int) =~= body);
    }
    match rfind_char_before(before_brace, '"', body_end) {
        None => String::new(),
        Some(ks) => {
            let v = before_brace.substring_char(ks + 1, body_end);
            proof {
                assert(v@ =~= body.subrange(ks + 1, body.len() as int));
            }
            v.to_owned()
        },
    }
}

/// The opening brace of the object enclosing the scan's starting point:
/// scanning down from `i`, the first `{` with no unmatched `}` seen on the
/// way, or -1.
pub open spec fn spec_scan_back(s: Seq<char>, i: int, count: int) -> int
    decreases i + 1,
{
    if i < 0 || i >= s.len() {
        -1
    } else if s[i] == '{' && count == 0 {
        i
    } else if s[i] == '{' {
        spec_scan_back(s, i - 1, count - 1)
    } else if s[i] == '}' {
        spec_scan_back(s, i - 1, count + 1)
    } else {
        spec_scan_back(s, i - 1, count)
    }
}

/// The scan yields -1 or a position no later than where it started.
pub proof fn lemma_scan_back_le(s: Seq<char>, i: int, count: int)
    ensures
        spec_scan_back(s, i, count) == -1 || (0 <= spec_scan_back(s, i, count) <= i),
    decreases i + 1,
{
    if 0 <= i < s.len() {
        lemma_scan_back_le(s, i - 1, count - 1);
        lemma_scan_back_le(s, i - 1, count + 1);
        lemma_scan_back_le(s, i - 1, count);
    }
}

/// Scans down from `from - 1` for the opening brace of the enclosing
/// object.
fn scan_back(s: &str, from: usize) -> (r: Option<usize>)
    requires
        from <= s@.len(),
    ensures
        match r {
            Some(i) => i < from && i as int == spec_scan_back(s@, from - 1, 0),
            None => spec_scan_back(s@, from - 1, 0) < 0,
        },
{
    let mut i = from;
    let mut count: usize = 0;
    while i > 0
        invariant
            0 <= i <= from <= s@.len(),
            count <= from - i,
            spec_scan_back(s@, from - 1, 0) == spec_scan_back(s@, i - 1, count as int),
        decreases i,
    {
        let c = s.get_char(i - 1);
        if c == '{' && count == 0 {
            return Some(i - 1);
        } else if c == '{' {
            count -= 1;
        } else if c == '}' {
            count += 1;
        }
        i -= 1;
    }
    None
}

/// The closing brace that brings the depth down to zero, scanning up from
/// `i` with `count` braces already open, or -1.
pub open spec fn spec_scan_fwd(s: Seq<char>, i: int, count: int) -> int
    decreases s.len() - i + 1,
{
    if i < 0 || i >= s.len() {
        -1
    } else if s[i] == '{' {
        spec_scan_fwd(s, i + 1, count + 1)
    } else if s[i] == '}' {
        if count == 1 {
            i
        } else {
            spec_scan_fwd(s, i + 1, count - 1)
        }
    } else {
        spec_scan_fwd(s, i + 1, count)
    }
}

/// Scans up from `from` for the closing brace of the object just opened.
fn scan_fwd(s: &str, from: usize) -> (r: Option<usize>)
    requires
        from <= s@.len(),
    ensures
        match r {
            Some(i) => from <= i && i < s@.len() && i as int == spec_scan_fwd(s@, from as int, 1),
            None => spec_scan_fwd(s@, from as int, 1) < 0,
        },
{
    let n = s.unicode_len();
    let mut i = from;
    let mut count: u128 = 1;
    while i < n
        invariant
            from <= i <= n,
            n == s@.len(),
            1 <= count <= 1 + (i - from),
            spec_scan_fwd(s@, from as int, 1) == spec_scan_fwd(s@, i as int, count as int),
        decreases n - i,
    {
        let c = s.get_char(i);
        if c == '{' {
            count += 1;
        } else if c == '}' {
            if count == 1 {
                return Some(i);
            }
            count -= 1;
        }
        i += 1;
    }
    None
}

/// The first occurrence of `c` in `s` at or after `from`, if any.
fn find_char_from(s: &str, c: char, from: usize) -> (r: Option<usize>)
    requires
        from <= s@.len(),
    ensures
        match r {
            Some(i) => from <= i && i < s@.len() && s@[i as int] == c && i as int == from
                + spec_find_char(s@.skip(from as int), c),
            None => spec_find_char(s@.skip(from as int), c) < 0,
        },
{
    let n = s.unicode_len();
    let mut i = from;
    proof {
        assert(s@.skip(from as int).skip(0) =~= s@.skip(from as int));
    }
    while i < n
        invariant
            from <= i <= n,
            n == s@.len(),
            spec_find_char(s@.skip(from as int), c) == if spec_find_char(s@.skip(i as int), c)
                < 0 {
                -1int
            } else {
                (i - from) + spec_find_char(s@.skip(i as int), c)
            },
        decreases n - i,
    {
        proof {
            assert(s@.skip(i as int)[0] == s@[i as int]);
            assert(s@.skip(i as int).drop_first() =~= s@.skip(i + 1));
        }
        if s.get_char(i) == c {
            return Some(i);
        }
        i += 1;
    }
    proof {
        assert(s@.skip(n as int).len() == 0);
    }
    None
}

/// Where the object around a found title starts: the enclosing opening
/// brace, or the title itself when the braces do not close.
pub open spec fn spec_obj_start(json: Seq<char>, abs: int) -> int {
    let b = spec_scan_back(json, abs - 1, 0);
    if b >= 0 {
        b
    } else {
        abs
    }
}

/// Where the object around a found title ends (exclusive): one past its
/// closing brace, or the title itself when the braces do not close.
pub open spec fn spec_obj_end(json: Seq<char>, abs: int) -> int {
    let f = spec_scan_fwd(json, spec_obj_start(json, abs) + 1, 1);
    if f >= 0 {
        f + 1
    } else {
        abs
    }
}

/// Saturating 64-bit addition.
pub open spec fn spec_sat_add64(a: u64, b: u64) -> u64 {
    if a + b > u64::MAX {
        u64::MAX
    } else {
        (a + b) as u64
    }
}

/// Saturating 32-bit addition.
pub open spec fn spec_sat_add32(a: u32, b: u32) -> u32 {
    if a + b > u32::MAX {
        u32::MAX
    } else {
        (a + b) as u32
    }
}

/// The game entries scraped from the file, in order of appearance: each
/// found title key yields the object enclosing it, keyed by the quoted
/// name before its brace; entries without a usable or non-empty title are
/// skipped, and the search continues past each object.
pub open spec fn spec_entries(json: Seq<char>, start: int) -> Seq<GameStatsView>
    decreases json.len() + 1 - start,
{
    if start < 0 || start > json.len() {
        Seq::empty()
    } else {
        let rel = spec_find(json.skip(start), spec_key_pattern("title"@));
        if rel < 0 {
            Seq::empty()
        } else {
            let abs = start + rel;
            if abs + 1 > json.len() {
                Seq::empty()
            } else {
                let obj_start = spec_obj_start(json, abs);
                let obj_end = spec_obj_end(json, abs);
                let key = spec_extract_game_key(json.take(obj_start));
                let entry = spec_parse_game_entry(json.subrange(obj_start, obj_end), key);
                let next = if obj_end > abs && obj_end <= json.len() {
                    obj_end
                } else {
                    abs + 1
                };
                let rest = spec_entries(json, next);
                match entry {
                    Some(g) => if g.title.len() > 0 {
                        seq![g] + rest
                    } else {
                        rest
                    },
                    None => rest,
                }
            }
        }
    }
}

/// The total playtime of a list of entries, saturating.
pub open spec fn spec_total_secs(gs: Seq<GameStatsView>) -> u64
    decreases gs.len(),
{
    if gs.len() == 0 {
        0
    } else {
        spec_sat_add64(spec_total_secs(gs.drop_last()), gs.last().total_seconds)
    }
}

/// The total session count of a list of entries, saturating.
pub open spec fn spec_total_sessions(gs: Seq<GameStatsView>) -> u32
    decreases gs.len(),
{
    if gs.len() == 0 {
        0
    } else {
        spec_sat_add32(spec_total_sessions(gs.drop_last()), gs.last().session_count)
    }
}

/// The views of a list of game entries.
pub open spec fn views_of(gs: Seq<GameStats>) -> Seq<GameStatsView> {
    gs.map_values(|g: GameStats| g@)
}

/// Non-increasing playtime order.
pub open spec fn sorted_desc(gs: Seq<GameStats>) -> bool {
    forall|i: int, j: int| 0 <= i <= j < gs.len() ==> gs[i].total_seconds >= gs[j].total_seconds
}

/// Inserts a game into a list sorted by playtime, keeping the order.
fn sorted_insert(v: &mut Vec<GameStats>, g: GameStats)
    requires
        sorted_desc(old(v)@),
    ensures
        sorted_desc(final(v)@),
        views_of(final(v)@).to_multiset() == views_of(old(v)@).to_multiset().insert(g@),
{
    let mut j: usize = 0;
    let mut found = false;
    while j < v.len() && !found
        invariant
            j <= v@.len(),
            sorted_desc(v@),
            v@ == old(v)@,
            forall|k: int| 0 <= k < j ==> v@[k].total_seconds >= g.total_seconds,
            found ==> j < v@.len() && v@[j as int].total_seconds < g.total_seconds,
        decreases 2 * (v@.len() - j) + (if found {
            0int
        } else {
            1int
        }),
    {
        if v[j].total_seconds < g.total_seconds {
            found = true;
        } else {
            j += 1;
        }
    }
    let ghost gv = g@;
    v.insert(j, g);
    proof {
        let w = v@;
        assert(sorted_desc(w)) by {
            assert(forall|k: int| 0 <= k < j ==> w[k] == old(v)@[k]);
            assert(forall|k: int| j < k < w.len() ==> w[k] == old(v)@[k - 1]);
            assert(w[j as int] == g);
            if found {
                assert(forall|k: int|
                    j < k < w.len() ==> (#[trigger] old(v)@[k - 1]).total_seconds <= old(
                        v,
                    )@[j as int].total_seconds);
            }
        }
        let mw = views_of(w);
        let mo = views_of(old(v)@);
        assert(mw.remove(j as int) =~= mo);
        assert(mw[j as int] == gv);
        mw.to_multiset_ensures();
        assert(mw.remove(j as int).to_multiset() =~= mw.to_multiset().remove(gv));
        assert(mw.to_multiset().contains(gv)) by {
            mw.to_multiset_ensures();
            assert(mw.contains(gv)) by {
                assert(mw[j as int] == gv);
            }
        }
        assert(mw.to_multiset() =~= mo.to_multiset().insert(gv));
    }
}

/// Parses the synced usage file: every game object with a non-empty title
/// becomes one entry, the grand totals sum over them (saturating), and the
/// games come out ordered by playtime, longest first.
pub fn parse_usage_json(json: &str) -> (r: StatsData)
    ensures
        sorted_desc(r.games@),
        views_of(r.games@).to_multiset() == spec_entries(json@, 0).to_multiset(),
        r.total_playtime == spec_total_secs(spec_entries(json@, 0)),
        r.total_sessions == spec_total_sessions(spec_entries(json@, 0)),
{
    let n = json.unicode_len();
    let mut games: Vec<GameStats> = Vec::new();
    let mut total_playtime: u64 = 0;
    let mut total_sessions: u32 = 0;
    let mut start: usize = 0;
    let mut done = false;
    let ghost whole = spec_entries(json@, 0);
    let ghost mut collected: Seq<GameStatsView> = Seq::empty();
    proof {
        assert(Seq::<GameStatsView>::empty() + spec_entries(json@, 0) =~= whole);
        assert(views_of(games@) =~= Seq::<GameStatsView>::empty());
        vstd::seq_lib::lemma_multiset_commutative(Seq::<GameStatsView>::empty(), collected);
    }
    while start <= n && !done
        invariant
            start <= n + 1,
            n == json@.len(),
            whole == spec_entries(json@, 0),
            whole =~= collected + spec_entries(json@, start as int),
            done ==> spec_entries(json@, start as int) =~= Seq::<GameStatsView>::empty(),
            sorted_desc(games@),
            views_of(games@).to_multiset() == collected.to_multiset(),
            total_playtime == spec_total_secs(collected),
            total_sessions == spec_total_sessions(collected),
        decreases 2 * (n + 1 - start) + (if done {
            0int
        } else {
            1int
        }),
    {
        let tail = json.substring_char(start, n);
        proof {
            assert(tail@ =~= json@.skip(start as int));
            assert(spec_key_pattern("title"@) =~= "\"title\":"@) by {
                reveal_strlit("title");
                reveal_strlit("\"title\":");
            }
        }
        match find_sub(tail, "\"title\":") {
            None => {
                proof {
                    assert(spec_entries(json@, start as int) =~= Seq::<GameStatsView>::empty());
                }
                done = true;
            },
            Some(rel) => {
                proof {
                    lemma_spec_find(tail@, "\"title\":"@);
                    assert(matches_at(tail@, "\"title\":"@, rel as int));
                    reveal_strlit("\"title\":");
                    assert(start + rel + 1 <= n);
                }
                let abs = start + rel;
                let obj_start = match scan_back(json, abs) {
                    Some(b) => b,
                    None => abs,
                };
                proof {
                    assert(obj_start as int == spec_obj_start(json@, abs as int));
                }
                let obj_end = match scan_fwd(json, obj_start + 1) {
                    Some(f) => f + 1,
                    None => abs,
                };
                proof {
                    assert(obj_end as int == spec_obj_end(json@, abs as int));
                }
                let before = json.substring_char(0, obj_start);
                proof {
                    assert(before@ =~= json@.take(obj_start as int));
                }
                let game_key = extract_game_key(before);
                proof {
                    lemma_scan_back_le(json@, abs - 1, 0);
                    assert(obj_start <= abs);
                }
                let game_json = json.substring_char(obj_start, obj_end);
                proof {
                    assert(game_json@ =~= json@.subrange(obj_start as int, obj_end as int));
                }
                let next = if obj_end > abs && obj_end <= n {
                    obj_end
                } else {
                    abs + 1
                };
                match parse_game_entry(game_json, game_key) {
                    Some(g) => {
                        if !g.title.as_str().is_empty() {
                            proof {
                                assert(spec_entries(json@, start as int) =~= seq![g@]
                                    + spec_entries(json@, next as int));
                            }
                            let ghost gv = g@;
                            let new_playtime = if total_playtime <= u64::MAX - g.total_seconds {
                                total_playtime + g.total_seconds
                            } else {
                                u64::MAX
                            };
                            let new_sessions = if total_sessions <= u32::MAX - g.session_count {
                                total_sessions + g.session_count
                            } else {
                                u32::MAX
                            };
                            sorted_insert(&mut games, g);
                            total_playtime = new_playtime;
                            total_sessions = new_sessions;
                            proof {
                                views_of(games@).to_multiset_ensures();
                                collected.to_multiset_ensures();
                                assert(collected.push(gv).drop_last() =~= collected);
                                assert(collected.push(gv).to_multiset() =~= collected.to_multiset().insert(gv));
                                collected = collected.push(gv);
                                assert(collected + spec_entries(json@, next as int) =~= whole);
                            }
                        } else {
                            proof {
                                assert(spec_entries(json@, start as int) =~= spec_entries(
                                    json@,
                                    next as int,
                                ));
                            }
                        }
                    },
                    None => {
                        proof {
                            assert(spec_entries(json@, start as int) =~= spec_entries(
                                json@,
                                next as int,
                            ));
                        }
                    },
                }
                start = next;
            },
        }
    }
    proof {
        if !done {
            assert(spec_entries(json@, start as int) =~= Seq::<GameStatsView>::empty());
        }
        assert(whole =~= collected);
        assert(spec_total_secs(whole) == spec_total_secs(collected));
    }
    StatsData { games, total_playtime, total_sessions }
}

} // verus!
