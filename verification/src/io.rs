//! The compute side of CSV import and export: turning raw record fields into
//! people and shifts, and shifts into export rows. Reading and writing the
//! files themselves is left to the caller.

use vstd::prelude::*;

use crate::model::{Person, Roster, Shift, VacationPeriod};
use crate::timefmt::{
    date_render, parse_rfc3339_utc, parse_ymd_date, rfc3339_parse, rfc3339_render,
    rfc3339_utc_string, ymd_parse,
};

verus! {

/// The Unicode `White_Space` property, written out: what `str::trim` strips.
pub open spec fn spec_is_whitespace(c: char) -> bool {
    ||| ('\u{09}' <= c && c <= '\u{0d}')
    ||| c == ' '
    ||| c == '\u{85}'
    ||| c == '\u{a0}'
    ||| c == '\u{1680}'
    ||| ('\u{2000}' <= c && c <= '\u{200a}')
    ||| c == '\u{2028}'
    ||| c == '\u{2029}'
    ||| c == '\u{202f}'
    ||| c == '\u{205f}'
    ||| c == '\u{3000}'
}

/// Whitespace test over the characters of the `White_Space` property.
pub fn is_space(c: char) -> (r: bool)
    ensures
        r == spec_is_whitespace(c),
{
    ('\u{09}' <= c && c <= '\u{0d}') || c == ' ' || c == '\u{85}' || c == '\u{a0}' || c
        == '\u{1680}' || ('\u{2000}' <= c && c <= '\u{200a}') || c == '\u{2028}' || c == '\u{2029}'
        || c == '\u{202f}' || c == '\u{205f}' || c == '\u{3000}'
}

/// `s` without leading and trailing whitespace.
pub open spec fn spec_trim(s: Seq<char>) -> Seq<char>
    decreases s.len(),
{
    if s.len() == 0 {
        s
    } else if spec_is_whitespace(s[0]) {
        spec_trim(s.drop_first())
    } else if spec_is_whitespace(s.last()) {
        spec_trim(s.drop_last())
    } else {
        s
    }
}

/// A window `[lo, hi)` that strips exactly the whitespace margins realizes
/// `spec_trim`.
proof fn lemma_trim_window(s: Seq<char>, lo: int, hi: int)
    requires
        0 <= lo <= hi <= s.len(),
        forall|k: int| 0 <= k < lo ==> spec_is_whitespace(#[trigger] s[k]),
        forall|k: int| hi <= k < s.len() ==> spec_is_whitespace(#[trigger] s[k]),
        lo < hi ==> !spec_is_whitespace(s[lo]) && !spec_is_whitespace(s[hi - 1]),
    ensures
        spec_trim(s) == s.subrange(lo, hi),
    decreases s.len(),
{
    if s.len() == 0 {
        assert(spec_trim(s) =~= s.subrange(lo, hi));
    } else if spec_is_whitespace(s[0]) {
        assert(lo > 0 || lo == hi) by {
            if lo == 0 && lo < hi {
                assert(!spec_is_whitespace(s[0]));
            }
        }
        let t = s.drop_first();
        if lo == hi {
            if lo == 0 {
                lemma_trim_window(t, 0, 0);
            } else {
                lemma_trim_window(t, lo - 1, hi - 1);
            }
            assert(spec_trim(s) =~= s.subrange(lo, hi));
        } else {
            assert(forall|k: int| 0 <= k < lo - 1 ==> spec_is_whitespace(#[trigger] t[k]));
            assert(forall|k: int| hi - 1 <= k < t.len() ==> spec_is_whitespace(#[trigger] t[k]));
            lemma_trim_window(t, lo - 1, hi - 1);
            assert(spec_trim(s) =~= s.subrange(lo, hi));
        }
    } else if spec_is_whitespace(s.last()) {
        let n = s.len() as int;
        assert(hi < n || lo == hi) by {
            if hi == n && lo < hi {
                assert(!spec_is_whitespace(s[n - 1]));
            }
        }
        let t = s.drop_last();
        if lo == hi {
            if hi == n {
                lemma_trim_window(t, lo - 1, hi - 1);
            } else {
                lemma_trim_window(t, lo, hi);
            }
            assert(spec_trim(s) =~= s.subrange(lo, hi));
        } else {
            lemma_trim_window(t, lo, hi);
            assert(spec_trim(s) =~= s.subrange(lo, hi));
        }
    } else {
        assert(lo == 0 && hi == s.len());
        assert(spec_trim(s) =~= s.subrange(lo, hi));
    }
}

/// `s` with leading and trailing whitespace removed, as `str::trim` strips
/// it.
pub fn trim_str(s: &str) -> (r: String)
    ensures
        r@ == spec_trim(s@),
{
    let n = s.unicode_len();
    let mut lo: usize = 0;
    while lo < n && is_space(s.get_char(lo))
        invariant
            lo <= n,
            n == s@.len(),
            forall|k: int| 0 <= k < lo ==> spec_is_whitespace(#[trigger] s@[k]),
        decreases n - lo,
    {
        lo += 1;
    }
    let mut hi: usize = n;
    while hi > lo && is_space(s.get_char(hi - 1))
        invariant
            lo <= hi <= n,
            n == s@.len(),
            forall|k: int| hi <= k < n ==> spec_is_whitespace(#[trigger] s@[k]),
        decreases hi,
    {
        hi -= 1;
    }
    proof {
        lemma_trim_window(s@, lo as int, hi as int);
    }
    let piece = s.substring_char(lo, hi);
    piece.to_owned()
}

/// `s` is empty or all whitespace: what "blank" means for imported fields.
pub open spec fn spec_is_blank(s: Seq<char>) -> bool {
    spec_trim(s).len() == 0
}

/// Whether `s` trims away to nothing.
pub fn is_blank(s: &str) -> (r: bool)
    ensures
        r == spec_is_blank(s@),
{
    let t = trim_str(s);
    t.as_str().unicode_len() == 0
}

/// ASCII letters mapped to lower case; other characters unchanged.
pub open spec fn spec_ascii_lower(c: char) -> char {
    if 'A' <= c && c <= 'Z' {
        ((c as u8) + 32) as char
    } else {
        c
    }
}

/// `s` with its ASCII letters lowered.
pub open spec fn spec_lower(s: Seq<char>) -> Seq<char> {
    Seq::new(s.len(), |i: int| spec_ascii_lower(s[i]))
}

/// Whether `a`, ASCII-lowercased, reads exactly as `b`.
fn eq_lower(a: &str, b: &str) -> (r: bool)
    ensures
        r == (spec_lower(a@) == b@),
{
    let n = a.unicode_len();
    if n != b.unicode_len() {
        proof {
            assert(spec_lower(a@).len() != b@.len());
        }
        return false;
    }
    let mut i: usize = 0;
    while i < n
        invariant
            i <= n,
            n == a@.len(),
            n == b@.len(),
            forall|k: int| 0 <= k < i ==> spec_lower(a@)[k] == b@[k],
        decreases n - i,
    {
        let c = a.get_char(i);
        let low: char = if 'A' <= c && c <= 'Z' {
            (((c as u32) as u8) + 32) as char
        } else {
            c
        };
        proof {
            assert(low == spec_ascii_lower(a@[i as int]));
        }
        if low != b.get_char(i) {
            proof {
                assert(spec_lower(a@)[i as int] != b@[i as int]);
            }
            return false;
        }
        i += 1;
    }
    proof {
        assert(spec_lower(a@) =~= b@);
    }
    true
}

/// How a boolean field reads: a recognized truthy or falsey word (ASCII
/// case-insensitive), or nothing.
pub open spec fn spec_parse_bool(s: Seq<char>) -> Option<bool> {
    let l = spec_lower(s);
    if l == "true"@ || l == "1"@ || l == "yes"@ || l == "y"@ || l == "oui"@ {
        Some(true)
    } else if l == "false"@ || l == "0"@ || l == "no"@ || l == "n"@ || l == "non"@ {
        Some(false)
    } else {
        None
    }
}

/// Reads a boolean field: `true/1/yes/y/oui` and `false/0/no/n/non`, ASCII
/// case-insensitive; anything else is rejected.
pub fn parse_bool(s: &str) -> (r: Result<bool, String>)
    ensures
        match r {
            Ok(b) => spec_parse_bool(s@) == Some(b),
            Err(e) => spec_parse_bool(s@) is None && e@ == "expected boolean"@,
        },
{
    if eq_lower(s, "true") || eq_lower(s, "1") || eq_lower(s, "yes") || eq_lower(s, "y")
        || eq_lower(s, "oui") {
        Ok(true)
    } else if eq_lower(s, "false") || eq_lower(s, "0") || eq_lower(s, "no") || eq_lower(s, "n")
        || eq_lower(s, "non") {
        Ok(false)
    } else {
        Err("expected boolean".to_owned())
    }
}

/// Index of the first occurrence of `c` in `s`, if any.
pub open spec fn spec_find_char(s: Seq<char>, c: char) -> Option<int>
    decreases s.len(),
{
    if s.len() == 0 {
        None
    } else if s[0] == c {
        Some(0int)
    } else {
        match spec_find_char(s.drop_first(), c) {
            Some(i) => Some(i + 1),
            None => None,
        }
    }
}

/// Index where the first `..` of `s` starts, if any.
pub open spec fn spec_find_dotdot(s: Seq<char>) -> Option<int>
    decreases s.len(),
{
    if s.len() < 2 {
        None
    } else if s[0] == '.' && s[1] == '.' {
        Some(0int)
    } else {
        match spec_find_dotdot(s.drop_first()) {
            Some(i) => Some(i + 1),
            None => None,
        }
    }
}

/// First occurrence of `c` in `s`.
fn find_char(s: &str, c: char) -> (r: Option<usize>)
    ensures
        match r {
            Some(i) => spec_find_char(s@, c) == Some(i as int) && i < s@.len() && s@[i as int]
                == c,
            None => spec_find_char(s@, c) is None,
        },
{
    let n = s.unicode_len();
    let mut i: usize = 0;
    proof {
        assert(s@.skip(0int) =~= s@);
    }
    while i < n
        invariant
            i <= n,
            n == s@.len(),
            match spec_find_char(s@.skip(i as int), c) {
                Some(j) => spec_find_char(s@, c) == Some(j + i),
                None => spec_find_char(s@, c) is None,
            },
        decreases n - i,
    {
        proof {
            assert(s@.skip(i as int).drop_first() =~= s@.skip(i as int + 1));
            assert(s@.skip(i as int)[0] == s@[i as int]);
        }
        if s.get_char(i) == c {
            return Some(i);
        }
        i += 1;
    }
    proof {
        assert(s@.skip(n as int) =~= Seq::<char>::empty());
    }
    None
}

/// Start of the first `..` in `s`.
fn find_dotdot(s: &str) -> (r: Option<usize>)
    ensures
        match r {
            Some(i) => spec_find_dotdot(s@) == Some(i as int) && i + 1 < s@.len(),
            None => spec_find_dotdot(s@) is None,
        },
{
    let n = s.unicode_len();
    let mut i: usize = 0;
    proof {
        assert(s@.skip(0int) =~= s@);
    }
    while n >= 1 && i < n - 1
        invariant
            i <= n,
            n == s@.len(),
            match spec_find_dotdot(s@.skip(i as int)) {
                Some(j) => spec_find_dotdot(s@) == Some(j + i),
                None => spec_find_dotdot(s@) is None,
            },
        decreases n - i,
    {
        proof {
            assert(s@.skip(i as int).drop_first() =~= s@.skip(i as int + 1));
            assert(s@.skip(i as int)[0] == s@[i as int]);
            assert(s@.skip(i as int)[1] == s@[i as int + 1]);
        }
        if s.get_char(i) == '.' && s.get_char(i + 1) == '.' {
            return Some(i);
        }
        i += 1;
    }
    proof {
        assert(s@.skip(i as int).len() < 2);
    }
    None
}

/// How a time point field reads: a relaxed-RFC3339 instant, else a bare
/// `%Y-%m-%d` date taken at UTC midnight; the flag records that a bare date
/// was read.
pub open spec fn spec_parse_point(s: Seq<char>) -> Option<(int, bool)> {
    match rfc3339_parse(s) {
        Some(t) => Some((t, false)),
        None => match ymd_parse(s) {
            Some(d) => Some((d * 86400, true)),
            None => None,
        },
    }
}

/// Reads a time point: a relaxed-RFC3339 instant, else a bare `%Y-%m-%d`
/// date taken at UTC midnight (the flag says which). The value stays within
/// chrono's calendar, under 8.7e12 seconds from the epoch either way.
pub fn parse_point(raw: &str) -> (r: Result<(i64, bool), String>)
    ensures
        match r {
            Ok(p) => spec_parse_point(raw@) == Some((p.0 as int, p.1))
                && -8_640_000_000_000 <= p.0 <= 8_640_000_000_000,
            Err(e) => spec_parse_point(raw@) is None && e@ == "invalid date/datetime: "@ + raw@,
        },
{
    match parse_rfc3339_utc(raw) {
        Some(t) => Ok((t, false)),
        None => match parse_ymd_date(raw) {
            Some(d) => Ok((d * 86400, true)),
            None => Err("invalid date/datetime: ".to_owned().concat(raw)),
        },
    }
}

/// How one vacation chunk reads: two point fields separated by the first `/`
/// (else the first `..`), each trimmed, the end advanced by one day when it
/// was a bare date; or a single point, spanning one day from it. The interval
/// must be non-empty. An `Err` carries the message text.
pub open spec fn spec_parse_vacation_chunk(s: Seq<char>) -> Result<VacationPeriod, Seq<char>> {
    let halves = match spec_find_char(s, '/') {
        Some(i) => Some((s.subrange(0, i), s.subrange(i + 1, s.len() as int))),
        None => match spec_find_dotdot(s) {
            Some(i) => Some((s.subrange(0, i), s.subrange(i + 2, s.len() as int))),
            None => None,
        },
    };
    let bounds = match halves {
        Some((l, rr)) => match spec_parse_point(spec_trim(l)) {
            Some(st) => match spec_parse_point(spec_trim(rr)) {
                Some(en) => Ok((st.0, if en.1 {
                    en.0 + 86400
                } else {
                    en.0
                })),
                None => Err("invalid date/datetime: "@ + spec_trim(rr)),
            },
            None => Err("invalid date/datetime: "@ + spec_trim(l)),
        },
        None => match spec_parse_point(s) {
            Some(st) => Ok((st.0, st.0 + 86400)),
            None => Err("invalid date/datetime: "@ + s),
        },
    };
    match bounds {
        Ok((st, en)) => if en > st {
            Ok(VacationPeriod { start: st as i64, end: en as i64 })
        } else {
            Err("vacation end must be after start"@)
        },
        Err(m) => Err(m),
    }
}

/// Reads one vacation chunk (already trimmed by the caller): `start/end`,
/// `start..end`, or a single day.
pub fn parse_vacation_chunk(chunk: &str) -> (r: Result<VacationPeriod, String>)
    ensures
        match r {
            Ok(v) => spec_parse_vacation_chunk(chunk@) == Ok::<VacationPeriod, Seq<char>>(v),
            Err(e) => spec_parse_vacation_chunk(chunk@) matches Err(m) && e@ == m,
        },
{
    let n = chunk.unicode_len();
    let halves: Option<(String, String)> = match find_char(chunk, '/') {
        Some(i) => Some(
            (chunk.substring_char(0, i).to_owned(), chunk.substring_char(i + 1, n).to_owned()),
        ),
        None => match find_dotdot(chunk) {
            Some(i) => Some(
                (chunk.substring_char(0, i).to_owned(), chunk.substring_char(i + 2, n).to_owned()),
            ),
            None => None,
        },
    };
    let (start, end): (i64, i64) = match halves {
        Some((l, rr)) => {
            let lt = trim_str(l.as_str());
            let st = match parse_point(lt.as_str()) {
                Ok(p) => p,
                Err(e) => {
                    return Err(e);
                },
            };
            let rt = trim_str(rr.as_str());
            let en = match parse_point(rt.as_str()) {
                Ok(p) => p,
                Err(e) => {
                    return Err(e);
                },
            };
            (st.0, if en.1 {
                en.0 + 86400
            } else {
                en.0
            })
        },
        None => {
            let st = match parse_point(chunk) {
                Ok(p) => p,
                Err(e) => {
                    return Err(e);
                },
            };
            (st.0, st.0 + 86400)
        },
    };
    VacationPeriod::new(start, end)
}

/// How a whole vacations field reads, scanning from `i` with the current
/// chunk starting at `start`: chunks are separated by `;`, blank chunks are
/// passed over, and each remaining chunk is trimmed and read as an interval;
/// the first failure aborts with its message.
pub open spec fn spec_parse_vacations_from(s: Seq<char>, start: int, i: int) -> Result<
    Seq<VacationPeriod>,
    Seq<char>,
>
    decreases s.len() - i,
{
    if !(0 <= start <= i <= s.len()) {
        Err(Seq::empty())
    } else if i == s.len() {
        let c = s.subrange(start, i);
        if spec_is_blank(c) {
            Ok(Seq::empty())
        } else {
            match spec_parse_vacation_chunk(spec_trim(c)) {
                Ok(v) => Ok(seq![v]),
                Err(m) => Err(m),
            }
        }
    } else if s[i] == ';' {
        let c = s.subrange(start, i);
        if spec_is_blank(c) {
            spec_parse_vacations_from(s, i + 1, i + 1)
        } else {
            match spec_parse_vacation_chunk(spec_trim(c)) {
                Ok(v) => match spec_parse_vacations_from(s, i + 1, i + 1) {
                    Ok(rest) => Ok(seq![v] + rest),
                    Err(m) => Err(m),
                },
                Err(m) => Err(m),
            }
        }
    } else {
        spec_parse_vacations_from(s, start, i + 1)
    }
}

/// How a whole vacations field reads.
pub open spec fn spec_parse_vacations(s: Seq<char>) -> Result<Seq<VacationPeriod>, Seq<char>> {
    spec_parse_vacations_from(s, 0, 0)
}

/// Reads a `;`-separated list of vacation chunks, passing blank chunks over;
/// the first bad chunk aborts with its message.
pub fn parse_vacations(raw: &str) -> (r: Result<Vec<VacationPeriod>, String>)
    ensures
        match r {
            Ok(v) => spec_parse_vacations(raw@) == Ok::<Seq<VacationPeriod>, Seq<char>>(v@),
            Err(e) => spec_parse_vacations(raw@) matches Err(m) && e@ == m,
        },
{
    let n = raw.unicode_len();
    let mut out: Vec<VacationPeriod> = Vec::new();
    let mut start: usize = 0;
    let mut i: usize = 0;
    while i < n
        invariant
            0 <= start <= i <= n,
            n == raw@.len(),
            match spec_parse_vacations_from(raw@, start as int, i as int) {
                Ok(rest) => spec_parse_vacations(raw@) == Ok::<Seq<VacationPeriod>, Seq<char>>(
                    out@ + rest,
                ),
                Err(m) => spec_parse_vacations(raw@) == Err::<Seq<VacationPeriod>, Seq<char>>(m),
            },
        decreases n - i,
    {
        if raw.get_char(i) == ';' {
            let chunk = raw.substring_char(start, i).to_owned();
            if !is_blank(chunk.as_str()) {
                let t = trim_str(chunk.as_str());
                let ghost before = out@;
                match parse_vacation_chunk(t.as_str()) {
                    Ok(v) => {
                        out.push(v);
                        proof {
                            let rest = spec_parse_vacations_from(
                                raw@,
                                i as int + 1,
                                i as int + 1,
                            );
                            if rest is Ok {
                                assert(before + (seq![v] + rest->Ok_0) =~= out@ + rest->Ok_0);
                            }
                        }
                    },
                    Err(e) => {
                        return Err(e);
                    },
                }
            }
            start = i + 1;
        }
        i += 1;
    }
    let chunk = raw.substring_char(start, n).to_owned();
    if !is_blank(chunk.as_str()) {
        let t = trim_str(chunk.as_str());
        let ghost before = out@;
        match parse_vacation_chunk(t.as_str()) {
            Ok(v) => {
                out.push(v);
                proof {
                    assert(before + seq![v] =~= out@);
                }
            },
            Err(e) => {
                return Err(e);
            },
        }
    } else {
        proof {
            assert(out@ + Seq::<VacationPeriod>::empty() =~= out@);
        }
    }
    Ok(out)
}


/// How a people-CSV record reads: `handle,display_name[,on_vacation][,vacations]`,
/// each field trimmed; handle and display name must be non-blank; an absent
/// or blank optional field falls back to its default.
pub open spec fn spec_person_record(fields: Seq<Seq<char>>) -> Result<
    (Seq<char>, Seq<char>, bool, Seq<VacationPeriod>),
    Seq<char>,
> {
    if fields.len() < 1 {
        Err("missing handle"@)
    } else if fields.len() < 2 {
        Err("missing display_name"@)
    } else {
        let handle = spec_trim(fields[0]);
        let display = spec_trim(fields[1]);
        if handle.len() == 0 || display.len() == 0 {
            Err("invalid people row (empty)"@)
        } else {
            let flag = if fields.len() >= 3 && !spec_is_blank(fields[2]) {
                spec_parse_bool(spec_trim(fields[2]))
            } else {
                Some(false)
            };
            match flag {
                None => Err("invalid on_vacation value for handle "@ + handle),
                Some(b) => if fields.len() >= 4 && !spec_is_blank(fields[3]) {
                    match spec_parse_vacations(spec_trim(fields[3])) {
                        Ok(vs) => Ok((handle, display, b, vs)),
                        Err(m) => Err("invalid vacations value for handle "@ + handle),
                    }
                } else {
                    Ok((handle, display, b, Seq::empty()))
                },
            }
        }
    }
}

/// Builds a `Person` from the fields of one people-CSV record (a fresh
/// identifier is drawn for them).
pub fn person_from_record(fields: &Vec<String>) -> (r: Result<Person, String>)
    ensures
        match r {
            Ok(p) => spec_person_record(fields.deep_view()) == Ok::<
                (Seq<char>, Seq<char>, bool, Seq<VacationPeriod>),
                Seq<char>,
            >((p.handle@, p.display_name@, p.on_vacation, p.vacations@)),
            Err(e) => spec_person_record(fields.deep_view()) matches Err(m) && e@ == m,
        },
{
    proof {
        assert(fields.deep_view().len() == fields@.len());
        assert(forall|i: int|
            0 <= i < fields@.len() ==> fields.deep_view()[i] == fields@[i]@);
    }
    if fields.len() < 1 {
        return Err("missing handle".to_owned());
    }
    if fields.len() < 2 {
        return Err("missing display_name".to_owned());
    }
    let handle = trim_str(fields[0].as_str());
    let display = trim_str(fields[1].as_str());
    if handle.as_str().unicode_len() == 0 || display.as_str().unicode_len() == 0 {
        return Err("invalid people row (empty)".to_owned());
    }
    let mut person = Person::new(handle.as_str(), display.as_str());
    if fields.len() >= 3 && !is_blank(fields[2].as_str()) {
        let f = trim_str(fields[2].as_str());
        match parse_bool(f.as_str()) {
            Ok(b) => {
                person.on_vacation = b;
            },
            Err(_) => {
                return Err(
                    "invalid on_vacation value for handle ".to_owned().concat(handle.as_str()),
                );
            },
        }
    }
    if fields.len() >= 4 && !is_blank(fields[3].as_str()) {
        let v = trim_str(fields[3].as_str());
        match parse_vacations(v.as_str()) {
            Ok(vs) => {
                person.vacations = vs;
            },
            Err(_) => {
                return Err(
                    "invalid vacations value for handle ".to_owned().concat(handle.as_str()),
                );
            },
        }
    }
    Ok(person)
}

/// How a shifts-CSV record reads: `name,start,end`, each field trimmed, the
/// two instants in RFC3339, and the interval non-empty.
pub open spec fn spec_shift_record(fields: Seq<Seq<char>>) -> Result<
    (Seq<char>, int, int),
    Seq<char>,
> {
    if fields.len() < 1 {
        Err("missing name"@)
    } else if fields.len() < 2 {
        Err("missing start"@)
    } else if fields.len() < 3 {
        Err("missing end"@)
    } else {
        let name = spec_trim(fields[0]);
        match rfc3339_parse(spec_trim(fields[1])) {
            None => Err("start RFC3339"@),
            Some(st) => match rfc3339_parse(spec_trim(fields[2])) {
                None => Err("end RFC3339"@),
                Some(en) => if en > st {
                    Ok((name, st, en))
                } else {
                    Err("end must be strictly after start"@)
                },
            },
        }
    }
}

/// Builds an unassigned `Shift` from the fields of one shifts-CSV record (a
/// fresh identifier is drawn for it).
pub fn shift_from_record(fields: &Vec<String>) -> (r: Result<Shift, String>)
    ensures
        match r {
            Ok(s) => spec_shift_record(fields.deep_view()) == Ok::<(Seq<char>, int, int), Seq<char>>(
                (s.name@, s.start as int, s.end as int),
            ) && s.role is None && s.assigned is None,
            Err(e) => spec_shift_record(fields.deep_view()) matches Err(m) && e@ == m,
        },
{
    proof {
        assert(fields.deep_view().len() == fields@.len());
        assert(forall|i: int|
            0 <= i < fields@.len() ==> fields.deep_view()[i] == fields@[i]@);
    }
    if fields.len() < 1 {
        return Err("missing name".to_owned());
    }
    if fields.len() < 2 {
        return Err("missing start".to_owned());
    }
    if fields.len() < 3 {
        return Err("missing end".to_owned());
    }
    let name = trim_str(fields[0].as_str());
    let st_text = trim_str(fields[1].as_str());
    let start = match parse_rfc3339_utc(st_text.as_str()) {
        Some(t) => t,
        None => {
            return Err("start RFC3339".to_owned());
        },
    };
    let en_text = trim_str(fields[2].as_str());
    let end = match parse_rfc3339_utc(en_text.as_str()) {
        Some(t) => t,
        None => {
            return Err("end RFC3339".to_owned());
        },
    };
    Shift::new(name, start, end, None)
}

/// One row of the shifts-CSV export:
/// `id,name,start,end,assigned_handle`.
#[derive(Debug, Clone)]
pub struct ShiftCsvRow {
    pub id: String,
    pub name: String,
    pub start: String,
    pub end: String,
    pub assigned_handle: String,
}

/// The text of an optional rendering; empty when there is none.
pub open spec fn spec_opt_text(t: Option<Seq<char>>) -> Seq<char> {
    match t {
        Some(x) => x,
        None => Seq::empty(),
    }
}

/// `row` renders `s`: identifier and name verbatim, the interval in RFC3339,
/// and the handle of the first person holding the assignee's identifier
/// (empty when unassigned or unknown).
pub open spec fn spec_row_matches(row: ShiftCsvRow, s: Shift, people: Seq<Person>) -> bool {
    &&& row.id@ == s.id@
    &&& row.name == s.name
    &&& row.start@ == spec_opt_text(rfc3339_render(s.start as int))
    &&& row.end@ == spec_opt_text(rfc3339_render(s.end as int))
    &&& row.assigned_handle@ == match s.assignee() {
        Some(pid) => match crate::model::spec_find_person_by_id(people, pid) {
            Some(p) => p.handle@,
            None => Seq::<char>::empty(),
        },
        None => Seq::<char>::empty(),
    }
}

/// Renders every shift of the roster as one export row, in roster order.
pub fn export_shift_rows(roster: &Roster) -> (r: Vec<ShiftCsvRow>)
    ensures
        r@.len() == roster.shifts@.len(),
        forall|i: int|
            0 <= i < r@.len() ==> spec_row_matches(
                #[trigger] r@[i],
                roster.shifts@[i],
                roster.people@,
            ),
{
    let n = roster.shifts.len();
    let mut out: Vec<ShiftCsvRow> = Vec::new();
    let mut i: usize = 0;
    while i < n
        invariant
            i <= n,
            n == roster.shifts@.len(),
            out@.len() == i,
            forall|k: int|
                0 <= k < i ==> spec_row_matches(
                    #[trigger] out@[k],
                    roster.shifts@[k],
                    roster.people@,
                ),
        decreases n - i,
    {
        let s = &roster.shifts[i];
        let start = match rfc3339_utc_string(s.start) {
            Some(t) => t,
            None => String::new(),
        };
        let end = match rfc3339_utc_string(s.end) {
            Some(t) => t,
            None => String::new(),
        };
        let assigned_handle = match &s.assigned {
            Some(pid) => match roster.find_person_by_id(pid) {
                Some(p) => p.handle.clone(),
                None => String::new(),
            },
            None => String::new(),
        };
        let row = ShiftCsvRow {
            id: s.id.as_str().to_owned(),
            name: s.name.clone(),
            start,
            end,
            assigned_handle,
        };
        out.push(row);
        i += 1;
    }
    out
}

} // verus!
