//! Budget limits read from environment values and `.env`-shaped files.

use vstd::prelude::*;
use crate::errors::ReportError;
use crate::text::{
    chars_of, decimal, index_of, index_of_exec, lemma_index_of_bounds, push_chars,
    push_decimal, seq_eq, slice_vec, string_of, trim, trim_end, trim_start, trimmed,
};

verus! {

/// Supported metric kinds for budget limits.
#[derive(Debug, Clone, Copy, PartialEq, Eq)]
pub enum MetricKind {
    CpuInstructions,
    ReadBytes,
    WriteBytes,
}

/// The display label of `m`.
pub open spec fn metric_label(m: MetricKind) -> Seq<char> {
    match m {
        MetricKind::CpuInstructions => "CPU Instructions"@,
        MetricKind::ReadBytes => "Read Bytes"@,
        MetricKind::WriteBytes => "Write Bytes"@,
    }
}

impl MetricKind {
    /// Returns the display label for this metric.
    pub fn label(&self) -> (r: &'static str)
        ensures
            r@ == metric_label(*self),
    {
        match self {
            MetricKind::CpuInstructions => "CPU Instructions",
            MetricKind::ReadBytes => "Read Bytes",
            MetricKind::WriteBytes => "Write Bytes",
        }
    }
}

// ---------------------------------------------------------------------------
// Decimal parsing with the rules of `u64::from_str`
// ---------------------------------------------------------------------------

/// Why a string is not a `u64`.
#[derive(Debug, Clone, Copy, PartialEq, Eq)]
pub enum IntParseFailure {
    /// The string is empty.
    Empty,
    /// A character is not a decimal digit (or a lone sign).
    InvalidDigit,
    /// The value exceeds `u64::MAX`.
    Overflow,
}

/// `c` is an ASCII decimal digit.
pub open spec fn is_digit(c: char) -> bool {
    '0' <= c && c <= '9'
}

/// The value of the ASCII digit `c`.
pub open spec fn digit_value(c: char) -> nat {
    (c as u32 - 48) as nat
}

/// Reads decimal digits left to right onto `acc`, failing at the first
/// non-digit or at the first step that would exceed `u64::MAX`.
pub open spec fn scan_digits(acc: nat, s: Seq<char>) -> Result<nat, IntParseFailure>
    decreases s.len(),
{
    if s.len() == 0 {
        Ok(acc)
    } else if !is_digit(s[0]) {
        Err(IntParseFailure::InvalidDigit)
    } else if acc * 10 + digit_value(s[0]) > u64::MAX {
        Err(IntParseFailure::Overflow)
    } else {
        scan_digits(acc * 10 + digit_value(s[0]), s.drop_first())
    }
}

/// `s` read as a `u64`: an optional leading `+`, then one or more decimal
/// digits, with a value of at most `u64::MAX`.
pub open spec fn parse_u64(s: Seq<char>) -> Result<u64, IntParseFailure> {
    if s.len() == 0 {
        Err(IntParseFailure::Empty)
    } else if (s[0] == '+' || s[0] == '-') && s.len() == 1 {
        Err(IntParseFailure::InvalidDigit)
    } else {
        let digits = if s[0] == '+' {
            s.drop_first()
        } else {
            s
        };
        match scan_digits(0, digits) {
            Ok(v) => Ok(v as u64),
            Err(e) => Err(e),
        }
    }
}

proof fn lemma_scan_bound(acc: nat, s: Seq<char>)
    ensures
        scan_digits(acc, s) matches Ok(v) ==> (acc <= v && v <= u64::MAX) || s.len() == 0,
    decreases s.len(),
{
    if s.len() > 0 && is_digit(s[0]) && acc * 10 + digit_value(s[0]) <= u64::MAX {
        lemma_scan_bound(acc * 10 + digit_value(s[0]), s.drop_first());
    }
}

/// Parses `s` with the rules of [`parse_u64`].
pub fn parse_u64_chars(s: &Vec<char>) -> (r: Result<u64, IntParseFailure>)
    ensures
        r == parse_u64(s@),
{
    if s.len() == 0 {
        return Err(IntParseFailure::Empty);
    }
    if (s[0] == '+' || s[0] == '-') && s.len() == 1 {
        return Err(IntParseFailure::InvalidDigit);
    }
    let start: usize = if s[0] == '+' { 1 } else { 0 };
    let ghost digits = s@.subrange(start as int, s@.len() as int);
    proof {
        if s@[0] == '+' {
            assert(digits =~= s@.drop_first());
        } else {
            assert(digits =~= s@);
        }
    }
    let mut acc: u64 = 0;
    let mut i: usize = start;
    while i < s.len()
        invariant
            start <= i <= s@.len(),
            digits == s@.subrange(start as int, s@.len() as int),
            parse_u64(s@) == (match scan_digits(0, digits) {
                Ok(v) => Ok(v as u64),
                Err(e) => Err(e),
            }),
            scan_digits(0, digits) == scan_digits(acc as nat, s@.subrange(i as int, s@.len() as int)),
        decreases s.len() - i,
    {
        let c = s[i];
        let ghost rest = s@.subrange(i as int, s@.len() as int);
        proof {
            assert(rest[0] == c);
            assert(rest.drop_first() =~= s@.subrange(i + 1, s@.len() as int));
        }
        if !('0' <= c && c <= '9') {
            proof {
                assert(scan_digits(acc as nat, rest) == Err::<nat, IntParseFailure>(IntParseFailure::InvalidDigit));
            }
            return Err(IntParseFailure::InvalidDigit);
        }
        let d = (c as u32 - 48) as u64;
        assert(d == digit_value(c));
        if acc > 1844674407370955161 || (acc == 1844674407370955161 && d > 5) {
            proof {
                assert(acc * 10 + d > u64::MAX);
                assert(scan_digits(acc as nat, rest) == Err::<nat, IntParseFailure>(IntParseFailure::Overflow));
            }
            return Err(IntParseFailure::Overflow);
        }
        assert(acc * 10 + d <= u64::MAX);
        acc = acc * 10 + d;
        i = i + 1;
    }
    proof {
        assert(s@.subrange(i as int, s@.len() as int).len() == 0);
    }
    Ok(acc)
}

/// The text `u64::from_str` reports for each failure.
pub open spec fn int_failure_text(f: IntParseFailure) -> Seq<char> {
    match f {
        IntParseFailure::Empty => "cannot parse integer from empty string"@,
        IntParseFailure::InvalidDigit => "invalid digit found in string"@,
        IntParseFailure::Overflow => "number too large to fit in target type"@,
    }
}

fn push_int_failure_text(out: &mut String, f: IntParseFailure)
    ensures
        final(out)@ == old(out)@ + int_failure_text(f),
{
    match f {
        IntParseFailure::Empty => out.append("cannot parse integer from empty string"),
        IntParseFailure::InvalidDigit => out.append("invalid digit found in string"),
        IntParseFailure::Overflow => out.append("number too large to fit in target type"),
    }
}

/// The message of a limit that is not a `u64`.
pub open spec fn limit_parse_message(
    metric: MetricKind,
    source_label: Seq<char>,
    trimmed_raw: Seq<char>,
    f: IntParseFailure,
) -> Seq<char> {
    "cannot parse limit for "@ + metric_label(metric) + " from "@ + source_label + ": '"@
        + trimmed_raw + "' is not a valid u64 ("@ + int_failure_text(f) + ")"@
}

/// Parses a limit value (surrounding whitespace ignored) as a `u64`.
pub fn parse_limit_value(raw: &str, metric: MetricKind, source_label: &str) -> (r: Result<
    u64,
    ReportError,
>)
    ensures
        match parse_u64(trim(raw@)) {
            Ok(v) => r matches Ok(x) && x == v,
            Err(f) => r matches Err(ReportError::Message(m)) && m@ == limit_parse_message(
                metric,
                source_label@,
                trim(raw@),
                f,
            ),
        },
{
    let cs = chars_of(raw);
    let t = trimmed(&cs);
    match parse_u64_chars(&t) {
        Ok(v) => Ok(v),
        Err(f) => {
            let mut m = String::new();
            m.append("cannot parse limit for ");
            m.append(metric.label());
            m.append(" from ");
            m.append(source_label);
            m.append(": '");
            push_chars(&mut m, &t);
            m.append("' is not a valid u64 (");
            push_int_failure_text(&mut m, f);
            m.append(")");
            Err(ReportError::Message(m))
        },
    }
}

/// The result of parsing a limit value, with the message of a failure.
pub open spec fn parsed_limit(raw: Seq<char>, metric: MetricKind, source_label: Seq<char>) -> Result<
    u64,
    Seq<char>,
> {
    match parse_u64(trim(raw)) {
        Ok(v) => Ok(v),
        Err(f) => Err(limit_parse_message(metric, source_label, trim(raw), f)),
    }
}

/// `r` carries the value of `m`, or its message as `ReportError::Message`.
pub open spec fn matches_message_result(r: Result<u64, ReportError>, m: Result<u64, Seq<char>>) -> bool {
    match m {
        Ok(v) => r matches Ok(x) && x == v,
        Err(msg) => r matches Err(ReportError::Message(x)) && x@ == msg,
    }
}

// ---------------------------------------------------------------------------
// `.env`-shaped content
// ---------------------------------------------------------------------------

/// The first line of `s` (without its `'\n'`).
pub open spec fn first_line(s: Seq<char>) -> Seq<char> {
    s.take(index_of(s, '\n') as int)
}

/// What follows the first `'\n'` of `s` (empty when there is none).
pub open spec fn rest_lines(s: Seq<char>) -> Seq<char> {
    if index_of(s, '\n') < s.len() {
        s.skip(index_of(s, '\n') + 1int)
    } else {
        Seq::empty()
    }
}

/// `v` is enclosed in a matching pair of double or single quotes.
pub open spec fn is_quoted(v: Seq<char>) -> bool {
    v.len() >= 2 && ((v[0] == '"' && v[v.len() - 1] == '"') || (v[0] == '\'' && v[v.len() - 1]
        == '\''))
}

/// `v` without one pair of matching surrounding double or single quotes.
pub open spec fn unquote(v: Seq<char>) -> Seq<char> {
    if is_quoted(v) {
        v.subrange(1, v.len() - 1)
    } else {
        v
    }
}

/// The trimmed value of the entry `t` (what follows its first `=`).
pub open spec fn entry_value(t: Seq<char>) -> Seq<char> {
    trim(t.skip(index_of(t, '=') + 1int))
}

/// A non-blank, non-comment line `t` is malformed when it has no `=`, or
/// when its value is not quoted and holds a second `=`.
pub open spec fn is_malformed_entry(t: Seq<char>) -> bool {
    index_of(t, '=') == t.len() || (!is_quoted(entry_value(t)) && index_of(entry_value(t), '=')
        < entry_value(t).len())
}

/// The message for a malformed line.
pub open spec fn malformed_entry_message(line_number: nat, entry: Seq<char>) -> Seq<char> {
    "line "@ + decimal(line_number) + ": malformed entry '"@ + entry + "' (expected KEY=VALUE)"@
}

/// Looks `key` up in the lines of `s`, the first of which has number
/// `line_number`.  Each line is trimmed; blank lines and lines starting with
/// `#` are skipped; the first `=` splits a line into key and value, both
/// trimmed; the value of the first matching line is returned unquoted.  A
/// malformed line met before a match is an error.
pub open spec fn env_lookup(s: Seq<char>, key: Seq<char>, line_number: nat) -> Result<
    Option<Seq<char>>,
    Seq<char>,
>
    decreases s.len(),
{
    if s.len() == 0 {
        Ok(None)
    } else {
        proof {
            lemma_index_of_bounds(s, '\n');
        }
        let t = trim(first_line(s));
        let eq = index_of(t, '=');
        if t.len() == 0 || t[0] == '#' {
            env_lookup(rest_lines(s), key, line_number + 1)
        } else if is_malformed_entry(t) {
            Err(malformed_entry_message(line_number, t))
        } else if trim(t.take(eq as int)) == key {
            Ok(Some(unquote(entry_value(t))))
        } else {
            env_lookup(rest_lines(s), key, line_number + 1)
        }
    }
}

/// `p` is where a line of `s` starts: at the beginning, or right after a
/// `'\n'`.
pub open spec fn line_start(s: Seq<char>, p: int) -> bool {
    0 <= p <= s.len() && (p == 0 || s[p - 1] == '\n')
}

/// The trimmed text of the line of `s` that starts at `p`.
pub open spec fn line_text(s: Seq<char>, p: int) -> Seq<char> {
    trim(first_line(s.skip(p)))
}

/// The trimmed key of the entry `t` (what precedes its first `=`).
pub open spec fn entry_key(t: Seq<char>) -> Seq<char> {
    trim(t.take(index_of(t, '=') as int))
}

/// The trimmed line `t` is an entry (not blank, not a comment, with an
/// `=`) whose key is exactly `key`.
pub open spec fn entry_for(t: Seq<char>, key: Seq<char>) -> bool {
    t.len() > 0 && t[0] != '#' && index_of(t, '=') < t.len() && entry_key(t) == key
}

proof fn lemma_line_starts(s: Seq<char>)
    requires
        s.len() > 0,
    ensures
        forall|p: int|
            #[trigger] line_start(s, p) && p > 0 ==> index_of(s, '\n') < s.len() && p >= index_of(
                s,
                '\n',
            ) + 1 && line_start(rest_lines(s), p - index_of(s, '\n') - 1) && line_text(s, p)
                == line_text(rest_lines(s), p - index_of(s, '\n') - 1),
        forall|q: int|
            #[trigger] line_start(rest_lines(s), q) && index_of(s, '\n') < s.len() ==> line_start(
                s,
                q + index_of(s, '\n') + 1,
            ) && line_text(s, q + index_of(s, '\n') + 1) == line_text(rest_lines(s), q),
        line_text(s, 0) == trim(first_line(s)),
{
    lemma_index_of_bounds(s, '\n');
    let i = index_of(s, '\n') as int;
    let rest = rest_lines(s);
    assert(s.skip(0) =~= s);
    assert forall|p: int|
        #[trigger] line_start(s, p) && p > 0 implies i < s.len() && p >= i + 1 && line_start(
            rest,
            p - i - 1,
        ) && line_text(s, p) == line_text(rest, p - i - 1) by {
        if p - 1 < i {
            assert(s[p - 1] != '\n');
        }
        assert(s.skip(p) =~= rest.skip(p - i - 1));
        if p - i - 1 > 0 {
            assert(rest[p - i - 2] == s[p - 1]);
        }
    }
    assert forall|q: int|
        #[trigger] line_start(rest, q) && i < s.len() implies line_start(s, q + i + 1) && line_text(
            s,
            q + i + 1,
        ) == line_text(rest, q) by {
        assert(s.skip(q + i + 1) =~= rest.skip(q));
        if q > 0 {
            assert(rest[q - 1] == s[q + i]);
        }
    }
}

proof fn lemma_trim_empty()
    ensures
        trim(Seq::<char>::empty()).len() == 0,
{
    assert(trim_start(Seq::<char>::empty()) == Seq::<char>::empty());
    assert(trim_end(Seq::<char>::empty()) == Seq::<char>::empty());
}

/// A value found for `key` comes from a line whose key is exactly `key`
/// (the first such line): it is that line's value, unquoted.  When nothing
/// is found, no line is an entry for `key`.
pub proof fn law_env_lookup_source(s: Seq<char>, key: Seq<char>, line_number: nat)
    ensures
        env_lookup(s, key, line_number) matches Ok(Some(v)) ==> exists|p: int|
            #[trigger] line_start(s, p) && entry_for(line_text(s, p), key) && v == unquote(
                entry_value(line_text(s, p)),
            ) && forall|q: int|
                #[trigger] line_start(s, q) && q < p ==> !entry_for(line_text(s, q), key),
        env_lookup(s, key, line_number) == Ok::<Option<Seq<char>>, Seq<char>>(None) ==> forall|
            p: int,
        | #[trigger] line_start(s, p) ==> !entry_for(line_text(s, p), key),
    decreases s.len(),
{
    if s.len() == 0 {
        lemma_trim_empty();
        assert forall|p: int| #[trigger] line_start(s, p) implies !entry_for(line_text(s, p), key) by {
            assert(p == 0);
            assert(s.skip(0) =~= Seq::<char>::empty());
            assert(first_line(Seq::<char>::empty()) =~= Seq::<char>::empty());
        }
    } else {
        lemma_index_of_bounds(s, '\n');
        lemma_line_starts(s);
        let i = index_of(s, '\n') as int;
        let rest = rest_lines(s);
        let t = trim(first_line(s));
        assert(line_start(s, 0));
        if i < s.len() {
            assert(rest.len() < s.len());
        } else {
            assert(rest.len() == 0);
        }
        law_env_lookup_source(rest, key, line_number + 1);
        let r = env_lookup(s, key, line_number);
        let skip_first = t.len() == 0 || t[0] == '#' || (!is_malformed_entry(t) && entry_key(t)
            != key);
        if skip_first {
            assert(r == env_lookup(rest, key, line_number + 1));
            assert(!entry_for(t, key));
            if let Ok(Some(v)) = r {
                if i == s.len() {
                    lemma_trim_empty();
                    assert(rest =~= Seq::<char>::empty());
                    assert(false);
                }
                let p2 = choose|p2: int|
                    #[trigger] line_start(rest, p2) && entry_for(line_text(rest, p2), key) && v
                        == unquote(entry_value(line_text(rest, p2))) && forall|q: int|
                        #[trigger] line_start(rest, q) && q < p2 ==> !entry_for(
                            line_text(rest, q),
                            key,
                        );
                let p = p2 + i + 1;
                assert(line_start(s, p));
                assert forall|q: int| #[trigger] line_start(s, q) && q < p implies !entry_for(
                    line_text(s, q),
                    key,
                ) by {
                    if q > 0 {
                        assert(line_start(rest, q - i - 1));
                    }
                }
            }
            if r == Ok::<Option<Seq<char>>, Seq<char>>(None) {
                assert forall|p: int| #[trigger] line_start(s, p) implies !entry_for(
                    line_text(s, p),
                    key,
                ) by {
                    if p > 0 {
                        assert(line_start(rest, p - i - 1));
                    }
                }
            }
        } else if !is_malformed_entry(t) {
            assert(entry_key(t) == key);
            lemma_index_of_bounds(t, '=');
            assert(entry_for(t, key));
            assert forall|q: int| #[trigger] line_start(s, q) && q < 0 implies !entry_for(
                line_text(s, q),
                key,
            ) by {}
        }
    }
}

fn unquote_chars(v: &Vec<char>) -> (r: Vec<char>)
    ensures
        r@ == unquote(v@),
{
    let n = v.len();
    if quoted_chars(v) {
        slice_vec(v, 1, n - 1)
    } else {
        slice_vec(v, 0, n)
    }
}

fn quoted_chars(v: &Vec<char>) -> (r: bool)
    ensures
        r == is_quoted(v@),
{
    let n = v.len();
    n >= 2 && ((v[0] == '"' && v[n - 1] == '"') || (v[0] == '\'' && v[n - 1] == '\''))
}

/// Reads a `KEY=VALUE` entry from `.env`-shaped content: `Ok(Some(value))`
/// for the first line whose key is `key`, `Ok(None)` when no line has it,
/// and `Err(ReportError::Message(..))` for a malformed line (no `=`, or a
/// second `=` in a value that is not quoted) met first.
pub fn lookup_env_file_value(content: &str, key: &str) -> (r: Result<Option<String>, ReportError>)
    ensures
        match env_lookup(content@, key@, 1) {
            Ok(None) => r matches Ok(None),
            Ok(Some(v)) => r matches Ok(Some(x)) && x@ == v,
            Err(m) => r matches Err(ReportError::Message(x)) && x@ == m,
        },
        r matches Ok(Some(x)) ==> exists|p: int|
            #[trigger] line_start(content@, p) && entry_for(line_text(content@, p), key@) && x@
                == unquote(entry_value(line_text(content@, p))) && forall|q: int|
                #[trigger] line_start(content@, q) && q < p ==> !entry_for(
                    line_text(content@, q),
                    key@,
                ),
        r matches Ok(None) ==> forall|p: int|
            #[trigger] line_start(content@, p) ==> !entry_for(line_text(content@, p), key@),
{
    proof {
        law_env_lookup_source(content@, key@, 1);
    }
    let cs = chars_of(content);
    let kc = chars_of(key);
    let mut pos: usize = 0;
    let mut idx: usize = 0;
    proof {
        assert(cs@.skip(0) =~= cs@);
    }
    while pos < cs.len()
        invariant
            pos <= cs@.len(),
            idx <= pos,
            cs@ == content@,
            kc@ == key@,
            env_lookup(content@, key@, 1) == env_lookup(cs@.skip(pos as int), key@, (idx + 1) as nat),
            env_lookup(content@, key@, 1) matches Ok(Some(v)) ==> exists|p: int|
                #[trigger] line_start(content@, p) && entry_for(line_text(content@, p), key@) && v
                    == unquote(entry_value(line_text(content@, p))) && forall|q: int|
                    #[trigger] line_start(content@, q) && q < p ==> !entry_for(
                        line_text(content@, q),
                        key@,
                    ),
            env_lookup(content@, key@, 1) == Ok::<Option<Seq<char>>, Seq<char>>(None) ==> forall|
                p: int,
            | #[trigger] line_start(content@, p) ==> !entry_for(line_text(content@, p), key@),
        decreases cs.len() - pos,
    {
        let ghost s = cs@.skip(pos as int);
        let nl = index_of_exec(&cs, pos, '\n');
        let raw_line = slice_vec(&cs, pos, nl);
        let t = trimmed(&raw_line);
        let next: usize = if nl < cs.len() {
            nl + 1
        } else {
            cs.len()
        };
        proof {
            assert(s =~= cs@.subrange(pos as int, cs@.len() as int));
            lemma_index_of_bounds(s, '\n');
            assert(first_line(s) =~= raw_line@);
            assert(rest_lines(s) =~= cs@.skip(next as int));
            assert(t@ == trim(first_line(s)));
        }
        if t.len() == 0 || t[0] == '#' {
            pos = next;
            idx = idx + 1;
        } else {
            let eq = index_of_exec(&t, 0, '=');
            proof {
                assert(t@.subrange(0, t@.len() as int) =~= t@);
            }
            let rhs = slice_vec(&t, if eq < t.len() { eq + 1 } else { eq }, t.len());
            let rt = trimmed(&rhs);
            let second = index_of_exec(&rt, 0, '=');
            proof {
                if eq < t.len() {
                    assert(rhs@ =~= t@.skip(eq + 1));
                }
                assert(rt@.subrange(0, rt@.len() as int) =~= rt@);
            }
            if eq == t.len() || (!quoted_chars(&rt) && second < rt.len()) {
                let mut m = String::new();
                m.append("line ");
                push_decimal(&mut m, (idx + 1) as u64);
                m.append(": malformed entry '");
                push_chars(&mut m, &t);
                m.append("' (expected KEY=VALUE)");
                return Err(ReportError::Message(m));
            }
            let lhs = slice_vec(&t, 0, eq);
            let lt = trimmed(&lhs);
            proof {
                assert(lhs@ =~= t@.take(eq as int));
            }
            if seq_eq(&lt, &kc) {
                let u = unquote_chars(&rt);
                return Ok(Some(string_of(&u)));
            }
            pos = next;
            idx = idx + 1;
        }
    }
    Ok(None)
}

// ---------------------------------------------------------------------------
// Limit sources
// ---------------------------------------------------------------------------

/// A limit file as it was read: its displayed path and its content, or the
/// error that reading it gave.
pub struct LimitFile {
    pub path: String,
    pub content: Result<String, ReportError>,
}

/// The message when `key` has no entry in the file at `path`.
pub open spec fn missing_key_message(key: Seq<char>, path: Seq<char>) -> Seq<char> {
    "key '"@ + key + "' not found in limit file '"@ + path + "'"@
}

/// The source label of a value read from the file at `path` under `key`.
pub open spec fn env_file_label(path: Seq<char>, key: Seq<char>) -> Seq<char> {
    "env_file "@ + path + ":"@ + key
}

/// What [`read_limit_from_env_file`] returns for a file whose content was
/// read: the limit, or the message of the error.
pub open spec fn env_file_limit(
    content: Seq<char>,
    path: Seq<char>,
    key: Seq<char>,
    metric: MetricKind,
) -> Result<u64, Seq<char>> {
    match env_lookup(content, key, 1) {
        Err(m) => Err(m),
        Ok(None) => Err(missing_key_message(key, path)),
        Ok(Some(v)) => parsed_limit(v, metric, env_file_label(path, key)),
    }
}

/// Reads the limit stored under `key` in a limit file.  A read error is
/// passed on; a missing key, a malformed line or an unparsable value is a
/// `Message`.
pub fn read_limit_from_env_file(file: LimitFile, key: &str, metric: MetricKind) -> (r: Result<
    u64,
    ReportError,
>)
    ensures
        match file.content {
            Err(e) => r matches Err(x) && x == e,
            Ok(c) => matches_message_result(r, env_file_limit(c@, file.path@, key@, metric)),
        },
{
    let LimitFile { path, content } = file;
    let content = match content {
        Err(e) => return Err(e),
        Ok(c) => c,
    };
    match lookup_env_file_value(content.as_str(), key) {
        Err(e) => Err(e),
        Ok(None) => {
            let mut m = String::new();
            m.append("key '");
            m.append(key);
            m.append("' not found in limit file '");
            m.append(path.as_str());
            m.append("'");
            Err(ReportError::Message(m))
        },
        Ok(Some(raw)) => {
            let mut label = String::new();
            label.append("env_file ");
            label.append(path.as_str());
            label.append(":");
            label.append(key);
            parse_limit_value(raw.as_str(), metric, label.as_str())
        },
    }
}

/// The message when a limit file is given without a key for `metric`.
pub open spec fn missing_env_key_message(metric: MetricKind) -> Seq<char> {
    "env_file path provided but no env var key for metric '"@ + metric_label(metric) + "'"@
}

/// Combines the limit sources into one limit: a limit file with a key is
/// read; a value alone is parsed; a file without a key is an error; with
/// neither, `default` is the limit.
pub fn resolve_limit(
    env_file: Option<LimitFile>,
    env_var: Option<&str>,
    metric: MetricKind,
    default: u64,
) -> (r: Result<u64, ReportError>)
    ensures
        match (env_file, env_var) {
            (Some(f), Some(k)) => match f.content {
                Err(e) => r matches Err(x) && x == e,
                Ok(c) => matches_message_result(r, env_file_limit(c@, f.path@, k@, metric)),
            },
            (None, Some(v)) => matches_message_result(
                r,
                parsed_limit(v@, metric, "env "@ + v@),
            ),
            (Some(_), None) => r matches Err(ReportError::MissingField(x)) && x@
                == missing_env_key_message(metric),
            (None, None) => r matches Ok(x) && x == default,
        },
{
    match (env_file, env_var) {
        (Some(file), Some(key)) => read_limit_from_env_file(file, key, metric),
        (None, Some(raw)) => {
            let mut label = String::new();
            label.append("env ");
            label.append(raw);
            parse_limit_value(raw, metric, label.as_str())
        },
        (Some(_), None) => {
            let mut m = String::new();
            m.append("env_file path provided but no env var key for metric '");
            m.append(metric.label());
            m.append("'");
            Err(ReportError::MissingField(m))
        },
        (None, None) => Ok(default),
    }
}

} // verus!
