//! Reading and writing the topology document.
//!
//! The document is JSON.  Numbers are read in fixed point with at most
//! six fractional digits, into signed micro-units; exponents are not
//! accepted.  Strings must be plain: no escape sequences and no control
//! characters.  Unknown fields are skipped; a missing required field or
//! a repeated field is an error naming the offending path.

use vstd::prelude::*;

use crate::model::{
    ConfigV, Distribution, EntryPoint, LoadConfig, MethodConfig, ServiceConfig, SimulatorConfig,
};
use crate::strmap::{keys_distinct, StrMap};
use crate::text::str_chars;

verus! {

/// A malformed document: where in the text reading stopped, and the
/// path of keys that led there.
#[derive(Debug)]
pub struct ParseError {
    pub at: usize,
    pub path: Vec<String>,
}

/// A character that may stand in a document string without escaping.
pub open spec fn plain_char(c: char) -> bool {
    c != '"' && c != '\\' && (c as u32) >= 32
}

/// A string of plain characters only.
pub open spec fn plain_str(s: Seq<char>) -> bool {
    forall|i: int| 0 <= i < s.len() ==> plain_char(#[trigger] s[i])
}

/// A well-formed distribution as read from a document: plain strings
/// and distinct parameter names.
pub open spec fn dist_wf(d: crate::model::DistributionV) -> bool {
    &&& plain_str(d.kind)
    &&& keys_distinct(d.params)
    &&& forall|i: int| 0 <= i < d.params.len() ==> plain_str((#[trigger] d.params[i]).0)
}

/// A well-formed method entry: plain call targets and well-formed
/// distributions.
pub open spec fn method_wf(m: crate::model::MethodV) -> bool {
    &&& forall|a: int, b: int|
        0 <= a < m.calls.len() && 0 <= b < m.calls[a].len() ==> plain_str(
            #[trigger] m.calls[a][b],
        )
    &&& dist_wf(m.latency)
    &&& match m.error {
        Some(d) => dist_wf(d),
        None => true,
    }
}

/// A well-formed service entry: plain location strings and well-formed
/// methods under distinct names.
pub open spec fn service_wf(sv: crate::model::ServiceV) -> bool {
    &&& plain_str(sv.ip)
    &&& plain_str(sv.port)
    &&& keys_distinct(sv.methods)
    &&& forall|k: int|
        0 <= k < sv.methods.len() ==> plain_str((#[trigger] sv.methods[k]).0) && method_wf(
            sv.methods[k].1,
        )
}

/// What `parse_json_str` promises of every configuration it accepts,
/// and what the serialiser asks of a configuration it is to write:
/// plain strings throughout and distinct keys at every level.
pub open spec fn parsed_wf(c: ConfigV) -> bool {
    &&& keys_distinct(c.services)
    &&& forall|i: int|
        0 <= i < c.services.len() ==> plain_str((#[trigger] c.services[i]).0) && service_wf(
            c.services[i].1,
        )
    &&& match c.load {
        Some(l) => forall|i: int|
            0 <= i < l.entry_points.len() ==> plain_str(
                (#[trigger] l.entry_points[i]).service,
            ) && plain_str(l.entry_points[i].method),
        None => true,
    }
}

/// A whitespace character of the document grammar.
pub open spec fn ws_char(c: char) -> bool {
    c == ' ' || c == '\t' || c == '\n' || c == '\r'
}

/// The first position at or after `k` holding a non-whitespace
/// character, or the text's length when only whitespace remains.
pub open spec fn first_content(s: Seq<char>, k: int) -> int
    decreases s.len() - k,
{
    if k < 0 || k >= s.len() {
        s.len() as int
    } else if ws_char(s[k]) {
        first_content(s, k + 1)
    } else {
        k
    }
}

/// The first position at or after `k` holding a double quote, or the
/// text's length when there is none.
pub open spec fn first_quote(s: Seq<char>, k: int) -> int
    decreases s.len() - k,
{
    if k < 0 || k >= s.len() {
        s.len() as int
    } else if s[k] == '"' {
        k
    } else {
        first_quote(s, k + 1)
    }
}

fn err_at(i: usize) -> (e: ParseError) {
    ParseError { at: i, path: Vec::new() }
}

fn err_key(i: usize, key: &str) -> (e: ParseError) {
    let mut path: Vec<String> = Vec::new();
    path.push(key.to_owned());
    ParseError { at: i, path }
}

/// Advance to the first non-whitespace character.
fn skip_ws(s: &Vec<char>, i: &mut usize)
    requires
        *old(i) <= s@.len(),
    ensures
        *old(i) <= *final(i) <= s@.len(),
        *final(i) == first_content(s@, *old(i) as int),
{
    while *i < s.len() && (s[*i] == ' ' || s[*i] == '\t' || s[*i] == '\n' || s[*i] == '\r')
        invariant
            *old(i) <= *i <= s@.len(),
            first_content(s@, *i as int) == first_content(s@, *old(i) as int),
        decreases s@.len() - *i,
    {
        *i = *i + 1;
    }
}

/// Consume exactly the character `c`, after whitespace.
fn expect_char(s: &Vec<char>, i: &mut usize, c: char) -> (r: Result<(), ParseError>)
    requires
        *old(i) <= s@.len(),
    ensures
        *old(i) <= *final(i) <= s@.len(),
        r is Ok ==> *final(i) > *old(i),
        ({
            let fc = first_content(s@, *old(i) as int);
            if fc < s@.len() && s@[fc] == c {
                r is Ok && *final(i) == fc + 1
            } else {
                r is Err && *final(i) == fc
            }
        }),
{
    skip_ws(s, i);
    if *i < s.len() && s[*i] == c {
        *i = *i + 1;
        Ok(())
    } else {
        Err(err_at(*i))
    }
}

/// Whether the next non-whitespace character is `c`; consumes it if so.
fn try_char(s: &Vec<char>, i: &mut usize, c: char) -> (r: bool)
    requires
        *old(i) <= s@.len(),
    ensures
        *old(i) <= *final(i) <= s@.len(),
        ({
            let fc = first_content(s@, *old(i) as int);
            if fc < s@.len() && s@[fc] == c {
                r && *final(i) == fc + 1
            } else {
                !r && *final(i) == fc
            }
        }),
{
    skip_ws(s, i);
    if *i < s.len() && s[*i] == c {
        *i = *i + 1;
        true
    } else {
        false
    }
}

/// Read a quoted string of plain characters.
///
/// When the next content character opens a quote whose matching close
/// exists and everything between is plain, exactly that span is read.
fn parse_string(s: &Vec<char>, i: &mut usize) -> (r: Result<String, ParseError>)
    requires
        *old(i) <= s@.len(),
    ensures
        *old(i) <= *final(i) <= s@.len(),
        r matches Ok(st) ==> plain_str(st@),
        ({
            let fc = first_content(s@, *old(i) as int);
            let e = first_quote(s@, fc + 1);
            (fc < s@.len() && s@[fc] == '"' && e < s@.len() && (forall|k: int|
                fc < k < e ==> plain_char(#[trigger] s@[k]))) ==> (r matches Ok(st) && st@
                == s@.subrange(fc + 1, e) && *final(i) == e + 1)
        }),
{
    let ghost fc = first_content(s@, *old(i) as int);
    let ghost e = first_quote(s@, fc + 1);
    proof {
        lemma_first_content_bounds(s@, *old(i) as int);
    }
    match expect_char(s, i, '"') {
        Ok(()) => (),
        Err(e2) => {
            return Err(e2);
        },
    }
    let mut out: Vec<char> = Vec::new();
    proof {
        if fc < s@.len() && s@[fc] == '"' {
            lemma_first_quote_bounds(s@, fc + 1);
            assert(out@ =~= s@.subrange(fc + 1, fc + 1));
        }
    }
    while *i < s.len() && s[*i] != '"'
        invariant
            *old(i) <= *i <= s@.len(),
            plain_str(out@),
            fc == first_content(s@, *old(i) as int),
            e == first_quote(s@, fc + 1),
            0 <= fc,
            (fc < s@.len() && s@[fc] == '"') ==> {
                &&& fc + 1 <= *i <= s@.len()
                &&& first_quote(s@, *i as int) == e
                &&& *i <= e
                &&& out@ == s@.subrange(fc + 1, *i as int)
            },
        decreases s@.len() - *i,
    {
        proof {
            if fc < s@.len() && s@[fc] == '"' {
                lemma_first_quote_bounds(s@, *i + 1);
                assert(first_quote(s@, *i as int) == first_quote(s@, *i + 1));
                assert(*i + 1 <= e);
            }
        }
        let c = s[*i];
        if c == '\\' || (c as u32) < 32 {
            proof {
                if fc < s@.len() && s@[fc] == '"' && e < s@.len() {
                    assert(fc < *i < e);
                    assert(!plain_char(s@[*i as int]));
                }
            }
            return Err(err_at(*i));
        }
        let ghost out0 = out@;
        out.push(c);
        proof {
            assert(forall|q: int| 0 <= q < out0.len() ==> out@[q] == out0[q]);
            assert(plain_char(out@[out@.len() - 1]));
            if fc < s@.len() && s@[fc] == '"' {
                assert(out@ =~= s@.subrange(fc + 1, *i + 1));
            }
        }
        *i = *i + 1;
    }
    if *i >= s.len() {
        proof {
            if fc < s@.len() && s@[fc] == '"' {
                assert(e >= s@.len());
            }
        }
        return Err(err_at(*i));
    }
    proof {
        if fc < s@.len() && s@[fc] == '"' {
            assert(first_quote(s@, *i as int) == *i);
            assert(e == *i);
        }
    }
    *i = *i + 1;
    Ok(crate::text::string_from_chars(&out))
}

/// `first_quote` points at a quote when one exists, and nothing before
/// it is a quote.
proof fn lemma_first_quote_bounds(s: Seq<char>, k: int)
    requires
        0 <= k <= s.len(),
    ensures
        k <= first_quote(s, k) <= s.len(),
        first_quote(s, k) < s.len() ==> s[first_quote(s, k)] == '"',
        forall|x: int| k <= x < first_quote(s, k) ==> s[x] != '"',
    decreases s.len() - k,
{
    if k < s.len() && s[k] != '"' {
        lemma_first_quote_bounds(s, k + 1);
    }
}

/// `first_content` stays within the text and lands on content.
proof fn lemma_first_content_bounds(s: Seq<char>, k: int)
    requires
        0 <= k <= s.len(),
    ensures
        k <= first_content(s, k) <= s.len(),
        first_content(s, k) < s.len() ==> !ws_char(s[first_content(s, k)]),
    decreases s.len() - k,
{
    if k < s.len() && ws_char(s[k]) {
        lemma_first_content_bounds(s, k + 1);
    }
}

/// Largest whole part a fixed-point number may carry.
pub open spec fn spec_max_whole() -> int {
    9_000_000_000_009
}

/// Read a fixed-point decimal into signed micro-units: an optional
/// sign, digits, and at most six fractional digits.
fn parse_number_micros(s: &Vec<char>, i: &mut usize) -> (r: Result<i64, ParseError>)
    requires
        *old(i) <= s@.len(),
    ensures
        *old(i) <= *final(i) <= s@.len(),
{
    skip_ws(s, i);
    let mut negative = false;
    if *i < s.len() && s[*i] == '-' {
        negative = true;
        *i = *i + 1;
    }
    if !(*i < s.len() && '0' <= s[*i] && s[*i] <= '9') {
        return Err(err_at(*i));
    }
    let mut whole: i64 = 0;
    while *i < s.len() && '0' <= s[*i] && s[*i] <= '9'
        invariant
            *old(i) <= *i <= s@.len(),
            0 <= whole <= spec_max_whole(),
        decreases s@.len() - *i,
    {
        let d: i64 = ((s[*i] as u32) - ('0' as u32)) as i64;
        if whole > 900_000_000_000 {
            return Err(err_at(*i));
        }
        whole = whole * 10 + d;
        *i = *i + 1;
    }
    let mut frac: i64 = 0;
    if *i < s.len() && s[*i] == '.' {
        *i = *i + 1;
        if !(*i < s.len() && '0' <= s[*i] && s[*i] <= '9') {
            return Err(err_at(*i));
        }
        let mut scale: i64 = 100_000;
        while *i < s.len() && '0' <= s[*i] && s[*i] <= '9'
            invariant
                *old(i) <= *i <= s@.len(),
                0 <= scale <= 100_000,
                0 <= frac <= 999_999,
                frac + 10 * scale <= 1_000_000,
        decreases s@.len() - *i,
        {
            if scale == 0 {
                return Err(err_at(*i));
            }
            let d: i64 = ((s[*i] as u32) - ('0' as u32)) as i64;
            proof {
                assert(d * scale <= 9 * scale) by (nonlinear_arith)
                    requires
                        d <= 9,
                        scale >= 0,
                ;
                assert(d * scale >= 0) by (nonlinear_arith)
                    requires
                        d >= 0,
                        scale >= 0,
                ;
                assert(10 * (scale / 10) <= scale);
            }
            frac = frac + d * scale;
            scale = scale / 10;
            *i = *i + 1;
        }
    }
    let micros: i64 = whole * 1_000_000 + frac;
    if negative {
        Ok(-micros)
    } else {
        Ok(micros)
    }
}

/// Read a non-negative whole number that fits a `u32`.
fn parse_u32(s: &Vec<char>, i: &mut usize) -> (r: Result<u32, ParseError>)
    requires
        *old(i) <= s@.len(),
    ensures
        *old(i) <= *final(i) <= s@.len(),
{
    skip_ws(s, i);
    if !(*i < s.len() && '0' <= s[*i] && s[*i] <= '9') {
        return Err(err_at(*i));
    }
    let mut value: u64 = 0;
    while *i < s.len() && '0' <= s[*i] && s[*i] <= '9'
        invariant
            *old(i) <= *i <= s@.len(),
            value <= 0xFFFF_FFFF,
        decreases s@.len() - *i,
    {
        let d: u64 = ((s[*i] as u32) - ('0' as u32)) as u64;
        value = value * 10 + d;
        if value > 0xFFFF_FFFF {
            return Err(err_at(*i));
        }
        *i = *i + 1;
    }
    Ok(value as u32)
}

/// Skip one JSON value without interpreting it: nesting is tracked, the
/// contents of strings are passed over lexically.
fn skip_value(s: &Vec<char>, i: &mut usize) -> (r: Result<(), ParseError>)
    requires
        *old(i) <= s@.len(),
    ensures
        *old(i) <= *final(i) <= s@.len(),
{
    skip_ws(s, i);
    if *i >= s.len() {
        return Err(err_at(*i));
    }
    let mut depth: usize = 0;
    let mut in_string = false;
    let mut escaped = false;
    let mut any = false;
    while *i < s.len()
        invariant
            *old(i) <= *i <= s@.len(),
            depth <= s@.len(),
        decreases s@.len() - *i,
    {
        let c = s[*i];
        if in_string {
            if escaped {
                escaped = false;
            } else if c == '\\' {
                escaped = true;
            } else if c == '"' {
                in_string = false;
                if depth == 0 {
                    *i = *i + 1;
                    return Ok(());
                }
            }
            *i = *i + 1;
        } else if c == '"' {
            in_string = true;
            any = true;
            *i = *i + 1;
        } else if c == '{' || c == '[' {
            if depth == s.len() {
                return Err(err_at(*i));
            }
            depth = depth + 1;
            any = true;
            *i = *i + 1;
        } else if c == '}' || c == ']' {
            if depth == 0 {
                // end of the enclosing container: the value has ended
                if any {
                    return Ok(());
                }
                return Err(err_at(*i));
            }
            depth = depth - 1;
            *i = *i + 1;
            if depth == 0 {
                return Ok(());
            }
        } else if c == ',' && depth == 0 {
            if any {
                return Ok(());
            }
            return Err(err_at(*i));
        } else {
            any = true;
            *i = *i + 1;
        }
    }
    if depth == 0 && !in_string && any {
        Ok(())
    } else {
        Err(err_at(*i))
    }
}

/// Read an object of numeric parameters into a map, in document order.
fn parse_parameters(s: &Vec<char>, i: &mut usize) -> (r: Result<StrMap<i64>, ParseError>)
    requires
        *old(i) <= s@.len(),
    ensures
        *old(i) <= *final(i) <= s@.len(),
        r matches Ok(m) ==> keys_distinct(m@) && forall|q: int|
            0 <= q < m@.len() ==> plain_str((#[trigger] m@[q]).0),
{
    match expect_char(s, i, '{') {
        Ok(()) => (),
        Err(e) => {
            return Err(e);
        },
    }
    let mut params: StrMap<i64> = StrMap::new();
    if try_char(s, i, '}') {
        return Ok(params);
    }
    loop
        invariant
            *old(i) <= *i <= s@.len(),
            keys_distinct(params@),
            forall|q: int| 0 <= q < params@.len() ==> plain_str((#[trigger] params@[q]).0),
        decreases s@.len() - *i + 1,
    {
        let i0: usize = *i;
        let name = match parse_string(s, i) {
            Ok(n) => n,
            Err(e) => {
                return Err(e);
            },
        };
        if params.contains_key(name.as_str()) {
            return Err(err_key(*i, name.as_str()));
        }
        match expect_char(s, i, ':') {
            Ok(()) => (),
            Err(e) => {
                return Err(e);
            },
        }
        let value = match parse_number_micros(s, i) {
            Ok(v) => v,
            Err(e) => {
                return Err(e);
            },
        };
        let ghost params0 = params@;
        let ghost namev = name@;
        params.push(name, value);
        proof {
            assert(forall|q: int| 0 <= q < params0.len() ==> params@[q] == params0[q]);
            assert(params@[params@.len() - 1].0 == namev);
            assert forall|q1: int, q2: int| 0 <= q1 < q2 < params@.len() implies params@[q1].0
                != params@[q2].0 by {
                if q2 == params@.len() - 1 {
                    assert(!crate::strmap::map_has(params0, namev));
                    assert(params@[q1].0 == params0[q1].0);
                }
            }
        }
        if try_char(s, i, '}') {
            return Ok(params);
        }
        match expect_char(s, i, ',') {
            Ok(()) => (),
            Err(e) => {
                return Err(e);
            },
        }
        if *i <= i0 {
            return Err(err_at(*i));
        }
    }
}

/// Read one distribution: its `type` tag and its `parameters` object.
fn parse_distribution(s: &Vec<char>, i: &mut usize) -> (r: Result<Distribution, ParseError>)
    requires
        *old(i) <= s@.len(),
    ensures
        *old(i) <= *final(i) <= s@.len(),
        r matches Ok(d) ==> dist_wf(d@),
{
    match expect_char(s, i, '{') {
        Ok(()) => (),
        Err(e) => {
            return Err(e);
        },
    }
    let mut kind: Option<String> = None;
    let mut params: Option<StrMap<i64>> = None;
    if !try_char(s, i, '}') {
        loop
            invariant
                *old(i) <= *i <= s@.len(),
                match kind {
                    Some(k) => plain_str(k@),
                    None => true,
                },
                match params {
                    Some(p) => keys_distinct(p@) && forall|q: int|
                        0 <= q < p@.len() ==> plain_str((#[trigger] p@[q]).0),
                    None => true,
                },
            decreases s@.len() - *i + 1,
        {
            let i0: usize = *i;
            let name = match parse_string(s, i) {
                Ok(n) => n,
                Err(e) => {
                    return Err(e);
                },
            };
            match expect_char(s, i, ':') {
                Ok(()) => (),
                Err(e) => {
                    return Err(e);
                },
            }
            if crate::text::str_eq(name.as_str(), "type") {
                if kind.is_some() {
                    return Err(err_key(*i, "type"));
                }
                kind = match parse_string(s, i) {
                    Ok(k) => Some(k),
                    Err(e) => {
                        return Err(e);
                    },
                };
            } else if crate::text::str_eq(name.as_str(), "parameters") {
                if params.is_some() {
                    return Err(err_key(*i, "parameters"));
                }
                params = match parse_parameters(s, i) {
                    Ok(p) => Some(p),
                    Err(e) => {
                        return Err(e);
                    },
                };
            } else {
                match skip_value(s, i) {
                    Ok(()) => (),
                    Err(e) => {
                        return Err(e);
                    },
                }
            }
            if try_char(s, i, '}') {
                break ;
            }
            match expect_char(s, i, ',') {
                Ok(()) => (),
                Err(e) => {
                    return Err(e);
                },
            }
            if *i <= i0 {
                return Err(err_at(*i));
            }
        }
    }
    let kind = match kind {
        Some(k) => k,
        None => {
            return Err(err_key(*i, "type"));
        },
    };
    let params = match params {
        Some(p) => p,
        None => StrMap::new(),
    };
    Ok(Distribution { distribution_type: kind, parameters: params })
}

/// Read the two-dimensional call plan: an array of stages, each an
/// array of `"Service.Method"` strings.
fn parse_calls(s: &Vec<char>, i: &mut usize) -> (r: Result<Vec<Vec<String>>, ParseError>)
    requires
        *old(i) <= s@.len(),
    ensures
        *old(i) <= *final(i) <= s@.len(),
        r matches Ok(v) ==> forall|a: int, b: int|
            0 <= a < v@.len() && 0 <= b < v@[a]@.len() ==> plain_str((#[trigger] v@[a]@[b])@),
{
    match expect_char(s, i, '[') {
        Ok(()) => (),
        Err(e) => {
            return Err(e);
        },
    }
    let mut stages: Vec<Vec<String>> = Vec::new();
    if try_char(s, i, ']') {
        return Ok(stages);
    }
    loop
        invariant
            *old(i) <= *i <= s@.len(),
            forall|a: int, b: int|
                0 <= a < stages@.len() && 0 <= b < stages@[a]@.len() ==> plain_str(
                    (#[trigger] stages@[a]@[b])@,
                ),
        decreases s@.len() - *i + 1,
    {
        let i0: usize = *i;
        match expect_char(s, i, '[') {
            Ok(()) => (),
            Err(e) => {
                return Err(e);
            },
        }
        let mut row: Vec<String> = Vec::new();
        if !try_char(s, i, ']') {
            loop
                invariant
                    *old(i) <= *i <= s@.len(),
                    forall|b: int| 0 <= b < row@.len() ==> plain_str((#[trigger] row@[b])@),
                decreases s@.len() - *i + 1,
            {
                let i1: usize = *i;
                let t = match parse_string(s, i) {
                    Ok(t) => t,
                    Err(e) => {
                        return Err(e);
                    },
                };
                let ghost row0 = row@;
                let ghost tv = t@;
                row.push(t);
                proof {
                    assert(forall|b: int| 0 <= b < row0.len() ==> row@[b] == row0[b]);
                    assert(row@[row@.len() - 1]@ == tv);
                }
                if try_char(s, i, ']') {
                    break ;
                }
                match expect_char(s, i, ',') {
                    Ok(()) => (),
                    Err(e) => {
                        return Err(e);
                    },
                }
                if *i <= i1 {
                    return Err(err_at(*i));
                }
            }
        }
        let ghost stages0 = stages@;
        stages.push(row);
        proof {
            assert(forall|a: int| 0 <= a < stages0.len() ==> stages@[a] == stages0[a]);
        }
        if try_char(s, i, ']') {
            return Ok(stages);
        }
        match expect_char(s, i, ',') {
            Ok(()) => (),
            Err(e) => {
                return Err(e);
            },
        }
        if *i <= i0 {
            return Err(err_at(*i));
        }
    }
}

/// Read one method entry: its call plan, latency distribution and
/// optional error rate.
fn parse_method(s: &Vec<char>, i: &mut usize) -> (r: Result<MethodConfig, ParseError>)
    requires
        *old(i) <= s@.len(),
    ensures
        *old(i) <= *final(i) <= s@.len(),
        r matches Ok(m) ==> method_wf(m@),
{
    match expect_char(s, i, '{') {
        Ok(()) => (),
        Err(e) => {
            return Err(e);
        },
    }
    let mut calls: Option<Vec<Vec<String>>> = None;
    let mut latency: Option<Distribution> = None;
    let mut error_rate: Option<Distribution> = None;
    if !try_char(s, i, '}') {
        loop
            invariant
                *old(i) <= *i <= s@.len(),
                match calls {
                    Some(v) => forall|a: int, b: int|
                        0 <= a < v@.len() && 0 <= b < v@[a]@.len() ==> plain_str(
                            (#[trigger] v@[a]@[b])@,
                        ),
                    None => true,
                },
                match latency {
                    Some(d) => dist_wf(d@),
                    None => true,
                },
                match error_rate {
                    Some(d) => dist_wf(d@),
                    None => true,
                },
            decreases s@.len() - *i + 1,
        {
            let i0: usize = *i;
            let name = match parse_string(s, i) {
                Ok(n) => n,
                Err(e) => {
                    return Err(e);
                },
            };
            match expect_char(s, i, ':') {
                Ok(()) => (),
                Err(e) => {
                    return Err(e);
                },
            }
            if crate::text::str_eq(name.as_str(), "calls") {
                if calls.is_some() {
                    return Err(err_key(*i, "calls"));
                }
                calls = match parse_calls(s, i) {
                    Ok(v) => Some(v),
                    Err(e) => {
                        return Err(e);
                    },
                };
            } else if crate::text::str_eq(name.as_str(), "latency_distribution") {
                if latency.is_some() {
                    return Err(err_key(*i, "latency_distribution"));
                }
                latency = match parse_distribution(s, i) {
                    Ok(d) => Some(d),
                    Err(e) => {
                        return Err(e);
                    },
                };
            } else if crate::text::str_eq(name.as_str(), "error_rate") {
                if error_rate.is_some() {
                    return Err(err_key(*i, "error_rate"));
                }
                error_rate = match parse_distribution(s, i) {
                    Ok(d) => Some(d),
                    Err(e) => {
                        return Err(e);
                    },
                };
            } else {
                match skip_value(s, i) {
                    Ok(()) => (),
                    Err(e) => {
                        return Err(e);
                    },
                }
            }
            if try_char(s, i, '}') {
                break ;
            }
            match expect_char(s, i, ',') {
                Ok(()) => (),
                Err(e) => {
                    return Err(e);
                },
            }
            if *i <= i0 {
                return Err(err_at(*i));
            }
        }
    }
    let latency = match latency {
        Some(d) => d,
        None => {
            return Err(err_key(*i, "latency_distribution"));
        },
    };
    let calls = match calls {
        Some(v) => v,
        None => Vec::new(),
    };
    let m = MethodConfig { calls, latency_distribution: latency, error_rate };
    proof {
        assert(m@.calls.len() == m.calls@.len());
        assert forall|a: int, b: int|
            0 <= a < m@.calls.len() && 0 <= b < m@.calls[a].len() implies plain_str(
            #[trigger] m@.calls[a][b],
        ) by {
            assert(m@.calls[a] == m.calls@[a].deep_view());
            assert(m@.calls[a][b] == m.calls@[a]@[b]@);
        }
    }
    Ok(m)
}

/// Read one service entry: where it listens and its methods.
fn parse_service(s: &Vec<char>, i: &mut usize) -> (r: Result<ServiceConfig, ParseError>)
    requires
        *old(i) <= s@.len(),
    ensures
        *old(i) <= *final(i) <= s@.len(),
        r matches Ok(sv) ==> service_wf(sv@),
{
    match expect_char(s, i, '{') {
        Ok(()) => (),
        Err(e) => {
            return Err(e);
        },
    }
    let mut ip: Option<String> = None;
    let mut port: Option<String> = None;
    let mut methods: Option<StrMap<MethodConfig>> = None;
    if !try_char(s, i, '}') {
        loop
            invariant
                *old(i) <= *i <= s@.len(),
                match ip {
                    Some(v) => plain_str(v@),
                    None => true,
                },
                match port {
                    Some(v) => plain_str(v@),
                    None => true,
                },
                match methods {
                    Some(m) => keys_distinct(m@) && forall|k: int|
                        0 <= k < m@.len() ==> plain_str((#[trigger] m@[k]).0) && method_wf(
                            m@[k].1,
                        ),
                    None => true,
                },
            decreases s@.len() - *i + 1,
        {
            let i0: usize = *i;
            let name = match parse_string(s, i) {
                Ok(n) => n,
                Err(e) => {
                    return Err(e);
                },
            };
            match expect_char(s, i, ':') {
                Ok(()) => (),
                Err(e) => {
                    return Err(e);
                },
            }
            if crate::text::str_eq(name.as_str(), "ip") {
                if ip.is_some() {
                    return Err(err_key(*i, "ip"));
                }
                ip = match parse_string(s, i) {
                    Ok(v) => Some(v),
                    Err(e) => {
                        return Err(e);
                    },
                };
            } else if crate::text::str_eq(name.as_str(), "port") {
                if port.is_some() {
                    return Err(err_key(*i, "port"));
                }
                port = match parse_string(s, i) {
                    Ok(v) => Some(v),
                    Err(e) => {
                        return Err(e);
                    },
                };
            } else if crate::text::str_eq(name.as_str(), "methods") {
                if methods.is_some() {
                    return Err(err_key(*i, "methods"));
                }
                methods = match parse_methods(s, i) {
                    Ok(m) => Some(m),
                    Err(e) => {
                        return Err(e);
                    },
                };
            } else {
                match skip_value(s, i) {
                    Ok(()) => (),
                    Err(e) => {
                        return Err(e);
                    },
                }
            }
            if try_char(s, i, '}') {
                break ;
            }
            match expect_char(s, i, ',') {
                Ok(()) => (),
                Err(e) => {
                    return Err(e);
                },
            }
            if *i <= i0 {
                return Err(err_at(*i));
            }
        }
    }
    let port = match port {
        Some(v) => v,
        None => {
            return Err(err_key(*i, "port"));
        },
    };
    let methods = match methods {
        Some(m) => m,
        None => {
            return Err(err_key(*i, "methods"));
        },
    };
    let ip = match ip {
        Some(v) => v,
        None => String::new(),
    };
    Ok(ServiceConfig { ip, port, methods })
}

/// Read the map of method name to method entry.
fn parse_methods(s: &Vec<char>, i: &mut usize) -> (r: Result<StrMap<MethodConfig>, ParseError>)
    requires
        *old(i) <= s@.len(),
    ensures
        *old(i) <= *final(i) <= s@.len(),
        r matches Ok(m) ==> keys_distinct(m@) && forall|k: int|
            0 <= k < m@.len() ==> plain_str((#[trigger] m@[k]).0) && method_wf(m@[k].1),
{
    match expect_char(s, i, '{') {
        Ok(()) => (),
        Err(e) => {
            return Err(e);
        },
    }
    let mut methods: StrMap<MethodConfig> = StrMap::new();
    if try_char(s, i, '}') {
        return Ok(methods);
    }
    loop
        invariant
            *old(i) <= *i <= s@.len(),
            keys_distinct(methods@),
            forall|k: int|
                0 <= k < methods@.len() ==> plain_str((#[trigger] methods@[k]).0) && method_wf(
                    methods@[k].1,
                ),
        decreases s@.len() - *i + 1,
    {
        let i0: usize = *i;
        let name = match parse_string(s, i) {
            Ok(n) => n,
            Err(e) => {
                return Err(e);
            },
        };
        if methods.contains_key(name.as_str()) {
            return Err(err_key(*i, name.as_str()));
        }
        match expect_char(s, i, ':') {
            Ok(()) => (),
            Err(e) => {
                return Err(e);
            },
        }
        let mc = match parse_method(s, i) {
            Ok(m) => m,
            Err(e) => {
                return Err(e);
            },
        };
        let ghost methods0 = methods@;
        let ghost namev = name@;
        methods.push(name, mc);
        proof {
            assert(forall|q: int| 0 <= q < methods0.len() ==> methods@[q] == methods0[q]);
            assert(methods@[methods@.len() - 1].0 == namev);
            assert forall|q1: int, q2: int| 0 <= q1 < q2 < methods@.len() implies methods@[q1].0
                != methods@[q2].0 by {
                if q2 == methods@.len() - 1 {
                    assert(!crate::strmap::map_has(methods0, namev));
                    assert(methods@[q1].0 == methods0[q1].0);
                }
            }
        }
        if try_char(s, i, '}') {
            return Ok(methods);
        }
        match expect_char(s, i, ',') {
            Ok(()) => (),
            Err(e) => {
                return Err(e);
            },
        }
        if *i <= i0 {
            return Err(err_at(*i));
        }
    }
}

/// Read the map of service name to service entry.
fn parse_services(s: &Vec<char>, i: &mut usize) -> (r: Result<StrMap<ServiceConfig>, ParseError>)
    requires
        *old(i) <= s@.len(),
    ensures
        *old(i) <= *final(i) <= s@.len(),
        r matches Ok(m) ==> keys_distinct(m@) && forall|k: int|
            0 <= k < m@.len() ==> plain_str((#[trigger] m@[k]).0) && service_wf(m@[k].1),
        ({
            let fc = first_content(s@, *old(i) as int);
            (fc + 1 < s@.len() && s@[fc] == '{' && s@[fc + 1] == '}') ==> (r matches Ok(m) && m@
                =~= Seq::<(Seq<char>, crate::model::ServiceV)>::empty() && *final(i) == fc + 2)
        }),
{
    match expect_char(s, i, '{') {
        Ok(()) => (),
        Err(e) => {
            return Err(e);
        },
    }
    let mut services: StrMap<ServiceConfig> = StrMap::new();
    if try_char(s, i, '}') {
        return Ok(services);
    }
    loop
        invariant
            *old(i) <= *i <= s@.len(),
            keys_distinct(services@),
            forall|k: int|
                0 <= k < services@.len() ==> plain_str((#[trigger] services@[k]).0) && service_wf(
                    services@[k].1,
                ),
            !({
                let fc = first_content(s@, *old(i) as int);
                fc + 1 < s@.len() && s@[fc] == '{' && s@[fc + 1] == '}'
            }),
        decreases s@.len() - *i + 1,
    {
        let i0: usize = *i;
        let name = match parse_string(s, i) {
            Ok(n) => n,
            Err(e) => {
                return Err(e);
            },
        };
        if services.contains_key(name.as_str()) {
            return Err(err_key(*i, name.as_str()));
        }
        match expect_char(s, i, ':') {
            Ok(()) => (),
            Err(e) => {
                return Err(e);
            },
        }
        let sc = match parse_service(s, i) {
            Ok(v) => v,
            Err(e) => {
                return Err(e);
            },
        };
        let ghost services0 = services@;
        let ghost namev = name@;
        services.push(name, sc);
        proof {
            assert(forall|q: int| 0 <= q < services0.len() ==> services@[q] == services0[q]);
            assert(services@[services@.len() - 1].0 == namev);
            assert forall|q1: int, q2: int| 0 <= q1 < q2 < services@.len() implies services@[q1].0
                != services@[q2].0 by {
                if q2 == services@.len() - 1 {
                    assert(!crate::strmap::map_has(services0, namev));
                    assert(services@[q1].0 == services0[q1].0);
                }
            }
        }
        if try_char(s, i, '}') {
            return Ok(services);
        }
        match expect_char(s, i, ',') {
            Ok(()) => (),
            Err(e) => {
                return Err(e);
            },
        }
        if *i <= i0 {
            return Err(err_at(*i));
        }
    }
}

/// Read one load entry point.
fn parse_entry_point(s: &Vec<char>, i: &mut usize) -> (r: Result<EntryPoint, ParseError>)
    requires
        *old(i) <= s@.len(),
    ensures
        *old(i) <= *final(i) <= s@.len(),
        r matches Ok(ep) ==> plain_str(ep@.service) && plain_str(ep@.method),
{
    match expect_char(s, i, '{') {
        Ok(()) => (),
        Err(e) => {
            return Err(e);
        },
    }
    let mut service: Option<String> = None;
    let mut method: Option<String> = None;
    let mut rps: Option<u32> = None;
    if !try_char(s, i, '}') {
        loop
            invariant
                *old(i) <= *i <= s@.len(),
                match service {
                    Some(v) => plain_str(v@),
                    None => true,
                },
                match method {
                    Some(v) => plain_str(v@),
                    None => true,
                },
            decreases s@.len() - *i + 1,
        {
            let i0: usize = *i;
            let name = match parse_string(s, i) {
                Ok(n) => n,
                Err(e) => {
                    return Err(e);
                },
            };
            match expect_char(s, i, ':') {
                Ok(()) => (),
                Err(e) => {
                    return Err(e);
                },
            }
            if crate::text::str_eq(name.as_str(), "service") {
                if service.is_some() {
                    return Err(err_key(*i, "service"));
                }
                service = match parse_string(s, i) {
                    Ok(v) => Some(v),
                    Err(e) => {
                        return Err(e);
                    },
                };
            } else if crate::text::str_eq(name.as_str(), "method") {
                if method.is_some() {
                    return Err(err_key(*i, "method"));
                }
                method = match parse_string(s, i) {
                    Ok(v) => Some(v),
                    Err(e) => {
                        return Err(e);
                    },
                };
            } else if crate::text::str_eq(name.as_str(), "requests_per_second") {
                if rps.is_some() {
                    return Err(err_key(*i, "requests_per_second"));
                }
                rps = match parse_u32(s, i) {
                    Ok(v) => Some(v),
                    Err(e) => {
                        return Err(e);
                    },
                };
            } else {
                match skip_value(s, i) {
                    Ok(()) => (),
                    Err(e) => {
                        return Err(e);
                    },
                }
            }
            if try_char(s, i, '}') {
                break ;
            }
            match expect_char(s, i, ',') {
                Ok(()) => (),
                Err(e) => {
                    return Err(e);
                },
            }
            if *i <= i0 {
                return Err(err_at(*i));
            }
        }
    }
    match (service, method, rps) {
        (Some(service), Some(method), Some(requests_per_second)) => Ok(
            EntryPoint { service, method, requests_per_second },
        ),
        _ => Err(err_key(*i, "entry_points")),
    }
}

/// Read the load section: its list of entry points.
fn parse_load(s: &Vec<char>, i: &mut usize) -> (r: Result<LoadConfig, ParseError>)
    requires
        *old(i) <= s@.len(),
    ensures
        *old(i) <= *final(i) <= s@.len(),
        r matches Ok(l) ==> forall|q: int|
            0 <= q < l@.entry_points.len() ==> plain_str(
                (#[trigger] l@.entry_points[q]).service,
            ) && plain_str(l@.entry_points[q].method),
{
    match expect_char(s, i, '{') {
        Ok(()) => (),
        Err(e) => {
            return Err(e);
        },
    }
    let mut entry_points: Option<Vec<EntryPoint>> = None;
    if !try_char(s, i, '}') {
        loop
            invariant
                *old(i) <= *i <= s@.len(),
                match entry_points {
                    Some(v) => forall|q: int|
                        0 <= q < v@.len() ==> plain_str((#[trigger] v@[q])@.service) && plain_str(
                            v@[q]@.method,
                        ),
                    None => true,
                },
            decreases s@.len() - *i + 1,
        {
            let i0: usize = *i;
            let name = match parse_string(s, i) {
                Ok(n) => n,
                Err(e) => {
                    return Err(e);
                },
            };
            match expect_char(s, i, ':') {
                Ok(()) => (),
                Err(e) => {
                    return Err(e);
                },
            }
            if crate::text::str_eq(name.as_str(), "entry_points") {
                if entry_points.is_some() {
                    return Err(err_key(*i, "entry_points"));
                }
                entry_points = match parse_entry_points(s, i) {
                    Ok(v) => Some(v),
                    Err(e) => {
                        return Err(e);
                    },
                };
            } else {
                match skip_value(s, i) {
                    Ok(()) => (),
                    Err(e) => {
                        return Err(e);
                    },
                }
            }
            if try_char(s, i, '}') {
                break ;
            }
            match expect_char(s, i, ',') {
                Ok(()) => (),
                Err(e) => {
                    return Err(e);
                },
            }
            if *i <= i0 {
                return Err(err_at(*i));
            }
        }
    }
    let entry_points = match entry_points {
        Some(v) => v,
        None => {
            return Err(err_key(*i, "entry_points"));
        },
    };
    let l = LoadConfig { entry_points };
    proof {
        assert(l@.entry_points.len() == l.entry_points@.len());
        assert forall|q: int| 0 <= q < l@.entry_points.len() implies plain_str(
            (#[trigger] l@.entry_points[q]).service,
        ) && plain_str(l@.entry_points[q].method) by {
            assert(l@.entry_points[q] == l.entry_points@[q]@);
        }
    }
    Ok(l)
}

/// Read the array of load entry points.
fn parse_entry_points(s: &Vec<char>, i: &mut usize) -> (r: Result<Vec<EntryPoint>, ParseError>)
    requires
        *old(i) <= s@.len(),
    ensures
        *old(i) <= *final(i) <= s@.len(),
        r matches Ok(v) ==> forall|q: int|
            0 <= q < v@.len() ==> plain_str((#[trigger] v@[q])@.service) && plain_str(
                v@[q]@.method,
            ),
{
    match expect_char(s, i, '[') {
        Ok(()) => (),
        Err(e) => {
            return Err(e);
        },
    }
    let mut eps: Vec<EntryPoint> = Vec::new();
    if try_char(s, i, ']') {
        return Ok(eps);
    }
    loop
        invariant
            *old(i) <= *i <= s@.len(),
            forall|q: int|
                0 <= q < eps@.len() ==> plain_str((#[trigger] eps@[q])@.service) && plain_str(
                    eps@[q]@.method,
                ),
        decreases s@.len() - *i + 1,
    {
        let i0: usize = *i;
        let ep = match parse_entry_point(s, i) {
            Ok(v) => v,
            Err(e) => {
                return Err(e);
            },
        };
        let ghost eps0 = eps@;
        eps.push(ep);
        proof {
            assert(forall|q: int| 0 <= q < eps0.len() ==> eps@[q] == eps0[q]);
        }
        if try_char(s, i, ']') {
            return Ok(eps);
        }
        match expect_char(s, i, ',') {
            Ok(()) => (),
            Err(e) => {
                return Err(e);
            },
        }
        if *i <= i0 {
            return Err(err_at(*i));
        }
    }
}

/// Read a whole topology document from its characters.
fn parse_config_chars(s: &Vec<char>) -> (r: Result<SimulatorConfig, ParseError>)
    ensures
        r matches Ok(c) ==> parsed_wf(c@),
        ({
            let fc = first_content(s@, 0);
            &&& ((fc >= s@.len() || s@[fc] != '{') ==> r is Err)
            &&& (r is Ok ==> fc < s@.len() && s@[fc] == '{')
        }),
        s@ == "{\"services\":{}}"@ ==> (r matches Ok(c) && c@.services.len() == 0 && c@.load
            is None),
{
    proof {
        reveal_strlit("{\"services\":{}}");
    }
    let mut i: usize = 0;
    match expect_char(s, &mut i, '{') {
        Ok(()) => (),
        Err(e) => {
            return Err(e);
        },
    }
    let mut services: Option<StrMap<ServiceConfig>> = None;
    let mut load: Option<LoadConfig> = None;
    if !try_char(s, &mut i, '}') {
        loop
            invariant_except_break
                s@ == "{\"services\":{}}"@ ==> (i == 1 && services is None && load is None),
            invariant
                i <= s@.len(),
                match services {
                    Some(m) => keys_distinct(m@) && forall|k: int|
                        0 <= k < m@.len() ==> plain_str((#[trigger] m@[k]).0) && service_wf(
                            m@[k].1,
                        ),
                    None => true,
                },
                match load {
                    Some(l) => forall|q: int|
                        0 <= q < l@.entry_points.len() ==> plain_str(
                            (#[trigger] l@.entry_points[q]).service,
                        ) && plain_str(l@.entry_points[q].method),
                    None => true,
                },
            ensures
                s@ == "{\"services\":{}}"@ ==> (i == 15 && (services matches Some(m) && m@
                    =~= Seq::<(Seq<char>, crate::model::ServiceV)>::empty()) && load is None),
            decreases s@.len() - i + 1,
        {
            let i0: usize = i;
            proof {
                if s@ == "{\"services\":{}}"@ {
                    reveal_strlit("{\"services\":{}}");
                    reveal_strlit("services");
                    reveal_with_fuel(first_quote, 12);
                    assert(first_content(s@, 1) == 1);
                    assert(first_quote(s@, 2) == 10);
                    assert(forall|k: int| 1 < k < 10 ==> plain_char(#[trigger] s@[k]));
                }
            }
            let name = match parse_string(s, &mut i) {
                Ok(n) => n,
                Err(e) => {
                    return Err(e);
                },
            };
            proof {
                if s@ == "{\"services\":{}}"@ {
                    reveal_strlit("{\"services\":{}}");
                    reveal_strlit("services");
                    assert(name@ =~= "services"@);
                    assert(i == 11);
                    assert(first_content(s@, 11) == 11);
                }
            }
            match expect_char(s, &mut i, ':') {
                Ok(()) => (),
                Err(e) => {
                    return Err(e);
                },
            }
            if crate::text::str_eq(name.as_str(), "services") {
                if services.is_some() {
                    return Err(err_key(i, "services"));
                }
                proof {
                    if s@ == "{\"services\":{}}"@ {
                        reveal_strlit("{\"services\":{}}");
                        assert(i == 12);
                        assert(first_content(s@, 12) == 12);
                    }
                }
                services = match parse_services(s, &mut i) {
                    Ok(m) => Some(m),
                    Err(e) => {
                        return Err(e);
                    },
                };
                proof {
                    if s@ == "{\"services\":{}}"@ {
                        reveal_strlit("{\"services\":{}}");
                        assert(i == 14);
                        assert(first_content(s@, 14) == 14);
                    }
                }
            } else if crate::text::str_eq(name.as_str(), "load") {
                if load.is_some() {
                    return Err(err_key(i, "load"));
                }
                load = match parse_load(s, &mut i) {
                    Ok(l) => Some(l),
                    Err(e) => {
                        return Err(e);
                    },
                };
            } else {
                match skip_value(s, &mut i) {
                    Ok(()) => (),
                    Err(e) => {
                        return Err(e);
                    },
                }
            }
            if try_char(s, &mut i, '}') {
                break ;
            }
            match expect_char(s, &mut i, ',') {
                Ok(()) => (),
                Err(e) => {
                    return Err(e);
                },
            }
            if i <= i0 {
                return Err(err_at(i));
            }
        }
    }
    skip_ws(s, &mut i);
    if i < s.len() {
        return Err(err_at(i));
    }
    let services = match services {
        Some(m) => m,
        None => {
            return Err(err_key(i, "services"));
        },
    };
    Ok(SimulatorConfig { services, load })
}

/// Parse a JSON string into a `SimulatorConfig`.
///
/// Every accepted configuration is well-formed: plain strings
/// throughout and distinct keys at every level of the document.  A
/// document is accepted only when its first non-whitespace character
/// opens an object, and the minimal document — an object holding an
/// empty `services` map — is accepted exactly.  The parser's full
/// reading of richer texts is not stated here; the round trip against
/// [`serialise_config`], whose output is exact, is exercised by the
/// run-time suite rather than proved.
pub fn parse_json_str(content: &str) -> (r: Result<SimulatorConfig, ParseError>)
    ensures
        r matches Ok(c) ==> parsed_wf(c@),
        ({
            let fc = first_content(content@, 0);
            &&& ((fc >= content@.len() || content@[fc] != '{') ==> r is Err)
            &&& (r is Ok ==> fc < content@.len() && content@[fc] == '{')
        }),
        content@ == "{\"services\":{}}"@ ==> (r matches Ok(c) && c@.services.len() == 0
            && c@.load is None),
{
    let chars = str_chars(content);
    parse_config_chars(&chars)
}

/// A quoted string.
pub open spec fn ser_string(s: Seq<char>) -> Seq<char> {
    seq!['"'] + s + seq!['"']
}

/// The six decimal digits of a fractional part, most significant first.
pub open spec fn pad6(fr: int) -> Seq<char> {
    seq![
        crate::text::spec_digit_char((fr / 100_000) % 10),
        crate::text::spec_digit_char((fr / 10_000) % 10),
        crate::text::spec_digit_char((fr / 1_000) % 10),
        crate::text::spec_digit_char((fr / 100) % 10),
        crate::text::spec_digit_char((fr / 10) % 10),
        crate::text::spec_digit_char(fr % 10),
    ]
}

/// Trailing zero digits removed.
pub open spec fn trim_zeros(s: Seq<char>) -> Seq<char>
    decreases s.len(),
{
    if s.len() > 0 && s.last() == '0' {
        trim_zeros(s.drop_last())
    } else {
        s
    }
}

proof fn lemma_trim_take(s: Seq<char>, k: int)
    requires
        0 <= k <= s.len(),
        forall|x: int| k <= x < s.len() ==> s[x] == '0',
        k > 0 ==> s[k - 1] != '0',
    ensures
        trim_zeros(s) == s.take(k),
    decreases s.len(),
{
    if s.len() == k {
        assert(s.take(k) =~= s);
    } else {
        assert(s.last() == '0');
        assert(forall|x: int| k <= x < s.drop_last().len() ==> s.drop_last()[x] == '0');
        if k > 0 {
            assert(s.drop_last()[k - 1] == s[k - 1]);
        }
        lemma_trim_take(s.drop_last(), k);
        assert(s.drop_last().take(k) =~= s.take(k));
    }
}

/// A fixed-point micro-unit value written as a decimal, with the
/// fractional part's trailing zeros removed and omitted entirely when
/// it is zero.
pub open spec fn ser_num(m: int) -> Seq<char> {
    if m < 0 {
        seq!['-'] + ser_unum(-m)
    } else {
        ser_unum(m)
    }
}

/// A non-negative micro-unit value written as a decimal.
pub open spec fn ser_unum(m: int) -> Seq<char> {
    let whole = m / 1_000_000;
    let fr = m % 1_000_000;
    if fr == 0 {
        crate::text::spec_decimal(whole)
    } else {
        crate::text::spec_decimal(whole) + seq!['.'] + trim_zeros(pad6(fr))
    }
}

/// Append the characters of a literal piece.
pub(crate) fn push_lit(out: &mut Vec<char>, piece: &str)
    ensures
        final(out)@ == old(out)@ + piece@,
{
    let n: usize = piece.unicode_len();
    for k in 0..n
        invariant
            n == piece@.len(),
            out@ =~= old(out)@ + piece@.take(k as int),
    {
        out.push(piece.get_char(k));
        assert(out@ =~= old(out)@ + piece@.take(k + 1));
    }
    assert(out@ =~= old(out)@ + piece@);
}

/// Append a quoted string.
pub(crate) fn push_string(out: &mut Vec<char>, s: &str)
    ensures
        final(out)@ == old(out)@ + ser_string(s@),
{
    out.push('"');
    push_lit(out, s);
    out.push('"');
    assert(out@ =~= old(out)@ + ser_string(s@));
}

/// Append a fixed-point micro-unit value.
pub(crate) fn push_num(out: &mut Vec<char>, m: i64)
    ensures
        final(out)@ == old(out)@ + ser_num(m as int),
{
    let um: u64 = if m < 0 {
        out.push('-');
        ((-(m + 1)) as u64) + 1
    } else {
        m as u64
    };
    let ghost mid = out@;
    let whole: u64 = um / 1_000_000;
    let fr: u64 = um % 1_000_000;
    crate::text::push_decimal(whole, out);
    if fr > 0 {
        out.push('.');
        let mut digs: Vec<char> = Vec::new();
        digs.push(digit_of(((fr / 100_000) % 10) as u64));
        digs.push(digit_of(((fr / 10_000) % 10) as u64));
        digs.push(digit_of(((fr / 1_000) % 10) as u64));
        digs.push(digit_of(((fr / 100) % 10) as u64));
        digs.push(digit_of(((fr / 10) % 10) as u64));
        digs.push(digit_of((fr % 10) as u64));
        proof {
            assert(digs@ =~= pad6(fr as int));
        }
        let mut k: usize = 6;
        while k > 1 && digs[k - 1] == '0'
            invariant
                digs@ == pad6(fr as int),
                1 <= k <= 6,
                forall|x: int| k <= x < 6 ==> digs@[x] == '0',
            decreases k,
        {
            k = k - 1;
        }
        proof {
            if k > 1 {
                lemma_trim_take(digs@, k as int);
            } else {
                if digs@[0] == '0' {
                    assert(fr as int == (fr as int % 10) + 10 * ((fr as int / 10) % 10) + 100 * ((
                    fr as int / 100) % 10) + 1_000 * ((fr as int / 1_000) % 10) + 10_000 * ((
                    fr as int / 10_000) % 10) + 100_000 * ((fr as int / 100_000) % 10)) by (nonlinear_arith)
                        requires
                            0 <= fr < 1_000_000,
                    ;
                    assert(forall|x: int| 0 <= x < 6 ==> digs@[x] == '0');
                    assert((fr as int / 100_000) % 10 == 0 && (fr as int / 10_000) % 10 == 0 && (
                    fr as int / 1_000) % 10 == 0 && (fr as int / 100) % 10 == 0 && (fr as int / 10)
                        % 10 == 0 && fr as int % 10 == 0) by {
                        assert(forall|d: int|
                            crate::text::spec_digit_char(d) == '0' && 0 <= d <= 9 ==> d == 0);
                    }
                    assert(false);
                }
                lemma_trim_take(digs@, 1);
            }
        }
        let ghost out1 = out@;
        for x in 0..k
            invariant
                k <= digs@.len(),
                digs@ == pad6(fr as int),
                out@ =~= out1 + digs@.take(x as int),
        {
            out.push(digs[x]);
            assert(out@ =~= out1 + digs@.take(x + 1));
        }
        proof {
            assert(out@ =~= mid + (crate::text::spec_decimal(whole as int) + seq!['.']
                + trim_zeros(pad6(fr as int))));
        }
    }
    proof {
        if m < 0 {
            assert(mid =~= old(out)@ + seq!['-']);
            assert(out@ =~= old(out)@ + ser_num(m as int));
        } else {
            assert(out@ =~= old(out)@ + ser_num(m as int));
        }
    }
}

fn digit_of(d: u64) -> (c: char)
    requires
        d < 10,
    ensures
        c == crate::text::spec_digit_char(d as int),
{
    if d == 0 {
        '0'
    } else if d == 1 {
        '1'
    } else if d == 2 {
        '2'
    } else if d == 3 {
        '3'
    } else if d == 4 {
        '4'
    } else if d == 5 {
        '5'
    } else if d == 6 {
        '6'
    } else if d == 7 {
        '7'
    } else if d == 8 {
        '8'
    } else {
        '9'
    }
}

/// The parameters object's members from position `j` on, comma-led
/// except the first.
pub open spec fn ser_params_from(params: Seq<(Seq<char>, i64)>, j: int) -> Seq<char>
    decreases params.len() - j,
{
    if j < 0 || j >= params.len() {
        Seq::empty()
    } else {
        (if j > 0 {
            seq![',']
        } else {
            Seq::empty()
        }) + ser_string(params[j].0) + seq![':'] + ser_num(params[j].1 as int) + ser_params_from(
            params,
            j + 1,
        )
    }
}

/// One distribution object.
pub open spec fn ser_dist(d: crate::model::DistributionV) -> Seq<char> {
    "{\"type\":"@ + ser_string(d.kind) + ",\"parameters\":{"@ + ser_params_from(d.params, 0)
        + "}}"@
}

/// One stage's call targets from position `j` on.
pub open spec fn ser_row_from(row: Seq<Seq<char>>, j: int) -> Seq<char>
    decreases row.len() - j,
{
    if j < 0 || j >= row.len() {
        Seq::empty()
    } else {
        (if j > 0 {
            seq![',']
        } else {
            Seq::empty()
        }) + ser_string(row[j]) + ser_row_from(row, j + 1)
    }
}

/// The stages of a call plan from position `j` on.
pub open spec fn ser_calls_from(calls: Seq<Seq<Seq<char>>>, j: int) -> Seq<char>
    decreases calls.len() - j,
{
    if j < 0 || j >= calls.len() {
        Seq::empty()
    } else {
        (if j > 0 {
            seq![',']
        } else {
            Seq::empty()
        }) + seq!['['] + ser_row_from(calls[j], 0) + seq![']'] + ser_calls_from(calls, j + 1)
    }
}

/// One method object.
pub open spec fn ser_method(m: crate::model::MethodV) -> Seq<char> {
    "{\"calls\":["@ + ser_calls_from(m.calls, 0) + "],\"latency_distribution\":"@ + ser_dist(
        m.latency,
    ) + (match m.error {
        Some(d) => ",\"error_rate\":"@ + ser_dist(d),
        None => Seq::empty(),
    }) + "}"@
}

/// The methods object's members from position `j` on.
pub open spec fn ser_methods_from(methods: Seq<(Seq<char>, crate::model::MethodV)>, j: int) -> Seq<
    char,
>
    decreases methods.len() - j,
{
    if j < 0 || j >= methods.len() {
        Seq::empty()
    } else {
        (if j > 0 {
            seq![',']
        } else {
            Seq::empty()
        }) + ser_string(methods[j].0) + seq![':'] + ser_method(methods[j].1) + ser_methods_from(
            methods,
            j + 1,
        )
    }
}

/// One service object.
pub open spec fn ser_service(sv: crate::model::ServiceV) -> Seq<char> {
    "{\"ip\":"@ + ser_string(sv.ip) + ",\"port\":"@ + ser_string(sv.port) + ",\"methods\":{"@
        + ser_methods_from(sv.methods, 0) + "}}"@
}

/// The services object's members from position `j` on.
pub open spec fn ser_services_from(
    services: Seq<(Seq<char>, crate::model::ServiceV)>,
    j: int,
) -> Seq<char>
    decreases services.len() - j,
{
    if j < 0 || j >= services.len() {
        Seq::empty()
    } else {
        (if j > 0 {
            seq![',']
        } else {
            Seq::empty()
        }) + ser_string(services[j].0) + seq![':'] + ser_service(services[j].1)
            + ser_services_from(services, j + 1)
    }
}

/// One load entry point object.
pub open spec fn ser_entry(ep: crate::model::EntryPointV) -> Seq<char> {
    "{\"service\":"@ + ser_string(ep.service) + ",\"method\":"@ + ser_string(ep.method)
        + ",\"requests_per_second\":"@ + crate::text::spec_decimal(
        ep.requests_per_second as int,
    ) + "}"@
}

/// The entry point list from position `j` on.
pub open spec fn ser_entries_from(eps: Seq<crate::model::EntryPointV>, j: int) -> Seq<char>
    decreases eps.len() - j,
{
    if j < 0 || j >= eps.len() {
        Seq::empty()
    } else {
        (if j > 0 {
            seq![',']
        } else {
            Seq::empty()
        }) + ser_entry(eps[j]) + ser_entries_from(eps, j + 1)
    }
}

/// The load section object.
pub open spec fn ser_load(l: crate::model::LoadV) -> Seq<char> {
    "{\"entry_points\":["@ + ser_entries_from(l.entry_points, 0) + "]}"@
}

/// The whole topology document, compactly.
pub open spec fn ser_config(c: ConfigV) -> Seq<char> {
    "{\"services\":{"@ + ser_services_from(c.services, 0) + "}"@ + (match c.load {
        Some(l) => ",\"load\":"@ + ser_load(l),
        None => Seq::empty(),
    }) + "}"@
}

/// Append one distribution object.
pub(crate) fn push_dist(out: &mut Vec<char>, d: &Distribution)
    ensures
        final(out)@ == old(out)@ + ser_dist(d@),
{
    push_lit(out, "{\"type\":");
    push_string(out, d.distribution_type.as_str());
    push_lit(out, ",\"parameters\":{");
    let ghost base = out@;
    let n: usize = d.parameters.entries.len();
    for j in 0..n
        invariant
            n == d@.params.len(),
            out@ + ser_params_from(d@.params, j as int) =~= base + ser_params_from(d@.params, 0),
    {
        let ghost out0 = out@;
        if j > 0 {
            out.push(',');
        }
        push_string(out, d.parameters.entries[j].0.as_str());
        out.push(':');
        push_num(out, d.parameters.entries[j].1);
        proof {
            let p = d@.params[j as int];
            assert(p.0 == d.parameters.entries@[j as int].0@);
            assert(p.1 == d.parameters.entries@[j as int].1);
            let sep: Seq<char> = if j > 0 {
                seq![',']
            } else {
                Seq::<char>::empty()
            };
            assert(out@ =~= out0 + sep + ser_string(p.0) + seq![':'] + ser_num(p.1 as int));
            assert(out@ + ser_params_from(d@.params, j + 1) =~= out0 + ser_params_from(
                d@.params,
                j as int,
            ));
        }
    }
    proof {
        assert(ser_params_from(d@.params, n as int) =~= Seq::<char>::empty());
        assert(out@ =~= base + ser_params_from(d@.params, 0));
    }
    push_lit(out, "}}");
    proof {
        assert(out@ =~= old(out)@ + ser_dist(d@));
    }
}

/// Append one method object.
pub(crate) fn push_method(out: &mut Vec<char>, m: &MethodConfig)
    ensures
        final(out)@ == old(out)@ + ser_method(m@),
{
    push_lit(out, "{\"calls\":[");
    let ghost base = out@;
    let na: usize = m.calls.len();
    for a in 0..na
        invariant
            na == m@.calls.len(),
            out@ + ser_calls_from(m@.calls, a as int) =~= base + ser_calls_from(m@.calls, 0),
    {
        let ghost out0 = out@;
        if a > 0 {
            out.push(',');
        }
        out.push('[');
        let ghost rowbase = out@;
        let nb: usize = m.calls[a].len();
        for b in 0..nb
            invariant
                na == m@.calls.len(),
                a < na,
                nb == m@.calls[a as int].len(),
                out@ + ser_row_from(m@.calls[a as int], b as int) =~= rowbase + ser_row_from(
                    m@.calls[a as int],
                    0,
                ),
        {
            let ghost out1 = out@;
            if b > 0 {
                out.push(',');
            }
            push_string(out, m.calls[a][b].as_str());
            proof {
                let t = m@.calls[a as int][b as int];
                assert(t == m.calls@[a as int]@[b as int]@);
                let sep: Seq<char> = if b > 0 {
                    seq![',']
                } else {
                    Seq::<char>::empty()
                };
                assert(out@ =~= out1 + sep + ser_string(t));
                assert(out@ + ser_row_from(m@.calls[a as int], b + 1) =~= out1 + ser_row_from(
                    m@.calls[a as int],
                    b as int,
                ));
            }
        }
        out.push(']');
        proof {
            assert(ser_row_from(m@.calls[a as int], nb as int) =~= Seq::<char>::empty());
            let sep: Seq<char> = if a > 0 {
                seq![',']
            } else {
                Seq::<char>::empty()
            };
            assert(out@ =~= out0 + sep + seq!['['] + ser_row_from(m@.calls[a as int], 0)
                + seq![']']);
            assert(out@ + ser_calls_from(m@.calls, a + 1) =~= out0 + ser_calls_from(
                m@.calls,
                a as int,
            ));
        }
    }
    proof {
        assert(ser_calls_from(m@.calls, na as int) =~= Seq::<char>::empty());
        assert(out@ =~= base + ser_calls_from(m@.calls, 0));
    }
    push_lit(out, "],\"latency_distribution\":");
    push_dist(out, &m.latency_distribution);
    match &m.error_rate {
        Some(d) => {
            push_lit(out, ",\"error_rate\":");
            push_dist(out, d);
        },
        None => (),
    }
    push_lit(out, "}");
    proof {
        assert(out@ =~= old(out)@ + ser_method(m@));
    }
}

/// Append one service object.
#[verifier::rlimit(60)]
fn push_service(out: &mut Vec<char>, sv: &ServiceConfig)
    ensures
        final(out)@ == old(out)@ + ser_service(sv@),
{
    push_lit(out, "{\"ip\":");
    push_string(out, sv.ip.as_str());
    push_lit(out, ",\"port\":");
    push_string(out, sv.port.as_str());
    push_lit(out, ",\"methods\":{");
    let ghost base = out@;
    let n: usize = sv.methods.entries.len();
    for k in 0..n
        invariant
            n == sv@.methods.len(),
            out@ + ser_methods_from(sv@.methods, k as int) =~= base + ser_methods_from(
                sv@.methods,
                0,
            ),
    {
        let ghost out0 = out@;
        if k > 0 {
            out.push(',');
        }
        push_string(out, sv.methods.entries[k].0.as_str());
        out.push(':');
        push_method(out, &sv.methods.entries[k].1);
        proof {
            let p = sv@.methods[k as int];
            assert(p.0 == sv.methods.entries@[k as int].0@);
            assert(p.1 == sv.methods.entries@[k as int].1@);
            let sep: Seq<char> = if k > 0 {
                seq![',']
            } else {
                Seq::<char>::empty()
            };
            assert(out@ =~= out0 + sep + ser_string(p.0) + seq![':'] + ser_method(p.1));
            assert(out@ + ser_methods_from(sv@.methods, k + 1) =~= out0 + ser_methods_from(
                sv@.methods,
                k as int,
            ));
        }
    }
    proof {
        assert(ser_methods_from(sv@.methods, n as int) =~= Seq::<char>::empty());
        assert(out@ =~= base + ser_methods_from(sv@.methods, 0));
    }
    push_lit(out, "}}");
    proof {
        assert(out@ =~= old(out)@ + ser_service(sv@));
    }
}

/// Append one load entry point object.
fn push_entry(out: &mut Vec<char>, ep: &EntryPoint)
    ensures
        final(out)@ == old(out)@ + ser_entry(ep@),
{
    push_lit(out, "{\"service\":");
    push_string(out, ep.service.as_str());
    push_lit(out, ",\"method\":");
    push_string(out, ep.method.as_str());
    push_lit(out, ",\"requests_per_second\":");
    crate::text::push_decimal(ep.requests_per_second as u64, out);
    push_lit(out, "}");
    proof {
        assert(out@ =~= old(out)@ + ser_entry(ep@));
    }
}

/// Append the load section.
fn push_load(out: &mut Vec<char>, l: &LoadConfig)
    ensures
        final(out)@ == old(out)@ + ser_load(l@),
{
    push_lit(out, "{\"entry_points\":[");
    let ghost base = out@;
    let n: usize = l.entry_points.len();
    for q in 0..n
        invariant
            n == l@.entry_points.len(),
            out@ + ser_entries_from(l@.entry_points, q as int) =~= base + ser_entries_from(
                l@.entry_points,
                0,
            ),
    {
        let ghost out0 = out@;
        if q > 0 {
            out.push(',');
        }
        push_entry(out, &l.entry_points[q]);
        proof {
            let ep = l@.entry_points[q as int];
            assert(ep == l.entry_points@[q as int]@);
            let sep: Seq<char> = if q > 0 {
                seq![',']
            } else {
                Seq::<char>::empty()
            };
            assert(out@ =~= out0 + sep + ser_entry(ep));
            assert(out@ + ser_entries_from(l@.entry_points, q + 1) =~= out0 + ser_entries_from(
                l@.entry_points,
                q as int,
            ));
        }
    }
    proof {
        assert(ser_entries_from(l@.entry_points, n as int) =~= Seq::<char>::empty());
        assert(out@ =~= base + ser_entries_from(l@.entry_points, 0));
    }
    push_lit(out, "]}");
    proof {
        assert(out@ =~= old(out)@ + ser_load(l@));
    }
}

/// Write a configuration as a compact JSON document.
///
/// The output is exactly [`ser_config`] of the configuration's image.
#[verifier::rlimit(60)]
pub fn serialise_config(config: &SimulatorConfig) -> (r: String)
    ensures
        r@ == ser_config(config@),
{
    let mut out: Vec<char> = Vec::new();
    push_lit(&mut out, "{\"services\":{");
    let ghost base = out@;
    let n: usize = config.services.entries.len();
    for k in 0..n
        invariant
            n == config@.services.len(),
            out@ + ser_services_from(config@.services, k as int) =~= base + ser_services_from(
                config@.services,
                0,
            ),
    {
        let ghost out0 = out@;
        if k > 0 {
            out.push(',');
        }
        push_string(&mut out, config.services.entries[k].0.as_str());
        out.push(':');
        push_service(&mut out, &config.services.entries[k].1);
        proof {
            let p = config@.services[k as int];
            assert(p.0 == config.services.entries@[k as int].0@);
            assert(p.1 == config.services.entries@[k as int].1@);
            let sep: Seq<char> = if k > 0 {
                seq![',']
            } else {
                Seq::<char>::empty()
            };
            assert(out@ =~= out0 + sep + ser_string(p.0) + seq![':'] + ser_service(p.1));
            assert(out@ + ser_services_from(config@.services, k + 1) =~= out0 + ser_services_from(
                config@.services,
                k as int,
            ));
        }
    }
    proof {
        assert(ser_services_from(config@.services, n as int) =~= Seq::<char>::empty());
        assert(out@ =~= base + ser_services_from(config@.services, 0));
    }
    push_lit(&mut out, "}");
    match &config.load {
        Some(l) => {
            push_lit(&mut out, ",\"load\":");
            push_load(&mut out, l);
        },
        None => (),
    }
    push_lit(&mut out, "}");
    proof {
        assert(out@ =~= ser_config(config@));
    }
    crate::text::string_from_chars(&out)
}

} // verus!
